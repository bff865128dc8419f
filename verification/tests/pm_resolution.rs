use vite_plus::pm::{
    apply_manager_env, dialect_for_manager, get_npm_package_metadata_url, get_npm_package_tgz_url,
    get_npm_package_version_url, npm_registry, parse_ci_args, parse_package_manager,
    parse_positive_usize, parse_prune_args, resolve_ci, resolve_prune, ArgError, CiArgs,
    CommandBuilder, CommandResolution, Dialect, DiagnosticKind, PackageManagerType, PmError,
    PruneArgs, Resolution, ResolvedCommand,
};

fn npm(version: &str) -> Dialect {
    dialect_for_manager(PackageManagerType::Npm, version).unwrap()
}
fn pnpm(version: &str) -> Dialect {
    dialect_for_manager(PackageManagerType::Pnpm, version).unwrap()
}
fn yarn(version: &str) -> Dialect {
    dialect_for_manager(PackageManagerType::Yarn, version).unwrap()
}
fn bun(version: &str) -> Dialect {
    dialect_for_manager(PackageManagerType::Bun, version).unwrap()
}

trait Resolvable {
    fn resolve_with(self, dialect: &Dialect) -> Resolution;
}
impl Resolvable for CiArgs {
    fn resolve_with(self, dialect: &Dialect) -> Resolution {
        resolve_ci(dialect, self)
    }
}
impl Resolvable for PruneArgs {
    fn resolve_with(self, dialect: &Dialect) -> Resolution {
        resolve_prune(dialect, self)
    }
}
fn resolve<A: Resolvable>(dialect: &Dialect, args: A) -> Resolution {
    args.resolve_with(dialect)
}

fn expect_run(outcome: CommandResolution) -> ResolvedCommand {
    match outcome {
        CommandResolution::Run(command) => command,
        other => panic!("expected a command, got {other:?}"),
    }
}

fn strings(args: &[&str]) -> Vec<String> {
    args.iter().map(|a| a.to_string()).collect()
}

fn resolved_args(dialect: &Dialect, args: CiArgs) -> Vec<String> {
    let resolution = resolve(dialect, args);
    assert!(resolution.diagnostics.is_empty());
    expect_run(resolution.outcome).args
}

// ---- ci ----

#[test]
fn test_parser_accepts_pass_through_args() {
    let args = parse_ci_args(&strings(&["--", "--ignore-scripts"])).unwrap();
    assert_eq!(args.pass_through_args, vec!["--ignore-scripts".to_string()]);
}

#[test]
fn test_npm_keeps_native_ci() {
    assert_eq!(resolved_args(&npm("11.0.0"), CiArgs::default()), vec!["ci"]);
}

#[test]
fn test_pnpm_uses_frozen_lockfile_install() {
    assert_eq!(resolved_args(&pnpm("11.0.0"), CiArgs::default()), vec!["install", "--frozen-lockfile"]);
}

#[test]
fn test_bun_uses_frozen_lockfile_install() {
    assert_eq!(resolved_args(&bun("1.3.11"), CiArgs::default()), vec!["install", "--frozen-lockfile"]);
}

#[test]
fn test_yarn_classic_uses_frozen_lockfile_install() {
    assert_eq!(resolved_args(&yarn("1.22.22"), CiArgs::default()), vec!["install", "--frozen-lockfile"]);
}

#[test]
fn test_yarn_berry_uses_immutable_install() {
    assert_eq!(resolved_args(&yarn("4.0.0"), CiArgs::default()), vec!["install", "--immutable"]);
}

#[test]
fn test_pass_through_args_are_appended() {
    let args = CiArgs { pass_through_args: vec!["--ignore-scripts".to_string()] };
    assert_eq!(
        resolved_args(&pnpm("11.0.0"), args.clone()),
        vec!["install", "--frozen-lockfile", "--ignore-scripts"]
    );
    assert_eq!(resolved_args(&npm("11.0.0"), args), vec!["ci", "--ignore-scripts"]);
}

#[test]
fn ci_parser_rejects_arguments_before_the_separator() {
    assert_eq!(
        parse_ci_args(&strings(&["--ignore-scripts"])),
        Err(ArgError::UnexpectedArgument("--ignore-scripts".to_string()))
    );
    assert_eq!(parse_ci_args(&[]).unwrap(), CiArgs::default());
}

// ---- prune ----

#[test]
fn test_pnpm_prune() {
    let command = expect_run(resolve(&pnpm("10.0.0"), PruneArgs::default()).outcome);
    assert_eq!(command.program, "pnpm");
    assert_eq!(command.args, vec!["prune"]);
}

#[test]
fn test_pnpm_prune_prod() {
    let command =
        expect_run(resolve(&pnpm("10.0.0"), PruneArgs { prod: true, ..Default::default() }).outcome);
    assert_eq!(command.program, "pnpm");
    assert_eq!(command.args, vec!["prune", "--prod"]);
}

#[test]
fn test_npm_prune() {
    let command = expect_run(resolve(&npm("11.0.0"), PruneArgs::default()).outcome);
    assert_eq!(command.program, "npm");
    assert_eq!(command.args, vec!["prune"]);
}

#[test]
fn test_npm_prune_prod() {
    let command =
        expect_run(resolve(&npm("11.0.0"), PruneArgs { prod: true, ..Default::default() }).outcome);
    assert_eq!(command.program, "npm");
    assert_eq!(command.args, vec!["prune", "--omit=dev"]);
}

#[test]
fn test_npm_prune_no_optional() {
    let command = expect_run(
        resolve(&npm("11.0.0"), PruneArgs { no_optional: true, ..Default::default() }).outcome,
    );
    assert_eq!(command.program, "npm");
    assert_eq!(command.args, vec!["prune", "--omit=optional"]);
}

#[test]
fn test_npm_prune_both_flags() {
    let command = expect_run(
        resolve(&npm("11.0.0"), PruneArgs { prod: true, no_optional: true, ..Default::default() })
            .outcome,
    );
    assert_eq!(command.program, "npm");
    assert_eq!(command.args, vec!["prune", "--omit=dev", "--omit=optional"]);
}

#[test]
fn test_npm_prune_with_pass_through_args() {
    let command = expect_run(
        resolve(
            &npm("11.0.0"),
            PruneArgs {
                prod: true,
                pass_through_args: vec!["--registry".to_string(), "x".to_string()],
                ..Default::default()
            },
        )
        .outcome,
    );
    assert_eq!(command.program, "npm");
    assert_eq!(command.args, vec!["prune", "--omit=dev", "--registry", "x"]);
}

#[test]
fn test_yarn1_prune_not_supported() {
    let result = resolve(&yarn("1.22.0"), PruneArgs::default());
    assert_eq!(result.outcome, CommandResolution::Noop);
    assert_eq!(result.diagnostics.len(), 1);
    assert_eq!(result.diagnostics[0].kind, DiagnosticKind::UnsupportedCommandNoop);
    assert_eq!(
        result.diagnostics[0].message,
        "yarn does not have 'prune' command. yarn install will prune extraneous packages automatically."
    );
}

#[test]
fn test_yarn2_prune_not_supported() {
    let result = resolve(&yarn("4.0.0"), PruneArgs::default());
    assert_eq!(result.outcome, CommandResolution::Noop);
    assert_eq!(result.diagnostics.len(), 1);
    assert_eq!(result.diagnostics[0].kind, DiagnosticKind::UnsupportedCommandNoop);
}

#[test]
fn test_bun_prune_not_supported() {
    let result = resolve(&bun("1.3.11"), PruneArgs::default());
    assert_eq!(result.outcome, CommandResolution::Noop);
    assert_eq!(result.diagnostics.len(), 1);
    assert_eq!(result.diagnostics[0].kind, DiagnosticKind::UnsupportedCommandNoop);
    assert_eq!(
        result.diagnostics[0].message,
        "bun prune requires bun >= 1.4. bun install will prune extraneous packages automatically."
    );
}

#[test]
fn test_bun_prune() {
    let result = resolve(&bun("1.4.0"), PruneArgs::default());
    let command = expect_run(result.outcome);
    assert_eq!(command.program, "bun");
    assert_eq!(command.args, vec!["prune"]);
    assert!(result.diagnostics.is_empty());
}

#[test]
fn test_bun_prune_prod() {
    let result = resolve(&bun("1.4.0"), PruneArgs { prod: true, ..Default::default() });
    let command = expect_run(result.outcome);
    assert_eq!(command.program, "bun");
    assert_eq!(command.args, vec!["prune", "--production"]);
}

#[test]
fn test_bun_prune_no_optional_not_supported() {
    let result = resolve(&bun("1.4.0"), PruneArgs { no_optional: true, ..Default::default() });
    let command = expect_run(result.outcome);
    assert_eq!(command.program, "bun");
    assert_eq!(command.args, vec!["prune"]);
    assert_eq!(result.diagnostics.len(), 1);
    assert_eq!(result.diagnostics[0].message, "bun does not support --no-optional.");
}

#[test]
fn test_prune_with_pass_through_args() {
    let command = expect_run(
        resolve(
            &pnpm("10.0.0"),
            PruneArgs { pass_through_args: vec!["--workspace-root".to_string()], ..Default::default() },
        )
        .outcome,
    );
    assert_eq!(command.program, "pnpm");
    assert_eq!(command.args, vec!["prune", "--workspace-root"]);
}

#[test]
fn parser_captures_flags_and_pass_through_args() {
    let args = parse_prune_args(&strings(&["--prod", "--", "--workspace-root"])).unwrap();
    assert!(args.prod);
    assert_eq!(args.pass_through_args, vec!["--workspace-root".to_string()]);
}

#[test]
fn parser_captures_no_optional_and_registry_pass_through() {
    let args = parse_prune_args(&strings(&["--no-optional", "--", "--registry", "x"])).unwrap();
    assert!(args.no_optional);
    assert_eq!(args.pass_through_args, vec!["--registry".to_string(), "x".to_string()]);
}

#[test]
fn prune_parser_rejects_unknown_and_repeated_flags() {
    assert_eq!(
        parse_prune_args(&strings(&["--prod", "--prod"])),
        Err(ArgError::RepeatedFlag("--prod".to_string()))
    );
    assert_eq!(
        parse_prune_args(&strings(&["--dev"])),
        Err(ArgError::UnexpectedArgument("--dev".to_string()))
    );
}

#[test]
fn bun_prerelease_of_1_4_is_below_1_4() {
    let result = resolve(&bun("1.4.0-beta.1"), PruneArgs::default());
    assert_eq!(result.outcome, CommandResolution::Noop);
}

// ---- dialects and environment ----

#[test]
fn npm_latest_uses_unknown_version_and_others_reject_it() {
    assert_eq!(npm("latest"), Dialect::Npm { version: None });
    assert_eq!(
        dialect_for_manager(PackageManagerType::Pnpm, "latest"),
        Err(PmError::InvalidPackageManagerVersion {
            manager: PackageManagerType::Pnpm,
            version: "latest".to_string()
        })
    );
}

#[test]
fn yarn_update_settings_match_the_major_version() {
    for (major, classic, tips) in
        [(1u64, Some("true"), None), (2, None, None), (3, None, None), (4, None, Some("false"))]
    {
        let mut command = CommandBuilder::new("yarn").build();
        apply_manager_env(&mut command, PackageManagerType::Yarn, major);
        assert_eq!(command.env_value("YARN_DISABLE_SELF_UPDATE_CHECK").as_deref(), classic);
        assert_eq!(command.env_value("YARN_ENABLE_TIPS").as_deref(), tips);
    }
    let mut npx = CommandBuilder::new("npx").build();
    apply_manager_env(&mut npx, PackageManagerType::Yarn, 1);
    assert!(npx.env.is_empty());
    let mut pnpm_cmd = CommandBuilder::new("pnpm").build();
    apply_manager_env(&mut pnpm_cmd, PackageManagerType::Pnpm, 10);
    apply_manager_env(&mut pnpm_cmd, PackageManagerType::Pnpm, 10);
    assert_eq!(pnpm_cmd.env, vec![("PNPM_CONFIG_UPDATE_NOTIFIER".to_string(), "false".to_string())]);
}

#[test]
fn builder_option_and_repeated_and_create_dir() {
    let mut b = CommandBuilder::new("pnpm");
    b.arg("add");
    b.option("--filter", Some("web"));
    b.option("--dir", None);
    b.repeated("--allow", &strings(&["a", "b"]));
    b.create_dir("/tmp/x");
    let c = b.build();
    assert_eq!(c.args, vec!["add", "--filter", "web", "--allow", "a", "--allow", "b"]);
    assert_eq!(c.pre_run.len(), 1);
}

// ---- registry and numbers ----

#[test]
fn test_npm_registry_default() {
    assert_eq!(npm_registry(None, None), "https://registry.npmjs.org");
}

#[test]
fn test_npm_registry_custom() {
    assert_eq!(
        npm_registry(Some("https://registry.npmmirror.com"), None),
        "https://registry.npmmirror.com"
    );
    assert_eq!(npm_registry(None, Some("https://r.example/")), "https://r.example");
}

#[test]
fn test_npm_tgz_url() {
    let registry = npm_registry(None, None);
    assert_eq!(
        get_npm_package_tgz_url(&registry, "vite", "7.1.3"),
        "https://registry.npmjs.org/vite/-/vite-7.1.3.tgz"
    );
    assert_eq!(
        get_npm_package_tgz_url(&registry, "@vitejs/release-scripts", "1.6.0"),
        "https://registry.npmjs.org/@vitejs/release-scripts/-/release-scripts-1.6.0.tgz"
    );
    assert_eq!(get_npm_package_version_url(&registry, "vite", "latest"), "https://registry.npmjs.org/vite/latest");
    assert_eq!(get_npm_package_metadata_url(&registry, "vite"), "https://registry.npmjs.org/vite");
}

#[test]
fn positive_usize_reports_each_error() {
    assert_eq!(parse_positive_usize("4"), Ok(4));
    assert_eq!(parse_positive_usize("+4"), Ok(4));
    assert_eq!(parse_positive_usize("0"), Err("value must be at least 1".to_string()));
    assert_eq!(parse_positive_usize(""), Err("cannot parse integer from empty string".to_string()));
    assert_eq!(parse_positive_usize("x"), Err("invalid digit found in string".to_string()));
    assert_eq!(
        parse_positive_usize("999999999999999999999999"),
        Err("number too large to fit in target type".to_string())
    );
}

#[test]
fn package_manager_names() {
    assert_eq!(parse_package_manager("pnpm"), Ok(PackageManagerType::Pnpm));
    assert_eq!(parse_package_manager("deno"), Err("use pnpm, npm, yarn, or bun"));
}

#[test]
fn invalid_non_npm_version_is_an_error() {
    let error = dialect_for_manager(PackageManagerType::Pnpm, "latest").unwrap_err();
    assert!(matches!(
        error,
        PmError::InvalidPackageManagerVersion {
            manager: PackageManagerType::Pnpm,
            ref version,
        } if version == "latest"
    ));
}
