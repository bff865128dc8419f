use vite_plus::cli::app_target::{
    arrange_rows, classify, default_package_plan, listing_error, listing_lines,
    missing_default_dir_message, root_has_intent_signal, selection_lines, using_default_note,
    DefaultPackage, DefaultPackagePlan, PackageRow, PackageValue, RootFacts, TargetClass,
    WorkspaceFacts,
};
use vite_plus::cli::resolver::{
    check_cache_inputs, merge_resolved_envs, merge_resolved_envs_with_version, needs_vite_config,
    resolve_subcommand, tool_for, CacheConfig, InputBase, InputEntry, ResolveError, Tool,
    ViteConfigFacts,
};
use vite_plus::cli::types::SynthesizableSubcommand;

fn strings(v: &[&str]) -> Vec<String> {
    v.iter().map(|s| s.to_string()).collect()
}

fn env(v: &[(&str, &str)]) -> Vec<(String, String)> {
    v.iter().map(|(k, x)| (k.to_string(), x.to_string())).collect()
}

fn lookup<'a>(e: &'a [(String, String)], k: &str) -> Option<&'a str> {
    e.iter().find(|(n, _)| n == k).map(|(_, v)| v.as_str())
}

fn config(file: Option<&str>, lint: bool, fmt: bool) -> ViteConfigFacts {
    ViteConfigFacts { config_file: file.map(|f| f.to_string()), has_lint: lint, has_fmt: fmt }
}

#[test]
fn lint_gets_the_config_file_and_versioned_env() {
    let sub = SynthesizableSubcommand::Lint { args: strings(&["src"]) };
    let plan = resolve_subcommand(
        &sub,
        "/oxlint.js",
        &config(Some("vite.config.ts"), true, false),
        &env(&[("PATH", "/bin")]),
        &env(&[("OXLINT_X", "1"), ("PATH", "/other")]),
        "1.2.3",
    )
    .unwrap();
    assert_eq!(plan.program, "node");
    assert_eq!(
        plan.args,
        strings(&[
            "--disable-warning=MODULE_TYPELESS_PACKAGE_JSON",
            "/oxlint.js",
            "-c",
            "vite.config.ts",
            "src"
        ])
    );
    assert_eq!(lookup(&plan.envs, "PATH"), Some("/bin"));
    assert_eq!(lookup(&plan.envs, "OXLINT_X"), Some("1"));
    assert_eq!(lookup(&plan.envs, "VP_VERSION"), Some("1.2.3"));
    assert_eq!(lookup(&plan.envs, "VP_COMMAND"), Some("lint"));
    match plan.cache {
        CacheConfig::Enabled { env: Some(e), input: None } => assert_eq!(e, strings(&["OXLINT_TSGOLINT_PATH"])),
        other => panic!("unexpected {other:?}"),
    }
}

#[test]
fn fmt_without_section_gets_no_config_flag() {
    let sub = SynthesizableSubcommand::Fmt { args: strings(&["--check"]) };
    let plan =
        resolve_subcommand(&sub, "/oxfmt.js", &config(Some("vite.config.ts"), true, false), &env(&[]), &env(&[]), "1")
            .unwrap();
    assert_eq!(plan.args, strings(&["/oxfmt.js", "--check"]));
}

#[test]
fn test_prepends_run_unless_asked_otherwise() {
    let plan = resolve_subcommand(
        &SynthesizableSubcommand::Test { args: strings(&["--coverage"]) },
        "/vitest.js",
        &config(None, false, false),
        &env(&[]),
        &env(&[]),
        "1",
    )
    .unwrap();
    assert_eq!(plan.args, strings(&["/vitest.js", "run", "--coverage"]));
    let plan = resolve_subcommand(
        &SynthesizableSubcommand::Test { args: strings(&["watch"]) },
        "/vitest.js",
        &config(None, false, false),
        &env(&[]),
        &env(&[]),
        "1",
    )
    .unwrap();
    assert_eq!(plan.args, strings(&["/vitest.js", "watch"]));
}

#[test]
fn vite_commands_add_their_verb_and_pack_skips_the_version() {
    let build = resolve_subcommand(&SynthesizableSubcommand::Build { args: vec![] }, "/vite.js", &config(None, false, false), &env(&[]), &env(&[]), "9").unwrap();
    assert_eq!(build.args, strings(&["/vite.js", "build"]));
    match &build.cache {
        CacheConfig::Enabled { env: Some(e), input: Some(i) } => {
            assert_eq!(e, &strings(&["VITE_*"]));
            assert_eq!(i.len(), 4);
            assert!(matches!(&i[3], InputEntry::Glob(p, InputBase::Package) if p == "!dist/**"));
        }
        other => panic!("unexpected {other:?}"),
    }
    let dev = resolve_subcommand(&SynthesizableSubcommand::Dev { args: strings(&["--host"]) }, "/vite.js", &config(None, false, false), &env(&[]), &env(&[]), "9").unwrap();
    assert_eq!(dev.args, strings(&["/vite.js", "dev", "--host"]));
    assert!(matches!(dev.cache, CacheConfig::Disabled));
    let pack = resolve_subcommand(&SynthesizableSubcommand::Pack { args: vec![] }, "/tsdown.js", &config(None, false, false), &env(&[("VP_COMMAND", "old")]), &env(&[]), "9").unwrap();
    assert_eq!(lookup(&pack.envs, "VP_VERSION"), None);
    assert_eq!(lookup(&pack.envs, "VP_COMMAND"), Some("pack"));
}

#[test]
fn check_and_install_do_not_resolve() {
    let check = SynthesizableSubcommand::Check { fix: false, no_fmt: false, no_lint: false, no_error_on_unmatched_pattern: false, paths: vec![] };
    let err = resolve_subcommand(&check, "/x.js", &config(None, false, false), &env(&[]), &env(&[]), "1").unwrap_err();
    assert_eq!(err, ResolveError::Composite);
    assert_eq!(err.message(), "Check is a composite command and cannot be resolved to a single subcommand");
    assert_eq!(tool_for(&check), None);
    assert_eq!(tool_for(&SynthesizableSubcommand::Preview { args: vec![] }), Some(Tool::Vite));
    assert!(needs_vite_config(&SynthesizableSubcommand::Fmt { args: vec![] }));
    assert!(!needs_vite_config(&SynthesizableSubcommand::Build { args: vec![] }));
}

#[test]
fn merging_keeps_existing_variables() {
    let merged = merge_resolved_envs(&env(&[("A", "1")]), &env(&[("A", "2"), ("B", "3"), ("B", "4")]));
    assert_eq!(lookup(&merged, "A"), Some("1"));
    assert_eq!(lookup(&merged, "B"), Some("3"));
    let versioned = merge_resolved_envs_with_version(&env(&[("VP_VERSION", "0")]), &env(&[]), "7");
    assert_eq!(lookup(&versioned, "VP_VERSION"), Some("0"));
    assert_eq!(check_cache_inputs().len(), 5);
}

fn row(name: &str, path: &str, likely: bool) -> PackageRow {
    PackageRow { name: name.to_string(), path: path.to_string(), absolute: format!("/ws/{path}"), likely_runnable: likely }
}

#[test]
fn rows_put_likely_members_first_then_the_root() {
    let (rows, single) = arrange_rows(
        vec![row("b", "packages/b", false), row("web", "apps/web", true), row("a", "packages/a", false)],
        None,
        "/ws",
    );
    assert_eq!(rows.iter().map(|r| r.path.as_str()).collect::<Vec<_>>(), ["apps/web", "packages/a", "packages/b", "."]);
    assert_eq!(rows[3].name, "workspace root");
    assert!(single);
    let (_, single) = arrange_rows(vec![row("x", "x", true), row("y", "y", true)], Some(row("root", ".", false)), "/ws");
    assert!(!single);
}

#[test]
fn listing_pads_names() {
    let rows = vec![row("web", "apps/web", true), row("workspace root", ".", false)];
    let lines = listing_lines("dev", &rows);
    assert_eq!(lines[0], "");
    assert_eq!(lines[1], "  Packages in this workspace:");
    assert_eq!(lines[2], "    web             apps/web");
    assert_eq!(lines[3], "    workspace root  .");
    assert_eq!(lines[4], "");
    assert_eq!(lines[5], "  Pass a directory:  vp -C apps/web dev");
    assert_eq!(lines[6], "  Or run every package's dev script:  vp run -r dev");
    assert_eq!(listing_error("dev"), "`vp dev` at the workspace root needs a target package.");
    let (a, b) = selection_lines(&rows[0], "dev");
    assert_eq!(a, "Selected package: web (apps/web)");
    assert_eq!(b, "Tip: run this directly with `vp -C apps/web dev`");
}

#[test]
fn classification_follows_the_resolution_order() {
    let at_root = WorkspaceFacts { found: true, at_root: true, non_workspace_package: false };
    let below = WorkspaceFacts { found: true, at_root: false, non_workspace_package: false };
    let bare = SynthesizableSubcommand::Dev { args: vec![] };
    assert_eq!(classify(&bare, false, at_root, &None, false), TargetClass::PickPackage);
    assert_eq!(classify(&bare, false, at_root, &None, true), TargetClass::RunInPlace);
    assert_eq!(classify(&bare, false, below, &None, false), TargetClass::RunInPlace);
    assert_eq!(classify(&bare, true, at_root, &None, false), TargetClass::RunInPlace);
    let with_args = SynthesizableSubcommand::Dev { args: strings(&["--host"]) };
    assert_eq!(classify(&with_args, false, at_root, &None, false), TargetClass::RunInPlace);
    let lint = SynthesizableSubcommand::Lint { args: vec![] };
    assert_eq!(classify(&lint, false, at_root, &None, false), TargetClass::RunInPlace);
    let dir = Some(DefaultPackage::Dir("apps/web".to_string()));
    assert_eq!(classify(&bare, false, at_root, &dir, false), TargetClass::UseDefaultPackage);
    let table = Some(DefaultPackage::ByCommand(vec![("pack".to_string(), PackageValue::Dir("packages/ui".to_string()))]));
    assert_eq!(classify(&bare, false, at_root, &table, false), TargetClass::PickPackage);
}

#[test]
fn default_package_plans() {
    match default_package_plan("dev", &DefaultPackage::Dir("apps/web".to_string())) {
        DefaultPackagePlan::Dir(d) => assert_eq!(d, "apps/web"),
        other => panic!("unexpected {other:?}"),
    }
    match default_package_plan("dev", &DefaultPackage::Other("42".to_string())) {
        DefaultPackagePlan::Fail(m) => assert_eq!(m, "defaultPackage must be a string of a directory, got: 42"),
        other => panic!("unexpected {other:?}"),
    }
    assert!(matches!(default_package_plan("dev", &DefaultPackage::NonStatic), DefaultPackagePlan::Fail(m) if m.contains("static string literal")));
    assert_eq!(missing_default_dir_message("apps/x"), "defaultPackage points to a missing directory: apps/x");
    assert_eq!(using_default_note("dev", "apps/web"), "vp dev: using apps/web (defaultPackage in vite.config.ts)");
}

#[test]
fn intent_signals() {
    let facts = RootFacts { has_src_index_ts: false, has_index_html: false, declared_fields: strings(&["appType"]) };
    assert!(root_has_intent_signal(&facts, "build"));
    assert!(!root_has_intent_signal(&facts, "pack"));
    let facts = RootFacts { has_src_index_ts: true, has_index_html: false, declared_fields: vec![] };
    assert!(root_has_intent_signal(&facts, "pack"));
    assert!(!root_has_intent_signal(&facts, "dev"));
}
