use vite_plus::path_list::Platform;
use std::io::Write;

use vite_plus::cli::app_target::{
    app_target_after_lookup, app_target_after_pick, app_target_start, resolve_app_target,
    AppTarget, AppTargetFacts, AppTargetStep, DefaultPackage, PackageRow, WorkspaceFacts,
};
use vite_plus::cli::resolver::{resolve_with_tool_entry, ResolveError, ViteConfigFacts};
use vite_plus::cli::types::SynthesizableSubcommand;
use vite_plus::cmdline::{parse_shim_pointer, ShimLayout};
use vite_plus::dirs::{VpDirs, VpDirsLayout};
use vite_plus::install::{platform_package_files, wrapper_package_json, PINNED_PNPM_VERSION};
use vite_plus::path_env::ToolPathEnv;
use vite_plus::pm::{
    dialect_for_manager, finish_for_manager, resolve_ci, CiArgs, CommandResolution,
    PackageManagerType,
};
use vite_plus::similarity::levenshtein_distance;

fn pkg_row(name: &str, path: &str, likely: bool) -> PackageRow {
    PackageRow {
        name: name.to_string(),
        path: path.to_string(),
        absolute: format!("/w/{path}"),
        likely_runnable: likely,
    }
}

fn facts(members: Vec<PackageRow>, interactive: bool, picked: Option<usize>) -> AppTargetFacts {
    AppTargetFacts {
        workspace: WorkspaceFacts { found: true, at_root: true, non_workspace_package: false },
        default_package: None,
        default_dir_target: None,
        intent: false,
        members,
        root_row: None,
        root_dir: "/w".to_string(),
        interactive,
        picked,
    }
}

fn dev() -> SynthesizableSubcommand {
    SynthesizableSubcommand::Dev { args: vec![] }
}

#[test]
fn explicit_dir_or_arguments_run_in_place_without_a_workspace() {
    let o = resolve_app_target(&dev(), true, facts(vec![pkg_row("a", "apps/a", true)], true, None));
    assert!(matches!(o.target, AppTarget::CurrentDir));
    assert!(!o.reuse_workspace);
    let with_args = SynthesizableSubcommand::Build { args: vec!["--watch".to_string()] };
    let o = resolve_app_target(&with_args, false, facts(vec![pkg_row("a", "apps/a", false)], false, None));
    assert!(matches!(o.target, AppTarget::CurrentDir));
    let lint = SynthesizableSubcommand::Lint { args: vec![] };
    assert!(matches!(app_target_start(&lint, false), AppTargetStep::Done(_)));
    assert!(matches!(app_target_start(&dev(), false), AppTargetStep::LookUpWorkspace { command: "dev" }));
}

#[test]
fn cancelled_picker_exits_130() {
    let members = vec![pkg_row("a", "apps/a", false), pkg_row("b", "apps/b", false)];
    let o = resolve_app_target(&dev(), false, facts(members, true, None));
    assert!(matches!(o.target, AppTarget::Exit(130)));
    assert!(o.stdout.is_empty() && o.error.is_none());
}

#[test]
fn picked_package_runs_there() {
    let members = vec![pkg_row("b", "apps/b", false), pkg_row("a", "apps/a", false)];
    let o = resolve_app_target(&dev(), false, facts(members, true, Some(1)));
    match o.target {
        AppTarget::Dir(d) => assert_eq!(d, "/w/apps/b"),
        _ => panic!("expected a directory"),
    }
    assert_eq!(o.stdout, vec![
        "Selected package: b (apps/b)".to_string(),
        "Tip: run this directly with `vp -C apps/b dev`".to_string(),
    ]);
    let rows = vec![pkg_row("a", "apps/a", false)];
    assert!(matches!(app_target_after_pick("dev", &rows, None).target, AppTarget::Exit(130)));
}

#[test]
fn single_likely_member_is_selected_without_asking() {
    let members = vec![pkg_row("lib", "packages/lib", false), pkg_row("web", "apps/web", true)];
    let o = resolve_app_target(&dev(), false, facts(members, true, None));
    match o.target {
        AppTarget::Dir(d) => assert_eq!(d, "/w/apps/web"),
        _ => panic!("expected a directory"),
    }
}

#[test]
fn non_interactive_root_lists_packages_and_exits_1() {
    let members = vec![pkg_row("web", "apps/web", true), pkg_row("docs", "apps/docs", true)];
    let o = resolve_app_target(&dev(), false, facts(members, false, None));
    assert!(matches!(o.target, AppTarget::Exit(1)));
    assert_eq!(o.error.as_deref(), Some("`vp dev` at the workspace root needs a target package."));
    assert_eq!(o.stderr[1], "  Packages in this workspace:");
    assert_eq!(o.stderr[2], "    docs            apps/docs");
    assert_eq!(o.stderr[4], "    workspace root  .");
    assert_eq!(o.stderr[6], "  Pass a directory:  vp -C apps/docs dev");
}

#[test]
fn intent_or_no_members_run_in_place_at_the_root() {
    let mut f = facts(vec![pkg_row("a", "apps/a", false)], true, None);
    f.intent = true;
    let o = resolve_app_target(&dev(), false, f);
    assert!(matches!(o.target, AppTarget::CurrentDir));
    assert!(o.reuse_workspace);
    let o = resolve_app_target(&dev(), false, facts(vec![], true, None));
    assert!(matches!(o.target, AppTarget::CurrentDir));
    assert!(o.reuse_workspace);
}

#[test]
fn default_package_decides_at_the_root() {
    let mut f = facts(vec![], true, None);
    f.default_package = Some(DefaultPackage::Dir("apps/web".to_string()));
    f.default_dir_target = Some("/w/apps/web".to_string());
    let o = resolve_app_target(&dev(), false, f);
    match o.target {
        AppTarget::Dir(d) => assert_eq!(d, "/w/apps/web"),
        _ => panic!("expected a directory"),
    }
    assert_eq!(o.note.as_deref(), Some("vp dev: using apps/web (defaultPackage in vite.config.ts)"));
    let mut f = facts(vec![], true, None);
    f.default_package = Some(DefaultPackage::Dir("apps/gone".to_string()));
    let o = resolve_app_target(&dev(), false, f);
    assert!(matches!(o.target, AppTarget::Exit(1)));
    assert_eq!(o.error.as_deref(), Some("defaultPackage points to a missing directory: apps/gone"));
    let below = WorkspaceFacts { found: true, at_root: false, non_workspace_package: false };
    assert!(matches!(app_target_after_lookup("dev", below, &None), AppTargetStep::Done(_)));
}

fn tgz(entries: &[(&str, &[u8])]) -> Vec<u8> {
    let mut builder = tar::Builder::new(Vec::new());
    for (path, data) in entries {
        let mut header = tar::Header::new_gnu();
        header.set_size(data.len() as u64);
        header.set_mode(0o755);
        header.set_cksum();
        builder.append_data(&mut header, path, *data).unwrap();
    }
    let tar = builder.into_inner().unwrap();
    let mut gz = flate2::write::GzEncoder::new(Vec::new(), flate2::Compression::default());
    gz.write_all(&tar).unwrap();
    gz.finish().unwrap()
}

#[test]
fn platform_package_keeps_only_the_binaries() {
    let data = tgz(&[
        ("package/package.json", b"{}"),
        ("package/vp", b"bin"),
        ("package/bin/vp-shim.exe", b"shim"),
        ("package/README.md", b"doc"),
        ("other/vp.exe", b"exe"),
    ]);
    let files = platform_package_files(&data).unwrap();
    assert_eq!(
        files,
        vec![
            ("vp".to_string(), b"bin".to_vec()),
            ("vp-shim.exe".to_string(), b"shim".to_vec()),
            ("vp.exe".to_string(), b"exe".to_vec()),
        ]
    );
    assert!(platform_package_files(b"not a tarball").is_none());
}

#[test]
fn wrapper_package_json_pins_pnpm() {
    let w = wrapper_package_json("0.1.23");
    assert_eq!(w.name, "vp-global");
    assert_eq!(w.version, "0.1.23");
    assert!(w.private);
    assert_eq!(w.package_manager, format!("pnpm@{PINNED_PNPM_VERSION}"));
    assert_eq!(w.package_manager, "pnpm@10.33.0");
    assert_eq!(w.dependencies, vec![("vite-plus".to_string(), "0.1.23".to_string())]);
}

fn env_value(env: &[(String, String)], name: &str) -> Option<String> {
    env.iter().find(|(k, _)| k == name).map(|(_, v)| v.clone())
}

#[test]
fn finished_yarn_resolution_has_the_update_settings() {
    for (version, classic, tips) in [
        ("1.22.22", Some("true"), None),
        ("2.4.2", None, None),
        ("3.8.7", None, None),
        ("4.0.0", None, Some("false")),
        ("4.12.0", None, Some("false")),
    ] {
        let dialect = dialect_for_manager(PackageManagerType::Yarn, version).unwrap();
        let resolution = resolve_ci(&dialect, CiArgs::default());
        let env = ToolPathEnv::new("/usr/bin:/yarn/bin".to_string(), "node");
        let r = finish_for_manager(resolution, &dialect, env, "/yarn/bin", &["yarn", "yarnpkg"], Platform::Unix).unwrap();
        let CommandResolution::Run(command) = r.outcome else { panic!("expected a command") };
        assert_eq!(env_value(&command.env, "YARN_DISABLE_SELF_UPDATE_CHECK").as_deref(), classic);
        assert_eq!(env_value(&command.env, "YARN_ENABLE_TIPS").as_deref(), tips);
        assert_eq!(env_value(&command.env, "PATH").as_deref(), Some("/yarn/bin:/usr/bin"));
        assert_eq!(
            env_value(&command.env, "VP_PATH_INJECTED_TOOLS").as_deref(),
            Some("node,yarn,yarnpkg")
        );
    }
}

#[test]
fn pnpm_resolution_disables_the_update_notifier() {
    let dialect = dialect_for_manager(PackageManagerType::Pnpm, "10.0.0").unwrap();
    let env = ToolPathEnv::new("/bin".to_string(), "");
    let r = finish_for_manager(resolve_ci(&dialect, CiArgs::default()), &dialect, env, "/pnpm/bin", &["pnpm"], Platform::Unix)
        .unwrap();
    let CommandResolution::Run(command) = r.outcome else { panic!("expected a command") };
    assert_eq!(env_value(&command.env, "PNPM_CONFIG_UPDATE_NOTIFIER").as_deref(), Some("false"));
    assert_eq!(env_value(&command.env, "PATH").as_deref(), Some("/pnpm/bin:/bin"));
    let env = ToolPathEnv::new("/bin".to_string(), "");
    assert!(finish_for_manager(resolve_ci(&dialect, CiArgs::default()), &dialect, env, "/a:b", &[], Platform::Unix).is_err());
}

#[test]
fn windows_manager_path_uses_semicolons() {
    let dialect = dialect_for_manager(PackageManagerType::Pnpm, "10.0.0").unwrap();
    let env = ToolPathEnv::new("C:\\Windows;C:\\pnpm\\bin".to_string(), "");
    let r = finish_for_manager(resolve_ci(&dialect, CiArgs::default()), &dialect, env, "c:/pnpm/bin", &["pnpm"], Platform::Windows)
        .unwrap();
    let CommandResolution::Run(command) = r.outcome else { panic!("expected a command") };
    assert_eq!(env_value(&command.env, "PATH").as_deref(), Some("c:/pnpm/bin;C:\\Windows"));
    let env = ToolPathEnv::new("C:\\Windows".to_string(), "");
    assert!(finish_for_manager(resolve_ci(&dialect, CiArgs::default()), &dialect, env, "C:\\a:b", &[], Platform::Windows).is_ok());
    let env = ToolPathEnv::new("C:\\Windows".to_string(), "");
    assert!(finish_for_manager(resolve_ci(&dialect, CiArgs::default()), &dialect, env, "C:\\a\"b", &[], Platform::Windows).is_err());
}

#[test]
fn resolution_without_tool_resolvers_is_an_error() {
    let config = ViteConfigFacts { config_file: None, has_lint: false, has_fmt: false };
    let lint = SynthesizableSubcommand::Lint { args: vec![] };
    let err = resolve_with_tool_entry(&lint, None, &config, &vec![], &vec![], "1.0.0").unwrap_err();
    assert_eq!(err, ResolveError::NoCliOptions);
    assert_eq!(err.message(), "CLI options not available (running without NAPI?)");
    let check = SynthesizableSubcommand::Check {
        fix: false,
        no_fmt: false,
        no_lint: false,
        no_error_on_unmatched_pattern: false,
        paths: vec![],
    };
    assert_eq!(
        resolve_with_tool_entry(&check, None, &config, &vec![], &vec![], "1.0.0").unwrap_err(),
        ResolveError::Composite
    );
    assert!(resolve_with_tool_entry(&lint, Some("/oxlint.js"), &config, &vec![], &vec![], "1.0.0").is_ok());
}

#[test]
fn levenshtein_laws_on_examples() {
    let words = ["", "vp", "vite", "vitest", "build", "biuld", "pnpm"];
    for a in words {
        assert_eq!(levenshtein_distance(a, ""), a.chars().count());
        for b in words {
            let d = levenshtein_distance(a, b);
            assert_eq!(d, levenshtein_distance(b, a));
            assert_eq!(d == 0, a == b);
            for c in words {
                assert!(levenshtein_distance(a, c) <= d + levenshtein_distance(b, c));
            }
        }
    }
}

#[test]
fn sidecar_reads_back_after_a_byte_order_mark() {
    let dirs = VpDirs {
        bin: "/h/bin".to_string(),
        data: "/h/data".to_string(),
        cache: "/h/cache".to_string(),
        config: "/h/config".to_string(),
        state: "/h/state".to_string(),
        layout: VpDirsLayout::Split,
    };
    let mut bytes = vec![0xEF, 0xBB, 0xBF];
    bytes.extend_from_slice(dirs.shim_pointer_contents().as_bytes());
    let p = parse_shim_pointer(&bytes).unwrap();
    assert_eq!(p.data, "/h/data");
    assert!(matches!(p.layout, ShimLayout::Split { cache } if cache == "/h/cache"));
}
