use vite_plus::pm::PackageManagerType;
use vite_plus::pm_cli::{
    AddArgs, ConfigCommand, DlxArgs, InstallArgs, ListArgs, ManagedGlobalCommand, OutdatedArgs,
    OutdatedFormat, PackageManagerCommand, PmCommand, RemoveArgs, StageCommand, TokenCommand,
    UpdateArgs, WhyArgs,
};

fn strings(v: &[&str]) -> Vec<String> {
    v.iter().map(|s| s.to_string()).collect()
}

fn install(packages: &[&str], global: bool) -> InstallArgs {
    InstallArgs { packages: strings(packages), global, node: None, force: false, concurrency: None, silent: false }
}

fn why(packages: &[&str], json: bool, parseable: bool, pass: &[&str]) -> PackageManagerCommand {
    PackageManagerCommand::Why(WhyArgs { packages: strings(packages), json, parseable, pass_through_args: strings(pass) })
}

fn outdated(format: Option<OutdatedFormat>, global: bool) -> OutdatedArgs {
    OutdatedArgs { packages: strings(&["tsx"]), global, long: false, format, concurrency: None }
}

fn list(global: bool, json: bool) -> ListArgs {
    ListArgs { global, json, parseable: false, pattern: Some("tsx".to_string()) }
}

#[test]
fn validates_managed_global_options() {
    let install_cmd = PackageManagerCommand::Install(InstallArgs {
        node: Some("22".to_string()),
        concurrency: Some(2),
        ..install(&["tsx"], true)
    });
    let add = PackageManagerCommand::Add(AddArgs {
        packages: strings(&["tsx"]),
        global: true,
        node: Some("22".to_string()),
        concurrency: Some(2),
    });
    assert!(install_cmd.is_managed_global());
    assert!(add.is_managed_global());
}

#[test]
fn projects_managed_global_commands() {
    let install_cmd = PackageManagerCommand::Install(InstallArgs {
        node: Some("22".to_string()),
        force: true,
        concurrency: Some(2),
        ..install(&["tsx"], true)
    });
    let Some(ManagedGlobalCommand::Install { packages, node, force, concurrency }) = install_cmd.managed_global_command()
    else {
        panic!("expected managed install command");
    };
    assert_eq!(packages, ["tsx"]);
    assert_eq!(node.as_deref(), Some("22"));
    assert!(force);
    assert_eq!(concurrency, Some(2));

    let add = PackageManagerCommand::Add(AddArgs { packages: strings(&["tsx"]), global: true, node: None, concurrency: None });
    assert!(matches!(add.managed_global_command(), Some(ManagedGlobalCommand::Install { force: false, .. })));

    let remove = PackageManagerCommand::Remove(RemoveArgs { packages: strings(&["tsx"]), global: true, dry_run: true });
    assert!(matches!(
        remove.managed_global_command(),
        Some(ManagedGlobalCommand::Remove { packages, dry_run: true }) if packages == ["tsx"]
    ));

    let update = PackageManagerCommand::Update(UpdateArgs {
        packages: strings(&["tsx"]),
        global: true,
        latest: true,
        concurrency: None,
        reinstall_node_mismatch: true,
        ignore_node_mismatch: false,
    });
    assert!(matches!(
        update.managed_global_command(),
        Some(ManagedGlobalCommand::Update {
            packages,
            latest: true,
            reinstall_node_mismatch: true,
            ignore_node_mismatch: false,
            ..
        }) if packages == ["tsx"]
    ));

    let outdated_cmd = PackageManagerCommand::Outdated(outdated(Some(OutdatedFormat::Json), true));
    assert!(matches!(
        outdated_cmd.managed_global_command(),
        Some(ManagedGlobalCommand::Outdated { packages, format: Some(OutdatedFormat::Json), .. }) if packages == ["tsx"]
    ));

    let list_cmd = PackageManagerCommand::Pm(PmCommand::List(list(true, true)));
    assert_eq!(
        list_cmd.managed_global_command(),
        Some(ManagedGlobalCommand::List { json: true, pattern: Some("tsx".to_string()) })
    );

    assert!(PackageManagerCommand::Install(install(&[], false)).managed_global_command().is_none());
}

#[test]
fn classifies_quiet_and_machine_readable_commands() {
    let quiet = [
        PackageManagerCommand::Install(InstallArgs { silent: true, ..install(&[], false) }),
        PackageManagerCommand::Dlx(DlxArgs { package: strings(&["tsx"]), shell_mode: false, silent: true, args: vec![] }),
        PackageManagerCommand::Outdated(outdated(Some(OutdatedFormat::Json), false)),
        why(&["react"], false, true, &[]),
        why(&["react"], false, false, &["--json"]),
        why(&["react"], false, false, &["--json=true"]),
        why(&["react"], false, false, &["--json=0"]),
        PackageManagerCommand::Info { json: true },
        PackageManagerCommand::Pm(PmCommand::List(list(false, true))),
        PackageManagerCommand::Pm(PmCommand::Version { json: true }),
        PackageManagerCommand::Pm(PmCommand::Config(ConfigCommand::List { json: true })),
        PackageManagerCommand::Pm(PmCommand::Token(TokenCommand::Create { json: true })),
        PackageManagerCommand::Pm(PmCommand::Stage(StageCommand::List { json: true })),
    ];
    for c in &quiet {
        assert!(c.is_quiet_or_machine_readable(), "{c:?}");
    }
    for c in [why(&["react"], false, false, &["--json=false"]), why(&["react"], false, false, &["--parseable=false"])] {
        assert!(!c.is_quiet_or_machine_readable(), "{c:?}");
    }
    assert!(!PackageManagerCommand::Install(install(&[], false)).is_quiet_or_machine_readable());
}

#[test]
fn why_hint_packages_excludes_json_and_parseable_output() {
    let readable = why(&["vite", "vitest"], false, false, &[]);
    assert_eq!(readable.why_hint_packages(PackageManagerType::Pnpm), Some(strings(&["vite", "vitest"])));
    assert_eq!(readable.why_hint_packages(PackageManagerType::Yarn), Some(strings(&["vite"])));
    assert_eq!(why(&["vite"], true, false, &[]).why_hint_packages(PackageManagerType::Pnpm), None);
    assert_eq!(why(&["vite"], false, true, &[]).why_hint_packages(PackageManagerType::Pnpm), None);
    assert_eq!(why(&["vite"], false, false, &["--json"]).why_hint_packages(PackageManagerType::Pnpm), None);
    assert_eq!(why(&["vite"], false, false, &["--parseable"]).why_hint_packages(PackageManagerType::Pnpm), None);
    assert_eq!(why(&["vite"], false, false, &["--json=true"]).why_hint_packages(PackageManagerType::Pnpm), None);
    assert_eq!(why(&["vite"], false, false, &["--json=0"]).why_hint_packages(PackageManagerType::Npm), None);
    assert_eq!(why(&["vite"], false, false, &["--parseable=true"]).why_hint_packages(PackageManagerType::Pnpm), None);
    assert_eq!(
        why(&["vite"], false, false, &["--json=false"]).why_hint_packages(PackageManagerType::Pnpm),
        Some(strings(&["vite"]))
    );
    assert_eq!(
        why(&["vite"], false, false, &["--parseable=false"]).why_hint_packages(PackageManagerType::Pnpm),
        Some(strings(&["vite"]))
    );
    assert_eq!(why(&[], false, false, &[]).why_hint_packages(PackageManagerType::Yarn), None);
    assert_eq!(PackageManagerCommand::Dedupe.why_hint_packages(PackageManagerType::Pnpm), None);
}

#[test]
fn suppresses_diagnostics_only_for_explicit_silent_modes() {
    for c in [
        PackageManagerCommand::Outdated(outdated(Some(OutdatedFormat::Json), false)),
        why(&["react"], false, true, &[]),
        PackageManagerCommand::Info { json: true },
        PackageManagerCommand::Pm(PmCommand::List(list(false, true))),
    ] {
        assert!(c.should_render_diagnostics(), "{c:?}");
    }
    for c in [
        PackageManagerCommand::Install(InstallArgs { silent: true, ..install(&[], false) }),
        PackageManagerCommand::dlx(strings(&["tsx"]), false, true, vec![]),
    ] {
        assert!(!c.should_render_diagnostics(), "{c:?}");
    }
}

#[test]
fn install_silent_is_read_only_for_install() {
    assert_eq!(PackageManagerCommand::Install(InstallArgs { silent: true, ..install(&[], false) }).install_silent(), Some(true));
    assert_eq!(PackageManagerCommand::Install(install(&[], false)).install_silent(), Some(false));
    assert_eq!(PackageManagerCommand::Link.install_silent(), None);
}
