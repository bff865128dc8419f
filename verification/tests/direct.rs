use vite_plus::path_list::Platform;
use vite_plus::cli::direct::{
    direct_envs, direct_route, envs_after_pm_install, filter_output, filter_stream,
    prepend_to_env_path, try_prepend_to_env_path, DirectRoute, FilterStream, PmInstall,
};
use vite_plus::cli::types::SynthesizableSubcommand;

fn strings(values: &[&str]) -> Vec<String> {
    values.iter().map(|v| v.to_string()).collect()
}

fn envs_with_path(path: &str) -> Vec<(String, String)> {
    vec![("PATH".to_string(), path.to_string())]
}

fn get<'a>(envs: &'a [(String, String)], key: &str) -> Option<&'a str> {
    envs.iter().find(|(k, _)| k == key).map(|(_, v)| v.as_str())
}

#[test]
fn prepends_package_manager_bin_to_env_path() {
    let envs = envs_with_path("/work/old-bin");
    let updated = prepend_to_env_path(&envs, "/work/pm-bin", Platform::Unix);
    let paths: Vec<&str> = get(&updated, "PATH").unwrap().split(':').collect();
    assert_eq!(paths.first(), Some(&"/work/pm-bin"));
    assert_eq!(paths.get(1), Some(&"/work/old-bin"));
}

#[test]
fn does_not_duplicate_package_manager_bin_when_already_first() {
    let envs = envs_with_path("/work/pm-bin");
    let updated = prepend_to_env_path(&envs, "/work/pm-bin", Platform::Unix);
    let paths: Vec<&str> = get(&updated, "PATH").unwrap().split(':').collect();
    assert_eq!(paths, vec!["/work/pm-bin"]);
}

#[test]
fn creates_path_when_env_map_has_no_path() {
    let updated = prepend_to_env_path(&Vec::new(), "/work/pm-bin", Platform::Unix);
    let paths: Vec<&str> = get(&updated, "PATH").unwrap().split(':').collect();
    assert_eq!(paths, vec!["/work/pm-bin"]);
}

#[test]
fn preserves_path_key_casing_on_windows() {
    let envs = vec![("PATH".to_string(), "/work/old-bin".to_string())];
    let updated = prepend_to_env_path(&envs, "/work/pm-bin", Platform::Unix);
    let paths: Vec<&str> = get(&updated, "PATH").unwrap().split(':').collect();
    assert_eq!(paths.first(), Some(&"/work/pm-bin"));
    assert_eq!(paths.get(1), Some(&"/work/old-bin"));
}

#[test]
fn prepending_keeps_other_variables() {
    let envs = vec![
        ("HOME".to_string(), "/home/u".to_string()),
        ("PATH".to_string(), "/a:/b".to_string()),
    ];
    let updated = prepend_to_env_path(&envs, "/pm/bin", Platform::Unix);
    assert_eq!(get(&updated, "HOME"), Some("/home/u"));
    assert_eq!(get(&updated, "PATH"), Some("/pm/bin:/a:/b"));
    assert_eq!(updated.len(), 2);
}

#[test]
fn an_equal_path_with_trailing_slash_counts_as_first() {
    let envs = envs_with_path("/pm/bin/:/a");
    let updated = prepend_to_env_path(&envs, "/pm/bin", Platform::Unix);
    assert_eq!(get(&updated, "PATH"), Some("/pm/bin/:/a"));
}

#[test]
fn a_directory_with_the_separator_cannot_be_prepended() {
    let envs = envs_with_path("/a");
    assert!(try_prepend_to_env_path(&envs, "/bad:dir", Platform::Unix).is_err());
    let kept = prepend_to_env_path(&envs, "/bad:dir", Platform::Unix);
    assert_eq!(kept, envs);
}

#[test]
fn prepending_twice_is_prepending_once() {
    let envs = envs_with_path("/a:/b");
    let once = prepend_to_env_path(&envs, "/pm", Platform::Unix);
    let twice = prepend_to_env_path(&once, "/pm", Platform::Unix);
    assert_eq!(once, twice);
}

#[test]
fn routes_follow_the_subcommand() {
    let check = SynthesizableSubcommand::Check {
        fix: false,
        no_fmt: false,
        no_lint: false,
        no_error_on_unmatched_pattern: false,
        paths: Vec::new(),
    };
    assert_eq!(direct_route(&check), DirectRoute::Check);
    let lint_init = SynthesizableSubcommand::Lint { args: strings(&["--init"]) };
    assert_eq!(direct_route(&lint_init), DirectRoute::SuppressStdout);
    let fmt_migrate = SynthesizableSubcommand::Fmt { args: strings(&["--migrate", "prettier"]) };
    assert_eq!(direct_route(&fmt_migrate), DirectRoute::SuppressStdout);
    let fmt = SynthesizableSubcommand::Fmt { args: strings(&["src"]) };
    assert_eq!(direct_route(&fmt), DirectRoute::RewriteFmtHint);
    let fmt_after_terminator = SynthesizableSubcommand::Fmt { args: strings(&["--", "--init"]) };
    assert_eq!(direct_route(&fmt_after_terminator), DirectRoute::RewriteFmtHint);
    let build = SynthesizableSubcommand::Build { args: Vec::new() };
    assert_eq!(direct_route(&build), DirectRoute::Plain);
}

#[test]
fn filters_apply_to_their_stream() {
    assert_eq!(filter_stream(DirectRoute::SuppressStdout), Some(FilterStream::Stdout));
    assert_eq!(filter_stream(DirectRoute::RewriteFmtHint), Some(FilterStream::Stderr));
    assert_eq!(filter_stream(DirectRoute::Plain), None);
    assert_eq!(filter_output(DirectRoute::SuppressStdout, "noise\n"), "");
    assert_eq!(
        filter_output(
            DirectRoute::RewriteFmtHint,
            "No config found. Run `oxfmt --init` first; oxfmt --init creates it."
        ),
        "No config found. Run `vp fmt --init` first; vp fmt --init creates it."
    );
    assert_eq!(filter_output(DirectRoute::Plain, "as is"), "as is");
}

#[test]
fn a_retargeted_run_sets_pwd() {
    let envs = vec![("PWD".to_string(), "/caller".to_string()), ("X".to_string(), "1".to_string())];
    let kept = direct_envs(envs.clone(), false, "/target", Platform::Unix);
    assert_eq!(get(&kept, "PWD"), Some("/caller"));
    let moved = direct_envs(envs, true, "/target", Platform::Unix);
    assert_eq!(get(&moved, "PWD"), Some("/target"));
    assert_eq!(get(&moved, "X"), Some("1"));
    let created = direct_envs(Vec::new(), true, "/target", Platform::Unix);
    assert_eq!(get(&created, "PWD"), Some("/target"));
}

#[test]
fn the_installed_package_manager_goes_on_path() {
    let envs = envs_with_path("/usr/bin");
    let updated =
        envs_after_pm_install(&envs, &PmInstall::Installed("/home/u/.vite-plus/pm/pnpm/10.0.0".to_string()), Platform::Unix)
            .unwrap();
    assert_eq!(get(&updated, "PATH"), Some("/home/u/.vite-plus/pm/pnpm/10.0.0/bin:/usr/bin"));
    assert_eq!(envs_after_pm_install(&envs, &PmInstall::Unavailable, Platform::Unix).unwrap(), envs);
    assert!(envs_after_pm_install(&envs, &PmInstall::IntegrityFailure, Platform::Unix).is_err());
}
