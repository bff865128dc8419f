use vite_plus::path_list::Platform;
use vite_plus::install::{
    format_install_failure_message, is_install_dir_for_version, is_safe_tar_path, supports_split_layout,
    target_install_dir_name, upgrade_log_content, versions_to_remove, VersionDir,
    detect_platform_suffix, pnpm_install_args, pnpm_install_envs, release_age_overrides,
};

#[test]
fn forced_active_version_installs_to_unique_semver_dir() {
    let dir = target_install_dir_name("0.1.23", Some("0.1.23"), true, 4242, 1_700_000_000_123);
    assert!(dir.starts_with("0.1.23+force."));
    assert_eq!(dir, "0.1.23+force.4242.1700000000123");
}

#[test]
fn forced_active_reinstall_dir_installs_to_new_unique_dir() {
    let dir = target_install_dir_name("0.1.23", Some("0.1.23+force.1.2"), true, 7, 99);
    assert!(dir.starts_with("0.1.23+force."));
    assert_ne!(dir, "0.1.23+force.1.2");
}

#[test]
fn non_active_or_non_forced_version_uses_plain_version_dir() {
    assert_eq!(target_install_dir_name("0.1.24", Some("0.1.23"), true, 1, 2), "0.1.24");
    assert_eq!(target_install_dir_name("0.1.23", Some("0.1.23"), false, 1, 2), "0.1.23");
    assert_eq!(target_install_dir_name("0.1.23", None, true, 1, 2), "0.1.23");
}

#[test]
fn active_version_detection_matches_plain_and_forced_dirs() {
    assert!(is_install_dir_for_version("0.1.23", "0.1.23"));
    assert!(is_install_dir_for_version("0.1.23+force.1.2", "0.1.23"));
    assert!(!is_install_dir_for_version("0.1.230", "0.1.23"));
    assert!(!is_install_dir_for_version("0.1.24", "0.1.23"));
}

#[test]
fn test_is_safe_tar_path_normal() {
    assert!(is_safe_tar_path("dist/index.js"));
    assert!(is_safe_tar_path("bin/vp"));
    assert!(is_safe_tar_path("package.json"));
    assert!(is_safe_tar_path("templates/react/index.ts"));
}

#[test]
fn test_is_safe_tar_path_traversal() {
    assert!(!is_safe_tar_path("../etc/passwd"));
    assert!(!is_safe_tar_path("dist/../../etc/passwd"));
    assert!(!is_safe_tar_path(".."));
}

#[test]
fn test_is_safe_tar_path_absolute() {
    assert!(!is_safe_tar_path("/etc/passwd"));
    assert!(!is_safe_tar_path("/usr/bin/vp"));
}

#[test]
fn dotted_names_are_not_parent_components() {
    assert!(is_safe_tar_path("dist/..x/a"));
    assert!(is_safe_tar_path("a.."));
}

#[test]
fn failure_message_mentions_the_log() {
    assert_eq!(
        format_install_failure_message(-3, Some("/data/upgrade.log")),
        "Failed to install production dependencies (exit code: -3). See log for details: /data/upgrade.log"
    );
    assert_eq!(
        format_install_failure_message(1, None),
        "Failed to install production dependencies (exit code: 1)"
    );
}

#[test]
fn upgrade_log_has_both_sections() {
    let content = upgrade_log_content("some stdout output", "error: something went wrong");
    assert!(content.contains("=== stdout ==="));
    assert!(content.contains("some stdout output"));
    assert!(content.contains("=== stderr ==="));
    assert!(content.contains("error: something went wrong"));
    assert_eq!(upgrade_log_content("", ""), "=== stdout ===\n\n=== stderr ===\n");
}

fn entries(list: &[(&str, u128)]) -> Vec<VersionDir> {
    list.iter().map(|(n, t)| VersionDir { name: n.to_string(), created: *t }).collect()
}

#[test]
fn test_cleanup_preserves_active_downgraded_version() {
    let es = entries(&[
        ("0.1.0", 1),
        ("0.2.0", 2),
        ("0.3.0", 3),
        ("0.4.0", 4),
        ("0.5.0", 5),
        ("0.6.0", 6),
        ("0.7.0", 7),
        ("current", 8),
    ]);
    let removed = versions_to_remove(&es, 5, &["0.2.0".to_string()]);
    assert_eq!(removed, vec!["0.1.0".to_string()]);
}

#[test]
fn test_cleanup_sorts_by_creation_time_not_semver() {
    let es = entries(&[
        ("0.5.0", 1),
        ("0.1.0", 2),
        ("0.3.0", 3),
        ("0.7.0", 4),
        ("0.2.0", 5),
        ("0.6.0", 6),
    ]);
    let removed = versions_to_remove(&es, 4, &[]);
    assert_eq!(removed, vec!["0.5.0".to_string(), "0.1.0".to_string()]);
}

#[test]
fn test_cleanup_removes_old_forced_reinstall_dir() {
    let es = entries(&[
        ("0.1.23+force.123.456", 1),
        ("0.1.24", 2),
        ("0.1.25", 3),
        ("0.1.26", 4),
        ("0.1.27", 5),
        ("0.1.28", 6),
    ]);
    assert_eq!(versions_to_remove(&es, 5, &[]), vec!["0.1.23+force.123.456".to_string()]);
}

#[test]
fn test_cleanup_preserves_protected_forced_reinstall_dir() {
    let es = entries(&[
        ("0.1.23+force.123.456", 1),
        ("0.1.24", 2),
        ("0.1.25", 3),
        ("0.1.26", 4),
        ("0.1.27", 5),
        ("0.1.28", 6),
    ]);
    assert!(versions_to_remove(&es, 5, &["0.1.23+force.123.456".to_string()]).is_empty());
}

#[test]
fn cleanup_keeps_listing_order_among_equal_times() {
    let es = entries(&[("1.0.0", 5), ("2.0.0", 5), ("3.0.0", 5)]);
    assert_eq!(versions_to_remove(&es, 2, &[]), vec!["3.0.0".to_string()]);
}

#[test]
fn split_layout_support_by_version() {
    assert!(supports_split_layout("0.3.0"));
    assert!(supports_split_layout("0.3.0-alpha.1"));
    assert!(supports_split_layout("0.4.2"));
    assert!(supports_split_layout("1.0.0"));
    assert!(supports_split_layout("0.0.0-commit.0123abc"));
    assert!(!supports_split_layout("0.0.0-alpha.1"));
    assert!(!supports_split_layout("0.0.0-dev"));
    assert!(!supports_split_layout("0.0.0+foo"));
    assert!(!supports_split_layout("0.0.0-commit"));
    assert!(!supports_split_layout("0.2.9"));
    assert!(!supports_split_layout("0.2.0"));
    assert!(!supports_split_layout("0.1.14-alpha.1"));
    assert!(!supports_split_layout("not-a-version"));
}

#[test]
fn test_detect_platform_suffix() {
    let suffix = detect_platform_suffix("linux", "x86_64", false).unwrap();
    assert!(!suffix.is_empty());
    assert!(suffix.contains('-'));
    assert_eq!(suffix, "linux-x64-gnu");
    assert_eq!(detect_platform_suffix("macos", "aarch64", false).unwrap(), "darwin-arm64");
    assert_eq!(detect_platform_suffix("macos", "x86_64", false).unwrap(), "darwin-x64");
    assert_eq!(detect_platform_suffix("linux", "x86_64", true).unwrap(), "linux-x64-musl");
    assert_eq!(detect_platform_suffix("linux", "aarch64", false).unwrap(), "linux-arm64-gnu");
    assert_eq!(detect_platform_suffix("linux", "aarch64", true).unwrap(), "linux-arm64-musl");
    assert_eq!(detect_platform_suffix("windows", "x86_64", false).unwrap(), "win32-x64-msvc");
}

#[test]
fn unsupported_platforms_are_errors() {
    assert_eq!(
        detect_platform_suffix("freebsd", "x86_64", false),
        Err("Unsupported operating system: freebsd".to_string())
    );
    assert_eq!(
        detect_platform_suffix("linux", "riscv64", false),
        Err("Unsupported architecture: riscv64".to_string())
    );
}

#[test]
fn pnpm_install_arguments() {
    assert_eq!(pnpm_install_args(None), vec!["install".to_string(), "--ignore-workspace".to_string()]);
    assert_eq!(
        pnpm_install_args(Some("https://registry.example.com/")),
        vec![
            "install".to_string(),
            "--ignore-workspace".to_string(),
            "--registry".to_string(),
            "https://registry.example.com/".to_string()
        ]
    );
}

#[test]
fn run_pnpm_install_puts_managed_node_first() {
    let envs = pnpm_install_envs("/v/node/bin", "/v/pnpm/bin", &["/usr/bin".to_string()], None, Platform::Unix).unwrap();
    assert_eq!(
        envs,
        vec![
            ("CI".to_string(), "true".to_string()),
            ("PATH".to_string(), "/v/node/bin:/v/pnpm/bin:/usr/bin".to_string())
        ]
    );
    let envs = pnpm_install_envs("/n", "/p", &[], Some("https://registry.example.com/"), Platform::Unix).unwrap();
    assert_eq!(envs[2], ("npm_config_registry".to_string(), "https://registry.example.com/".to_string()));
    assert!(pnpm_install_envs("/a:b", "/p", &[], None, Platform::Unix).is_err());
}

#[test]
fn release_age_override_lifts_the_minimum_age() {
    assert!(release_age_overrides().contains("minimum-release-age=0"));
}

#[test]
fn forced_directories_of_other_processes_or_times_differ() {
    let active = target_install_dir_name("0.1.23", Some("0.1.23"), true, 7, 100);
    let again = target_install_dir_name("0.1.23", Some(&active), true, 7, 101);
    let other = target_install_dir_name("0.1.23", Some(&active), true, 71, 0);
    assert_ne!(again, active);
    assert_ne!(other, active);
    assert_ne!(target_install_dir_name("0.1.23", Some(&active), true, 1, 7100), target_install_dir_name("0.1.23", Some(&active), true, 17, 100));
    assert!(is_install_dir_for_version(&again, "0.1.23"));
}
