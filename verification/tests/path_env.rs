use vite_plus::path_env::{paths_equal, split_chars, PrependOptions, ToolPathEnv};
use vite_plus::path_list::Platform;

fn chars(s: &str) -> Vec<char> {
    s.chars().collect()
}

#[test]
fn injected_tools_accumulate_without_changing_other_environments() {
    let original = ToolPathEnv::new(String::new(), "node,npm,npx,node");
    let mut child = original.duplicate();
    child.prepend("/pnpm/bin", &["pnpm", "pnpx"], PrependOptions::default(), Platform::Unix).unwrap();
    assert!(child.contains("node"));
    assert!(child.contains("pnpx"));
    assert!(!child.contains("npmx"));
    assert!(!original.contains("pnpm"));
    assert_eq!(child.into_envs()[1].1, "node,npm,npx,pnpm,pnpx");
}

#[test]
fn reinjecting_a_directory_moves_it_ahead_of_other_versions() {
    let path = ["/system/bin", "/selected/bin", "/vp/bin"].join(":");
    let mut child = ToolPathEnv::new(path, "");
    child.prepend("/selected/bin", &["node"], PrependOptions::default(), Platform::Unix).unwrap();
    child.prepend("/selected/bin", &["npm", "npx"], PrependOptions::default(), Platform::Unix).unwrap();
    let envs = child.into_envs();
    let paths: Vec<&str> = envs[0].1.split(':').collect();
    assert_eq!(paths, ["/selected/bin", "/system/bin", "/vp/bin"]);
    assert_eq!(envs[1].1, "node,npm,npx");
}

#[test]
fn recording_an_existing_runtime_preserves_package_manager_precedence() {
    let path = ["/npm/bin", "/node/bin", "/vp/bin"].join(":");
    let mut child = ToolPathEnv::new(path.clone(), "npm,npx");
    child.prepend("/node/bin", &["node"], PrependOptions { dedupe_anywhere: true }, Platform::Unix).unwrap();
    let envs = child.into_envs();
    assert_eq!(envs[0].1, path);
    assert_eq!(envs[1].1, "node,npm,npx");
}

#[test]
fn failed_path_injection_does_not_record_tools_or_change_path() {
    let mut child = ToolPathEnv::new("/original/bin".to_string(), "node");
    let original = child.duplicate().into_envs();
    let invalid = "/invalid:path";
    assert!(child.prepend(invalid, &["pnpm", "pnpx"], PrependOptions::default(), Platform::Unix).is_err());
    assert_eq!(child.into_envs(), original);

    let mut child = ToolPathEnv::new("/original/bin".to_string(), "node");
    let original = child.duplicate().into_envs();
    let invalid = "/invalid\"path";
    assert!(child.prepend(invalid, &["pnpm", "pnpx"], PrependOptions::default(), Platform::Windows).is_err());
    assert_eq!(child.into_envs(), original);
}

#[test]
fn env_names_are_path_and_injected_tools() {
    let envs = ToolPathEnv::new("/a".to_string(), "").into_envs();
    assert_eq!(envs[0].0, "PATH");
    assert_eq!(envs[0].1, "/a");
    assert_eq!(envs[1].0, "VP_PATH_INJECTED_TOOLS");
    assert_eq!(envs[1].1, "");
}

#[test]
fn tools_come_out_sorted_and_once() {
    let env = ToolPathEnv::new(String::new(), ",zeta,,alpha,zeta,beta,");
    assert!(env.contains("alpha"));
    assert!(!env.contains(""));
    assert_eq!(env.into_envs()[1].1, "alpha,beta,zeta");
}

#[test]
fn prepend_without_dedupe_moves_an_equal_path_with_trailing_slash() {
    let mut env = ToolPathEnv::new("/a:/b/:/c".to_string(), "");
    env.prepend("/b", &[], PrependOptions::default(), Platform::Unix).unwrap();
    assert_eq!(env.into_envs()[0].1, "/b:/a:/c");
}

#[test]
fn dedupe_anywhere_prepends_a_missing_directory() {
    let mut env = ToolPathEnv::new("/a:/c".to_string(), "");
    env.prepend("/b", &["x"], PrependOptions { dedupe_anywhere: true }, Platform::Unix).unwrap();
    let envs = env.into_envs();
    assert_eq!(envs[0].1, "/b:/a:/c");
    assert_eq!(envs[1].1, "x");
}

#[test]
fn path_equality_ignores_repeated_separators_and_dot_components() {
    assert!(paths_equal(&chars("/usr//bin/"), &chars("/usr/./bin")));
    assert!(!paths_equal(&chars("/usr/bin"), &chars("usr/bin")));
    assert!(!paths_equal(&chars("/usr/bin"), &chars("/usr/bin/..")));
}

#[test]
fn split_chars_keeps_empty_pieces() {
    let parts = split_chars(&chars("a::b"), ':');
    assert_eq!(parts, vec![chars("a"), chars(""), chars("b")]);
}

#[test]
fn reprepending_a_tool_directory_keeps_the_path() {
    let mut once = ToolPathEnv::new("/usr/bin:/node/bin:/bin:/node/bin/".to_string(), "");
    once.prepend("/node/bin", &[], PrependOptions::default(), Platform::Unix).unwrap();
    let mut twice = once.duplicate();
    twice.prepend("/node/bin", &[], PrependOptions::default(), Platform::Unix).unwrap();
    assert_eq!(once.into_envs()[0].1, "/node/bin:/usr/bin:/bin");
    assert_eq!(twice.into_envs()[0].1, "/node/bin:/usr/bin:/bin");
}

#[test]
fn rendered_tools_are_the_sorted_union() {
    let mut env = ToolPathEnv::new("/a".to_string(), "zeta,alpha");
    env.prepend("/b", &["mid", "alpha"], PrependOptions::default(), Platform::Unix).unwrap();
    let envs = env.into_envs();
    assert_eq!(envs[0].1, "/b:/a");
    assert_eq!(envs[1].1, "alpha,mid,zeta");
}
