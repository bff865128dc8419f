use vite_plus::dirs::{resolve_windows_dirs, VpDirs, VpDirsLayout, WindowsDirSources};
use vite_plus::cli::direct::{direct_envs, prepend_to_env_path, try_prepend_to_env_path};
use vite_plus::exec::{join_path_list, package_path_env};
use vite_plus::install::pnpm_install_envs;
use vite_plus::path_env::{PrependOptions, ToolPathEnv};
use vite_plus::path_list::{join_path_entries, same_path_exec, split_path_list, Platform};

fn chars(s: &str) -> Vec<char> {
    s.chars().collect()
}

fn text(v: &[char]) -> String {
    v.iter().collect()
}

fn entries(s: &str, p: Platform) -> Vec<String> {
    split_path_list(p, &chars(s)).iter().map(|e| text(e)).collect()
}

fn pair(k: &str, v: &str) -> (String, String) {
    (k.to_string(), v.to_string())
}

#[test]
fn windows_split_drops_quotes_and_keeps_quoted_semicolons() {
    assert_eq!(
        entries("c:\\foo;c:\\som\"e;di\"r;c:\\bar", Platform::Windows),
        ["c:\\foo", "c:\\some;dir", "c:\\bar"]
    );
    assert_eq!(entries("a;;b;", Platform::Windows), ["a", "", "b", ""]);
}

#[test]
fn windows_split_of_a_list_with_an_empty_first_entry_is_empty() {
    assert!(entries("", Platform::Windows).is_empty());
    assert!(entries(";a", Platform::Windows).is_empty());
    assert_eq!(entries("", Platform::Unix), [""]);
    assert_eq!(entries("a:b", Platform::Unix), ["a", "b"]);
    assert_eq!(entries("a:b", Platform::Windows), ["a:b"]);
}

#[test]
fn windows_join_quotes_semicolons_and_refuses_quotes() {
    let es = vec![chars("C:\\a"), chars("C:\\b;c"), chars("D:\\d")];
    let joined = join_path_entries(Platform::Windows, &es).unwrap();
    assert_eq!(text(&joined), "C:\\a;\"C:\\b;c\";D:\\d");
    assert_eq!(entries(&text(&joined), Platform::Windows), ["C:\\a", "C:\\b;c", "D:\\d"]);
    assert!(join_path_entries(Platform::Windows, &vec![chars("a\"b")]).is_none());
    assert_eq!(text(&join_path_entries(Platform::Windows, &vec![chars("a:b")]).unwrap()), "a:b");
    assert!(join_path_entries(Platform::Unix, &vec![chars("a:b")]).is_none());
    assert_eq!(text(&join_path_entries(Platform::Unix, &vec![chars("a\"b")]).unwrap()), "a\"b");
}

#[test]
fn windows_paths_compare_drive_letters_ignoring_case_and_both_separators() {
    assert!(same_path_exec(Platform::Windows, &chars("C:\\tools\\"), &chars("c:/tools")));
    assert!(!same_path_exec(Platform::Windows, &chars("C:\\tools"), &chars("D:\\tools")));
    assert!(!same_path_exec(Platform::Windows, &chars("C:\\tools"), &chars("C:tools")));
    assert!(!same_path_exec(Platform::Windows, &chars("\\\\srv\\share"), &chars("\\srv\\share")));
    assert!(same_path_exec(Platform::Windows, &chars("\\\\srv\\share\\x\\"), &chars("//srv/share/x")));
    assert!(!same_path_exec(Platform::Windows, &chars("C:\\Tools"), &chars("C:\\tools")));
    assert!(!same_path_exec(Platform::Unix, &chars("C:\\tools"), &chars("c:/tools")));
}

#[test]
fn windows_prepend_uses_semicolons_and_drive_paths() {
    let mut env = ToolPathEnv::new("C:\\Windows;c:\\node\\;D:\\bin".to_string(), "");
    env.prepend("C:\\node", &["node"], PrependOptions::default(), Platform::Windows).unwrap();
    let envs = env.into_envs();
    assert_eq!(envs[0].1, "C:\\node;C:\\Windows;D:\\bin");
    assert_eq!(envs[1].1, "node");
}

#[test]
fn windows_prepend_twice_keeps_the_path() {
    let mut once = ToolPathEnv::new("C:\\a;\"C:\\b;c\"".to_string(), "");
    once.prepend("C:\\pm", &[], PrependOptions::default(), Platform::Windows).unwrap();
    let mut twice = once.duplicate();
    twice.prepend("C:\\pm", &[], PrependOptions::default(), Platform::Windows).unwrap();
    assert_eq!(once.into_envs()[0].1, "C:\\pm;C:\\a;\"C:\\b;c\"");
    assert_eq!(twice.into_envs()[0].1, "C:\\pm;C:\\a;\"C:\\b;c\"");
}

#[test]
fn windows_direct_path_key_matches_ignoring_case() {
    let envs = vec![pair("Path", "C:\\Windows"), pair("HOME", "C:\\u")];
    let updated = prepend_to_env_path(&envs, "C:\\pm\\bin", Platform::Windows);
    assert_eq!(updated, vec![pair("Path", "C:\\pm\\bin;C:\\Windows"), pair("HOME", "C:\\u")]);
    let unix = prepend_to_env_path(&envs, "/pm/bin", Platform::Unix);
    assert_eq!(unix, vec![pair("Path", "C:\\Windows"), pair("HOME", "C:\\u"), pair("PATH", "/pm/bin")]);
    assert!(try_prepend_to_env_path(&envs, "C:\\bad\"dir", Platform::Windows).is_err());
    let first = prepend_to_env_path(&updated, "c:/pm/bin/", Platform::Windows);
    assert_eq!(first, updated);
}

#[test]
fn pwd_follows_a_retarget_only_on_unix() {
    let envs = vec![pair("PWD", "/old")];
    assert_eq!(direct_envs(envs.clone(), true, "C:\\target", Platform::Windows), envs);
    assert_eq!(direct_envs(envs, true, "/target", Platform::Unix), vec![pair("PWD", "/target")]);
}

#[test]
fn windows_package_path_and_pnpm_path_use_semicolons() {
    let base = vec!["C:\\pm".to_string(), "C:\\Windows".to_string()];
    let base_path = join_path_list(&base, Platform::Windows).unwrap();
    assert_eq!(base_path, "C:\\pm;C:\\Windows");
    assert_eq!(
        package_path_env(Some("C:\\ws\\pkg\\node_modules\\.bin"), &base, &base_path, Platform::Windows),
        "C:\\ws\\pkg\\node_modules\\.bin;C:\\pm;C:\\Windows"
    );
    let envs = pnpm_install_envs("C:\\node", "C:\\pnpm", &["C:\\a:b".to_string()], None, Platform::Windows).unwrap();
    assert_eq!(envs[1], pair("PATH", "C:\\node;C:\\pnpm;C:\\a:b"));
    let err = pnpm_install_envs("C:\\no\"de", "C:\\pnpm", &[], None, Platform::Windows).unwrap_err();
    assert_eq!(err, "Failed to build PATH for pnpm: path segment contains `\"`");
}

#[test]
fn windows_dirs_live_under_the_application_data_folders() {
    let s = WindowsDirSources {
        home: "C:\\Users\\u".to_string(),
        vp_home: None,
        user_home_install: false,
        split: None,
        known_local: Some("C:\\Users\\u\\AppData\\Local".to_string()),
        known_roaming: None,
    };
    assert_eq!(
        resolve_windows_dirs(&s),
        VpDirs {
            bin: "C:\\Users\\u\\AppData\\Local\\vite-plus\\bin".to_string(),
            data: "C:\\Users\\u\\AppData\\Local\\vite-plus\\data".to_string(),
            cache: "C:\\Users\\u\\AppData\\Local\\vite-plus\\cache".to_string(),
            config: "C:\\Users\\u\\AppData\\Roaming\\vite-plus".to_string(),
            state: "C:\\Users\\u\\AppData\\Local\\vite-plus\\state".to_string(),
            layout: VpDirsLayout::Split,
        }
    );
    let installed = WindowsDirSources { user_home_install: true, ..s.clone() };
    let d = resolve_windows_dirs(&installed);
    assert_eq!(d.bin, "C:\\Users\\u\\.vite-plus\\bin");
    assert_eq!(d.data, "C:\\Users\\u\\.vite-plus");
    assert_eq!(d.layout, VpDirsLayout::SingleRoot);
    let split = WindowsDirSources {
        split: Some(("D:\\b".to_string(), "D:\\d".to_string(), "D:\\c".to_string())),
        ..s
    };
    let d = resolve_windows_dirs(&split);
    assert_eq!((d.bin.as_str(), d.data.as_str(), d.cache.as_str()), ("D:\\b", "D:\\d", "D:\\c"));
    assert_eq!(d.config, "C:\\Users\\u\\AppData\\Roaming\\vite-plus");
    assert_eq!(d.state, "C:\\Users\\u\\AppData\\Local\\vite-plus\\state");
}

#[test]
fn tls_provider_is_installed_once_on_unix_and_left_alone_on_windows() {
    vite_plus::tls::ensure_tls_provider(Platform::Unix);
    vite_plus::tls::ensure_tls_provider(Platform::Unix);
    vite_plus::tls::ensure_tls_provider(Platform::Windows);
}
