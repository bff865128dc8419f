use vite_plus::trampoline::{
    call_failure_message, env_change_failed, execute_failure_suffix, extended_path, launch_plan,
    locate_shim, path_passes_as_is, pointer_size_ok, EnvChange, LaunchPlan, ShimLocation,
};

fn wide(s: &str) -> Vec<u16> {
    s.encode_utf16().collect()
}

fn versioned_pointer(layout: &str, data: &str, cache: &str) -> String {
    format!("vite-plus-shim-v1\nlayout={layout}\ndata={data}\ncache={cache}\n")
}

fn assigned<'a>(plan: &'a LaunchPlan, name: &str) -> Option<&'a Vec<u16>> {
    plan.env.iter().find_map(|c| match c {
        EnvChange::Assign(n, v) if *n == name => Some(v),
        _ => None,
    })
}

fn removes(plan: &LaunchPlan, name: &str) -> bool {
    plan.env.iter().any(|c| matches!(c, EnvChange::Remove(n) if *n == name))
}

fn location(exe: &str) -> ShimLocation {
    locate_shim(&wide(exe)).unwrap()
}

#[test]
fn pointer_file_locates_data_root() {
    let loc = location(r"C:\root\custom-bin\vp.exe");
    let bytes = versioned_pointer("split", r"C:\root\custom-data", r"C:\root\cache");
    let plan = launch_plan(&loc, bytes.as_bytes(), &wide("vp.exe")).unwrap();
    assert_eq!(plan.vp_exe, wide(r"C:\root\custom-data\current\bin\vp.exe"));
    assert_eq!(assigned(&plan, "VP_DATA_DIR"), Some(&wide(r"C:\root\custom-data")));
    assert!(removes(&plan, "VP_HOME"));
}

#[test]
fn unversioned_pointer_is_rejected() {
    let loc = location(r"C:\root\bin\vp.exe");
    let bytes = format!("{}\n", r"C:\root\data");
    assert!(launch_plan(&loc, bytes.as_bytes(), &wide("vp.exe")).is_none());
}

#[test]
fn pointer_file_is_per_exe_name() {
    let loc = location(r"C:\root\bin\node.exe");
    assert_eq!(loc.pointer_path, wide(r"C:\root\bin\node.shim"));
    assert_eq!(loc.tool, wide("node"));
    assert_eq!(loc.bin_dir, wide(r"C:\root\bin"));
    let bytes = versioned_pointer("split", r"C:\root\node-data", r"C:\root\cache");
    let plan = launch_plan(&loc, bytes.as_bytes(), &wide("node.exe")).unwrap();
    assert_eq!(plan.vp_exe, wide(r"C:\root\node-data\current\bin\vp.exe"));
    assert_eq!(assigned(&plan, "VP_SHIM_TOOL"), Some(&wide("node")));
}

#[test]
fn pointer_file_ignores_utf8_bom_and_crlf() {
    let loc = location(r"C:\root\bin\vp.exe");
    let mut contents = vec![0xEF, 0xBB, 0xBF];
    contents.extend_from_slice(
        versioned_pointer("split", r"C:\root\data-root", r"C:\root\cache")
            .replace('\n', "\r\n")
            .as_bytes(),
    );
    let plan = launch_plan(&loc, &contents, &wide("vp.exe")).unwrap();
    assert_eq!(plan.vp_exe, wide(r"C:\root\data-root\current\bin\vp.exe"));
    assert_eq!(assigned(&plan, "VP_DATA_DIR"), Some(&wide(r"C:\root\data-root")));
    assert!(removes(&plan, "VP_HOME"));
}

#[test]
fn explicit_split_does_not_become_single_root_when_bin_is_under_data() {
    let loc = location(r"C:\root\data\bin\vp.exe");
    let bytes = versioned_pointer("split", r"C:\root\data", r"C:\root\platform-cache");
    let plan = launch_plan(&loc, bytes.as_bytes(), &wide("vp.exe")).unwrap();
    assert_eq!(assigned(&plan, "VP_CACHE_DIR"), Some(&wide(r"C:\root\platform-cache")));
    assert_eq!(assigned(&plan, "VP_BIN_DIR"), Some(&wide(r"C:\root\data\bin")));
    assert!(assigned(&plan, "VP_HOME").is_none());
}

#[test]
fn explicit_single_root_sets_vp_home() {
    let loc = location(r"C:\root\bin\vp.exe");
    let bytes = versioned_pointer("single-root", r"C:\root", r"C:\root\cache");
    let plan = launch_plan(&loc, bytes.as_bytes(), &wide("vp.exe")).unwrap();
    assert_eq!(assigned(&plan, "VP_HOME"), Some(&wide(r"C:\root")));
    assert!(!removes(&plan, "VP_HOME"));
    assert!(assigned(&plan, "VP_DATA_DIR").is_none());
    assert!(assigned(&plan, "VP_SHIM_TOOL").is_none());
    assert_eq!(plan.env.len(), 1);
}

#[test]
fn child_command_line_quotes_vp_exe_and_keeps_the_tail() {
    let loc = location(r"C:\root\bin\npm.exe");
    let bytes = versioned_pointer("single-root", r"C:\root", r"C:\root\cache");
    let plan = launch_plan(&loc, bytes.as_bytes(), &wide(r#""C:\root\bin\npm.exe"  install  "a b""#))
        .unwrap();
    let mut expected = wide(r#""C:\root\current\bin\vp.exe"  install  "a b""#);
    expected.push(0);
    assert_eq!(plan.command_line, expected);
}

#[test]
fn a_path_without_separator_has_no_shim_location() {
    assert!(locate_shim(&wide("vp.exe")).is_none());
}

#[test]
fn sidecar_sizes_are_bounded() {
    assert!(!pointer_size_ok(0));
    assert!(pointer_size_ok(1));
    assert!(pointer_size_ok(1048576));
    assert!(!pointer_size_ok(1048577));
    assert!(!pointer_size_ok(-5));
}

#[test]
fn long_paths_get_the_extended_prefix() {
    let short = wide(r"C:\a\b");
    assert!(path_passes_as_is(&short));
    let long = wide(&format!(r"C:\{}", "x".repeat(300)));
    assert!(!path_passes_as_is(&long));
    let mut expected = wide(&format!(r"\\?\C:\{}", "x".repeat(300)));
    expected.push(0);
    assert_eq!(extended_path(&long), expected);
    assert!(path_passes_as_is(&wide(&format!(r"\\?\C:\{}", "x".repeat(300)))));
}

#[test]
fn failure_messages_name_the_call_and_code() {
    assert_eq!(
        call_failure_message(b"GetModuleFileNameW", 5),
        b"vite-plus shim: GetModuleFileNameW failed (Windows error 5)\n".to_vec()
    );
    assert_eq!(
        execute_failure_suffix(2),
        b"\" (Windows error 2): vp.exe is missing; reinstall vite-plus or run `vp env setup`\n"
            .to_vec()
    );
    assert_eq!(execute_failure_suffix(5), b"\" (Windows error 5)\n".to_vec());
}

#[test]
fn removing_a_missing_variable_is_not_a_failure() {
    assert!(!env_change_failed(true, 203));
    assert!(env_change_failed(true, 5));
    assert!(env_change_failed(false, 203));
}
