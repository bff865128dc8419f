use vite_plus::path_list::Platform;
use vite_plus::exec::{
    base_path_dirs, exec_usage_error, exit_byte, join_path_list, missing_command_message,
    package_path_env, package_status, plan_exec, prefix_line, sequential_stop,
    topological_sort_packages, unmatched_filter_report, worst_exit, ExecStart, FilterReport,
};

fn strings(values: &[&str]) -> Vec<String> {
    values.iter().map(|v| v.to_string()).collect()
}

fn names_in_order(sorted: &[u32], names: &[(u32, &str)]) -> Vec<String> {
    sorted
        .iter()
        .map(|id| names.iter().find(|(n, _)| n == id).unwrap().1.to_string())
        .collect()
}

fn position(names: &[String], name: &str) -> usize {
    names.iter().position(|n| n == name).unwrap()
}

#[test]
fn test_topological_sort_simple() {
    // app-a depends on lib-c; app-b stands alone.
    let names = [(1, "app-a"), (2, "app-b"), (3, "lib-c")];
    let sorted = topological_sort_packages(&[1, 2, 3], &[(1, 3)]);
    let names = names_in_order(&sorted, &names);
    assert!(position(&names, "lib-c") < position(&names, "app-a"));
    assert_eq!(names.len(), 3);
}

#[test]
fn test_topological_sort_with_cycles() {
    let names = [(1, "pkg-a"), (2, "pkg-b"), (3, "pkg-c")];
    let sorted = topological_sort_packages(&[1, 2, 3], &[(1, 2), (2, 1)]);
    let names = names_in_order(&sorted, &names);
    assert_eq!(names.len(), 3);
    assert!(names.contains(&"pkg-a".to_string()));
    assert!(names.contains(&"pkg-b".to_string()));
    assert!(names.contains(&"pkg-c".to_string()));
}

#[test]
fn test_topological_sort_cycle_with_dependent() {
    let names = [(1, "a"), (2, "b"), (3, "aa")];
    let sorted = topological_sort_packages(&[1, 2, 3], &[(1, 2), (2, 1), (3, 2)]);
    let names = names_in_order(&sorted, &names);
    assert!(position(&names, "b") < position(&names, "aa"));
    assert_eq!(names.len(), 3);
}

#[test]
fn test_topological_sort_cycle_with_non_cyclic_dependency() {
    let names = [(1, "c"), (2, "a"), (3, "b")];
    let sorted = topological_sort_packages(&[1, 2, 3], &[(2, 3), (3, 2), (2, 1)]);
    let names = names_in_order(&sorted, &names);
    assert!(position(&names, "c") < position(&names, "a"), "got: {names:?}");
    assert_eq!(names.len(), 3);
}

#[test]
fn dependencies_run_first_along_a_chain() {
    let sorted = topological_sort_packages(&[10, 20, 30, 40], &[(10, 20), (20, 30), (30, 40)]);
    assert_eq!(sorted, vec![40, 30, 20, 10]);
}

#[test]
fn a_self_dependency_keeps_every_package() {
    let mut sorted = topological_sort_packages(&[1, 2], &[(1, 1), (1, 2)]);
    assert!(sorted.iter().position(|&n| n == 2) < sorted.iter().position(|&n| n == 1));
    sorted.sort();
    assert_eq!(sorted, vec![1, 2]);
}

#[test]
fn exec_without_a_command_prints_usage() {
    let message = exec_usage_error(&[]).unwrap();
    assert!(message.starts_with("'vp exec' requires a command to run\n\nUsage: vp exec [--] <command> [args...]"));
    assert!(message.ends_with("Examples:\n  vp exec node --version\n  vp exec tsc --noEmit"));
    assert!(exec_usage_error(&strings(&["node"])).is_none());
}

#[test]
fn unmatched_filters_fail_or_warn() {
    match unmatched_filter_report(true, &strings(&["@scope/*", "missing"])) {
        FilterReport::Fail(m) => assert_eq!(m, "No packages matched the filter: @scope/*, missing"),
        _ => panic!("expected a failure"),
    }
    match unmatched_filter_report(false, &strings(&["missing"])) {
        FilterReport::Warn(w) => assert_eq!(w, ["No packages matched the filter 'missing'"]),
        _ => panic!("expected warnings"),
    }
    match unmatched_filter_report(true, &[]) {
        FilterReport::Warn(w) => assert!(w.is_empty()),
        _ => panic!("expected no failure"),
    }
}

fn selection() -> Vec<(u32, String)> {
    vec![(3, "lib-c".to_string()), (1, "app-a".to_string()), (2, "app-b".to_string())]
}

fn order_names(start: &ExecStart) -> Vec<&str> {
    match start {
        ExecStart::Run { order, .. } => order.iter().map(|(_, n)| n.as_str()).collect(),
        _ => panic!("expected a run"),
    }
}

#[test]
fn reverse_and_resume_from_shape_the_order() {
    let start = plan_exec(selection(), false, None, false);
    assert_eq!(order_names(&start), ["lib-c", "app-a", "app-b"]);
    let start = plan_exec(selection(), true, None, false);
    assert_eq!(order_names(&start), ["app-b", "app-a", "lib-c"]);
    let start = plan_exec(selection(), false, Some("app-a"), false);
    assert_eq!(order_names(&start), ["app-a", "app-b"]);
    let start = plan_exec(selection(), true, Some("app-a"), true);
    assert_eq!(order_names(&start), ["app-a", "lib-c"]);
    match start {
        ExecStart::Run { show_prefix, use_caller_cwd, .. } => {
            assert!(show_prefix);
            assert!(use_caller_cwd);
        }
        _ => unreachable!(),
    }
}

#[test]
fn resume_from_an_unselected_package_stops() {
    match plan_exec(selection(), false, Some("nope"), false) {
        ExecStart::Stop(m) => assert_eq!(m, "Package 'nope' not found in selected packages"),
        _ => panic!("expected a stop"),
    }
}

#[test]
fn a_single_package_runs_without_prefix_and_none_warns() {
    match plan_exec(vec![(7, "only".to_string())], false, None, false) {
        ExecStart::Run { show_prefix, .. } => assert!(!show_prefix),
        _ => panic!("expected a run"),
    }
    assert!(matches!(plan_exec(Vec::new(), false, None, false), ExecStart::NothingSelected));
}

#[test]
fn prefix_lines_show_the_command() {
    assert_eq!(prefix_line("app-a", &strings(&["node", "--version"])), "app-a$ node --version");
    assert_eq!(
        missing_command_message("tsc"),
        "Command 'tsc' not found in node_modules/.bin\n\nRun `vp install` to install dependencies, or use `vpx` for invoking remote commands."
    );
}

#[test]
fn package_path_puts_its_bin_first() {
    let base = base_path_dirs(
        Some("/pm/bin".to_string()),
        None,
        strings(&["/usr/bin", "/bin"]),
    );
    assert_eq!(base, ["/pm/bin", "/usr/bin", "/bin"]);
    let base_path = join_path_list(&base, Platform::Unix).unwrap();
    assert_eq!(base_path, "/pm/bin:/usr/bin:/bin");
    assert_eq!(
        package_path_env(Some("/ws/pkg/node_modules/.bin"), &base, &base_path, Platform::Unix),
        "/ws/pkg/node_modules/.bin:/pm/bin:/usr/bin:/bin"
    );
    assert_eq!(package_path_env(None, &base, &base_path, Platform::Unix), base_path);
    assert_eq!(package_path_env(Some("/bad:dir"), &base, &base_path, Platform::Unix), "");
    assert!(join_path_list(&strings(&["/a", "b:c"]), Platform::Unix).is_none());
}

#[test]
fn exit_codes_keep_their_low_byte() {
    assert_eq!(exit_byte(Some(0)), 0);
    assert_eq!(exit_byte(Some(2)), 2);
    assert_eq!(exit_byte(Some(256)), 0);
    assert_eq!(exit_byte(Some(-1)), 255);
    assert_eq!(exit_byte(None), 1);
}

#[test]
fn parallel_runs_report_the_worst_code() {
    assert_eq!(worst_exit(&[]), 0);
    assert_eq!(worst_exit(&[Some(0), Some(3), Some(1)]), 3);
    assert_eq!(worst_exit(&[Some(0), None]), 1);
    assert_eq!(worst_exit(&[Some(0), Some(300)]), 44);
}

#[test]
fn sequential_runs_stop_at_the_first_failure() {
    assert_eq!(sequential_stop(Some(0)), None);
    assert_eq!(sequential_stop(Some(7)), Some(7));
    assert_eq!(sequential_stop(None), Some(1));
    assert_eq!(sequential_stop(Some(512)), None);
    assert_eq!(package_status(0), "passed");
    assert_eq!(package_status(9), "failed");
}
