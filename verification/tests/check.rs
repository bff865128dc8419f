use vite_plus::check::{
    analyze_fmt_check_output, analyze_lint_output, check_after_fmt, check_after_lint,
    check_after_refmt, check_start, combine_output, format_count, lint_config_type_check_enabled,
    parse_check_summary, parse_issue_count, parse_warning_error_counts, CheckAction, CheckMessage,
    CheckOptions, LintMessageKind, LintOptionFlags,
};

fn chars(s: &str) -> Vec<char> {
    s.chars().collect()
}

fn opts(fix: bool, no_fmt: bool, no_lint: bool, paths: &[&str]) -> CheckOptions {
    CheckOptions {
        fix,
        no_fmt,
        no_lint,
        no_error_on_unmatched_pattern: false,
        paths: paths.iter().map(|p| p.to_string()).collect(),
        type_check_enabled: false,
    }
}

fn args(action: &CheckAction) -> Vec<String> {
    match action {
        CheckAction::RunFmt(a) | CheckAction::RunLint(a) => a.clone(),
        CheckAction::Exit(_) => vec![],
    }
}

#[test]
fn lint_message_kind_type_check_only_labels() {
    let kind = LintMessageKind::from_flags(false, true);
    assert_eq!(kind, LintMessageKind::TypeCheckOnly);
    assert_eq!(kind.success_label(), "Found no type errors");
    assert_eq!(kind.warning_heading(), "Type warnings found");
    assert_eq!(kind.issue_heading(), "Type errors found");
}

#[test]
fn lint_message_kind_detects_type_check() {
    let kind = LintMessageKind::from_flags(true, true);
    assert_eq!(kind, LintMessageKind::LintAndTypeCheck);
    assert_eq!(kind.success_label(), "Found no warnings, lint errors, or type errors");
    assert_eq!(kind.warning_heading(), "Lint or type warnings found");
    assert_eq!(kind.issue_heading(), "Lint or type issues found");
    assert_eq!(LintMessageKind::from_flags(true, false), LintMessageKind::LintOnly);
}

#[test]
fn type_check_needs_type_aware() {
    assert!(!lint_config_type_check_enabled(None));
    let flags = |a, c| Some(LintOptionFlags { type_aware: a, type_check: c });
    assert!(lint_config_type_check_enabled(flags(Some(true), Some(true))));
    assert!(!lint_config_type_check_enabled(flags(None, Some(true))));
    assert!(!lint_config_type_check_enabled(flags(Some(false), Some(true))));
    assert!(!lint_config_type_check_enabled(flags(Some(true), Some(false))));
    assert!(!lint_config_type_check_enabled(flags(Some(true), None)));
}

#[test]
fn summary_line_is_read() {
    let s = parse_check_summary(&chars("Finished in 12ms on 3 files using 8 threads.")).unwrap();
    assert_eq!(s.duration, "12ms");
    assert_eq!(s.files, 3);
    assert_eq!(s.threads, 8);
    let s = parse_check_summary(&chars("Finished in 1.2s on 1 file using 1 thread.")).unwrap();
    assert_eq!((s.duration.as_str(), s.files, s.threads), ("1.2s", 1, 1));
    assert!(parse_check_summary(&chars("Finished in 12ms on many files using 8 threads.")).is_none());
    assert!(parse_check_summary(&chars("Done in 12ms on 3 files using 8 threads.")).is_none());
}

#[test]
fn counts_are_read() {
    assert_eq!(parse_warning_error_counts(&chars("Found 2 warnings and 1 error.")), Some((2, 1)));
    assert_eq!(parse_warning_error_counts(&chars("Found 0 warnings and 0 errors.")), Some((0, 0)));
    assert_eq!(parse_warning_error_counts(&chars("Found x warnings and 0 errors.")), None);
    assert_eq!(parse_issue_count(&chars("Format issues found in above 4 files."), "Format issues found in above "), Some(4));
    assert_eq!(parse_issue_count(&chars("Other 4 files."), "Format issues found in above "), None);
}

#[test]
fn counts_are_worded() {
    assert_eq!(format_count(1, "file", "files"), "1 file");
    assert_eq!(format_count(0, "file", "files"), "0 files");
    assert_eq!(format_count(12, "error", "errors"), "12 errors");
}

#[test]
fn formatter_success_is_recognized() {
    let out = "Checking formatting...\n\nAll matched files use the correct format.\nFinished in 5ms on 10 files using 4 threads.\n";
    match analyze_fmt_check_output(&chars(out)) {
        Some(Ok(s)) => {
            assert_eq!(s.summary.files, 10);
            assert_eq!(s.summary.threads, 4);
            assert_eq!(s.summary.duration, "5ms");
        }
        _ => panic!("expected success"),
    }
}

#[test]
fn formatter_issues_are_listed() {
    let out = "Checking formatting...\nsrc/a.ts\n\nsrc/b.ts\nFormat issues found in above 2 files. Run `oxfmt` to fix.\nFinished in 5ms on 10 files using 4 threads.";
    match analyze_fmt_check_output(&chars(out)) {
        Some(Err(f)) => {
            assert_eq!(f.issue_files, vec!["src/a.ts".to_string(), "src/b.ts".to_string()]);
            assert_eq!(f.issue_count, 2);
            assert_eq!(f.summary.files, 10);
        }
        _ => panic!("expected failure"),
    }
    assert!(analyze_fmt_check_output(&chars("   \n ")).is_none());
    assert!(analyze_fmt_check_output(&chars("error: no config")).is_none());
}

#[test]
fn linter_output_is_read() {
    let clean = "Found 0 warnings and 0 errors.\nFinished in 3ms on 5 files using 2 threads.";
    assert!(matches!(analyze_lint_output(&chars(clean)), Some(Ok(_))));
    let dirty = "\n  x rule: problem\n  at a.ts:1\n\nFound 1 warning and 2 errors.\nFinished in 3ms on 5 files using 2 threads.\n";
    match analyze_lint_output(&chars(dirty)) {
        Some(Err(f)) => {
            assert_eq!((f.warnings, f.errors), (1, 2));
            assert_eq!(f.diagnostics, "x rule: problem\n  at a.ts:1");
        }
        _ => panic!("expected failure"),
    }
    assert!(analyze_lint_output(&chars("Finished in 3ms on 5 files using 2 threads.")).is_none());
}

#[test]
fn output_streams_are_combined() {
    assert_eq!(combine_output("out", ""), chars("out"));
    assert_eq!(combine_output("", "err"), chars("err"));
    assert_eq!(combine_output("out", "err"), chars("outerr"));
}

#[test]
fn no_checks_is_an_error() {
    let step = check_start(&opts(false, true, true, &[]));
    assert!(matches!(step.action, CheckAction::Exit(1)));
    assert!(matches!(&step.messages[0], CheckMessage::Error(m) if m == "No checks enabled"));
    assert!(matches!(&step.messages[1], CheckMessage::Summary(m) if m.contains("--no-fmt")));
}

#[test]
fn check_runs_the_formatter_first() {
    let step = check_start(&opts(false, false, false, &["src"]));
    assert!(matches!(step.action, CheckAction::RunFmt(_)));
    assert_eq!(args(&step.action), vec!["--check".to_string(), "src".to_string()]);
    let step = check_start(&opts(true, false, false, &["src"]));
    assert_eq!(args(&step.action), vec!["--no-error-on-unmatched-pattern".to_string(), "src".to_string()]);
    let step = check_start(&opts(false, true, false, &[]));
    assert!(matches!(step.action, CheckAction::RunLint(_)));
    assert_eq!(args(&step.action), vec!["--format=default".to_string()]);
}

#[test]
fn clean_format_moves_on_to_lint() {
    let o = opts(false, false, false, &[]);
    let out = "All matched files use the correct format.\nFinished in 5ms on 1 file using 4 threads.";
    let step = check_after_fmt(&o, 0, out, "", "5ms");
    assert!(matches!(step.action, CheckAction::RunLint(_)));
    match &step.messages[0] {
        CheckMessage::Pass(m, Some(d)) => {
            assert_eq!(m, "All 1 file are correctly formatted");
            assert_eq!(d, "(5ms, 4 threads)");
        }
        other => panic!("unexpected {other:?}"),
    }
}

#[test]
fn format_failure_stops_the_check() {
    let o = opts(false, false, false, &[]);
    let out = "Checking formatting...\nsrc/a.ts\nFormat issues found in above 1 files.\nFinished in 5ms on 3 files using 4 threads.";
    let step = check_after_fmt(&o, 1, out, "", "5ms");
    assert!(matches!(step.action, CheckAction::Exit(1)));
    assert!(matches!(&step.messages[0], CheckMessage::Error(m) if m == "Formatting issues found"));
    assert!(matches!(&step.messages[1], CheckMessage::Stdout(m) if m == "src/a.ts"));
    assert!(matches!(&step.messages[2], CheckMessage::Summary(m) if m == "Found formatting issues in 1 file (5ms, 4 threads). Run `vp check --fix` to fix them."));
}

#[test]
fn lint_warnings_alone_pass() {
    let o = opts(false, false, false, &[]);
    let out = "warn: something\nFound 2 warnings and 0 errors.\nFinished in 3ms on 5 files using 2 threads.";
    let (step, deferred) = check_after_lint(&o, 1, out, "");
    assert!(deferred.is_none());
    assert!(matches!(step.action, CheckAction::Exit(0)));
    assert!(matches!(&step.messages[0], CheckMessage::Warn(m) if m == "Lint warnings found"));
    assert!(matches!(&step.messages[2], CheckMessage::Summary(m) if m == "Found 0 errors and 2 warnings in 5 files (3ms, 2 threads)"));
}

#[test]
fn fix_defers_the_lint_pass_line_until_formatting_is_redone() {
    let o = opts(true, false, false, &[]);
    let out = "Found 0 warnings and 0 errors.\nFinished in 3ms on 5 files using 2 threads.";
    let (step, deferred) = check_after_lint(&o, 0, out, "");
    assert!(step.messages.is_empty());
    assert!(matches!(step.action, CheckAction::RunFmt(_)));
    let (m, d) = deferred.clone().unwrap();
    assert_eq!(m, "Found no warnings or lint errors in 5 files");
    assert_eq!(d, "(3ms, 2 threads)");
    let last = check_after_refmt(0, "", "", "40ms", deferred);
    assert!(matches!(last.action, CheckAction::Exit(0)));
    assert!(matches!(&last.messages[0], CheckMessage::Pass(m, Some(d)) if m == "Formatting completed for checked files" && d == "(40ms)"));
    assert!(matches!(&last.messages[1], CheckMessage::Pass(m, _) if m == "Found no warnings or lint errors in 5 files"));
    let failed = check_after_refmt(2, "boom\n", "", "40ms", None);
    assert!(matches!(failed.action, CheckAction::Exit(2)));
    assert!(matches!(&failed.messages[0], CheckMessage::Error(m) if m == "Formatting could not finish after lint fixes"));
    assert!(matches!(&failed.messages[1], CheckMessage::Stdout(m) if m == "boom"));
}

fn flags(type_aware: Option<bool>, type_check: Option<bool>) -> Option<LintOptionFlags> {
    Some(LintOptionFlags { type_aware, type_check })
}

#[test]
fn analysis_lint_message_kind_defaults_to_lint_only_without_typecheck() {
    assert!(!lint_config_type_check_enabled(None));
    assert!(!lint_config_type_check_enabled(flags(None, None)));
    assert_eq!(LintMessageKind::from_flags(true, false), LintMessageKind::LintOnly);
}

#[test]
fn analysis_lint_message_kind_detects_typecheck_from_vite_config() {
    let config = flags(Some(true), Some(true));
    assert!(lint_config_type_check_enabled(config));

    let kind = LintMessageKind::from_flags(true, true);
    assert_eq!(kind, LintMessageKind::LintAndTypeCheck);
    assert_eq!(kind.success_label(), "Found no warnings, lint errors, or type errors");
    assert_eq!(kind.warning_heading(), "Lint or type warnings found");
    assert_eq!(kind.issue_heading(), "Lint or type issues found");
}

#[test]
fn cli_lint_message_kind_defaults_to_lint_only_without_typecheck() {
    let kind = LintMessageKind::from_flags(true, lint_config_type_check_enabled(None));
    assert_eq!(kind, LintMessageKind::LintOnly);
    let kind = LintMessageKind::from_flags(true, lint_config_type_check_enabled(flags(None, None)));
    assert_eq!(kind, LintMessageKind::LintOnly);
}

#[test]
fn cli_lint_message_kind_detects_typecheck_from_vite_config() {
    let enabled = lint_config_type_check_enabled(flags(Some(true), Some(true)));
    let kind = LintMessageKind::from_flags(true, enabled);
    assert_eq!(kind, LintMessageKind::LintAndTypeCheck);
    assert_eq!(kind.success_label(), "Found no warnings, lint errors, or type errors");
    assert_eq!(kind.warning_heading(), "Lint or type warnings found");
    assert_eq!(kind.issue_heading(), "Lint or type issues found");
}

#[test]
fn lint_config_type_check_enabled_rejects_non_bool_values() {
    // `"true"`, `1` and `null` are not booleans: the setting reads as absent.
    assert!(!lint_config_type_check_enabled(flags(Some(true), None)));
}

#[test]
fn lint_config_type_check_requires_type_aware_prerequisite() {
    assert!(!lint_config_type_check_enabled(flags(None, Some(true))));
    assert!(!lint_config_type_check_enabled(flags(Some(false), Some(true))));
    assert!(!lint_config_type_check_enabled(flags(Some(true), Some(false))));
}
