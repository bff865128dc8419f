use vite_plus::download::{
    attempt_plan, check_archive_file, entry_error_message, entry_step, is_retryable_download_error,
    is_safe_archive_file, pipeline_retry, truncation_error, AttemptPlan, DownloadFailure,
    EntryStep, HttpClient,
};

#[test]
fn http_client_defaults_to_three_retries_from_half_a_second() {
    let c = HttpClient::new();
    assert_eq!(c.max_times, 3);
    assert_eq!(c.min_delay, 500);
    assert_eq!(HttpClient::default(), c);
    let custom = HttpClient::with_config(0, 0);
    assert_eq!(custom.max_times, 0);
    assert_eq!(custom.min_delay, 0);
}

#[test]
fn pipeline_retries_once_per_layer() {
    let (outer, inner) = pipeline_retry();
    assert_eq!(outer, HttpClient::with_config(3, 500));
    assert_eq!(inner, HttpClient::with_config(0, 0));
}

#[test]
fn retryable_download_errors() {
    assert!(is_retryable_download_error(DownloadFailure::Http { not_found: false }));
    assert!(!is_retryable_download_error(DownloadFailure::Http { not_found: true }));
    assert!(is_retryable_download_error(DownloadFailure::Io));
    assert!(is_retryable_download_error(DownloadFailure::HashMismatch));
    assert!(!is_retryable_download_error(DownloadFailure::Other));
}

#[test]
fn truncated_body_is_reported() {
    assert_eq!(
        truncation_error(Some(1024), 512),
        Some("incomplete download: expected 1024 bytes, got 512".to_string())
    );
    assert_eq!(
        truncation_error(Some(10), 11),
        Some("incomplete download: expected 10 bytes, got 11".to_string())
    );
    assert_eq!(truncation_error(Some(512), 512), None);
    assert_eq!(truncation_error(None, 7), None);
}

#[test]
fn archive_file_must_be_a_safe_relative_path() {
    assert!(is_safe_archive_file("package/bin/yarn.js"));
    assert!(is_safe_archive_file("package//bin/./yarn.js"));
    assert!(!is_safe_archive_file(""));
    assert!(!is_safe_archive_file("/etc/passwd"));
    assert!(!is_safe_archive_file("../evil"));
    assert!(!is_safe_archive_file("package/../../evil"));
    assert!(!is_safe_archive_file("./package/bin"));
    assert_eq!(check_archive_file(None), Ok(()));
    assert_eq!(check_archive_file(Some("package/bin/pnpm.cjs")), Ok(()));
    assert_eq!(
        check_archive_file(Some("../x")),
        Err("archive file path must be a safe relative path".to_string())
    );
}

#[test]
fn the_first_matching_entry_decides() {
    assert_eq!(entry_step("package/README.md", true, "package/bin/yarn.js"), EntryStep::Skip);
    assert_eq!(entry_step("package/bin/yarn.js", true, "package/bin/yarn.js"), EntryStep::Extract);
    assert_eq!(entry_step("package//bin/yarn.js", true, "package/bin/yarn.js"), EntryStep::Extract);
    assert_eq!(
        entry_step("package/bin/yarn.js", false, "package/bin/yarn.js"),
        EntryStep::NotRegularFile
    );
    assert_eq!(entry_error_message(true), "package archive CLI entry is not a regular file");
    assert_eq!(
        entry_error_message(false),
        "package archive does not contain the expected CLI entry"
    );
}

#[test]
fn attempt_plan_follows_the_pin() {
    assert_eq!(attempt_plan(true, true), AttemptPlan::SingleFile { verify: true });
    assert_eq!(attempt_plan(true, false), AttemptPlan::SingleFile { verify: false });
    assert_eq!(attempt_plan(false, true), AttemptPlan::WholeArchive { verify: true });
    assert_eq!(attempt_plan(false, false), AttemptPlan::WholeArchive { verify: false });
}
