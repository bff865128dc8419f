use vite_plus::download::{client_retries, pipeline_retries, DownloadFailure, HttpClient};

#[test]
fn a_failing_request_is_attempted_four_times_by_the_default_client() {
    let c = HttpClient::new();
    let mut attempts = 1;
    while client_retries(c, attempts) {
        attempts += 1;
    }
    assert_eq!(attempts, 4);
    assert!(client_retries(c, 3));
    assert!(!client_retries(c, 4));
}

#[test]
fn a_client_without_retries_attempts_once() {
    assert!(!client_retries(HttpClient::with_config(0, 0), 1));
}

#[test]
fn the_pipeline_retries_only_retryable_failures_three_times() {
    assert!(pipeline_retries(1, DownloadFailure::Io));
    assert!(pipeline_retries(3, DownloadFailure::HashMismatch));
    assert!(!pipeline_retries(4, DownloadFailure::Http { not_found: false }));
    assert!(!pipeline_retries(1, DownloadFailure::Http { not_found: true }));
    assert!(!pipeline_retries(1, DownloadFailure::Other));
}
