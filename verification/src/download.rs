//! Downloading and unpacking package tarballs: the retry settings, which
//! failures are retried, when a body is truncated, and which archive entry
//! is written when a pin covers a single file. Paths follow the Unix
//! conventions.
use vstd::prelude::*;

use crate::path_env::{components, path_eq, paths_equal};
use crate::text::{chars_to_string, decimal, format_decimal, push_all, push_str, str_chars};

verus! {

/// An HTTP client's retry settings: how many times a request is retried,
/// and the least delay (in milliseconds) of the exponential backoff.
#[derive(Debug, Clone, Copy, PartialEq, Eq)]
pub struct HttpClient {
    pub max_times: usize,
    pub min_delay: u64,
}

impl HttpClient {
    /// Three retries, 500 ms at least between them.
    pub fn new() -> (res: Self)
        ensures
            res.max_times == 3,
            res.min_delay == 500,
    {
        Self::with_config(3, 500)
    }

    pub fn with_config(max_times: usize, min_delay: u64) -> (res: Self)
        ensures
            res.max_times == max_times,
            res.min_delay == min_delay,
    {
        HttpClient { max_times, min_delay }
    }
}

impl Default for HttpClient {
    fn default() -> (res: Self)
        ensures
            res.max_times == 3,
            res.min_delay == 500,
    {
        Self::new()
    }
}

/// The retry settings of one download-verify-extract attempt pipeline:
/// the pipeline retries three times from 500 ms; each attempt downloads
/// once, without a retry of its own.
pub fn pipeline_retry() -> (res: (HttpClient, HttpClient))
    ensures
        res.0.max_times == 3 && res.0.min_delay == 500,
        res.1.max_times == 0 && res.1.min_delay == 0,
{
    (HttpClient::with_config(3, 500), HttpClient::with_config(0, 0))
}

/// Whether a request through `client` is tried again after `failures`
/// failed attempts: every error is retried, until `max_times` retries have
/// been made.
pub open spec fn client_retries_after(client: HttpClient, failures: nat) -> bool {
    failures <= client.max_times
}

/// The decision after a failed attempt of a request through `client`.
pub fn client_retries(client: HttpClient, failures: usize) -> (res: bool)
    requires
        failures >= 1,
    ensures
        res == client_retries_after(client, failures as nat),
{
    failures <= client.max_times
}

/// How many attempts a request makes when every attempt fails, counting
/// from the `made`-th attempt.
pub open spec fn attempts_while_failing(client: HttpClient, made: nat) -> nat
    decreases client.max_times + 1 - made,
{
    if made >= 1 && client_retries_after(client, made) {
        attempts_while_failing(client, made + 1)
    } else {
        made
    }
}

/// A request that keeps failing is attempted once and then retried
/// `max_times` times: `HttpClient::new()` makes four attempts.
pub proof fn law_failing_request_attempts(client: HttpClient)
    ensures
        attempts_while_failing(client, 1) == client.max_times + 1,
{
    lemma_attempts_from(client, 1);
}

proof fn lemma_attempts_from(client: HttpClient, made: nat)
    requires
        1 <= made <= client.max_times + 1,
    ensures
        attempts_while_failing(client, made) == client.max_times + 1,
    decreases client.max_times + 1 - made,
{
    if made <= client.max_times {
        lemma_attempts_from(client, made + 1);
    }
}

/// What a failed download attempt failed on.
#[derive(Debug, Clone, Copy, PartialEq, Eq)]
pub enum DownloadFailure {
    /// A network or HTTP error; `not_found` for a 404.
    Http { not_found: bool },
    /// Reading, writing or extracting failed (a truncated body or a corrupt
    /// archive among them).
    Io,
    /// The artifact does not match its pin.
    HashMismatch,
    /// Anything else (a malformed pin, an unsupported algorithm, ...).
    Other,
}

/// A fresh download can fix transient network errors, truncated or corrupt
/// downloads and hash mismatches; a 404 (the version does not exist) and
/// the other failures are final.
pub fn is_retryable_download_error(failure: DownloadFailure) -> (res: bool)
    ensures
        res == match failure {
            DownloadFailure::Http { not_found } => !not_found,
            DownloadFailure::Io | DownloadFailure::HashMismatch => true,
            DownloadFailure::Other => false,
        },
{
    match failure {
        DownloadFailure::Http { not_found } => !not_found,
        DownloadFailure::Io | DownloadFailure::HashMismatch => true,
        DownloadFailure::Other => false,
    }
}

pub open spec fn retryable(failure: DownloadFailure) -> bool {
    match failure {
        DownloadFailure::Http { not_found } => !not_found,
        DownloadFailure::Io | DownloadFailure::HashMismatch => true,
        DownloadFailure::Other => false,
    }
}

/// The decision of the download-verify-extract pipeline after its
/// `failures`-th failed attempt ended in `failure`: try again when the
/// failure is retryable and fewer than three retries were made (the
/// pipeline's own client).
pub fn pipeline_retries(failures: usize, failure: DownloadFailure) -> (res: bool)
    requires
        failures >= 1,
    ensures
        res == (retryable(failure) && client_retries_after(HttpClient { max_times: 3, min_delay: 500 }, failures as nat)),
{
    let (pipeline, _) = pipeline_retry();
    is_retryable_download_error(failure) && client_retries(pipeline, failures)
}

/// The error of a body shorter or longer than its advertised length.
pub open spec fn truncation_text(expected: nat, written: nat) -> Seq<char> {
    "incomplete download: expected "@ + decimal(expected) + " bytes, got "@ + decimal(written)
}

/// A written body is complete when no length was advertised or the length
/// matches.
pub fn truncation_error(content_length: Option<u64>, bytes_written: u64) -> (res: Option<String>)
    ensures
        match content_length {
            Some(expected) => if expected != bytes_written {
                res matches Some(m) && m@ == truncation_text(expected as nat, bytes_written as nat)
            } else {
                res is None
            },
            None => res is None,
        },
{
    match content_length {
        Some(expected) => {
            if expected != bytes_written {
                let mut m = str_chars("incomplete download: expected ");
                push_all(&mut m, format_decimal(expected as u128).as_slice());
                push_str(&mut m, " bytes, got ");
                push_all(&mut m, format_decimal(bytes_written as u128).as_slice());
                Some(chars_to_string(m.as_slice()))
            } else {
                None
            }
        },
        None => None,
    }
}

/// A path inside an archive is safe to extract alone when it is not empty
/// and all its components are normal (no root, no `.` in front, no `..`).
pub open spec fn safe_archive_file_spec(p: Seq<char>) -> bool {
    &&& p.len() > 0
    &&& forall|k: int|
        0 <= k < components(p).len() ==> (#[trigger] components(p)[k]) != "/"@ && components(p)[k]
            != "."@ && components(p)[k] != ".."@
}

pub fn is_safe_archive_file(path: &str) -> (res: bool)
    ensures
        res == safe_archive_file_spec(path@),
{
    let p = str_chars(path);
    if p.len() == 0 {
        return false;
    }
    let parts = crate::path_env::components_exec(p.as_slice());
    let root = str_chars("/");
    let dot = str_chars(".");
    let dotdot = str_chars("..");
    let mut k: usize = 0;
    while k < parts.len()
        invariant
            k <= parts@.len(),
            crate::text::views(parts@) == components(path@),
            root@ == "/"@,
            dot@ == "."@,
            dotdot@ == ".."@,
            forall|j: int|
                0 <= j < k ==> (#[trigger] components(path@)[j]) != "/"@ && components(path@)[j] != "."@
                    && components(path@)[j] != ".."@,
        decreases parts@.len() - k,
    {
        proof {
            assert(crate::text::views(parts@)[k as int] == parts@[k as int]@);
        }
        let c = parts[k].as_slice();
        if crate::text::chars_eq(c, root.as_slice()) || crate::text::chars_eq(c, dot.as_slice())
            || crate::text::chars_eq(c, dotdot.as_slice()) {
            return false;
        }
        k += 1;
    }
    true
}

/// The check made before a single-entry download: a wanted entry must be a
/// safe relative path.
pub fn check_archive_file(archive_file: Option<&str>) -> (res: Result<(), String>)
    ensures
        match archive_file {
            Some(p) => if safe_archive_file_spec(p@) {
                res is Ok
            } else {
                res matches Err(m) && m@ == "archive file path must be a safe relative path"@
            },
            None => res is Ok,
        },
{
    match archive_file {
        Some(p) => {
            if is_safe_archive_file(p) {
                Ok(())
            } else {
                Err(chars_to_string(str_chars("archive file path must be a safe relative path").as_slice()))
            }
        },
        None => Ok(()),
    }
}

/// What to do with an archive entry when one file is wanted.
#[derive(Debug, Clone, Copy, PartialEq, Eq)]
pub enum EntryStep {
    /// Another entry: skip it.
    Skip,
    /// The wanted regular file: write it, and stop.
    Extract,
    /// The wanted path is not a regular file.
    NotRegularFile,
}

/// The step for the next entry: the first entry whose path is the wanted
/// one decides.
pub fn entry_step(entry_path: &str, is_regular_file: bool, wanted: &str) -> (res: EntryStep)
    ensures
        res == (if !path_eq(entry_path@, wanted@) {
            EntryStep::Skip
        } else if is_regular_file {
            EntryStep::Extract
        } else {
            EntryStep::NotRegularFile
        }),
{
    let e = str_chars(entry_path);
    let w = str_chars(wanted);
    if !paths_equal(e.as_slice(), w.as_slice()) {
        EntryStep::Skip
    } else if is_regular_file {
        EntryStep::Extract
    } else {
        EntryStep::NotRegularFile
    }
}

/// The messages of an archive without the wanted entry and of an entry that
/// is not a regular file.
pub fn entry_error_message(not_regular_file: bool) -> (res: &'static str)
    ensures
        res@ == (if not_regular_file {
            "package archive CLI entry is not a regular file"@
        } else {
            "package archive does not contain the expected CLI entry"@
        }),
{
    if not_regular_file {
        "package archive CLI entry is not a regular file"
    } else {
        "package archive does not contain the expected CLI entry"
    }
}

/// What a download attempt checks and unpacks.
#[derive(Debug, Clone, Copy, PartialEq, Eq)]
pub enum AttemptPlan {
    /// Extract the one wanted file, then check it against the pin (if
    /// any): the rest of the archive is not covered by the pin and is never
    /// written.
    SingleFile { verify: bool },
    /// Check the tarball against the pin (if any), then unpack it all.
    WholeArchive { verify: bool },
}

pub fn attempt_plan(single_file: bool, has_hash: bool) -> (res: AttemptPlan)
    ensures
        res == (if single_file {
            AttemptPlan::SingleFile { verify: has_hash }
        } else {
            AttemptPlan::WholeArchive { verify: has_hash }
        }),
{
    if single_file {
        AttemptPlan::SingleFile { verify: has_hash }
    } else {
        AttemptPlan::WholeArchive { verify: has_hash }
    }
}

} // verus!
