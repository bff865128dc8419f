//! `vp check`: reading the summaries that the formatter and the linter print,
//! and the sequence of runs and messages of the composite command.
use vstd::prelude::*;

use crate::text::{
    chars_eq, chars_to_string, contains, decimal, find_chars, format_decimal, has_prefix, joined,
    lemma_joined_push, lines, parse_usize, parse_usize_spec, push_all, push_str, rsplit_once,
    rsplit_once_chars, split_lines, split_once, split_once_chars, starts_with, str_chars, sub_chars,
    trim, trim_chars, trim_newline_chars, trim_newlines, views,
};

verus! {

// ---------------------------------------------------------------------------
// Message kinds.
// ---------------------------------------------------------------------------

/// Which checks the lint phase covers, which decides its wording.
#[derive(Clone, Copy, Debug, PartialEq, Eq)]
pub enum LintMessageKind {
    LintOnly,
    LintAndTypeCheck,
    TypeCheckOnly,
}

pub open spec fn success_text(k: LintMessageKind) -> Seq<char> {
    match k {
        LintMessageKind::LintOnly => "Found no warnings or lint errors"@,
        LintMessageKind::LintAndTypeCheck => "Found no warnings, lint errors, or type errors"@,
        LintMessageKind::TypeCheckOnly => "Found no type errors"@,
    }
}

pub open spec fn warning_text(k: LintMessageKind) -> Seq<char> {
    match k {
        LintMessageKind::LintOnly => "Lint warnings found"@,
        LintMessageKind::LintAndTypeCheck => "Lint or type warnings found"@,
        LintMessageKind::TypeCheckOnly => "Type warnings found"@,
    }
}

pub open spec fn issue_text(k: LintMessageKind) -> Seq<char> {
    match k {
        LintMessageKind::LintOnly => "Lint issues found"@,
        LintMessageKind::LintAndTypeCheck => "Lint or type issues found"@,
        LintMessageKind::TypeCheckOnly => "Type errors found"@,
    }
}

impl LintMessageKind {
    /// The kind for the enabled checks; at least one must be enabled.
    pub fn from_flags(lint_enabled: bool, type_check_enabled: bool) -> (res: Self)
        requires
            lint_enabled || type_check_enabled,
        ensures
            res == (if lint_enabled && type_check_enabled {
                LintMessageKind::LintAndTypeCheck
            } else if lint_enabled {
                LintMessageKind::LintOnly
            } else {
                LintMessageKind::TypeCheckOnly
            }),
    {
        if lint_enabled && type_check_enabled {
            LintMessageKind::LintAndTypeCheck
        } else if lint_enabled {
            LintMessageKind::LintOnly
        } else {
            LintMessageKind::TypeCheckOnly
        }
    }

    pub fn success_label(self) -> (res: &'static str)
        ensures
            res@ == success_text(self),
    {
        match self {
            LintMessageKind::LintOnly => "Found no warnings or lint errors",
            LintMessageKind::LintAndTypeCheck => "Found no warnings, lint errors, or type errors",
            LintMessageKind::TypeCheckOnly => "Found no type errors",
        }
    }

    pub fn warning_heading(self) -> (res: &'static str)
        ensures
            res@ == warning_text(self),
    {
        match self {
            LintMessageKind::LintOnly => "Lint warnings found",
            LintMessageKind::LintAndTypeCheck => "Lint or type warnings found",
            LintMessageKind::TypeCheckOnly => "Type warnings found",
        }
    }

    pub fn issue_heading(self) -> (res: &'static str)
        ensures
            res@ == issue_text(self),
    {
        match self {
            LintMessageKind::LintOnly => "Lint issues found",
            LintMessageKind::LintAndTypeCheck => "Lint or type issues found",
            LintMessageKind::TypeCheckOnly => "Type errors found",
        }
    }
}

/// The two boolean settings of the lint configuration's `options` that
/// matter here; `None` where the setting is absent or not a boolean.
#[derive(Clone, Copy, Debug, PartialEq, Eq)]
pub struct LintOptionFlags {
    pub type_aware: Option<bool>,
    pub type_check: Option<bool>,
}

pub open spec fn flag_set(f: Option<bool>) -> bool {
    f == Some(true)
}

/// Type checking runs with the lint phase when both `typeAware` and
/// `typeCheck` are `true` (the first is a prerequisite of the second).
pub fn lint_config_type_check_enabled(options: Option<LintOptionFlags>) -> (res: bool)
    ensures
        res == (options matches Some(o) && flag_set(o.type_aware) && flag_set(o.type_check)),
{
    match options {
        Some(o) => {
            let aware = match o.type_aware {
                Some(b) => b,
                None => false,
            };
            let check = match o.type_check {
                Some(b) => b,
                None => false,
            };
            aware && check
        },
        None => false,
    }
}

// ---------------------------------------------------------------------------
// Summary lines.
// ---------------------------------------------------------------------------

/// The summary line of a run: `Finished in <duration> on <n> file(s) using
/// <m> thread(s)`.
#[derive(Clone, Debug)]
pub struct CheckSummary {
    pub duration: String,
    pub files: usize,
    pub threads: usize,
}

pub open spec fn strip_prefix(s: Seq<char>, p: Seq<char>) -> Option<Seq<char>> {
    if has_prefix(s, p) {
        Some(s.skip(p.len() as int))
    } else {
        None
    }
}

pub open spec fn parse_ok(s: Seq<char>) -> Option<nat> {
    match parse_usize_spec(s) {
        Ok(v) => Some(v),
        Err(_) => None,
    }
}

/// What a summary line says: its duration text, file count and thread count.
pub open spec fn summary_spec(line: Seq<char>) -> Option<(Seq<char>, nat, nat)> {
    match strip_prefix(line, "Finished in "@) {
        None => None,
        Some(rest) => match split_once(rest, " on "@) {
            None => None,
            Some((duration, rest)) => match split_once(rest, " file"@) {
                None => None,
                Some((files_text, _)) => match parse_ok(files_text) {
                    None => None,
                    Some(files) => match rsplit_once(rest, " using "@) {
                        None => None,
                        Some((_, threads_part)) => match split_once(threads_part, " thread"@) {
                            None => None,
                            Some((threads_text, _)) => match parse_ok(threads_text) {
                                None => None,
                                Some(threads) => Some((duration, files, threads)),
                            },
                        },
                    },
                },
            },
        },
    }
}

pub open spec fn summary_is(s: CheckSummary, m: (Seq<char>, nat, nat)) -> bool {
    s.duration@ == m.0 && s.files == m.1 && s.threads == m.2
}

fn strip_prefix_chars(s: &[char], p: &str) -> (res: Option<Vec<char>>)
    ensures
        match res {
            Some(r) => strip_prefix(s@, p@) == Some(r@),
            None => strip_prefix(s@, p@) is None,
        },
{
    let pc = str_chars(p);
    if starts_with(s, pc.as_slice()) {
        let r = sub_chars(s, pc.len(), s.len());
        proof {
            assert(r@ =~= s@.skip(p@.len() as int));
        }
        Some(r)
    } else {
        None
    }
}

fn split_once_str(s: &[char], pat: &str) -> (res: Option<(Vec<char>, Vec<char>)>)
    ensures
        match res {
            Some((a, b)) => split_once(s@, pat@) == Some((a@, b@)),
            None => split_once(s@, pat@) is None,
        },
{
    let pc = str_chars(pat);
    split_once_chars(s, pc.as_slice())
}

fn parse_count(s: &[char]) -> (res: Option<usize>)
    ensures
        match res {
            Some(v) => parse_ok(s@) == Some(v as nat),
            None => parse_ok(s@) is None,
        },
{
    match parse_usize(s) {
        Ok(v) => Some(v),
        Err(_) => None,
    }
}

/// Reads a summary line.
pub fn parse_check_summary(line: &[char]) -> (res: Option<CheckSummary>)
    ensures
        match res {
            Some(s) => summary_spec(line@) matches Some(m) && summary_is(s, m),
            None => summary_spec(line@) is None,
        },
{
    let rest = match strip_prefix_chars(line, "Finished in ") {
        Some(r) => r,
        None => return None,
    };
    let (duration, rest) = match split_once_str(rest.as_slice(), " on ") {
        Some(p) => p,
        None => return None,
    };
    let files = match split_once_str(rest.as_slice(), " file") {
        Some((f, _)) => match parse_count(f.as_slice()) {
            Some(v) => v,
            None => return None,
        },
        None => return None,
    };
    let using = str_chars(" using ");
    let threads_part = match rsplit_once_chars(rest.as_slice(), using.as_slice()) {
        Some((_, t)) => t,
        None => return None,
    };
    let threads = match split_once_str(threads_part.as_slice(), " thread") {
        Some((t, _)) => match parse_count(t.as_slice()) {
            Some(v) => v,
            None => return None,
        },
        None => return None,
    };
    Some(CheckSummary { duration: chars_to_string(duration.as_slice()), files, threads })
}

/// The count before ` file` in a line that starts with `prefix`.
pub open spec fn issue_count_spec(line: Seq<char>, prefix: Seq<char>) -> Option<nat> {
    match strip_prefix(line, prefix) {
        None => None,
        Some(rest) => match split_once(rest, " file"@) {
            None => None,
            Some((n, _)) => parse_ok(n),
        },
    }
}

pub fn parse_issue_count(line: &[char], prefix: &str) -> (res: Option<usize>)
    ensures
        match res {
            Some(v) => issue_count_spec(line@, prefix@) == Some(v as nat),
            None => issue_count_spec(line@, prefix@) is None,
        },
{
    let rest = match strip_prefix_chars(line, prefix) {
        Some(r) => r,
        None => return None,
    };
    match split_once_str(rest.as_slice(), " file") {
        Some((n, _)) => parse_count(n.as_slice()),
        None => None,
    }
}

/// The counts of `Found <w> warning(s) and <e> error(s)`.
pub open spec fn counts_spec(line: Seq<char>) -> Option<(nat, nat)> {
    match strip_prefix(line, "Found "@) {
        None => None,
        Some(rest) => match split_once(rest, " warning"@) {
            None => None,
            Some((w, rest)) => match split_once(rest, " and "@) {
                None => None,
                Some((_, rest)) => match split_once(rest, " error"@) {
                    None => None,
                    Some((e, _)) => match (parse_ok(w), parse_ok(e)) {
                        (Some(a), Some(b)) => Some((a, b)),
                        _ => None,
                    },
                },
            },
        },
    }
}

pub fn parse_warning_error_counts(line: &[char]) -> (res: Option<(usize, usize)>)
    ensures
        match res {
            Some((w, e)) => counts_spec(line@) == Some((w as nat, e as nat)),
            None => counts_spec(line@) is None,
        },
{
    let rest = match strip_prefix_chars(line, "Found ") {
        Some(r) => r,
        None => return None,
    };
    let (w, rest) = match split_once_str(rest.as_slice(), " warning") {
        Some(p) => p,
        None => return None,
    };
    let rest = match split_once_str(rest.as_slice(), " and ") {
        Some((_, r)) => r,
        None => return None,
    };
    let e = match split_once_str(rest.as_slice(), " error") {
        Some((e, _)) => e,
        None => return None,
    };
    match (parse_count(w.as_slice()), parse_count(e.as_slice())) {
        (Some(a), Some(b)) => Some((a, b)),
        _ => None,
    }
}

/// `1 <singular>`, or the count and `plural`.
pub open spec fn count_text(count: nat, singular: Seq<char>, plural: Seq<char>) -> Seq<char> {
    if count == 1 {
        "1 "@ + singular
    } else {
        decimal(count) + " "@ + plural
    }
}

pub fn format_count(count: usize, singular: &str, plural: &str) -> (res: String)
    ensures
        res@ == count_text(count as nat, singular@, plural@),
{
    let mut out: Vec<char>;
    if count == 1 {
        out = str_chars("1 ");
        push_all(&mut out, str_chars(singular).as_slice());
    } else {
        out = format_decimal(count as u128);
        push_all(&mut out, str_chars(" ").as_slice());
        push_all(&mut out, str_chars(plural).as_slice());
    }
    chars_to_string(out.as_slice())
}


// ---------------------------------------------------------------------------
// Formatter and linter output.
// ---------------------------------------------------------------------------

#[derive(Debug)]
pub struct FmtSuccess {
    pub summary: CheckSummary,
}

#[derive(Debug)]
pub struct FmtFailure {
    pub summary: CheckSummary,
    pub issue_files: Vec<String>,
    pub issue_count: usize,
}

#[derive(Debug)]
pub struct LintSuccess {
    pub summary: CheckSummary,
}

#[derive(Debug)]
pub struct LintFailure {
    pub summary: CheckSummary,
    pub warnings: usize,
    pub errors: usize,
    pub diagnostics: String,
}

pub open spec fn finished_prefix() -> Seq<char> {
    "Finished in "@
}

pub open spec fn issues_prefix() -> Seq<char> {
    "Format issues found in above "@
}

/// The index of the last line before `end` that starts with `p`.
pub open spec fn last_with_prefix(ls: Seq<Seq<char>>, p: Seq<char>, end: int) -> Option<int>
    decreases end,
{
    if end <= 0 {
        None
    } else if has_prefix(ls[end - 1], p) {
        Some(end - 1)
    } else {
        last_with_prefix(ls, p, end - 1)
    }
}

/// The index of the first line from `from` on that starts with `p`.
pub open spec fn first_with_prefix(ls: Seq<Seq<char>>, p: Seq<char>, from: int) -> Option<int>
    decreases ls.len() - from,
{
    if from < 0 || from >= ls.len() {
        None
    } else if has_prefix(ls[from], p) {
        Some(from)
    } else {
        first_with_prefix(ls, p, from + 1)
    }
}

/// The files the formatter lists after `Checking formatting...`, up to its
/// issue or summary line; blank lines are skipped.
pub open spec fn issue_files_from(ls: Seq<Seq<char>>, i: int, collecting: bool) -> Seq<Seq<char>>
    decreases ls.len() - i,
{
    if i < 0 || i >= ls.len() {
        seq![]
    } else if ls[i] == "Checking formatting..."@ {
        issue_files_from(ls, i + 1, true)
    } else if !collecting {
        issue_files_from(ls, i + 1, false)
    } else if ls[i].len() == 0 {
        issue_files_from(ls, i + 1, true)
    } else if has_prefix(ls[i], issues_prefix()) || has_prefix(ls[i], finished_prefix()) {
        seq![]
    } else {
        seq![ls[i]] + issue_files_from(ls, i + 1, true)
    }
}

/// What the formatter's check output says: nothing readable, success with
/// the summary, or the issue files and count with the summary.
pub enum FmtVerdict {
    Unreadable,
    Success((Seq<char>, nat, nat)),
    Failure((Seq<char>, nat, nat), Seq<Seq<char>>, nat),
}

pub open spec fn fmt_verdict(output: Seq<char>) -> FmtVerdict {
    let t = trim(output);
    let ls = lines(t);
    if t.len() == 0 {
        FmtVerdict::Unreadable
    } else {
        match last_with_prefix(ls, finished_prefix(), ls.len() as int) {
            None => FmtVerdict::Unreadable,
            Some(f) => match summary_spec(ls[f]) {
                None => FmtVerdict::Unreadable,
                Some(summary) => if ls.contains("All matched files use the correct format."@) {
                    FmtVerdict::Success(summary)
                } else {
                    match first_with_prefix(ls, issues_prefix(), 0) {
                        None => FmtVerdict::Unreadable,
                        Some(k) => match issue_count_spec(ls[k], issues_prefix()) {
                            None => FmtVerdict::Unreadable,
                            Some(n) => FmtVerdict::Failure(
                                summary,
                                issue_files_from(ls, 0, false),
                                n,
                            ),
                        },
                    }
                },
            },
        }
    }
}

pub open spec fn fmt_result_matches(r: Option<Result<FmtSuccess, FmtFailure>>, output: Seq<char>) -> bool {
    match (r, fmt_verdict(output)) {
        (None, FmtVerdict::Unreadable) => true,
        (Some(Ok(s)), FmtVerdict::Success(m)) => summary_is(s.summary, m),
        (Some(Err(f)), FmtVerdict::Failure(m, files, n)) => summary_is(f.summary, m) && crate::pm::strs(
            f.issue_files@,
        ) == files && f.issue_count == n,
        _ => false,
    }
}

fn line_has_prefix(ls: &Vec<Vec<char>>, k: usize, p: &str) -> (res: bool)
    requires
        k < ls@.len(),
    ensures
        res == has_prefix(ls@[k as int]@, p@),
{
    let pc = str_chars(p);
    starts_with(ls[k].as_slice(), pc.as_slice())
}

fn find_last_with_prefix(ls: &Vec<Vec<char>>, p: &str) -> (res: Option<usize>)
    ensures
        match res {
            Some(k) => k < ls@.len() && last_with_prefix(views(ls@), p@, ls@.len() as int) == Some(
                k as int,
            ),
            None => last_with_prefix(views(ls@), p@, ls@.len() as int) is None,
        },
{
    let mut end: usize = ls.len();
    while end > 0
        invariant
            end <= ls@.len(),
            last_with_prefix(views(ls@), p@, end as int) == last_with_prefix(
                views(ls@),
                p@,
                ls@.len() as int,
            ),
        decreases end,
    {
        if line_has_prefix(ls, end - 1, p) {
            return Some(end - 1);
        }
        end -= 1;
    }
    None
}

fn find_first_with_prefix(ls: &Vec<Vec<char>>, p: &str, from: usize) -> (res: Option<usize>)
    ensures
        match res {
            Some(k) => k < ls@.len() && first_with_prefix(views(ls@), p@, from as int) == Some(
                k as int,
            ),
            None => first_with_prefix(views(ls@), p@, from as int) is None,
        },
{
    let mut i: usize = from;
    while i < ls.len()
        invariant
            from <= i,
            first_with_prefix(views(ls@), p@, i as int) == first_with_prefix(
                views(ls@),
                p@,
                from as int,
            ),
        decreases ls@.len() - i,
    {
        if line_has_prefix(ls, i, p) {
            return Some(i);
        }
        i += 1;
    }
    None
}

fn any_line_is(ls: &Vec<Vec<char>>, text: &str) -> (res: bool)
    ensures
        res == views(ls@).contains(text@),
{
    let t = str_chars(text);
    let mut i: usize = 0;
    while i < ls.len()
        invariant
            i <= ls@.len(),
            t@ == text@,
            forall|j: int| 0 <= j < i ==> (#[trigger] ls@[j])@ != text@,
        decreases ls@.len() - i,
    {
        if chars_eq(ls[i].as_slice(), t.as_slice()) {
            proof {
                assert(views(ls@)[i as int] == text@);
            }
            return true;
        }
        i += 1;
    }
    proof {
        if views(ls@).contains(text@) {
            let j = choose|j: int| 0 <= j < views(ls@).len() && views(ls@)[j] == text@;
            assert(ls@[j]@ == text@);
        }
    }
    false
}

fn collect_issue_files(ls: &Vec<Vec<char>>) -> (res: Vec<String>)
    ensures
        crate::pm::strs(res@) == issue_files_from(views(ls@), 0, false),
{
    let ghost v = views(ls@);
    let mut out: Vec<String> = Vec::new();
    let mut collecting = false;
    let checking = str_chars("Checking formatting...");
    let mut i: usize = 0;
    while i < ls.len()
        invariant
            i <= ls@.len(),
            v == views(ls@),
            checking@ == "Checking formatting..."@,
            crate::pm::strs(out@) + issue_files_from(v, i as int, collecting) == issue_files_from(
                v,
                0,
                false,
            ),
        decreases ls@.len() - i,
    {
        let ghost before = out@;
        if chars_eq(ls[i].as_slice(), checking.as_slice()) {
            collecting = true;
        } else if !collecting {
        } else if ls[i].len() == 0 {
        } else if line_has_prefix(ls, i, "Format issues found in above ") || line_has_prefix(
            ls,
            i,
            "Finished in ",
        ) {
            proof {
                assert(crate::pm::strs(out@) =~= crate::pm::strs(out@) + Seq::<Seq<char>>::empty());
            }
            return out;
        } else {
            out.push(chars_to_string(ls[i].as_slice()));
            proof {
                assert(crate::pm::strs(out@) =~= crate::pm::strs(before).push(v[i as int]));
                assert(crate::pm::strs(before).push(v[i as int]) + issue_files_from(v, i + 1, true)
                    =~= crate::pm::strs(before) + (seq![v[i as int]] + issue_files_from(v, i + 1, true)));
            }
        }
        i += 1;
    }
    proof {
        assert(crate::pm::strs(out@) =~= crate::pm::strs(out@) + Seq::<Seq<char>>::empty());
    }
    out
}

/// Reads the formatter's output in check mode.
pub fn analyze_fmt_check_output(output: &[char]) -> (res: Option<Result<FmtSuccess, FmtFailure>>)
    ensures
        fmt_result_matches(res, output@),
{
    let trimmed = trim_chars(output);
    if trimmed.len() == 0 {
        return None;
    }
    let ls = split_lines(trimmed.as_slice());
    let f = match find_last_with_prefix(&ls, "Finished in ") {
        Some(f) => f,
        None => return None,
    };
    let summary = match parse_check_summary(ls[f].as_slice()) {
        Some(s) => s,
        None => return None,
    };
    if any_line_is(&ls, "All matched files use the correct format.") {
        return Some(Ok(FmtSuccess { summary }));
    }
    let k = match find_first_with_prefix(&ls, "Format issues found in above ", 0) {
        Some(k) => k,
        None => return None,
    };
    let issue_count = match parse_issue_count(ls[k].as_slice(), "Format issues found in above ") {
        Some(n) => n,
        None => return None,
    };
    let issue_files = collect_issue_files(&ls);
    Some(Err(FmtFailure { summary, issue_files, issue_count }))
}

/// Whether a line reports the linter's counts.
pub open spec fn is_counts_line(l: Seq<char>) -> bool {
    has_prefix(l, "Found "@) && contains(l, " warning"@) && contains(l, " error"@)
}

pub open spec fn first_counts_line(ls: Seq<Seq<char>>, from: int) -> Option<int>
    decreases ls.len() - from,
{
    if from < 0 || from >= ls.len() {
        None
    } else if is_counts_line(ls[from]) {
        Some(from)
    } else {
        first_counts_line(ls, from + 1)
    }
}

/// What the linter's output says: nothing readable, success with the
/// summary, or the counts and the diagnostics before them with the summary.
pub enum LintVerdict {
    Unreadable,
    Success((Seq<char>, nat, nat)),
    Failure((Seq<char>, nat, nat), nat, nat, Seq<char>),
}

pub open spec fn lint_verdict(output: Seq<char>) -> LintVerdict {
    let t = trim(output);
    let ls = lines(t);
    if t.len() == 0 {
        LintVerdict::Unreadable
    } else {
        match first_counts_line(ls, 0) {
            None => LintVerdict::Unreadable,
            Some(c) => match first_with_prefix(ls, finished_prefix(), c + 1) {
                None => LintVerdict::Unreadable,
                Some(f) => match summary_spec(ls[f]) {
                    None => LintVerdict::Unreadable,
                    Some(summary) => match counts_spec(ls[c]) {
                        None => LintVerdict::Unreadable,
                        Some((w, e)) => if w == 0 && e == 0 {
                            LintVerdict::Success(summary)
                        } else {
                            LintVerdict::Failure(
                                summary,
                                w,
                                e,
                                trim_newlines(joined(ls.take(c), "\n"@)),
                            )
                        },
                    },
                },
            },
        }
    }
}

pub open spec fn lint_result_matches(r: Option<Result<LintSuccess, LintFailure>>, output: Seq<char>) -> bool {
    match (r, lint_verdict(output)) {
        (None, LintVerdict::Unreadable) => true,
        (Some(Ok(s)), LintVerdict::Success(m)) => summary_is(s.summary, m),
        (Some(Err(f)), LintVerdict::Failure(m, w, e, d)) => summary_is(f.summary, m) && f.warnings
            == w && f.errors == e && f.diagnostics@ == d,
        _ => false,
    }
}

fn line_contains(l: &Vec<char>, pat: &str) -> (res: bool)
    ensures
        res == contains(l@, pat@),
{
    let pc = str_chars(pat);
    find_chars(l.as_slice(), pc.as_slice()).is_some()
}

fn find_counts_line(ls: &Vec<Vec<char>>) -> (res: Option<usize>)
    ensures
        match res {
            Some(k) => k < ls@.len() && first_counts_line(views(ls@), 0) == Some(k as int),
            None => first_counts_line(views(ls@), 0) is None,
        },
{
    let mut i: usize = 0;
    while i < ls.len()
        invariant
            first_counts_line(views(ls@), i as int) == first_counts_line(views(ls@), 0),
        decreases ls@.len() - i,
    {
        if line_has_prefix(ls, i, "Found ") && line_contains(&ls[i], " warning") && line_contains(
            &ls[i],
            " error",
        ) {
            return Some(i);
        }
        i += 1;
    }
    None
}

fn join_lines(ls: &Vec<Vec<char>>, n: usize) -> (res: Vec<char>)
    requires
        n <= ls@.len(),
    ensures
        res@ == joined(views(ls@).take(n as int), "\n"@),
{
    let mut out: Vec<char> = Vec::new();
    let mut i: usize = 0;
    while i < n
        invariant
            i <= n <= ls@.len(),
            out@ == joined(views(ls@).take(i as int), "\n"@),
        decreases n - i,
    {
        proof {
            assert(views(ls@).take(i + 1) =~= views(ls@).take(i as int).push(ls@[i as int]@));
            lemma_joined_push(views(ls@).take(i as int), "\n"@, ls@[i as int]@);
        }
        if i > 0 {
            push_all(&mut out, str_chars("\n").as_slice());
        }
        push_all(&mut out, ls[i].as_slice());
        i += 1;
    }
    out
}

/// Reads the linter's output.
pub fn analyze_lint_output(output: &[char]) -> (res: Option<Result<LintSuccess, LintFailure>>)
    ensures
        lint_result_matches(res, output@),
{
    let trimmed = trim_chars(output);
    if trimmed.len() == 0 {
        return None;
    }
    let ls = split_lines(trimmed.as_slice());
    let c = match find_counts_line(&ls) {
        Some(c) => c,
        None => return None,
    };
    let f = match find_first_with_prefix(&ls, "Finished in ", c + 1) {
        Some(f) => f,
        None => return None,
    };
    let summary = match parse_check_summary(ls[f].as_slice()) {
        Some(s) => s,
        None => return None,
    };
    let (warnings, errors) = match parse_warning_error_counts(ls[c].as_slice()) {
        Some(p) => p,
        None => return None,
    };
    let joined_lines = join_lines(&ls, c);
    let diagnostics = trim_newline_chars(joined_lines.as_slice());
    if warnings == 0 && errors == 0 {
        return Some(Ok(LintSuccess { summary }));
    }
    Some(Err(LintFailure { summary, warnings, errors, diagnostics: chars_to_string(diagnostics.as_slice()) }))
}

/// A run's standard output and standard error together: whichever is
/// non-empty, or both in that order.
pub open spec fn combined_text(stdout: Seq<char>, stderr: Seq<char>) -> Seq<char> {
    if stderr.len() == 0 {
        stdout
    } else if stdout.len() == 0 {
        stderr
    } else {
        stdout + stderr
    }
}

pub fn combine_output(stdout: &str, stderr: &str) -> (res: Vec<char>)
    ensures
        res@ == combined_text(stdout@, stderr@),
{
    let mut out = str_chars(stdout);
    let err = str_chars(stderr);
    if err.len() == 0 {
        out
    } else if out.len() == 0 {
        err
    } else {
        push_all(&mut out, err.as_slice());
        out
    }
}


// ---------------------------------------------------------------------------
// The composite command.
// ---------------------------------------------------------------------------

/// One piece of `vp check` output.
#[derive(Debug)]
pub enum CheckMessage {
    /// An error line.
    Error(String),
    /// A warning line.
    Warn(String),
    /// A pass line with an optional dimmed detail.
    Pass(String, Option<String>),
    /// A block of tool output, written as it is, with a final newline.
    Stdout(String),
    /// A blank line, then a summary line.
    Summary(String),
}

pub enum MessageModel {
    Error(Seq<char>),
    Warn(Seq<char>),
    Pass(Seq<char>, Option<Seq<char>>),
    Stdout(Seq<char>),
    Summary(Seq<char>),
}

impl View for CheckMessage {
    type V = MessageModel;

    open spec fn view(&self) -> MessageModel {
        match *self {
            CheckMessage::Error(s) => MessageModel::Error(s@),
            CheckMessage::Warn(s) => MessageModel::Warn(s@),
            CheckMessage::Pass(s, d) => MessageModel::Pass(
                s@,
                match d {
                    Some(x) => Some(x@),
                    None => None,
                },
            ),
            CheckMessage::Stdout(s) => MessageModel::Stdout(s@),
            CheckMessage::Summary(s) => MessageModel::Summary(s@),
        }
    }
}

pub open spec fn messages_view(v: Seq<CheckMessage>) -> Seq<MessageModel> {
    v.map_values(|m: CheckMessage| m@)
}

/// What `vp check` does next.
#[derive(Debug)]
pub enum CheckAction {
    /// Run the formatter with these arguments.
    RunFmt(Vec<String>),
    /// Run the linter with these arguments.
    RunLint(Vec<String>),
    /// Stop with this exit status.
    Exit(u8),
}

pub enum ActionModel {
    RunFmt(Seq<Seq<char>>),
    RunLint(Seq<Seq<char>>),
    Exit(u8),
}

impl View for CheckAction {
    type V = ActionModel;

    open spec fn view(&self) -> ActionModel {
        match *self {
            CheckAction::RunFmt(a) => ActionModel::RunFmt(crate::pm::strs(a@)),
            CheckAction::RunLint(a) => ActionModel::RunLint(crate::pm::strs(a@)),
            CheckAction::Exit(s) => ActionModel::Exit(s),
        }
    }
}

/// The messages to print and what to do next.
#[derive(Debug)]
pub struct CheckStep {
    pub messages: Vec<CheckMessage>,
    pub action: CheckAction,
}

pub open spec fn step_is(step: CheckStep, msgs: Seq<MessageModel>, action: ActionModel) -> bool {
    messages_view(step.messages@) == msgs && step.action@ == action
}

/// The options of `vp check`, with whether the lint configuration turns on
/// type checking.
#[derive(Debug, Clone)]
pub struct CheckOptions {
    pub fix: bool,
    pub no_fmt: bool,
    pub no_lint: bool,
    pub no_error_on_unmatched_pattern: bool,
    pub paths: Vec<String>,
    pub type_check_enabled: bool,
}

/// Unmatched patterns are not an error when asked, or when fixing given
/// files (the staged-files use).
pub open spec fn suppress_unmatched(o: CheckOptions) -> bool {
    o.no_error_on_unmatched_pattern || (o.fix && o.paths@.len() > 0)
}

pub open spec fn lint_kind(o: CheckOptions) -> LintMessageKind {
    if o.type_check_enabled {
        LintMessageKind::LintAndTypeCheck
    } else {
        LintMessageKind::LintOnly
    }
}

pub open spec fn unmatched_flag(o: CheckOptions) -> Seq<Seq<char>> {
    if suppress_unmatched(o) {
        seq!["--no-error-on-unmatched-pattern"@]
    } else {
        seq![]
    }
}

pub open spec fn fmt_args(o: CheckOptions) -> Seq<Seq<char>> {
    (if o.fix {
        seq![]
    } else {
        seq!["--check"@]
    }) + unmatched_flag(o) + crate::pm::strs(o.paths@)
}

pub open spec fn lint_args(o: CheckOptions) -> Seq<Seq<char>> {
    (if o.fix {
        seq!["--fix"@]
    } else {
        seq![]
    }) + seq!["--format=default"@] + unmatched_flag(o) + crate::pm::strs(o.paths@)
}

/// Whenever `vp check` runs the linter (at the start with `--no-fmt`, or
/// after the formatter), the linter is asked to fix exactly when the check
/// fixes: `--fix` comes first, then `--format=default`; without fixing the
/// arguments start with `--format=default`. The given paths come last.
pub proof fn law_lint_fixes_when_check_fixes(o: CheckOptions, status: u8, text: Seq<char>, elapsed: Seq<char>)
    ensures
        forall|a: Seq<Seq<char>>|
            (#[trigger] start_spec(o).1 == ActionModel::RunLint(a) || after_fmt_spec(o, status, text, elapsed).1
                == ActionModel::RunLint(a)) ==> {
                &&& o.fix ==> a.len() >= 2 && a[0] == "--fix"@ && a[1] == "--format=default"@
                &&& !o.fix ==> a.len() >= 1 && a[0] == "--format=default"@
                &&& a.skip(a.len() - o.paths@.len()) == crate::pm::strs(o.paths@)
            },
        forall|a: Seq<Seq<char>>|
            #[trigger] start_spec(o).1 == ActionModel::RunFmt(a) ==> {
                &&& !o.fix ==> a.len() >= 1 && a[0] == "--check"@
                &&& o.fix ==> !a.contains("--check"@) || crate::pm::strs(o.paths@).contains("--check"@)
                &&& a.skip(a.len() - o.paths@.len()) == crate::pm::strs(o.paths@)
            },
{
    let f = fmt_args(o);
    assert(f.skip(f.len() - crate::pm::strs(o.paths@).len()) =~= crate::pm::strs(o.paths@));
    if o.fix && f.contains("--check"@) {
        let j = choose|j: int| 0 <= j < f.len() && f[j] == "--check"@;
        let u = unmatched_flag(o);
        if j < u.len() {
            reveal_strlit("--check");
            reveal_strlit("--no-error-on-unmatched-pattern");
            assert(u[j] == "--no-error-on-unmatched-pattern"@);
            assert("--check"@.len() != "--no-error-on-unmatched-pattern"@.len());
        } else {
            assert(crate::pm::strs(o.paths@)[j - u.len()] == "--check"@);
        }
    }
    let l = lint_args(o);
    let p = crate::pm::strs(o.paths@);
    assert(l.skip(l.len() - p.len()) =~= p);
}

pub open spec fn refmt_args(o: CheckOptions) -> Seq<Seq<char>> {
    unmatched_flag(o) + crate::pm::strs(o.paths@)
}

/// A block of output, trimmed of newlines; nothing when that leaves nothing.
pub open spec fn block(text: Seq<char>) -> Seq<MessageModel> {
    if trim_newlines(text).len() == 0 {
        seq![]
    } else {
        seq![MessageModel::Stdout(trim_newlines(text))]
    }
}

/// An error, the output unless it is blank, and a summary.
pub open spec fn error_block(error: Seq<char>, output: Seq<char>, summary: Seq<char>) -> Seq<
    MessageModel,
> {
    seq![MessageModel::Error(error)] + (if trim(output).len() == 0 {
        seq![]
    } else {
        block(output)
    }) + seq![MessageModel::Summary(summary)]
}

pub open spec fn run_detail(m: (Seq<char>, nat, nat)) -> Seq<char> {
    "("@ + m.0 + ", "@ + decimal(m.2) + " threads)"@
}

/// Where `vp check` begins.
pub open spec fn start_spec(o: CheckOptions) -> (Seq<MessageModel>, ActionModel) {
    if o.no_fmt && o.no_lint {
        (
            seq![
                MessageModel::Error("No checks enabled"@),
                MessageModel::Summary(
                    "`vp check` did not run because both `--no-fmt` and `--no-lint` were set"@,
                ),
            ],
            ActionModel::Exit(1),
        )
    } else if !o.no_fmt {
        (seq![], ActionModel::RunFmt(fmt_args(o)))
    } else {
        (seq![], ActionModel::RunLint(lint_args(o)))
    }
}

/// The report of a formatter check run.
pub open spec fn fmt_report(o: CheckOptions, status: u8, combined: Seq<char>) -> Seq<MessageModel> {
    if o.fix {
        seq![]
    } else {
        match fmt_verdict(combined) {
            FmtVerdict::Success(m) => seq![
                MessageModel::Pass(
                    "All "@ + count_text(m.1, "file"@, "files"@) + " are correctly formatted"@,
                    Some(run_detail(m)),
                ),
            ],
            FmtVerdict::Failure(m, files, n) => seq![MessageModel::Error("Formatting issues found"@)]
                + block(joined(files, "\n"@)) + seq![
                MessageModel::Summary(
                    "Found formatting issues in "@ + count_text(n, "file"@, "files"@) + " ("@ + m.0
                        + ", "@ + decimal(m.2) + " threads). Run `vp check --fix` to fix them."@,
                ),
            ],
            FmtVerdict::Unreadable => if suppress_unmatched(o) && status == 0 {
                seq![]
            } else {
                error_block(
                    "Formatting could not start"@,
                    combined,
                    "Formatting failed before analysis started"@,
                )
            },
        }
    }
}

/// After the formatter's first run.
pub open spec fn after_fmt_spec(o: CheckOptions, status: u8, combined: Seq<char>, elapsed: Seq<char>) -> (
    Seq<MessageModel>,
    ActionModel,
) {
    let report = fmt_report(o, status, combined);
    let done = if o.fix && o.no_lint && status == 0 {
        seq![
            MessageModel::Pass(
                "Formatting completed for checked files"@,
                Some("("@ + elapsed + ")"@),
            ),
        ]
    } else {
        seq![]
    };
    if status != 0 {
        (
            report + done + (if o.fix {
                error_block(
                    "Formatting could not complete"@,
                    combined,
                    "Formatting failed during fix"@,
                )
            } else {
                seq![]
            }),
            ActionModel::Exit(status),
        )
    } else if !o.no_lint {
        (report + done, ActionModel::RunLint(lint_args(o)))
    } else {
        (report + done, ActionModel::Exit(0))
    }
}

/// The status after a lint run: warnings alone do not fail.
pub open spec fn lint_status(status: u8, combined: Seq<char>) -> u8 {
    match lint_verdict(combined) {
        LintVerdict::Failure(_, w, e, _) => if e == 0 && w > 0 {
            0
        } else {
            status
        },
        _ => status,
    }
}

pub open spec fn lint_pass_message(o: CheckOptions, m: (Seq<char>, nat, nat)) -> Seq<char> {
    success_text(lint_kind(o)) + " in "@ + count_text(m.1, "file"@, "files"@)
}

/// The pass line of a clean lint run that waits for the final format run.
pub open spec fn deferred_pass(o: CheckOptions, combined: Seq<char>) -> Option<(Seq<char>, Seq<char>)> {
    match lint_verdict(combined) {
        LintVerdict::Success(m) => if o.fix && !o.no_fmt {
            Some((lint_pass_message(o, m), run_detail(m)))
        } else {
            None
        },
        _ => None,
    }
}

/// The report of a lint run.
pub open spec fn lint_report(o: CheckOptions, status: u8, combined: Seq<char>) -> Seq<MessageModel> {
    match lint_verdict(combined) {
        LintVerdict::Success(m) => if o.fix && !o.no_fmt {
            seq![]
        } else {
            seq![MessageModel::Pass(lint_pass_message(o, m), Some(run_detail(m)))]
        },
        LintVerdict::Failure(m, w, e, d) => seq![
            if e == 0 && w > 0 {
                MessageModel::Warn(warning_text(lint_kind(o)))
            } else {
                MessageModel::Error(issue_text(lint_kind(o)))
            },
        ] + block(d) + seq![
            MessageModel::Summary(
                "Found "@ + count_text(e, "error"@, "errors"@) + " and "@ + count_text(
                    w,
                    "warning"@,
                    "warnings"@,
                ) + " in "@ + count_text(m.1, "file"@, "files"@) + " ("@ + m.0 + ", "@ + decimal(
                    m.2,
                ) + " threads)"@,
            ),
        ],
        LintVerdict::Unreadable => if suppress_unmatched(o) && status == 0 {
            seq![]
        } else {
            error_block(
                "Linting could not start"@,
                combined,
                "Linting failed before analysis started"@,
            )
        },
    }
}

/// After the lint run.
pub open spec fn after_lint_spec(o: CheckOptions, status: u8, combined: Seq<char>) -> (
    Seq<MessageModel>,
    ActionModel,
) {
    let s = lint_status(status, combined);
    (
        lint_report(o, status, combined),
        if s != 0 {
            ActionModel::Exit(s)
        } else if o.fix && !o.no_fmt && !o.no_lint {
            ActionModel::RunFmt(refmt_args(o))
        } else {
            ActionModel::Exit(s)
        },
    )
}

/// After the format run that follows lint fixes.
pub open spec fn after_refmt_spec(
    status: u8,
    combined: Seq<char>,
    elapsed: Seq<char>,
    deferred: Option<(Seq<char>, Seq<char>)>,
) -> (Seq<MessageModel>, ActionModel) {
    if status != 0 {
        (
            error_block(
                "Formatting could not finish after lint fixes"@,
                combined,
                "Formatting failed after lint fixes were applied"@,
            ),
            ActionModel::Exit(status),
        )
    } else {
        (
            seq![
                MessageModel::Pass(
                    "Formatting completed for checked files"@,
                    Some("("@ + elapsed + ")"@),
                ),
            ] + match deferred {
                Some((m, d)) => seq![MessageModel::Pass(m, Some(d))],
                None => seq![],
            },
            ActionModel::Exit(0),
        )
    }
}

fn text(parts: &Vec<char>) -> (res: String)
    ensures
        res@ == parts@,
{
    chars_to_string(parts.as_slice())
}

fn msg_error(s: &str) -> (res: CheckMessage)
    ensures
        res@ == MessageModel::Error(s@),
{
    CheckMessage::Error(String::from_str(s))
}

fn msg_summary(s: &str) -> (res: CheckMessage)
    ensures
        res@ == MessageModel::Summary(s@),
{
    CheckMessage::Summary(String::from_str(s))
}

fn push_msg(out: &mut Vec<CheckMessage>, m: CheckMessage)
    ensures
        messages_view(final(out)@) == messages_view(old(out)@).push(m@),
{
    let ghost before = out@;
    out.push(m);
    proof {
        assert(messages_view(out@) =~= messages_view(before).push(m@));
    }
}

fn push_block(out: &mut Vec<CheckMessage>, t: &[char])
    ensures
        messages_view(final(out)@) == messages_view(old(out)@) + block(t@),
{
    let trimmed = trim_newline_chars(t);
    if trimmed.len() > 0 {
        push_msg(out, CheckMessage::Stdout(chars_to_string(trimmed.as_slice())));
    } else {
        proof {
            assert(messages_view(out@) =~= messages_view(out@) + Seq::<MessageModel>::empty());
        }
    }
}

fn push_error_block(out: &mut Vec<CheckMessage>, error: &str, output: &[char], summary: &str)
    ensures
        messages_view(final(out)@) == messages_view(old(out)@) + error_block(error@, output@, summary@),
{
    let ghost start = messages_view(out@);
    push_msg(out, msg_error(error));
    let ghost mid = messages_view(out@);
    if trim_chars(output).len() > 0 {
        push_block(out, output);
    } else {
        proof {
            assert(messages_view(out@) =~= messages_view(out@) + Seq::<MessageModel>::empty());
        }
    }
    let ghost mid2 = messages_view(out@);
    push_msg(out, msg_summary(summary));
    proof {
        assert(messages_view(out@) =~= start + error_block(error@, output@, summary@));
    }
}

fn flag_args(o: &CheckOptions, first: &Vec<&str>) -> (res: Vec<String>)
    ensures
        crate::pm::strs(res@) == first@.map_values(|s: &str| s@) + unmatched_flag(*o) + crate::pm::strs(
            o.paths@,
        ),
{
    let mut out: Vec<String> = Vec::new();
    let mut i: usize = 0;
    while i < first.len()
        invariant
            i <= first@.len(),
            crate::pm::strs(out@) == first@.take(i as int).map_values(|s: &str| s@),
        decreases first@.len() - i,
    {
        let ghost before = out@;
        out.push(String::from_str(first[i]));
        proof {
            assert(crate::pm::strs(out@) =~= crate::pm::strs(before).push(first@[i as int]@));
            assert(first@.take(i + 1).map_values(|s: &str| s@) =~= first@.take(i as int).map_values(
                |s: &str| s@,
            ).push(first@[i as int]@));
        }
        i += 1;
    }
    proof {
        assert(first@.take(first@.len() as int) =~= first@);
    }
    let ghost head = crate::pm::strs(out@);
    let suppress = o.no_error_on_unmatched_pattern || (o.fix && o.paths.len() > 0);
    if suppress {
        out.push(String::from_str("--no-error-on-unmatched-pattern"));
        proof {
            assert(crate::pm::strs(out@) =~= head + unmatched_flag(*o));
        }
    } else {
        proof {
            assert(crate::pm::strs(out@) =~= head + unmatched_flag(*o));
        }
    }
    let ghost mid = crate::pm::strs(out@);
    let mut k: usize = 0;
    while k < o.paths.len()
        invariant
            k <= o.paths@.len(),
            crate::pm::strs(out@) == mid + crate::pm::strs(o.paths@.take(k as int)),
        decreases o.paths@.len() - k,
    {
        let ghost before = out@;
        out.push(o.paths[k].clone());
        proof {
            assert(crate::pm::strs(out@) =~= crate::pm::strs(before).push(o.paths@[k as int]@));
            assert(crate::pm::strs(o.paths@.take(k + 1)) =~= crate::pm::strs(o.paths@.take(k as int)).push(
                o.paths@[k as int]@,
            ));
        }
        k += 1;
    }
    proof {
        assert(o.paths@.take(o.paths@.len() as int) =~= o.paths@);
    }
    out
}

fn fmt_check_args(o: &CheckOptions) -> (res: Vec<String>)
    ensures
        crate::pm::strs(res@) == fmt_args(*o),
{
    let mut first: Vec<&str> = Vec::new();
    if !o.fix {
        first.push("--check");
    }
    let res = flag_args(o, &first);
    proof {
        if o.fix {
            assert(first@.map_values(|s: &str| s@) =~= Seq::<Seq<char>>::empty());
        } else {
            assert(first@.map_values(|s: &str| s@) =~= seq!["--check"@]);
        }
    }
    res
}

fn lint_run_args(o: &CheckOptions) -> (res: Vec<String>)
    ensures
        crate::pm::strs(res@) == lint_args(*o),
{
    let mut first: Vec<&str> = Vec::new();
    if o.fix {
        first.push("--fix");
    }
    first.push("--format=default");
    let res = flag_args(o, &first);
    proof {
        if o.fix {
            assert(first@.map_values(|s: &str| s@) =~= seq!["--fix"@, "--format=default"@]);
        } else {
            assert(first@.map_values(|s: &str| s@) =~= seq!["--format=default"@]);
        }
    }
    res
}

fn refmt_run_args(o: &CheckOptions) -> (res: Vec<String>)
    ensures
        crate::pm::strs(res@) == refmt_args(*o),
{
    let first: Vec<&str> = Vec::new();
    let res = flag_args(o, &first);
    proof {
        assert(first@.map_values(|s: &str| s@) =~= Seq::<Seq<char>>::empty());
    }
    res
}

/// Where `vp check` begins: nothing to do when both checks are off;
/// otherwise the formatter runs first, or the linter when formatting is off.
pub fn check_start(o: &CheckOptions) -> (res: CheckStep)
    ensures
        step_is(res, start_spec(*o).0, start_spec(*o).1),
{
    let mut messages: Vec<CheckMessage> = Vec::new();
    if o.no_fmt && o.no_lint {
        push_msg(&mut messages, msg_error("No checks enabled"));
        push_msg(
            &mut messages,
            msg_summary("`vp check` did not run because both `--no-fmt` and `--no-lint` were set"),
        );
        proof {
            assert(messages_view(messages@) =~= start_spec(*o).0);
        }
        return CheckStep { messages, action: CheckAction::Exit(1) };
    }
    proof {
        assert(messages_view(messages@) =~= Seq::<MessageModel>::empty());
    }
    if !o.no_fmt {
        CheckStep { messages, action: CheckAction::RunFmt(fmt_check_args(o)) }
    } else {
        CheckStep { messages, action: CheckAction::RunLint(lint_run_args(o)) }
    }
}

fn detail_text(s: &CheckSummary) -> (res: Vec<char>)
    ensures
        res@ == "("@ + s.duration@ + ", "@ + decimal(s.threads as nat) + " threads)"@,
{
    let mut d = str_chars("(");
    push_str(&mut d, s.duration.as_str());
    push_str(&mut d, ", ");
    push_all(&mut d, format_decimal(s.threads as u128).as_slice());
    push_str(&mut d, " threads)");
    d
}

fn join_strings(v: &Vec<String>) -> (res: Vec<char>)
    ensures
        res@ == joined(crate::pm::strs(v@), "\n"@),
{
    let mut out: Vec<char> = Vec::new();
    let mut i: usize = 0;
    while i < v.len()
        invariant
            i <= v@.len(),
            out@ == joined(crate::pm::strs(v@).take(i as int), "\n"@),
        decreases v@.len() - i,
    {
        proof {
            assert(crate::pm::strs(v@).take(i + 1) =~= crate::pm::strs(v@).take(i as int).push(
                v@[i as int]@,
            ));
            lemma_joined_push(crate::pm::strs(v@).take(i as int), "\n"@, v@[i as int]@);
        }
        if i > 0 {
            push_str(&mut out, "\n");
        }
        push_str(&mut out, v[i].as_str());
        i += 1;
    }
    proof {
        assert(crate::pm::strs(v@).take(v@.len() as int) =~= crate::pm::strs(v@));
    }
    out
}

fn push_fmt_report(out: &mut Vec<CheckMessage>, o: &CheckOptions, status: u8, combined: &[char])
    ensures
        messages_view(final(out)@) == messages_view(old(out)@) + fmt_report(*o, status, combined@),
{
    let ghost start = messages_view(out@);
    if o.fix {
        proof {
            assert(messages_view(out@) =~= start + Seq::<MessageModel>::empty());
        }
        return;
    }
    match analyze_fmt_check_output(combined) {
        Some(Ok(success)) => {
            let mut m = str_chars("All ");
            push_str(&mut m, format_count(success.summary.files, "file", "files").as_str());
            push_str(&mut m, " are correctly formatted");
            let d = detail_text(&success.summary);
            push_msg(out, CheckMessage::Pass(text(&m), Some(text(&d))));
        },
        Some(Err(failure)) => {
            push_msg(out, msg_error("Formatting issues found"));
            let files = join_strings(&failure.issue_files);
            push_block(out, files.as_slice());
            let mut m = str_chars("Found formatting issues in ");
            push_str(&mut m, format_count(failure.issue_count, "file", "files").as_str());
            push_str(&mut m, " (");
            push_str(&mut m, failure.summary.duration.as_str());
            push_str(&mut m, ", ");
            push_all(&mut m, format_decimal(failure.summary.threads as u128).as_slice());
            push_str(&mut m, " threads). Run `vp check --fix` to fix them.");
            push_msg(out, CheckMessage::Summary(text(&m)));
        },
        None => {
            let suppress = o.no_error_on_unmatched_pattern || (o.fix && o.paths.len() > 0);
            if !(suppress && status == 0) {
                push_error_block(
                    out,
                    "Formatting could not start",
                    combined,
                    "Formatting failed before analysis started",
                );
            } else {
                proof {
                    assert(messages_view(out@) =~= start + Seq::<MessageModel>::empty());
                }
            }
        },
    }
    proof {
        assert(messages_view(out@) =~= start + fmt_report(*o, status, combined@));
    }
}

/// After the formatter's first run: its report, then the linter, or the
/// exit status.
pub fn check_after_fmt(o: &CheckOptions, status: u8, stdout: &str, stderr: &str, elapsed: &str) -> (res: CheckStep)
    ensures
        step_is(
            res,
            after_fmt_spec(*o, status, combined_text(stdout@, stderr@), elapsed@).0,
            after_fmt_spec(*o, status, combined_text(stdout@, stderr@), elapsed@).1,
        ),
{
    let combined = combine_output(stdout, stderr);
    let mut messages: Vec<CheckMessage> = Vec::new();
    push_fmt_report(&mut messages, o, status, combined.as_slice());
    let ghost report = messages_view(messages@);
    proof {
        assert(report =~= Seq::<MessageModel>::empty() + fmt_report(*o, status, combined@));
    }
    if o.fix && o.no_lint && status == 0 {
        let mut d = str_chars("(");
        push_str(&mut d, elapsed);
        push_str(&mut d, ")");
        push_msg(
            &mut messages,
            CheckMessage::Pass(String::from_str("Formatting completed for checked files"), Some(text(&d))),
        );
    }
    let ghost with_done = messages_view(messages@);
    if status != 0 {
        if o.fix {
            push_error_block(
                &mut messages,
                "Formatting could not complete",
                combined.as_slice(),
                "Formatting failed during fix",
            );
        }
        proof {
            assert(messages_view(messages@) =~= after_fmt_spec(*o, status, combined@, elapsed@).0);
        }
        return CheckStep { messages, action: CheckAction::Exit(status) };
    }
    proof {
        assert(messages_view(messages@) =~= after_fmt_spec(*o, status, combined@, elapsed@).0);
    }
    if !o.no_lint {
        CheckStep { messages, action: CheckAction::RunLint(lint_run_args(o)) }
    } else {
        CheckStep { messages, action: CheckAction::Exit(0) }
    }
}

fn lint_pass_text(o: &CheckOptions, s: &CheckSummary) -> (res: Vec<char>)
    ensures
        res@ == lint_pass_message(*o, (s.duration@, s.files as nat, s.threads as nat)),
{
    let kind = LintMessageKind::from_flags(true, o.type_check_enabled);
    let mut m = str_chars(kind.success_label());
    push_str(&mut m, " in ");
    push_str(&mut m, format_count(s.files, "file", "files").as_str());
    m
}

/// After the lint run: its report, then (after `--fix` with formatting on)
/// a final format run, or the exit status. The second part of the result is
/// the pass line kept back for after that run.
pub fn check_after_lint(o: &CheckOptions, status: u8, stdout: &str, stderr: &str) -> (res: (
    CheckStep,
    Option<(String, String)>,
))
    ensures
        step_is(
            res.0,
            after_lint_spec(*o, status, combined_text(stdout@, stderr@)).0,
            after_lint_spec(*o, status, combined_text(stdout@, stderr@)).1,
        ),
        match (res.1, deferred_pass(*o, combined_text(stdout@, stderr@))) {
            (Some((m, d)), Some((a, b))) => m@ == a && d@ == b,
            (None, None) => true,
            _ => false,
        },
{
    let combined = combine_output(stdout, stderr);
    let kind = LintMessageKind::from_flags(true, o.type_check_enabled);
    let mut messages: Vec<CheckMessage> = Vec::new();
    let mut deferred: Option<(String, String)> = None;
    let mut new_status = status;
    let suppress = o.no_error_on_unmatched_pattern || (o.fix && o.paths.len() > 0);
    match analyze_lint_output(combined.as_slice()) {
        Some(Ok(success)) => {
            let m = lint_pass_text(o, &success.summary);
            let d = detail_text(&success.summary);
            if o.fix && !o.no_fmt {
                deferred = Some((text(&m), text(&d)));
                proof {
                    assert(messages_view(messages@) =~= Seq::<MessageModel>::empty());
                }
            } else {
                push_msg(&mut messages, CheckMessage::Pass(text(&m), Some(text(&d))));
            }
        },
        Some(Err(failure)) => {
            if failure.errors == 0 && failure.warnings > 0 {
                push_msg(&mut messages, CheckMessage::Warn(String::from_str(kind.warning_heading())));
                new_status = 0;
            } else {
                push_msg(&mut messages, CheckMessage::Error(String::from_str(kind.issue_heading())));
            }
            push_block(&mut messages, str_chars(failure.diagnostics.as_str()).as_slice());
            let mut m = str_chars("Found ");
            push_str(&mut m, format_count(failure.errors, "error", "errors").as_str());
            push_str(&mut m, " and ");
            push_str(&mut m, format_count(failure.warnings, "warning", "warnings").as_str());
            push_str(&mut m, " in ");
            push_str(&mut m, format_count(failure.summary.files, "file", "files").as_str());
            push_str(&mut m, " (");
            push_str(&mut m, failure.summary.duration.as_str());
            push_str(&mut m, ", ");
            push_all(&mut m, format_decimal(failure.summary.threads as u128).as_slice());
            push_str(&mut m, " threads)");
            push_msg(&mut messages, CheckMessage::Summary(text(&m)));
        },
        None => {
            if !(suppress && status == 0) {
                push_error_block(
                    &mut messages,
                    "Linting could not start",
                    combined.as_slice(),
                    "Linting failed before analysis started",
                );
            } else {
                proof {
                    assert(messages_view(messages@) =~= Seq::<MessageModel>::empty());
                }
            }
        },
    }
    proof {
        assert(messages_view(messages@) =~= lint_report(*o, status, combined@));
    }
    if new_status != 0 {
        return (CheckStep { messages, action: CheckAction::Exit(new_status) }, deferred);
    }
    if o.fix && !o.no_fmt && !o.no_lint {
        (CheckStep { messages, action: CheckAction::RunFmt(refmt_run_args(o)) }, deferred)
    } else {
        (CheckStep { messages, action: CheckAction::Exit(new_status) }, deferred)
    }
}

/// After the final format run: its failure, or the pass lines of the
/// formatting and of the lint run kept back.
pub fn check_after_refmt(
    status: u8,
    stdout: &str,
    stderr: &str,
    elapsed: &str,
    deferred: Option<(String, String)>,
) -> (res: CheckStep)
    ensures
        step_is(
            res,
            after_refmt_spec(
                status,
                combined_text(stdout@, stderr@),
                elapsed@,
                match deferred {
                    Some((m, d)) => Some((m@, d@)),
                    None => None,
                },
            ).0,
            after_refmt_spec(
                status,
                combined_text(stdout@, stderr@),
                elapsed@,
                match deferred {
                    Some((m, d)) => Some((m@, d@)),
                    None => None,
                },
            ).1,
        ),
{
    let combined = combine_output(stdout, stderr);
    let mut messages: Vec<CheckMessage> = Vec::new();
    if status != 0 {
        push_error_block(
            &mut messages,
            "Formatting could not finish after lint fixes",
            combined.as_slice(),
            "Formatting failed after lint fixes were applied",
        );
        proof {
            assert(messages_view(messages@) =~= Seq::<MessageModel>::empty() + error_block(
                "Formatting could not finish after lint fixes"@,
                combined@,
                "Formatting failed after lint fixes were applied"@,
            ));
        }
        return CheckStep { messages, action: CheckAction::Exit(status) };
    }
    let mut d = str_chars("(");
    push_str(&mut d, elapsed);
    push_str(&mut d, ")");
    push_msg(
        &mut messages,
        CheckMessage::Pass(String::from_str("Formatting completed for checked files"), Some(text(&d))),
    );
    match deferred {
        Some((m, dd)) => {
            push_msg(&mut messages, CheckMessage::Pass(m, Some(dd)));
        },
        None => {},
    }
    proof {
        assert(messages_view(messages@) =~= after_refmt_spec(
            status,
            combined@,
            elapsed@,
            match deferred {
                Some((m, d)) => Some((m@, d@)),
                None => None,
            },
        ).0);
    }
    CheckStep { messages, action: CheckAction::Exit(0) }
}

} // verus!
