//! Decisions of the installer: which tarball entries are safe to extract,
//! where a version is installed, and which old versions are removed.
use vstd::prelude::*;

use crate::path_list::{join_paths, Platform};
use crate::pm::strs;
use crate::text::{
    chars_eq, chars_to_string, decimal, format_decimal, format_signed, push_all, signed_decimal,
    starts_with, str_chars, has_prefix, push_str,
};

verus! {

/// Whether `p` has a `..` component (components separated by `/`).
pub open spec fn has_parent_component(p: Seq<char>) -> bool {
    exists|i: int|
        0 <= i && i + 2 <= p.len() && #[trigger] p[i] == '.' && p[i + 1] == '.' && (i == 0 || p[i
            - 1] == '/') && (i + 2 == p.len() || p[i + 2] == '/')
}

/// Validate that a tarball entry path is safe: not absolute and without `..`
/// components. Tar archives always use `/` separators.
pub open spec fn is_safe_tar_path_spec(p: Seq<char>) -> bool {
    !(p.len() > 0 && p[0] == '/') && !has_parent_component(p)
}

pub fn is_safe_tar_path(path: &str) -> (res: bool)
    ensures
        res == is_safe_tar_path_spec(path@),
{
    let p = str_chars(path);
    if p.len() > 0 && p[0] == '/' {
        return false;
    }
    let mut i: usize = 0;
    while p.len() >= 2 && i <= p.len() - 2
        invariant
            p@ == path@,
            forall|k: int|
                0 <= k < i ==> !(k + 2 <= p@.len() && #[trigger] p@[k] == '.' && p@[k + 1] == '.'
                    && (k == 0 || p@[k - 1] == '/') && (k + 2 == p@.len() || p@[k + 2] == '/')),
        decreases p.len() - i,
    {
        if p[i] == '.' && p[i + 1] == '.' && (i == 0 || p[i - 1] == '/') && (i + 2 == p.len()
            || p[i + 2] == '/') {
            return false;
        }
        i += 1;
    }
    proof {
        assert forall|k: int|
            0 <= k && k + 2 <= p@.len() && #[trigger] p@[k] == '.' && p@[k + 1] == '.' && (k == 0
                || p@[k - 1] == '/') implies !(k + 2 == p@.len() || p@[k + 2] == '/') by {
            assert(k < i);
        }
    }
    true
}

/// The forced-reinstall directory name: `{version}+force.{pid}.{nanos}`, a
/// valid semantic version with build metadata.
pub open spec fn forced_dir_name(version: Seq<char>, pid: nat, nanos: nat) -> Seq<char> {
    version + "+force."@ + decimal(pid) + "."@ + decimal(nanos)
}

pub fn forced_reinstall_dir_name(version: &str, process_id: u32, nanos: u128) -> (res: String)
    ensures
        res@ == forced_dir_name(version@, process_id as nat, nanos as nat),
{
    let mut out = str_chars(version);
    push_all(&mut out, str_chars("+force.").as_slice());
    push_all(&mut out, format_decimal(process_id as u128).as_slice());
    push_all(&mut out, str_chars(".").as_slice());
    push_all(&mut out, format_decimal(nanos).as_slice());
    chars_to_string(out.as_slice())
}

/// Whether a directory name is an install directory of `version`: the plain
/// version, or a `{version}+force.*` forced-reinstall directory.
pub open spec fn is_install_dir_for(dir: Seq<char>, version: Seq<char>) -> bool {
    dir == version || has_prefix(dir, version + "+force."@)
}

pub fn is_install_dir_for_version(install_dir_name: &str, version: &str) -> (res: bool)
    ensures
        res == is_install_dir_for(install_dir_name@, version@),
{
    let d = str_chars(install_dir_name);
    let v = str_chars(version);
    if chars_eq(d.as_slice(), v.as_slice()) {
        return true;
    }
    let mut prefix = v;
    push_all(&mut prefix, str_chars("+force.").as_slice());
    starts_with(d.as_slice(), prefix.as_slice())
}

/// The directory to install `version` into: a forced reinstall of the active
/// version uses a unique forced-reinstall directory (the running binary is
/// locked on Windows); every other case uses the plain version directory.
pub open spec fn target_install_dir_spec(
    version: Seq<char>,
    active: Option<Seq<char>>,
    force: bool,
    pid: nat,
    nanos: nat,
) -> Seq<char> {
    if force && (active matches Some(a) && is_install_dir_for(a, version)) {
        forced_dir_name(version, pid, nanos)
    } else {
        version
    }
}

/// Resolve the directory name to install a target `version` into; `process_id`
/// and `nanos` (the current time) make a forced directory unique.
pub fn target_install_dir_name(
    version: &str,
    active_install_dir: Option<&str>,
    force: bool,
    process_id: u32,
    nanos: u128,
) -> (res: String)
    ensures
        res@ == target_install_dir_spec(
            version@,
            match active_install_dir {
                Some(a) => Some(a@),
                None => None,
            },
            force,
            process_id as nat,
            nanos as nat,
        ),
{
    if force {
        if let Some(active) = active_install_dir {
            if is_install_dir_for_version(active, version) {
                return forced_reinstall_dir_name(version, process_id, nanos);
            }
        }
    }
    String::from_str(version)
}

/// The message of a failed dependency install, with the log location when a
/// log was written.
pub open spec fn install_failure_message_spec(exit_code: int, log_path: Option<Seq<char>>) -> Seq<
    char,
> {
    "Failed to install production dependencies (exit code: "@ + signed_decimal(exit_code) + ")"@
        + match log_path {
        Some(p) => ". See log for details: "@ + p,
        None => seq![],
    }
}

pub fn format_install_failure_message(exit_code: i32, log_path: Option<&str>) -> (res: String)
    ensures
        res@ == install_failure_message_spec(
            exit_code as int,
            match log_path {
                Some(p) => Some(p@),
                None => None,
            },
        ),
{
    let mut out = str_chars("Failed to install production dependencies (exit code: ");
    push_all(&mut out, format_signed(exit_code as i64).as_slice());
    push_all(&mut out, str_chars(")").as_slice());
    if let Some(p) = log_path {
        push_all(&mut out, str_chars(". See log for details: ").as_slice());
        push_all(&mut out, str_chars(p).as_slice());
    }
    chars_to_string(out.as_slice())
}

/// The text of the upgrade log written after a failed install.
pub open spec fn upgrade_log_spec(stdout: Seq<char>, stderr: Seq<char>) -> Seq<char> {
    "=== stdout ===\n"@ + stdout + "\n=== stderr ===\n"@ + stderr
}

pub fn upgrade_log_content(stdout: &str, stderr: &str) -> (res: String)
    ensures
        res@ == upgrade_log_spec(stdout@, stderr@),
{
    let mut out = str_chars("=== stdout ===\n");
    push_all(&mut out, str_chars(stdout).as_slice());
    push_all(&mut out, str_chars("\n=== stderr ===\n").as_slice());
    push_all(&mut out, str_chars(stderr).as_slice());
    chars_to_string(out.as_slice())
}

// ---------------------------------------------------------------------------
// Cleanup of old versions.
// ---------------------------------------------------------------------------

/// A directory entry of the install directory: its name and creation time.
#[derive(Debug, Clone, PartialEq, Eq)]
pub struct VersionDir {
    pub name: String,
    pub created: u128,
}

/// What `node_semver::Version::parse` makes of a text: the numeric triple
/// and the pre-release identifiers (`(true, n, _)` for a numeric one,
/// `(false, _, text)` for another), or `None` when it refuses the text.
pub uninterp spec fn node_semver_parse(text: Seq<char>) -> Option<(u64, u64, u64, Seq<(bool, u64, Seq<char>)>)>;

/// A pre-release identifier of a node-style version.
#[derive(Debug, Clone, PartialEq, Eq)]
pub enum PreRelease {
    Numeric(u64),
    AlphaNumeric(String),
}

/// A node-style version, as far as the installer reads it.
#[derive(Debug, Clone, PartialEq, Eq)]
pub struct NodeVersion {
    pub major: u64,
    pub minor: u64,
    pub patch: u64,
    pub pre_release: Vec<PreRelease>,
}

pub open spec fn pre_view(p: PreRelease) -> (bool, u64, Seq<char>) {
    match p {
        PreRelease::Numeric(n) => (true, n, seq![]),
        PreRelease::AlphaNumeric(s) => (false, 0, s@),
    }
}

pub open spec fn node_version_view(v: NodeVersion) -> (u64, u64, u64, Seq<(bool, u64, Seq<char>)>) {
    (v.major, v.minor, v.patch, v.pre_release@.map_values(|p: PreRelease| pre_view(p)))
}

/// Parses a version with `node_semver::Version::parse` (its result named
/// `node_semver_parse`).
#[verifier::external_body]
fn parse_node_semver(text: &str) -> (res: Option<NodeVersion>)
    ensures
        match res {
            Some(v) => node_semver_parse(text@) == Some(node_version_view(v)),
            None => node_semver_parse(text@) is None,
        },
{
    match node_semver::Version::parse(text) {
        Ok(v) => Some(NodeVersion {
            major: v.major,
            minor: v.minor,
            patch: v.patch,
            pre_release: v.pre_release.into_iter().map(|i| match i {
                node_semver::Identifier::Numeric(n) => PreRelease::Numeric(n),
                node_semver::Identifier::AlphaNumeric(s) => PreRelease::AlphaNumeric(s),
            }).collect(),
        }),
        Err(_) => None,
    }
}

/// Whether `node_semver::Version::parse` accepts `text`.
fn is_node_semver(text: &str) -> (res: bool)
    ensures
        res == node_semver_parse(text@) is Some,
{
    parse_node_semver(text).is_some()
}

/// Whether a version has the split directory layout: 0.3.0 and later
/// (pre-releases included), and the `0.0.0-commit.<sha>` builds of the
/// current branch.
pub open spec fn split_layout_spec(version: Seq<char>) -> bool {
    match node_semver_parse(version) {
        None => false,
        Some((major, minor, patch, pre)) => if major == 0 && minor == 0 && patch == 0 {
            pre.len() >= 2 && !pre[0].0 && pre[0].2 == "commit"@
        } else {
            major > 0 || minor >= 3
        },
    }
}

pub fn supports_split_layout(version: &str) -> (res: bool)
    ensures
        res == split_layout_spec(version@),
{
    let v = match parse_node_semver(version) {
        Some(v) => v,
        None => return false,
    };
    proof {
        reveal_strlit("commit");
    }
    if v.major == 0 && v.minor == 0 && v.patch == 0 {
        if v.pre_release.len() >= 2 {
            proof {
                assert(node_version_view(v).3[0] == pre_view(v.pre_release@[0]));
            }
            match &v.pre_release[0] {
                PreRelease::AlphaNumeric(label) => crate::text::str_eq(label.as_str(), "commit"),
                PreRelease::Numeric(_) => false,
            }
        } else {
            false
        }
    } else {
        v.major > 0 || v.minor >= 3
    }
}

/// Whether entry `j` comes before entry `i` when the entries are sorted
/// newest first, keeping the listing order among equal times.
pub open spec fn sorts_before(es: Seq<VersionDir>, j: int, i: int) -> bool {
    es[j].created > es[i].created || (es[j].created == es[i].created && j < i)
}

/// Whether an entry is a version directory (its name parses as a version).
pub open spec fn is_version_entry(es: Seq<VersionDir>, j: int) -> bool {
    node_semver_parse(es[j].name@) is Some
}

/// How many version directories come before entry `i` among `es[0..k]`.
pub open spec fn rank_upto(es: Seq<VersionDir>, i: int, k: int) -> nat
    decreases k,
{
    if k <= 0 {
        0
    } else {
        rank_upto(es, i, k - 1) + if is_version_entry(es, k - 1) && sorts_before(es, k - 1, i) {
            1nat
        } else {
            0nat
        }
    }
}

/// The position of entry `i` among the version directories sorted newest
/// first.
pub open spec fn rank(es: Seq<VersionDir>, i: int) -> nat {
    rank_upto(es, i, es.len() as int)
}

/// Whether entry `i` is removed by a cleanup that keeps the `max_keep` newest
/// version directories and never removes a protected version.
pub open spec fn removed(es: Seq<VersionDir>, i: int, max_keep: nat, protected: Seq<Seq<char>>) -> bool {
    &&& is_version_entry(es, i)
    &&& rank(es, i) >= max_keep
    &&& !protected.contains(es[i].name@)
}

/// The entries removed by a cleanup, in listing order.
pub open spec fn removed_upto(
    es: Seq<VersionDir>,
    k: int,
    max_keep: nat,
    protected: Seq<Seq<char>>,
) -> Seq<Seq<char>>
    decreases k,
{
    if k <= 0 {
        seq![]
    } else if removed(es, k - 1, max_keep, protected) {
        removed_upto(es, k - 1, max_keep, protected).push(es[k - 1].name@)
    } else {
        removed_upto(es, k - 1, max_keep, protected)
    }
}

fn contains_name(names: &[String], name: &str) -> (res: bool)
    ensures
        res == strs(names@).contains(name@),
{
    let n = str_chars(name);
    let mut k: usize = 0;
    while k < names.len()
        invariant
            k <= names.len(),
            n@ == name@,
            forall|j: int| 0 <= j < k ==> (#[trigger] names@[j])@ != name@,
        decreases names.len() - k,
    {
        let m = str_chars(names[k].as_str());
        if chars_eq(m.as_slice(), n.as_slice()) {
            proof {
                assert(strs(names@)[k as int] == name@);
            }
            return true;
        }
        k += 1;
    }
    proof {
        if strs(names@).contains(name@) {
            let j = choose|j: int| 0 <= j < strs(names@).len() && strs(names@)[j] == name@;
            assert(names@[j]@ == name@);
        }
    }
    false
}

/// The names of the version directories to remove: entries whose names parse
/// as versions, ordered by creation time (newest first, the listing order
/// among equal times), beyond the `max_keep` newest, and not protected.
pub fn versions_to_remove(
    entries: &[VersionDir],
    max_keep: usize,
    protected_versions: &[String],
) -> (res: Vec<String>)
    ensures
        strs(res@) == removed_upto(entries@, entries@.len() as int, max_keep as nat, strs(
            protected_versions@,
        )),
{
    let n = entries.len();
    let mut valid: Vec<bool> = Vec::new();
    let mut k: usize = 0;
    while k < n
        invariant
            k <= n == entries@.len(),
            valid@.len() == k,
            forall|j: int| 0 <= j < k ==> valid@[j] == is_version_entry(entries@, j),
        decreases n - k,
    {
        valid.push(is_node_semver(entries[k].name.as_str()));
        k += 1;
    }
    let mut res: Vec<String> = Vec::new();
    let mut i: usize = 0;
    while i < n
        invariant
            i <= n == entries@.len(),
            valid@.len() == n,
            forall|j: int| 0 <= j < n ==> valid@[j] == is_version_entry(entries@, j),
            strs(res@) == removed_upto(entries@, i as int, max_keep as nat, strs(protected_versions@)),
        decreases n - i,
    {
        if valid[i] {
            let mut r: usize = 0;
            let mut j: usize = 0;
            while j < n
                invariant
                    j <= n == entries@.len(),
                    i < n,
                    r <= j,
                    valid@.len() == n,
                    forall|m: int| 0 <= m < n ==> valid@[m] == is_version_entry(entries@, m),
                    r == rank_upto(entries@, i as int, j as int),
                decreases n - j,
            {
                if valid[j] && (entries[j].created > entries[i].created || (entries[j].created
                    == entries[i].created && j < i)) {
                    r += 1;
                }
                j += 1;
            }
            if r >= max_keep && !contains_name(protected_versions, entries[i].name.as_str()) {
                let ghost before = res@;
                res.push(entries[i].name.clone());
                proof {
                    assert(strs(res@) =~= strs(before).push(entries@[i as int].name@));
                }
            }
        }
        i += 1;
    }
    res
}

// ---------------------------------------------------------------------------
// What installing and cleaning up keep.
// ---------------------------------------------------------------------------

/// A forced-reinstall directory is an install directory of its version, so
/// the active-version checks keep recognizing it.
pub proof fn law_forced_dir_belongs_to_version(version: Seq<char>, pid: nat, nanos: nat)
    ensures
        is_install_dir_for(forced_dir_name(version, pid, nanos), version),
        forced_dir_name(version, pid, nanos) != version,
{
    let d = forced_dir_name(version, pid, nanos);
    let p = version + "+force."@;
    assert(d.len() > version.len()) by {
        reveal_strlit("+force.");
    }
    assert(d.take(p.len() as int) =~= p);
}

proof fn lemma_decimal_digits(n: nat)
    ensures
        decimal(n).len() >= 1,
        n >= 10 ==> decimal(n).len() >= 2,
        !decimal(n).contains('.'),
    decreases n,
{
    if n >= 10 {
        lemma_decimal_digits(n / 10);
        let d = decimal(n);
        if d.contains('.') {
            let j = choose|j: int| 0 <= j < d.len() && d[j] == '.';
            if j < d.len() - 1 {
                assert(decimal(n / 10)[j] == '.');
            }
        }
    } else {
        assert(decimal(n) =~= seq![crate::text::digit_char(n)]);
    }
}

proof fn lemma_decimal_injective(n: nat, m: nat)
    requires
        decimal(n) == decimal(m),
    ensures
        n == m,
    decreases n,
{
    lemma_decimal_digits(n);
    lemma_decimal_digits(m);
    if n < 10 && m < 10 {
        assert(decimal(n)[0] == crate::text::digit_char(n));
        assert(decimal(m)[0] == crate::text::digit_char(m));
    } else if n >= 10 && m >= 10 {
        assert(decimal(n).last() == crate::text::digit_char(n % 10));
        assert(decimal(m).last() == crate::text::digit_char(m % 10));
        assert(decimal(n).drop_last() =~= decimal(n / 10));
        assert(decimal(m).drop_last() =~= decimal(m / 10));
        lemma_decimal_injective(n / 10, m / 10);
    } else {
        assert(decimal(n).len() != decimal(m).len());
    }
}

/// Two forced-reinstall directories of a version are the same only when
/// they were made by the same process id at the same time, so a forced
/// reinstall never picks the active directory unless that one was made with
/// the same process id and time.
pub proof fn law_forced_dirs_differ(version: Seq<char>, pid1: nat, nanos1: nat, pid2: nat, nanos2: nat)
    requires
        pid1 != pid2 || nanos1 != nanos2,
    ensures
        forced_dir_name(version, pid1, nanos1) != forced_dir_name(version, pid2, nanos2),
{
    reveal_strlit("+force.");
    reveal_strlit(".");
    let h = version + "+force."@;
    let a = forced_dir_name(version, pid1, nanos1);
    let b = forced_dir_name(version, pid2, nanos2);
    if a == b {
        let d1 = decimal(pid1);
        let d2 = decimal(pid2);
        let t1 = d1 + seq!['.'] + decimal(nanos1);
        let t2 = d2 + seq!['.'] + decimal(nanos2);
        assert(a =~= h + t1);
        assert(b =~= h + t2);
        assert(t1 =~= a.skip(h.len() as int));
        assert(t2 =~= b.skip(h.len() as int));
        lemma_decimal_digits(pid1);
        lemma_decimal_digits(pid2);
        lemma_decimal_digits(nanos1);
        lemma_decimal_digits(nanos2);
        if d1.len() < d2.len() {
            assert(t1[d1.len() as int] == '.');
            assert(t2[d1.len() as int] == d2[d1.len() as int]);
        } else if d2.len() < d1.len() {
            assert(t2[d2.len() as int] == '.');
            assert(t1[d2.len() as int] == d1[d2.len() as int]);
        } else {
            assert(d1 =~= t1.take(d1.len() as int));
            assert(d2 =~= t2.take(d2.len() as int));
            lemma_decimal_injective(pid1, pid2);
            assert(decimal(nanos1) =~= t1.skip(d1.len() + 1int));
            assert(decimal(nanos2) =~= t2.skip(d2.len() + 1int));
            lemma_decimal_injective(nanos1, nanos2);
        }
    }
}

proof fn lemma_removed_upto_member(
    es: Seq<VersionDir>,
    k: int,
    max_keep: nat,
    protected: Seq<Seq<char>>,
    x: Seq<char>,
)
    requires
        0 <= k <= es.len(),
        removed_upto(es, k, max_keep, protected).contains(x),
    ensures
        exists|i: int| 0 <= i < k && removed(es, i, max_keep, protected) && #[trigger] es[i].name@ == x,
    decreases k,
{
    if k > 0 {
        let prev = removed_upto(es, k - 1, max_keep, protected);
        if removed(es, k - 1, max_keep, protected) && x == es[k - 1].name@ {
            assert(es[k - 1].name@ == x);
        } else {
            if removed(es, k - 1, max_keep, protected) {
                let full = prev.push(es[k - 1].name@);
                let j = choose|j: int| 0 <= j < full.len() && #[trigger] full[j] == x;
                assert(j < prev.len());
                assert(prev[j] == x);
            }
            lemma_removed_upto_member(es, k - 1, max_keep, protected, x);
        }
    }
}

/// A cleanup removes only version directories that are neither protected
/// nor among the `max_keep` newest: protected versions (the active one
/// among them) always survive, and so do the newest ones when directory
/// names are distinct.
pub proof fn law_cleanup_keeps_protected_and_newest(
    es: Seq<VersionDir>,
    max_keep: nat,
    protected: Seq<Seq<char>>,
)
    ensures
        forall|p: Seq<char>|
            #[trigger] protected.contains(p) ==> !removed_upto(es, es.len() as int, max_keep, protected).contains(p),
        (forall|a: int, b: int| 0 <= a < b < es.len() ==> (#[trigger] es[a]).name@ != (#[trigger] es[b]).name@)
            ==> forall|i: int|
            0 <= i < es.len() && (rank(es, i) < max_keep || !is_version_entry(es, i))
                ==> !removed_upto(es, es.len() as int, max_keep, protected).contains(
                #[trigger] es[i].name@,
            ),
{
    let n = es.len() as int;
    assert forall|p: Seq<char>| #[trigger] protected.contains(p) implies !removed_upto(
        es,
        n,
        max_keep,
        protected,
    ).contains(p) by {
        if removed_upto(es, n, max_keep, protected).contains(p) {
            lemma_removed_upto_member(es, n, max_keep, protected, p);
        }
    }
    if forall|a: int, b: int| 0 <= a < b < es.len() ==> (#[trigger] es[a]).name@ != (#[trigger] es[b]).name@ {
        assert forall|i: int|
            0 <= i < es.len() && (rank(es, i) < max_keep || !is_version_entry(es, i)) implies !removed_upto(
            es,
            n,
            max_keep,
            protected,
        ).contains(#[trigger] es[i].name@) by {
            if removed_upto(es, n, max_keep, protected).contains(es[i].name@) {
                lemma_removed_upto_member(es, n, max_keep, protected, es[i].name@);
                let j = choose|j: int|
                    0 <= j < n && removed(es, j, max_keep, protected) && #[trigger] es[j].name@ == es[i].name@;
                if j < i {
                    assert(es[j].name@ != es[i].name@);
                } else if j > i {
                    assert(es[i].name@ != es[j].name@);
                }
            }
        }
    }
}

} // verus!

verus! {

/// The arguments handed to pnpm for the production install: an ancestor
/// workspace must not capture the install, and a custom registry is passed
/// on.
pub open spec fn pnpm_install_args_spec(registry: Option<Seq<char>>) -> Seq<Seq<char>> {
    seq!["install"@, "--ignore-workspace"@] + match registry {
        Some(r) => seq!["--registry"@, r],
        None => seq![],
    }
}

pub fn pnpm_install_args(registry: Option<&str>) -> (res: Vec<String>)
    ensures
        strs(res@) == pnpm_install_args_spec(
            match registry {
                Some(r) => Some(r@),
                None => None,
            },
        ),
{
    let mut args: Vec<String> = Vec::new();
    args.push(String::from_str("install"));
    args.push(String::from_str("--ignore-workspace"));
    match registry {
        Some(r) => {
            args.push(String::from_str("--registry"));
            args.push(String::from_str(r));
        },
        None => {},
    }
    proof {
        assert(strs(args@) =~= pnpm_install_args_spec(
            match registry {
                Some(r) => Some(r@),
                None => None,
            },
        ));
    }
    args
}

/// The contents of the version directory's `.npmrc`, which lifts pnpm's
/// minimum release age for this installation only.
pub fn release_age_overrides() -> (res: &'static str)
    ensures
        res@ == "minimum-release-age=0\n"@,
{
    "minimum-release-age=0\n"
}

/// The environment pnpm runs with: `CI=true`, a `PATH` that puts the
/// managed Node.js and pnpm's own bin directory ahead of the caller's
/// entries, and the custom registry (when one is given).
pub open spec fn pnpm_install_envs_spec(path: Seq<char>, registry: Option<Seq<char>>) -> Seq<
    (Seq<char>, Seq<char>),
> {
    seq![("CI"@, "true"@), ("PATH"@, path)] + match registry {
        Some(r) => seq![("npm_config_registry"@, r)],
        None => seq![],
    }
}

pub open spec fn env_pairs(v: Seq<(String, String)>) -> Seq<(Seq<char>, Seq<char>)> {
    v.map_values(|p: (String, String)| (p.0@, p.1@))
}

/// The message of a `PATH` that cannot be formed on the platform.
pub open spec fn join_error_message(platform: Platform) -> Seq<char> {
    match platform {
        Platform::Unix => "Failed to build PATH for pnpm: path segment contains separator `:`"@,
        Platform::Windows => "Failed to build PATH for pnpm: path segment contains `\"`"@,
    }
}

/// `Err` with the message when the directories cannot be joined into a
/// `PATH` on the platform (one of them cannot be an entry).
pub fn pnpm_install_envs(
    node_bin: &str,
    pnpm_bin: &str,
    path_entries: &[String],
    registry: Option<&str>,
    platform: Platform,
) -> (res: Result<Vec<(String, String)>, String>)
    ensures
        match join_paths(platform, seq![node_bin@, pnpm_bin@] + strs(path_entries@)) {
            Some(p) => res matches Ok(v) && env_pairs(v@) == pnpm_install_envs_spec(
                p,
                match registry {
                    Some(r) => Some(r@),
                    None => None,
                },
            ),
            None => res matches Err(m) && m@ == join_error_message(platform),
        },
{
    let mut dirs: Vec<String> = Vec::new();
    dirs.push(String::from_str(node_bin));
    dirs.push(String::from_str(pnpm_bin));
    let mut k: usize = 0;
    while k < path_entries.len()
        invariant
            k <= path_entries@.len(),
            strs(dirs@) == seq![node_bin@, pnpm_bin@] + strs(path_entries@).take(k as int),
        decreases path_entries@.len() - k,
    {
        let ghost before = dirs@;
        dirs.push(path_entries[k].clone());
        proof {
            assert(strs(dirs@) =~= strs(before).push(path_entries@[k as int]@));
            assert(strs(path_entries@).take(k + 1) =~= strs(path_entries@).take(k as int).push(
                path_entries@[k as int]@,
            ));
        }
        k += 1;
    }
    proof {
        assert(strs(path_entries@).take(path_entries@.len() as int) =~= strs(path_entries@));
    }
    match crate::exec::join_path_list(dirs.as_slice(), platform) {
        Some(p) => {
            let mut envs: Vec<(String, String)> = Vec::new();
            envs.push((String::from_str("CI"), String::from_str("true")));
            envs.push((String::from_str("PATH"), p));
            match registry {
                Some(r) => envs.push((String::from_str("npm_config_registry"), String::from_str(r))),
                None => {},
            }
            proof {
                assert(env_pairs(envs@) =~= pnpm_install_envs_spec(
                    p@,
                    match registry {
                        Some(r) => Some(r@),
                        None => None,
                    },
                ));
            }
            Ok(envs)
        },
        None => match platform {
            Platform::Unix => Err(
                String::from_str("Failed to build PATH for pnpm: path segment contains separator `:`"),
            ),
            Platform::Windows => Err(String::from_str("Failed to build PATH for pnpm: path segment contains `\"`")),
        },
    }
}

/// The npm package suffix of a platform, from the operating system and
/// architecture names of `std::env::consts` and whether the C library is
/// musl: `darwin-arm64`, `linux-x64-gnu`, `linux-arm64-musl`,
/// `win32-x64-msvc`, ...
pub open spec fn platform_suffix_spec(os: Seq<char>, arch: Seq<char>, musl: bool) -> Result<
    Seq<char>,
    Seq<char>,
> {
    let os_name = if os == "macos"@ {
        Some("darwin"@)
    } else if os == "linux"@ {
        Some("linux"@)
    } else if os == "windows"@ {
        Some("win32"@)
    } else {
        None
    };
    let arch_name = if arch == "x86_64"@ {
        Some("x64"@)
    } else if arch == "aarch64"@ {
        Some("arm64"@)
    } else {
        None
    };
    match os_name {
        None => Err("Unsupported operating system: "@ + os),
        Some(o) => match arch_name {
            None => Err("Unsupported architecture: "@ + arch),
            Some(a) => if o == "linux"@ {
                Ok(o + "-"@ + a + "-"@ + (if musl {
                    "musl"@
                } else {
                    "gnu"@
                }))
            } else if o == "win32"@ {
                Ok(o + "-"@ + a + "-msvc"@)
            } else {
                Ok(o + "-"@ + a)
            },
        },
    }
}

pub fn detect_platform_suffix(os: &str, arch: &str, musl: bool) -> (res: Result<String, String>)
    ensures
        match platform_suffix_spec(os@, arch@, musl) {
            Ok(s) => res matches Ok(r) && r@ == s,
            Err(e) => res matches Err(r) && r@ == e,
        },
{
    proof {
        reveal_strlit("darwin");
        reveal_strlit("linux");
        reveal_strlit("win32");
        reveal_strlit("-");
    }
    let os_kind: u8 = if crate::text::str_eq(os, "macos") {
        0
    } else if crate::text::str_eq(os, "linux") {
        1
    } else if crate::text::str_eq(os, "windows") {
        2
    } else {
        let mut m = str_chars("Unsupported operating system: ");
        push_all(&mut m, str_chars(os).as_slice());
        return Err(chars_to_string(m.as_slice()));
    };
    let arch_name: &str = if crate::text::str_eq(arch, "x86_64") {
        "x64"
    } else if crate::text::str_eq(arch, "aarch64") {
        "arm64"
    } else {
        let mut m = str_chars("Unsupported architecture: ");
        push_all(&mut m, str_chars(arch).as_slice());
        return Err(chars_to_string(m.as_slice()));
    };
    let mut out = if os_kind == 0 {
        str_chars("darwin")
    } else if os_kind == 1 {
        str_chars("linux")
    } else {
        str_chars("win32")
    };
    push_str(&mut out, "-");
    push_str(&mut out, arch_name);
    if os_kind == 1 {
        push_str(&mut out, "-");
        if musl {
            push_str(&mut out, "musl");
        } else {
            push_str(&mut out, "gnu");
        }
    } else if os_kind == 2 {
        push_str(&mut out, "-msvc");
    }
    proof {
        // "win32" and "linux" have the same length: they differ at the first character.
        assert("win32"@[0] != "linux"@[0]);
    }
    Ok(chars_to_string(out.as_slice()))
}

} // verus!

verus! {

// ---------------------------------------------------------------------------
// The binaries of a platform package (paths follow the Unix conventions).
// ---------------------------------------------------------------------------

/// What tar (reading through flate2's gzip decoder) finds in a compressed
/// archive: each entry's path, read as UTF-8 with invalid sequences
/// replaced (as `Path::to_string_lossy` reads it), and its contents, in
/// archive order; `None` when the archive cannot be read.
pub uninterp spec fn tgz_entries(data: Seq<u8>) -> Option<Seq<(Seq<char>, Seq<u8>)>>;

pub open spec fn entries_view(v: Seq<(String, Vec<u8>)>) -> Seq<(Seq<char>, Seq<u8>)> {
    v.map_values(|e: (String, Vec<u8>)| (e.0@, e.1@))
}

/// `tar::Archive::entries` over `flate2::read::GzDecoder`: every entry's
/// path (`Entry::path_bytes`, read lossily as UTF-8) and contents, named
/// `tgz_entries`; `None` when an entry or its contents cannot be read.
#[verifier::external_body]
fn read_tgz_entries(data: &[u8]) -> (res: Option<Vec<(String, Vec<u8>)>>)
    ensures
        match res {
            Some(v) => tgz_entries(data@) == Some(entries_view(v@)),
            None => tgz_entries(data@) is None,
        },
{
    let mut archive = tar::Archive::new(flate2::read::GzDecoder::new(data));
    let mut out = Vec::new();
    for entry in archive.entries().ok()? {
        let mut entry = entry.ok()?;
        let path = String::from_utf8_lossy(&entry.path_bytes()).into_owned();
        let mut contents = Vec::new();
        std::io::Read::read_to_end(&mut entry, &mut contents).ok()?;
        out.push((path, contents));
    }
    Some(out)
}

/// An entry's path relative to npm's `package/` directory: whether it
/// starts at the root, and its components. A first component `package` is
/// dropped (with the separators after it).
pub open spec fn package_relative(p: Seq<char>) -> (bool, Seq<Seq<char>>) {
    let cs = crate::path_env::components(p);
    if cs.len() > 0 && cs[0] == "package"@ {
        (false, cs.skip(1))
    } else {
        (p.len() > 0 && p[0] == '/', cs)
    }
}

/// The file an entry installs into `bin`: a safe relative path (not from
/// the root, no `..` component) whose file name is `vp`, `vp.exe` or
/// `vp-shim.exe`.
pub open spec fn platform_binary_name(p: Seq<char>) -> Option<Seq<char>> {
    let (from_root, cs) = package_relative(p);
    if from_root || cs.contains(".."@) || cs.len() == 0 {
        None
    } else if cs.last() == "vp"@ || cs.last() == "vp.exe"@ || cs.last() == "vp-shim.exe"@ {
        Some(cs.last())
    } else {
        None
    }
}

/// The platform binaries among the entries, in archive order, each as its
/// file name and contents.
pub open spec fn platform_binaries_spec(es: Seq<(Seq<char>, Seq<u8>)>) -> Seq<(Seq<char>, Seq<u8>)>
    decreases es.len(),
{
    if es.len() == 0 {
        seq![]
    } else {
        let rest = platform_binaries_spec(es.drop_last());
        match platform_binary_name(es.last().0) {
            Some(name) => rest.push((name, es.last().1)),
            None => rest,
        }
    }
}

fn platform_binary_name_exec(path: &str) -> (res: Option<String>)
    ensures
        crate::dirs::opt_view(res) == platform_binary_name(path@),
{
    let p = str_chars(path);
    let cs = crate::path_env::components_exec(p.as_slice());
    let ghost comps = crate::text::views(cs@);
    let package = str_chars("package");
    let stripped = cs.len() > 0 && chars_eq(cs[0].as_slice(), package.as_slice());
    proof {
        if cs.len() > 0 {
            assert(comps[0] == cs@[0]@);
        }
    }
    let start: usize = if stripped { 1 } else { 0 };
    if !stripped && p.len() > 0 && p[0] == '/' {
        return None;
    }
    let ghost rel = comps.skip(start as int);
    proof {
        if !stripped {
            assert(rel =~= comps);
        }
    }
    let dotdot = str_chars("..");
    let mut k: usize = start;
    while k < cs.len()
        invariant
            start <= k <= cs@.len(),
            comps == crate::text::views(cs@),
            rel == comps.skip(start as int),
            comps == crate::path_env::components(path@),
            stripped == (comps.len() > 0 && comps[0] == "package"@),
            start == (if stripped { 1usize } else { 0usize }),
            !stripped ==> rel =~= comps,
            dotdot@ == ".."@,
            forall|j: int| start <= j < k ==> comps[j] != ".."@,
        decreases cs@.len() - k,
    {
        proof {
            assert(comps[k as int] == cs@[k as int]@);
        }
        if chars_eq(cs[k].as_slice(), dotdot.as_slice()) {
            proof {
                assert(rel[k - start] == ".."@);
                assert(rel.contains(".."@));
                assert(package_relative(path@).1 == rel);
            }
            return None;
        }
        k += 1;
    }
    proof {
        assert(package_relative(path@).1 == rel);
        if rel.contains(".."@) {
            let j = choose|j: int| 0 <= j < rel.len() && rel[j] == ".."@;
            assert(comps[j + start] == ".."@);
        }
    }
    if start == cs.len() {
        return None;
    }
    let last = cs[cs.len() - 1].as_slice();
    proof {
        assert(rel.last() == comps[cs@.len() - 1]);
        assert(comps[cs@.len() - 1] == last@);
    }
    if chars_eq(last, str_chars("vp").as_slice()) || chars_eq(last, str_chars("vp.exe").as_slice())
        || chars_eq(last, str_chars("vp-shim.exe").as_slice()) {
        Some(chars_to_string(last))
    } else {
        None
    }
}

/// The files `bin` receives from a platform package tarball: the binaries
/// among its entries (see `platform_binaries_spec`); `None` when the
/// archive cannot be read.
pub fn platform_package_files(tgz: &[u8]) -> (res: Option<Vec<(String, Vec<u8>)>>)
    ensures
        match res {
            Some(v) => tgz_entries(tgz@) matches Some(es) && entries_view(v@) == platform_binaries_spec(es),
            None => tgz_entries(tgz@) is None,
        },
{
    let entries = match read_tgz_entries(tgz) {
        Some(v) => v,
        None => return None,
    };
    let ghost es = entries_view(entries@);
    let mut out: Vec<(String, Vec<u8>)> = Vec::new();
    let mut i: usize = 0;
    while i < entries.len()
        invariant
            i <= entries@.len(),
            es == entries_view(entries@),
            entries_view(out@) == platform_binaries_spec(es.take(i as int)),
        decreases entries@.len() - i,
    {
        proof {
            assert(es.take(i + 1).drop_last() =~= es.take(i as int));
            assert(es.take(i + 1).last() == es[i as int]);
            assert(es[i as int] == (entries@[i as int].0@, entries@[i as int].1@));
        }
        match platform_binary_name_exec(entries[i].0.as_str()) {
            Some(name) => {
                let ghost before = out@;
                let contents = entries[i].1.clone();
                out.push((name, contents));
                proof {
                    assert(entries_view(out@) =~= entries_view(before).push((name@, entries@[i as int].1@)));
                }
            },
            None => {},
        }
        i += 1;
    }
    proof {
        assert(es.take(entries@.len() as int) =~= es);
    }
    Some(out)
}

} // verus!

verus! {

/// The pnpm version that the wrapper package of a global install pins.
pub const PINNED_PNPM_VERSION: &'static str = "10.33.0";

/// The fields of the wrapper `package.json` of a global install: a private
/// package `vp-global` at `version` that depends on `vite-plus` at the same
/// version and pins pnpm.
#[derive(Debug, Clone)]
pub struct WrapperPackageJson {
    pub name: String,
    pub version: String,
    pub private: bool,
    pub package_manager: String,
    pub dependencies: Vec<(String, String)>,
}

pub fn wrapper_package_json(version: &str) -> (res: WrapperPackageJson)
    ensures
        res.name@ == "vp-global"@,
        res.version@ == version@,
        res.private,
        res.package_manager@ == "pnpm@"@ + PINNED_PNPM_VERSION@,
        res.dependencies@.len() == 1,
        res.dependencies@[0].0@ == "vite-plus"@,
        res.dependencies@[0].1@ == version@,
{
    let mut pm = str_chars("pnpm@");
    push_str(&mut pm, PINNED_PNPM_VERSION);
    let mut deps: Vec<(String, String)> = Vec::new();
    deps.push((String::from_str("vite-plus"), String::from_str(version)));
    WrapperPackageJson {
        name: String::from_str("vp-global"),
        version: String::from_str(version),
        private: true,
        package_manager: chars_to_string(pm.as_slice()),
        dependencies: deps,
    }
}

} // verus!
