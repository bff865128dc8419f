//! Where a bare app command (`dev`, `build`, `preview`, `pack`) runs when it
//! is invoked at a workspace root: in place, in the directory that
//! `defaultPackage` names, or in a package that the user picks.
use vstd::prelude::*;

use crate::cli::types::SynthesizableSubcommand;
use crate::pm::strs;
use crate::text::{chars_to_string, decimal, lemma_text_le_total, lemma_text_le_trans, push_all, push_str, str_chars, text_le, text_le_exec};
use vstd::string::StringSliceAdditionalSpecFns;

verus! {

/// The app commands: the single-target subcommands, with their arguments.
pub open spec fn app_command(s: SynthesizableSubcommand) -> Option<(Seq<char>, Seq<Seq<char>>)> {
    match s {
        SynthesizableSubcommand::Dev { args } => Some(("dev"@, strs(args@))),
        SynthesizableSubcommand::Build { args } => Some(("build"@, strs(args@))),
        SynthesizableSubcommand::Preview { args } => Some(("preview"@, strs(args@))),
        SynthesizableSubcommand::Pack { args } => Some(("pack"@, strs(args@))),
        _ => None,
    }
}

pub fn app_command_parts(subcommand: &SynthesizableSubcommand) -> (res: Option<(&'static str, &[String])>)
    ensures
        match (res, app_command(*subcommand)) {
            (Some((name, args)), Some((n, a))) => name@ == n && strs(args@) == a,
            (None, None) => true,
            _ => false,
        },
{
    match subcommand {
        SynthesizableSubcommand::Dev { args } => Some(("dev", args.as_slice())),
        SynthesizableSubcommand::Build { args } => Some(("build", args.as_slice())),
        SynthesizableSubcommand::Preview { args } => Some(("preview", args.as_slice())),
        SynthesizableSubcommand::Pack { args } => Some(("pack", args.as_slice())),
        _ => None,
    }
}

/// The facts about a root that signal that an app command targets the root
/// itself: `pack` accepts tsdown's default entry or a declared `pack` block;
/// the Vite commands accept a declared `root`, `build`, `input`,
/// `environments` or `appType`, or a source `index.html`.
pub struct RootFacts {
    pub has_src_index_ts: bool,
    pub has_index_html: bool,
    pub declared_fields: Vec<String>,
}

pub open spec fn declares(f: RootFacts, field: Seq<char>) -> bool {
    strs(f.declared_fields@).contains(field)
}

pub open spec fn root_intent(f: RootFacts, command: Seq<char>) -> bool {
    if command == "pack"@ {
        f.has_src_index_ts || declares(f, "pack"@)
    } else {
        declares(f, "root"@) || declares(f, "build"@) || declares(f, "input"@) || declares(
            f,
            "environments"@,
        ) || declares(f, "appType"@) || f.has_index_html
    }
}

fn declares_exec(f: &RootFacts, field: &str) -> (res: bool)
    ensures
        res == declares(*f, field@),
{
    let target = String::from_str(field);
    let mut i: usize = 0;
    while i < f.declared_fields.len()
        invariant
            i <= f.declared_fields@.len(),
            target@ == field@,
            forall|j: int| 0 <= j < i ==> (#[trigger] f.declared_fields@[j])@ != field@,
        decreases f.declared_fields@.len() - i,
    {
        if f.declared_fields[i] == target {
            proof {
                assert(strs(f.declared_fields@)[i as int] == field@);
            }
            return true;
        }
        i += 1;
    }
    proof {
        if declares(*f, field@) {
            let j = choose|j: int|
                0 <= j < strs(f.declared_fields@).len() && strs(f.declared_fields@)[j] == field@;
            assert(f.declared_fields@[j]@ == field@);
        }
    }
    false
}

/// Whether the root has an intent signal for the command.
pub fn root_has_intent_signal(facts: &RootFacts, command: &str) -> (res: bool)
    ensures
        res == root_intent(*facts, command@),
{
    if String::from_str(command) == String::from_str("pack") {
        return facts.has_src_index_ts || declares_exec(facts, "pack");
    }
    declares_exec(facts, "root") || declares_exec(facts, "build") || declares_exec(facts, "input")
        || declares_exec(facts, "environments") || declares_exec(facts, "appType")
        || facts.has_index_html
}

/// A `defaultPackage` member value: a directory, or another JSON value
/// (its text).
#[derive(Debug, Clone)]
pub enum PackageValue {
    Dir(String),
    Other(String),
}

/// A declared `defaultPackage` setting.
#[derive(Debug, Clone)]
pub enum DefaultPackage {
    /// A directory for every app command.
    Dir(String),
    /// Directories by command.
    ByCommand(Vec<(String, PackageValue)>),
    /// Another JSON value (its text).
    Other(String),
    /// A value that is not a static literal.
    NonStatic,
}

/// The `defaultPackage` setting that applies to one command: a command
/// missing from a by-command table has none.
pub open spec fn default_for(command: Seq<char>, d: DefaultPackage) -> Option<PackageValue> {
    match d {
        DefaultPackage::Dir(s) => Some(PackageValue::Dir(s)),
        DefaultPackage::Other(s) => Some(PackageValue::Other(s)),
        DefaultPackage::NonStatic => None,
        DefaultPackage::ByCommand(t) => if exists|i: int|
            0 <= i < t@.len() && (#[trigger] t@[i]).0@ == command {
            Some(
                t@[choose|i: int|
                    0 <= i < t@.len() && (#[trigger] t@[i]).0@ == command && forall|j: int|
                        0 <= j < i ==> (#[trigger] t@[j]).0@ != command].1,
            )
        } else {
            None
        },
    }
}

/// Whether a setting applies to the command at all (a non-static value
/// always does: it is reported).
pub open spec fn default_applies(command: Seq<char>, d: DefaultPackage) -> bool {
    d is NonStatic || default_for(command, d) is Some
}

/// Where the classification of a bare app command leads.
#[derive(Debug, Clone, Copy, PartialEq, Eq)]
pub enum TargetClass {
    /// Run in the invocation directory.
    RunInPlace,
    /// Apply `defaultPackage`.
    UseDefaultPackage,
    /// Ask for a package of the workspace.
    PickPackage,
}

/// What the lookup of the workspace found for the invocation directory.
#[derive(Debug, Clone, Copy)]
pub struct WorkspaceFacts {
    /// The lookup succeeded.
    pub found: bool,
    /// The invocation directory is the workspace root.
    pub at_root: bool,
    /// The root is a package without a workspace file.
    pub non_workspace_package: bool,
}

/// The resolution order: an explicit `-C` or any argument runs in place; at
/// the invocation root, a `defaultPackage` that applies is used; outside a
/// workspace, below its root, or in a lone package, the command runs in
/// place; a root with an intent signal runs in place; otherwise a package
/// is picked.
pub open spec fn classify_spec(
    is_app_command: bool,
    command: Seq<char>,
    explicit_chdir: bool,
    args_empty: bool,
    w: WorkspaceFacts,
    default_package: Option<DefaultPackage>,
    intent: bool,
) -> TargetClass {
    if !is_app_command || explicit_chdir || !args_empty {
        TargetClass::RunInPlace
    } else if (!w.found || w.at_root) && (default_package matches Some(d) && default_applies(
        command,
        d,
    )) {
        TargetClass::UseDefaultPackage
    } else if !w.found || !w.at_root || w.non_workspace_package {
        TargetClass::RunInPlace
    } else if intent {
        TargetClass::RunInPlace
    } else {
        TargetClass::PickPackage
    }
}

fn clone_value(v: &PackageValue) -> (res: PackageValue)
    ensures
        res == *v,
{
    match v {
        PackageValue::Dir(s) => PackageValue::Dir(s.clone()),
        PackageValue::Other(s) => PackageValue::Other(s.clone()),
    }
}

fn default_lookup(command: &str, d: &DefaultPackage) -> (res: Option<PackageValue>)
    ensures
        match (res, default_for(command@, *d)) {
            (Some(PackageValue::Dir(a)), Some(PackageValue::Dir(b))) => a@ == b@,
            (Some(PackageValue::Other(a)), Some(PackageValue::Other(b))) => a@ == b@,
            (None, None) => true,
            _ => false,
        },
{
    match d {
        DefaultPackage::Dir(s) => Some(PackageValue::Dir(s.clone())),
        DefaultPackage::Other(s) => Some(PackageValue::Other(s.clone())),
        DefaultPackage::NonStatic => None,
        DefaultPackage::ByCommand(t) => {
            let c = String::from_str(command);
            let mut i: usize = 0;
            while i < t.len()
                invariant
                    i <= t@.len(),
                    c@ == command@,
                    *d == DefaultPackage::ByCommand(*t),
                    forall|j: int| 0 <= j < i ==> (#[trigger] t@[j]).0@ != command@,
                decreases t@.len() - i,
            {
                if t[i].0 == c {
                    proof {
                        assert(0 <= i < t@.len() && t@[i as int].0@ == command@ && forall|j: int|
                            0 <= j < i ==> (#[trigger] t@[j]).0@ != command@);
                        let k = choose|k: int|
                            0 <= k < t@.len() && (#[trigger] t@[k]).0@ == command@ && forall|j: int|
                                0 <= j < k ==> (#[trigger] t@[j]).0@ != command@;
                        if k < i {
                            assert(t@[k].0@ != command@);
                        }
                        if k > i {
                            assert(t@[i as int].0@ != command@);
                        }
                        assert(k == i);
                        assert(default_for(command@, *d) == Some(t@[i as int].1));
                    }
                    return Some(clone_value(&t[i].1));
                }
                i += 1;
            }
            None
        },
    }
}

/// Classifies a bare app command (see `classify_spec`); `intent` is whether
/// the root has an intent signal for the command.
pub fn classify(
    subcommand: &SynthesizableSubcommand,
    explicit_chdir: bool,
    workspace: WorkspaceFacts,
    default_package: &Option<DefaultPackage>,
    intent: bool,
) -> (res: TargetClass)
    ensures
        res == classify_spec(
            app_command(*subcommand) is Some,
            match app_command(*subcommand) {
                Some((c, _)) => c,
                None => seq![],
            },
            explicit_chdir,
            match app_command(*subcommand) {
                Some((_, a)) => a.len() == 0,
                None => true,
            },
            workspace,
            *default_package,
            intent,
        ),
{
    let (command, args) = match app_command_parts(subcommand) {
        Some(p) => p,
        None => return TargetClass::RunInPlace,
    };
    if explicit_chdir || args.len() != 0 {
        return TargetClass::RunInPlace;
    }
    if !workspace.found || workspace.at_root {
        if let Some(d) = default_package {
            let applies = match d {
                DefaultPackage::NonStatic => true,
                _ => default_lookup(command, d).is_some(),
            };
            if applies {
                return TargetClass::UseDefaultPackage;
            }
        }
    }
    if !workspace.found || !workspace.at_root || workspace.non_workspace_package {
        return TargetClass::RunInPlace;
    }
    if intent {
        return TargetClass::RunInPlace;
    }
    TargetClass::PickPackage
}

/// What applying `defaultPackage` does: run in a directory (after checking
/// that it exists), or fail with a message.
#[derive(Debug, Clone)]
pub enum DefaultPackagePlan {
    Dir(String),
    Fail(String),
}

pub open spec fn default_plan_spec(command: Seq<char>, d: DefaultPackage) -> Result<Seq<char>, Seq<char>> {
    if d is NonStatic {
        Err(
            "defaultPackage in vite.config.ts must be a static string literal so vp can read it without executing the config"@,
        )
    } else {
        match default_for(command, d) {
            Some(PackageValue::Dir(s)) => Ok(s@),
            Some(PackageValue::Other(t)) => Err(
                "defaultPackage must be a string of a directory, got: "@ + t@,
            ),
            None => Err(seq![]),
        }
    }
}

/// The plan for a `defaultPackage` that applies to the command.
pub fn default_package_plan(command: &str, d: &DefaultPackage) -> (res: DefaultPackagePlan)
    requires
        default_applies(command@, *d),
    ensures
        match (res, default_plan_spec(command@, *d)) {
            (DefaultPackagePlan::Dir(a), Ok(b)) => a@ == b,
            (DefaultPackagePlan::Fail(a), Err(b)) => a@ == b,
            _ => false,
        },
{
    match d {
        DefaultPackage::NonStatic => DefaultPackagePlan::Fail(
            String::from_str(
                "defaultPackage in vite.config.ts must be a static string literal so vp can read it without executing the config",
            ),
        ),
        _ => match default_lookup(command, d) {
            Some(PackageValue::Dir(s)) => DefaultPackagePlan::Dir(s),
            Some(PackageValue::Other(t)) => {
                let mut m = str_chars("defaultPackage must be a string of a directory, got: ");
                push_str(&mut m, t.as_str());
                DefaultPackagePlan::Fail(chars_to_string(m.as_slice()))
            },
            None => DefaultPackagePlan::Fail(String::new()),
        },
    }
}

/// The message when the `defaultPackage` directory is missing.
pub fn missing_default_dir_message(dir: &str) -> (res: String)
    ensures
        res@ == "defaultPackage points to a missing directory: "@ + dir@,
{
    let mut m = str_chars("defaultPackage points to a missing directory: ");
    push_str(&mut m, dir);
    chars_to_string(m.as_slice())
}

/// The note when `defaultPackage` picks the directory.
pub fn using_default_note(command: &str, dir: &str) -> (res: String)
    ensures
        res@ == "vp "@ + command@ + ": using "@ + dir@ + " (defaultPackage in vite.config.ts)"@,
{
    let mut m = str_chars("vp ");
    push_str(&mut m, command);
    push_str(&mut m, ": using ");
    push_str(&mut m, dir);
    push_str(&mut m, " (defaultPackage in vite.config.ts)");
    chars_to_string(m.as_slice())
}

// ---------------------------------------------------------------------------
// Package rows.
// ---------------------------------------------------------------------------

/// A package of the workspace as the picker and the listing show it.
#[derive(Debug, Clone)]
pub struct PackageRow {
    pub name: String,
    pub path: String,
    pub absolute: String,
    pub likely_runnable: bool,
}

/// Rows order: likely-runnable members first, then by path.
pub open spec fn row_le(a: PackageRow, b: PackageRow) -> bool {
    if a.likely_runnable != b.likely_runnable {
        a.likely_runnable
    } else {
        text_le(a.path@, b.path@)
    }
}

fn row_le_exec(a: &PackageRow, b: &PackageRow) -> (res: bool)
    ensures
        res == row_le(*a, *b),
{
    if a.likely_runnable != b.likely_runnable {
        return a.likely_runnable;
    }
    let pa = str_chars(a.path.as_str());
    let pb = str_chars(b.path.as_str());
    text_le_exec(pa.as_slice(), pb.as_slice())
}

pub open spec fn rows_sorted(rows: Seq<PackageRow>) -> bool {
    forall|i: int, j: int| 0 <= i < j < rows.len() ==> row_le(rows[i], rows[j])
}

fn clone_row(r: &PackageRow) -> (res: PackageRow)
    ensures
        res == *r,
{
    PackageRow {
        name: r.name.clone(),
        path: r.path.clone(),
        absolute: r.absolute.clone(),
        likely_runnable: r.likely_runnable,
    }
}

pub proof fn lemma_row_le_total(a: PackageRow, b: PackageRow)
    ensures
        row_le(a, b) || row_le(b, a),
{
    lemma_text_le_total(a.path@, b.path@);
}

pub proof fn lemma_row_le_trans(a: PackageRow, b: PackageRow, c: PackageRow)
    requires
        row_le(a, b),
        row_le(b, c),
    ensures
        row_le(a, c),
{
    if a.likely_runnable == b.likely_runnable && b.likely_runnable == c.likely_runnable {
        lemma_text_le_trans(a.path@, b.path@, c.path@);
    }
}

/// How many rows are likely runnable.
pub open spec fn likely_count(s: Seq<PackageRow>) -> nat
    decreases s.len(),
{
    if s.len() == 0 {
        0
    } else {
        likely_count(s.drop_last()) + if s.last().likely_runnable {
            1nat
        } else {
            0nat
        }
    }
}

proof fn lemma_likely_count_append(a: Seq<PackageRow>, b: Seq<PackageRow>)
    ensures
        likely_count(a + b) == likely_count(a) + likely_count(b),
    decreases b.len(),
{
    if b.len() == 0 {
        assert(a + b =~= a);
    } else {
        lemma_likely_count_append(a, b.drop_last());
        assert((a + b).drop_last() =~= a + b.drop_last());
        assert((a + b).last() == b.last());
    }
}

proof fn lemma_likely_count_insert(s: Seq<PackageRow>, pos: int, x: PackageRow)
    requires
        0 <= pos <= s.len(),
    ensures
        likely_count(s.insert(pos, x)) == likely_count(s) + if x.likely_runnable {
            1nat
        } else {
            0nat
        },
{
    assert(s =~= s.take(pos) + s.skip(pos));
    assert(s.insert(pos, x) =~= s.take(pos) + (seq![x] + s.skip(pos)));
    lemma_likely_count_append(s.take(pos), s.skip(pos));
    lemma_likely_count_append(s.take(pos), seq![x] + s.skip(pos));
    lemma_likely_count_append(seq![x], s.skip(pos));
    lemma_likely_count_single(x);
}

proof fn lemma_likely_count_single(x: PackageRow)
    ensures
        likely_count(seq![x]) == if x.likely_runnable {
            1nat
        } else {
            0nat
        },
{
    assert(seq![x].drop_last() =~= Seq::<PackageRow>::empty());
    assert(likely_count(Seq::<PackageRow>::empty()) == 0);
}

proof fn lemma_likely_count_none(s: Seq<PackageRow>)
    requires
        forall|i: int| 0 <= i < s.len() ==> !(#[trigger] s[i]).likely_runnable,
    ensures
        likely_count(s) == 0,
    decreases s.len(),
{
    if s.len() > 0 {
        lemma_likely_count_none(s.drop_last());
    }
}

/// In sorted rows, the likely-runnable ones come first: one of them alone
/// is exactly `single_likely`.
proof fn lemma_single_likely_count(rows: Seq<PackageRow>)
    requires
        rows_sorted(rows),
    ensures
        single_likely(rows) <==> likely_count(rows) == 1,
{
    if rows.len() > 0 {
        let tail = rows.skip(1);
        assert(rows =~= seq![rows[0]] + tail);
        lemma_likely_count_append(seq![rows[0]], tail);
        lemma_likely_count_single(rows[0]);
        if rows.len() >= 2 && !rows[1].likely_runnable {
            assert forall|i: int| 0 <= i < tail.len() implies !(#[trigger] tail[i]).likely_runnable by {
                if i > 0 {
                    assert(row_le(rows[1], rows[i + 1]));
                }
            }
            lemma_likely_count_none(tail);
        }
        if rows.len() < 2 {
            lemma_likely_count_none(tail);
        }
        if !rows[0].likely_runnable {
            assert forall|i: int| 0 <= i < tail.len() implies !(#[trigger] tail[i]).likely_runnable by {
                assert(row_le(rows[0], rows[i + 1]));
            }
            lemma_likely_count_none(tail);
        }
        if rows.len() >= 2 && rows[0].likely_runnable && rows[1].likely_runnable {
            let t2 = tail.skip(1);
            assert(tail =~= seq![tail[0]] + t2);
            lemma_likely_count_append(seq![tail[0]], t2);
            lemma_likely_count_single(tail[0]);
        }
    }
}

/// Sorts the member rows by `row_le`, stably (a row goes after the rows
/// before it that are not above it).
pub fn sort_rows(rows: Vec<PackageRow>) -> (res: Vec<PackageRow>)
    ensures
        rows_sorted(res@),
        res@.to_multiset() == rows@.to_multiset(),
        likely_count(res@) == likely_count(rows@),
{
    let mut out: Vec<PackageRow> = Vec::new();
    let mut rest = rows;
    let ghost all = rest@;
    let mut k: usize = 0;
    proof {
        assert(all.take(0) =~= Seq::<PackageRow>::empty());
        assert(out@ =~= Seq::<PackageRow>::empty());
    }
    while k < rest.len()
        invariant
            k <= rest@.len(),
            rest@ == all,
            rows_sorted(out@),
            out@.to_multiset() == all.take(k as int).to_multiset(),
            likely_count(out@) == likely_count(all.take(k as int)),
        decreases rest@.len() - k,
    {
        let row = clone_row(&rest[k]);
        let ghost before = out@;
        let mut pos: usize = out.len();
        while pos > 0 && !row_le_exec(&out[pos - 1], &row)
            invariant
                pos <= out@.len(),
                out@ == before,
                rows_sorted(out@),
                forall|q: int| pos <= q < out@.len() ==> !row_le(out@[q], row),
            decreases pos,
        {
            pos -= 1;
        }
        out.insert(pos, row);
        proof {
            assert forall|i: int, j: int| 0 <= i < j < out@.len() implies row_le(out@[i], out@[j]) by {
                if j == pos as int {
                    if i < pos {
                        if pos > 0 {
                            assert(row_le(before[pos - 1], row));
                            if i < pos - 1 {
                                lemma_row_le_trans(before[i], before[pos - 1], row);
                            }
                        }
                    }
                } else if i == pos as int {
                    let jj = j - 1;
                    assert(!row_le(before[jj], row));
                    lemma_row_le_total(before[jj], row);
                } else {
                    let ii = if i < pos { i } else { i - 1 };
                    let jj = if j < pos { j } else { j - 1 };
                    assert(row_le(before[ii], before[jj]));
                }
            }
            assert(all.take(k + 1) =~= all.take(k as int).push(all[k as int]));
            vstd::seq_lib::to_multiset_insert(before, pos as int, row);
            vstd::seq_lib::to_multiset_build(all.take(k as int), all[k as int]);
            lemma_likely_count_insert(before, pos as int, row);
            assert(all.take(k + 1).drop_last() =~= all.take(k as int));
        }
        k += 1;
    }
    proof {
        assert(all.take(all.len() as int) =~= all);
    }
    out
}


/// The rows the picker and the listing show: the members in order, then the
/// root (its own row, or `workspace root` at `root_dir`). The flag says
/// whether exactly one member is likely runnable, which selects it without
/// asking.
pub open spec fn single_likely(sorted: Seq<PackageRow>) -> bool {
    sorted.len() >= 1 && sorted[0].likely_runnable && (sorted.len() < 2
        || !sorted[1].likely_runnable)
}

pub open spec fn root_fallback(root_row: Option<PackageRow>, root_dir: Seq<char>) -> (Seq<char>, Seq<char>, Seq<char>, bool) {
    match root_row {
        Some(r) => (r.name@, r.path@, r.absolute@, r.likely_runnable),
        None => ("workspace root"@, "."@, root_dir, false),
    }
}

pub open spec fn row_view(r: PackageRow) -> (Seq<char>, Seq<char>, Seq<char>, bool) {
    (r.name@, r.path@, r.absolute@, r.likely_runnable)
}

pub fn arrange_rows(members: Vec<PackageRow>, root_row: Option<PackageRow>, root_dir: &str) -> (res: (
    Vec<PackageRow>,
    bool,
))
    requires
        members@.len() > 0,
    ensures
        res.0@.len() == members@.len() + 1,
        rows_sorted(res.0@.drop_last()),
        res.0@.drop_last().to_multiset() == members@.to_multiset(),
        row_view(res.0@.last()) == root_fallback(root_row, root_dir@),
        res.1 == single_likely(res.0@.drop_last()),
        likely_count(res.0@.drop_last()) == likely_count(members@),
        res.1 == (likely_count(members@) == 1),
{
    let ghost m = members@;
    let mut rows = sort_rows(members);
    proof {
        vstd::seq_lib::to_multiset_len(rows@);
        vstd::seq_lib::to_multiset_len(m);
    }
    let single = rows[0].likely_runnable && (rows.len() < 2 || !rows[1].likely_runnable);
    let ghost sorted = rows@;
    match root_row {
        Some(r) => rows.push(r),
        None => rows.push(
            PackageRow {
                name: String::from_str("workspace root"),
                path: String::from_str("."),
                absolute: String::from_str(root_dir),
                likely_runnable: false,
            },
        ),
    }
    proof {
        assert(rows@.drop_last() =~= sorted);
        lemma_single_likely_count(sorted);
    }
    (rows, single)
}

/// The two lines printed after a package is selected.
pub fn selection_lines(row: &PackageRow, command: &str) -> (res: (String, String))
    ensures
        res.0@ == "Selected package: "@ + row.name@ + " ("@ + row.path@ + ")"@,
        res.1@ == "Tip: run this directly with `vp -C "@ + row.path@ + " "@ + command@ + "`"@,
{
    let mut a = str_chars("Selected package: ");
    push_str(&mut a, row.name.as_str());
    push_str(&mut a, " (");
    push_str(&mut a, row.path.as_str());
    push_str(&mut a, ")");
    let mut b = str_chars("Tip: run this directly with `vp -C ");
    push_str(&mut b, row.path.as_str());
    push_str(&mut b, " ");
    push_str(&mut b, command);
    push_str(&mut b, "`");
    (chars_to_string(a.as_slice()), chars_to_string(b.as_slice()))
}

/// The length of a text in UTF-8 bytes, as `str::len` gives it.
pub open spec fn byte_len(s: Seq<char>) -> nat {
    (vstd::utf8::encode_utf8(s).len() as usize) as nat
}

/// The widest name, in bytes, among the first `k` rows.
pub open spec fn name_width(rows: Seq<PackageRow>, k: int) -> nat
    decreases k,
{
    if k <= 0 {
        0
    } else {
        let w = name_width(rows, k - 1);
        let b = byte_len(rows[k - 1].name@);
        if b > w {
            b
        } else {
            w
        }
    }
}

/// `name` padded with spaces to `w` characters.
pub open spec fn padded(name: Seq<char>, w: nat) -> Seq<char> {
    if name.len() < w {
        name + Seq::new((w - name.len()) as nat, |i: int| ' ')
    } else {
        name
    }
}

pub open spec fn row_line(r: PackageRow, w: nat) -> Seq<char> {
    "    "@ + padded(r.name@, w) + "  "@ + r.path@
}

/// The listing shown where no package can be picked: the packages and the
/// two ways to give a target.
pub open spec fn listing_spec(command: Seq<char>, rows: Seq<PackageRow>) -> Seq<Seq<char>> {
    let w = name_width(rows, rows.len() as int);
    seq![seq![], "  Packages in this workspace:"@] + Seq::new(
        rows.len(),
        |i: int| row_line(rows[i], w),
    ) + seq![
        seq![],
        "  Pass a directory:  vp -C "@ + rows[0].path@ + " "@ + command,
        "  Or run every package's "@ + command + " script:  vp run -r "@ + command,
    ]
}

/// The error line of the listing.
pub fn listing_error(command: &str) -> (res: String)
    ensures
        res@ == "`vp "@ + command@ + "` at the workspace root needs a target package."@,
{
    let mut m = str_chars("`vp ");
    push_str(&mut m, command);
    push_str(&mut m, "` at the workspace root needs a target package.");
    chars_to_string(m.as_slice())
}

fn padded_chars(name: &str, w: usize) -> (res: Vec<char>)
    ensures
        res@ == padded(name@, w as nat),
{
    let mut out = str_chars(name);
    let n = out.len();
    if n < w {
        let mut k: usize = n;
        while k < w
            invariant
                n <= k <= w,
                n == name@.len(),
                out@ == name@ + Seq::new((k - n) as nat, |i: int| ' '),
            decreases w - k,
        {
            out.push(' ');
            proof {
                assert(out@ =~= name@ + Seq::new((k + 1 - n) as nat, |i: int| ' '));
            }
            k += 1;
        }
    } else {
        proof {
            assert(out@ =~= name@);
        }
    }
    out
}

/// The lines of the listing, after its error line.
pub fn listing_lines(command: &str, rows: &Vec<PackageRow>) -> (res: Vec<String>)
    requires
        rows@.len() > 0,
    ensures
        crate::pm::strs(res@) == listing_spec(command@, rows@),
{
    let mut w: usize = 0;
    let mut i: usize = 0;
    while i < rows.len()
        invariant
            i <= rows@.len(),
            w == name_width(rows@, i as int),
        decreases rows@.len() - i,
    {
        let name = rows[i].name.as_str();
        let b = name.len();
        proof {
            assert(name.spec_bytes() == vstd::utf8::encode_utf8(name@));
        }
        if b > w {
            w = b;
        }
        i += 1;
    }
    let mut out: Vec<String> = Vec::new();
    out.push(String::new());
    out.push(String::from_str("  Packages in this workspace:"));
    let ghost head = crate::pm::strs(out@);
    proof {
        assert(head =~= seq![Seq::<char>::empty(), "  Packages in this workspace:"@]);
    }
    let mut k: usize = 0;
    while k < rows.len()
        invariant
            k <= rows@.len(),
            w == name_width(rows@, rows@.len() as int),
            crate::pm::strs(out@) == head + Seq::new(
                k as nat,
                |j: int| row_line(rows@[j], w as nat),
            ),
        decreases rows@.len() - k,
    {
        let mut line = str_chars("    ");
        push_all(&mut line, padded_chars(rows[k].name.as_str(), w).as_slice());
        push_str(&mut line, "  ");
        push_str(&mut line, rows[k].path.as_str());
        let ghost before = out@;
        out.push(chars_to_string(line.as_slice()));
        proof {
            assert(crate::pm::strs(out@) =~= crate::pm::strs(before).push(line@));
            assert(head + Seq::new((k + 1) as nat, |j: int| row_line(rows@[j], w as nat)) =~= (head
                + Seq::new(k as nat, |j: int| row_line(rows@[j], w as nat))).push(
                row_line(rows@[k as int], w as nat),
            ));
        }
        k += 1;
    }
    let ghost body = crate::pm::strs(out@);
    out.push(String::new());
    let mut a = str_chars("  Pass a directory:  vp -C ");
    push_str(&mut a, rows[0].path.as_str());
    push_str(&mut a, " ");
    push_str(&mut a, command);
    out.push(chars_to_string(a.as_slice()));
    let mut b = str_chars("  Or run every package's ");
    push_str(&mut b, command);
    push_str(&mut b, " script:  vp run -r ");
    push_str(&mut b, command);
    out.push(chars_to_string(b.as_slice()));
    proof {
        assert(crate::pm::strs(out@) =~= listing_spec(command@, rows@));
    }
    out
}

} // verus!

verus! {

// ---------------------------------------------------------------------------
// Resolving the target, step by step.
// ---------------------------------------------------------------------------

/// Where a bare app command runs.
#[derive(Debug, Clone)]
pub enum AppTarget {
    /// In the invocation directory.
    CurrentDir,
    /// As if invoked in this directory (an implicit `-C`).
    Dir(String),
    /// Nowhere: the resolution printed its output and ends with this status.
    Exit(u8),
}

/// How the resolution ends: the target, whether the workspace root found for
/// the invocation directory is handed on for reuse (only when the command
/// runs there), and what is printed: an error line, a note line, lines on
/// stdout and raw lines on stderr after the error.
#[derive(Debug)]
pub struct AppTargetOutcome {
    pub target: AppTarget,
    pub reuse_workspace: bool,
    pub error: Option<String>,
    pub note: Option<String>,
    pub stdout: Vec<String>,
    pub stderr: Vec<String>,
}

/// The next thing to find out, or the end.
#[derive(Debug)]
pub enum AppTargetStep {
    /// The resolution is over.
    Done(AppTargetOutcome),
    /// Look up the workspace of the invocation directory; where that
    /// directory is its own root (or no workspace is found), read the
    /// `defaultPackage` of its static config.
    LookUpWorkspace { command: &'static str },
    /// Check the workspace root's intent signal for the command.
    CheckIntent { command: String },
    /// Check that the `defaultPackage` directory exists.
    CheckDefaultDir { command: String, dir: String },
    /// Load the packages of the workspace and whether the terminal is
    /// interactive.
    LoadPackages { command: String },
    /// Let the user pick one of these rows (or cancel).
    Pick { command: String, rows: Vec<PackageRow> },
}

/// Nothing is printed.
pub open spec fn quiet(o: AppTargetOutcome) -> bool {
    &&& o.error is None
    &&& o.note is None
    &&& o.stdout@.len() == 0
    &&& o.stderr@.len() == 0
}

/// Runs in the invocation directory, printing nothing.
pub open spec fn ends_in_place(o: AppTargetOutcome, reuse: bool) -> bool {
    &&& o.target is CurrentDir
    &&& o.reuse_workspace == reuse
    &&& quiet(o)
}

/// Runs in `dir`, with this note and these stdout lines.
pub open spec fn ends_in_dir(
    o: AppTargetOutcome,
    dir: Seq<char>,
    note: Option<Seq<char>>,
    stdout: Seq<Seq<char>>,
) -> bool {
    &&& o.target matches AppTarget::Dir(d) && d@ == dir
    &&& !o.reuse_workspace
    &&& o.error is None
    &&& crate::dirs::opt_view(o.note) == note
    &&& strs(o.stdout@) == stdout
    &&& o.stderr@.len() == 0
}

/// Ends with `code`, with this error line and these stderr lines.
pub open spec fn ends_with_exit(
    o: AppTargetOutcome,
    code: u8,
    error: Option<Seq<char>>,
    stderr: Seq<Seq<char>>,
) -> bool {
    &&& o.target == AppTarget::Exit(code)
    &&& !o.reuse_workspace
    &&& crate::dirs::opt_view(o.error) == error
    &&& o.note is None
    &&& o.stdout@.len() == 0
    &&& strs(o.stderr@) == stderr
}

/// The two lines printed when `row` is selected.
pub open spec fn selection_spec(row: PackageRow, command: Seq<char>) -> Seq<Seq<char>> {
    seq![
        "Selected package: "@ + row.name@ + " ("@ + row.path@ + ")"@,
        "Tip: run this directly with `vp -C "@ + row.path@ + " "@ + command + "`"@,
    ]
}

fn in_place(reuse: bool) -> (res: AppTargetOutcome)
    ensures
        ends_in_place(res, reuse),
{
    AppTargetOutcome {
        target: AppTarget::CurrentDir,
        reuse_workspace: reuse,
        error: None,
        note: None,
        stdout: Vec::new(),
        stderr: Vec::new(),
    }
}

fn exit_with(code: u8, error: Option<String>, stderr: Vec<String>) -> (res: AppTargetOutcome)
    ensures
        ends_with_exit(res, code, crate::dirs::opt_view(error), strs(stderr@)),
{
    AppTargetOutcome {
        target: AppTarget::Exit(code),
        reuse_workspace: false,
        error,
        note: None,
        stdout: Vec::new(),
        stderr,
    }
}

fn selected(row: &PackageRow, command: &str) -> (res: AppTargetOutcome)
    ensures
        ends_in_dir(res, row.absolute@, None, selection_spec(*row, command@)),
{
    let (a, b) = selection_lines(row, command);
    let mut lines: Vec<String> = Vec::new();
    lines.push(a);
    lines.push(b);
    proof {
        assert(strs(lines@) =~= selection_spec(*row, command@));
    }
    AppTargetOutcome {
        target: AppTarget::Dir(row.absolute.clone()),
        reuse_workspace: false,
        error: None,
        note: None,
        stdout: lines,
        stderr: Vec::new(),
    }
}

/// The first step: an explicit `-C`, a command that is not an app command,
/// or any argument runs in place without a workspace lookup; a bare app
/// command looks the workspace up.
pub fn app_target_start(subcommand: &SynthesizableSubcommand, explicit_chdir: bool) -> (res: AppTargetStep)
    ensures
        match app_command(*subcommand) {
            Some((c, a)) => if !explicit_chdir && a.len() == 0 {
                res matches AppTargetStep::LookUpWorkspace { command } && command@ == c
            } else {
                res matches AppTargetStep::Done(o) && ends_in_place(o, false)
            },
            None => res matches AppTargetStep::Done(o) && ends_in_place(o, false),
        },
{
    match app_command_parts(subcommand) {
        Some((command, args)) => {
            if !explicit_chdir && args.len() == 0 {
                AppTargetStep::LookUpWorkspace { command }
            } else {
                AppTargetStep::Done(in_place(false))
            }
        },
        None => AppTargetStep::Done(in_place(false)),
    }
}

/// After the lookup: at the invocation root (or with no workspace) a
/// `defaultPackage` that applies decides — a directory to check, or an
/// error and status 1; outside a workspace, below its root or in a lone
/// package the command runs in place (reusing the workspace when one was
/// found); at a workspace root the intent signal is checked next.
pub fn app_target_after_lookup(
    command: &str,
    workspace: WorkspaceFacts,
    default_package: &Option<DefaultPackage>,
) -> (res: AppTargetStep)
    ensures
        if (!workspace.found || workspace.at_root) && (*default_package matches Some(d)
            && default_applies(command@, d)) {
            match default_plan_spec(command@, default_package->0) {
                Ok(dir) => res matches AppTargetStep::CheckDefaultDir { command: c, dir: d } && c@
                    == command@ && d@ == dir,
                Err(m) => res matches AppTargetStep::Done(o) && ends_with_exit(o, 1, Some(m), seq![]),
            }
        } else if !workspace.found || !workspace.at_root || workspace.non_workspace_package {
            res matches AppTargetStep::Done(o) && ends_in_place(o, workspace.found)
        } else {
            res matches AppTargetStep::CheckIntent { command: c } && c@ == command@
        },
{
    if !workspace.found || workspace.at_root {
        if let Some(d) = default_package {
            let applies = match d {
                DefaultPackage::NonStatic => true,
                _ => default_lookup(command, d).is_some(),
            };
            if applies {
                return match default_package_plan(command, d) {
                    DefaultPackagePlan::Dir(dir) => AppTargetStep::CheckDefaultDir {
                        command: String::from_str(command),
                        dir,
                    },
                    DefaultPackagePlan::Fail(m) => {
                        let empty: Vec<String> = Vec::new();
                        proof {
                            assert(strs(empty@) =~= seq![]);
                        }
                        AppTargetStep::Done(exit_with(1, Some(m), empty))
                    },
                };
            }
        }
    }
    if !workspace.found || !workspace.at_root || workspace.non_workspace_package {
        return AppTargetStep::Done(in_place(workspace.found));
    }
    AppTargetStep::CheckIntent { command: String::from_str(command) }
}

/// After the intent check: a root with an intent signal runs in place;
/// otherwise the packages are loaded.
pub fn app_target_after_intent(command: &str, intent: bool) -> (res: AppTargetStep)
    ensures
        if intent {
            res matches AppTargetStep::Done(o) && ends_in_place(o, true)
        } else {
            res matches AppTargetStep::LoadPackages { command: c } && c@ == command@
        },
{
    if intent {
        AppTargetStep::Done(in_place(true))
    } else {
        AppTargetStep::LoadPackages { command: String::from_str(command) }
    }
}

/// After checking the `defaultPackage` directory (`target` is its absolute
/// path when it exists): run there with a note, or fail with status 1.
pub fn app_target_after_default_dir(command: &str, dir: &str, target: Option<String>) -> (res: AppTargetOutcome)
    ensures
        match target {
            Some(t) => ends_in_dir(
                res,
                t@,
                Some("vp "@ + command@ + ": using "@ + dir@ + " (defaultPackage in vite.config.ts)"@),
                seq![],
            ),
            None => ends_with_exit(
                res,
                1,
                Some("defaultPackage points to a missing directory: "@ + dir@),
                seq![],
            ),
        },
{
    match target {
        Some(t) => {
            let out = AppTargetOutcome {
                target: AppTarget::Dir(t),
                reuse_workspace: false,
                error: None,
                note: Some(using_default_note(command, dir)),
                stdout: Vec::new(),
                stderr: Vec::new(),
            };
            proof {
                assert(strs(out.stdout@) =~= seq![]);
            }
            out
        },
        None => {
            let empty: Vec<String> = Vec::new();
            proof {
                assert(strs(empty@) =~= seq![]);
            }
            exit_with(1, Some(missing_default_dir_message(dir)), empty)
        },
    }
}

/// The rows of the picker and the listing, as `arrange_rows` makes them.
pub open spec fn arranged(
    rows: Seq<PackageRow>,
    members: Seq<PackageRow>,
    root_row: Option<PackageRow>,
    root_dir: Seq<char>,
) -> bool {
    &&& rows.len() == members.len() + 1
    &&& rows_sorted(rows.drop_last())
    &&& rows.drop_last().to_multiset() == members.to_multiset()
    &&& likely_count(rows.drop_last()) == likely_count(members)
    &&& row_view(rows.last()) == root_fallback(root_row, root_dir)
}

/// What a workspace root with members comes to, given its arranged rows: in
/// a terminal, the one likely-runnable member is selected without asking,
/// else the user picks; without a terminal, the listing and status 1.
pub open spec fn root_step_spec(command: Seq<char>, rows: Seq<PackageRow>, interactive: bool, res: AppTargetStep) -> bool {
    if interactive {
        if likely_count(rows.drop_last()) == 1 {
            res matches AppTargetStep::Done(o) && ends_in_dir(
                o,
                rows[0].absolute@,
                None,
                selection_spec(rows[0], command),
            )
        } else {
            res matches AppTargetStep::Pick { command: c, rows: r } && c@ == command && r@ == rows
        }
    } else {
        res matches AppTargetStep::Done(o) && ends_with_exit(
            o,
            1,
            Some("`vp "@ + command + "` at the workspace root needs a target package."@),
            listing_spec(command, rows),
        )
    }
}

/// After loading the packages: a workspace without members runs in place at
/// its root; otherwise see `root_step_spec`.
pub fn app_target_after_packages(
    command: &str,
    members: Vec<PackageRow>,
    root_row: Option<PackageRow>,
    root_dir: &str,
    interactive: bool,
) -> (res: AppTargetStep)
    ensures
        members@.len() == 0 ==> (res matches AppTargetStep::Done(o) && ends_in_place(o, true)),
        members@.len() > 0 ==> exists|rows: Seq<PackageRow>|
            #[trigger] arranged(rows, members@, root_row, root_dir@) && root_step_spec(
                command@,
                rows,
                interactive,
                res,
            ),
{
    if members.len() == 0 {
        return AppTargetStep::Done(in_place(true));
    }
    let ghost m = members@;
    let (rows, single) = arrange_rows(members, root_row, root_dir);
    proof {
        assert(arranged(rows@, m, root_row, root_dir@));
    }
    if interactive {
        if single {
            let o = selected(&rows[0], command);
            return AppTargetStep::Done(o);
        }
        return AppTargetStep::Pick { command: String::from_str(command), rows };
    }
    let lines = listing_lines(command, &rows);
    AppTargetStep::Done(exit_with(1, Some(listing_error(command)), lines))
}

/// After the picker: cancelling ends with status 130; a selection runs in
/// the selected package.
pub fn app_target_after_pick(command: &str, rows: &Vec<PackageRow>, picked: Option<usize>) -> (res: AppTargetOutcome)
    requires
        picked matches Some(i) ==> i < rows@.len(),
    ensures
        match picked {
            None => ends_with_exit(res, 130, None, seq![]),
            Some(i) => ends_in_dir(res, rows@[i as int].absolute@, None, selection_spec(rows@[i as int], command@)),
        },
{
    match picked {
        None => {
            let empty: Vec<String> = Vec::new();
            proof {
                assert(strs(empty@) =~= seq![]);
            }
            exit_with(130, None, empty)
        },
        Some(i) => selected(&rows[i], command),
    }
}


/// Everything the resolution may consult, each fact used only where the
/// steps above ask for it: the workspace lookup, the `defaultPackage` read
/// at the invocation root, the absolute `defaultPackage` directory when it
/// exists, the root's intent signal, the workspace's members and root row,
/// whether the terminal is interactive, and the picker's answer (`None` for
/// a cancel).
pub struct AppTargetFacts {
    pub workspace: WorkspaceFacts,
    pub default_package: Option<DefaultPackage>,
    pub default_dir_target: Option<String>,
    pub intent: bool,
    pub members: Vec<PackageRow>,
    pub root_row: Option<PackageRow>,
    pub root_dir: String,
    pub interactive: bool,
    pub picked: Option<usize>,
}

/// The whole resolution of a bare app command's target.
pub open spec fn resolution_spec(
    subcommand: SynthesizableSubcommand,
    explicit_chdir: bool,
    f: AppTargetFacts,
    res: AppTargetOutcome,
) -> bool {
    let w = f.workspace;
    match app_command(subcommand) {
        None => ends_in_place(res, false),
        Some((c, a)) => if explicit_chdir || a.len() > 0 {
            ends_in_place(res, false)
        } else if (!w.found || w.at_root) && (f.default_package matches Some(d) && default_applies(
            c,
            d,
        )) {
            match default_plan_spec(c, f.default_package->0) {
                Err(m) => ends_with_exit(res, 1, Some(m), seq![]),
                Ok(dir) => match f.default_dir_target {
                    Some(t) => ends_in_dir(
                        res,
                        t@,
                        Some("vp "@ + c + ": using "@ + dir + " (defaultPackage in vite.config.ts)"@),
                        seq![],
                    ),
                    None => ends_with_exit(
                        res,
                        1,
                        Some("defaultPackage points to a missing directory: "@ + dir),
                        seq![],
                    ),
                },
            }
        } else if !w.found || !w.at_root || w.non_workspace_package {
            ends_in_place(res, w.found)
        } else if f.intent || f.members@.len() == 0 {
            ends_in_place(res, true)
        } else {
            exists|rows: Seq<PackageRow>|
                #[trigger] arranged(rows, f.members@, f.root_row, f.root_dir@) && if f.interactive {
                    if likely_count(f.members@) == 1 {
                        ends_in_dir(res, rows[0].absolute@, None, selection_spec(rows[0], c))
                    } else {
                        match f.picked {
                            None => ends_with_exit(res, 130, None, seq![]),
                            Some(i) => ends_in_dir(
                                res,
                                rows[i as int].absolute@,
                                None,
                                selection_spec(rows[i as int], c),
                            ),
                        }
                    }
                } else {
                    ends_with_exit(
                        res,
                        1,
                        Some("`vp "@ + c + "` at the workspace root needs a target package."@),
                        listing_spec(c, rows),
                    )
                }
        },
    }
}

/// Resolves where a bare app command runs (see `resolution_spec`): an
/// explicit `-C`, another command or any argument runs in place without a
/// workspace; a cancelled picker ends with status 130; a workspace root
/// with members, no intent signal and no terminal ends with the listing and
/// status 1; a single likely-runnable member is selected without asking.
/// The picker's answer must index the rows (the members and the root).
pub fn resolve_app_target(subcommand: &SynthesizableSubcommand, explicit_chdir: bool, facts: AppTargetFacts) -> (res:
    AppTargetOutcome)
    requires
        facts.picked matches Some(i) ==> i <= facts.members@.len(),
    ensures
        resolution_spec(*subcommand, explicit_chdir, facts, res),
{
    let ghost f = facts;
    let command = match app_target_start(subcommand, explicit_chdir) {
        AppTargetStep::Done(o) => return o,
        AppTargetStep::LookUpWorkspace { command } => command,
        _ => return in_place(false),
    };
    let AppTargetFacts {
        workspace,
        default_package,
        default_dir_target,
        intent,
        members,
        root_row,
        root_dir,
        interactive,
        picked,
    } = facts;
    match app_target_after_lookup(command, workspace, &default_package) {
        AppTargetStep::Done(o) => o,
        AppTargetStep::CheckDefaultDir { command: c, dir } => app_target_after_default_dir(
            c.as_str(),
            dir.as_str(),
            default_dir_target,
        ),
        AppTargetStep::CheckIntent { command: c } => match app_target_after_intent(c.as_str(), intent) {
            AppTargetStep::Done(o) => o,
            AppTargetStep::LoadPackages { command: c2 } => match app_target_after_packages(
                c2.as_str(),
                members,
                root_row,
                root_dir.as_str(),
                interactive,
            ) {
                AppTargetStep::Done(o) => o,
                AppTargetStep::Pick { command: c3, rows } => app_target_after_pick(c3.as_str(), &rows, picked),
                _ => in_place(false),
            },
            _ => in_place(false),
        },
        _ => in_place(false),
    }
}

/// The workspace root that the lookup found is handed back for reuse only
/// when the command runs in the unchanged directory and a workspace was
/// found; a retarget or an exit never hands it back; with `-C` given, a
/// command that is no app command, or an app command with arguments, the
/// command runs in place and nothing is reused. At a workspace root that
/// has members, no applicable `defaultPackage` and no intent signal, a
/// cancelled picker exits with 130, and without a terminal the command
/// exits with 1.
pub proof fn law_workspace_reused_only_in_place(
    subcommand: SynthesizableSubcommand,
    explicit_chdir: bool,
    f: AppTargetFacts,
    res: AppTargetOutcome,
)
    requires
        resolution_spec(subcommand, explicit_chdir, f, res),
    ensures
        res.reuse_workspace ==> res.target is CurrentDir && f.workspace.found,
        !(res.target is CurrentDir) ==> !res.reuse_workspace,
        (explicit_chdir || app_command(subcommand) is None || (app_command(subcommand) matches Some(
            (c, a),
        ) && a.len() > 0)) ==> res.target is CurrentDir && !res.reuse_workspace,
        root_needs_target(subcommand, explicit_chdir, f) && f.interactive && likely_count(f.members@)
            != 1 && f.picked is None ==> res.target == AppTarget::Exit(130) && !res.reuse_workspace,
        root_needs_target(subcommand, explicit_chdir, f) && !f.interactive ==> res.target
            == AppTarget::Exit(1) && !res.reuse_workspace,
{
    if root_needs_target(subcommand, explicit_chdir, f) {
        match app_command(subcommand) {
            Some((c, a)) => {
                let rows = choose|rows: Seq<PackageRow>|
                    #[trigger] arranged(rows, f.members@, f.root_row, f.root_dir@) && if f.interactive {
                        if likely_count(f.members@) == 1 {
                            ends_in_dir(res, rows[0].absolute@, None, selection_spec(rows[0], c))
                        } else {
                            match f.picked {
                                None => ends_with_exit(res, 130, None, seq![]),
                                Some(i) => ends_in_dir(
                                    res,
                                    rows[i as int].absolute@,
                                    None,
                                    selection_spec(rows[i as int], c),
                                ),
                            }
                        }
                    } else {
                        ends_with_exit(
                            res,
                            1,
                            Some("`vp "@ + c + "` at the workspace root needs a target package."@),
                            listing_spec(c, rows),
                        )
                    };
            },
            None => {},
        }
    }
}

/// A bare app command at a workspace root that has members, where no
/// `defaultPackage` applies and no intent signal was given: the command
/// needs a target package.
pub open spec fn root_needs_target(
    subcommand: SynthesizableSubcommand,
    explicit_chdir: bool,
    f: AppTargetFacts,
) -> bool {
    &&& !explicit_chdir
    &&& app_command(subcommand) matches Some((c, a))
    &&& a.len() == 0
    &&& f.workspace.found
    &&& f.workspace.at_root
    &&& !f.workspace.non_workspace_package
    &&& !(f.default_package matches Some(d) && default_applies(c, d))
    &&& !f.intent
    &&& f.members@.len() > 0
}

} // verus!
