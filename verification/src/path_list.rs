//! `PATH`-style lists of directories on each platform: how a value splits
//! into entries (`env::split_paths`), how entries join into a value
//! (`env::join_paths`), and when two entries name the same path.
//!
//! On Unix the entries are separated by `:`, and an entry that holds `:`
//! cannot be joined. On Windows they are separated by `;`; a `"` opens or
//! closes a quoted region in which `;` belongs to the entry, the quotes
//! themselves are dropped, an entry holding `;` is joined in quotes, and an
//! entry holding `"` cannot be joined.
use vstd::prelude::*;

use crate::path_env::{path_eq, paths_equal, split_chars, split_on};
use crate::text::{
    first_index_of, joined, lemma_first_index_of, lemma_first_index_unique, lemma_joined_push,
    push_all, sub_chars, views,
};

verus! {

/// The conventions of the operating system the program runs on.
#[derive(Debug, Clone, Copy, PartialEq, Eq, Structural)]
pub enum Platform {
    Unix,
    Windows,
}

/// The character between two entries.
pub open spec fn list_sep(p: Platform) -> char {
    match p {
        Platform::Unix => ':',
        Platform::Windows => ';',
    }
}

/// The pieces of a Windows list: `"` toggles quoting and is dropped, `;`
/// outside quotes ends a piece; `cur` is the piece read so far.
pub open spec fn quoted_scan(s: Seq<char>, quoted: bool, cur: Seq<char>) -> Seq<Seq<char>>
    decreases s.len(),
{
    if s.len() == 0 {
        seq![cur]
    } else if s[0] == '"' {
        quoted_scan(s.drop_first(), !quoted, cur)
    } else if s[0] == ';' && !quoted {
        seq![cur] + quoted_scan(s.drop_first(), false, seq![])
    } else {
        quoted_scan(s.drop_first(), quoted, cur.push(s[0]))
    }
}

/// The entries of a list (`env::split_paths`). On Unix every piece between
/// separators is an entry, so an empty value is one empty entry; on Windows
/// a list whose first piece is empty has no entries.
pub open spec fn split_paths(p: Platform, s: Seq<char>) -> Seq<Seq<char>> {
    match p {
        Platform::Unix => split_on(s, ':'),
        Platform::Windows => {
            let pieces = quoted_scan(s, false, seq![]);
            if pieces[0].len() == 0 {
                seq![]
            } else {
                pieces
            }
        },
    }
}

/// Whether an entry can be joined into a list.
pub open spec fn entry_fits(p: Platform, e: Seq<char>) -> bool {
    match p {
        Platform::Unix => !e.contains(':'),
        Platform::Windows => !e.contains('"'),
    }
}

/// How an entry is written in a list.
pub open spec fn entry_text(p: Platform, e: Seq<char>) -> Seq<char> {
    match p {
        Platform::Unix => e,
        Platform::Windows => if e.contains(';') {
            seq!['"'] + e + seq!['"']
        } else {
            e
        },
    }
}

/// The list of the entries (`env::join_paths`): `None` when one of them
/// cannot be joined.
pub open spec fn join_paths(p: Platform, es: Seq<Seq<char>>) -> Option<Seq<char>> {
    if forall|k: int| 0 <= k < es.len() ==> entry_fits(p, #[trigger] es[k]) {
        Some(joined(es.map_values(|e: Seq<char>| entry_text(p, e)), seq![list_sep(p)]))
    } else {
        None
    }
}

/// `\` written as `/`.
pub open spec fn slashed(s: Seq<char>) -> Seq<char> {
    s.map_values(|c: char| if c == '\\' { '/' } else { c })
}

pub open spec fn is_ascii_letter(c: char) -> bool {
    ('a' <= c && c <= 'z') || ('A' <= c && c <= 'Z')
}

/// Whether a Windows path starts with a drive (`C:`).
pub open spec fn has_drive(s: Seq<char>) -> bool {
    s.len() >= 2 && s[1] == ':' && is_ascii_letter(s[0])
}

/// Whether a Windows path starts with two separators (a network share or a
/// device).
pub open spec fn is_double_rooted(t: Seq<char>) -> bool {
    t.len() >= 2 && t[0] == '/' && t[1] == '/'
}

/// Two ASCII letters that are equal ignoring case.
pub open spec fn same_letter(a: char, b: char) -> bool {
    a == b || (a as u32) + 32 == (b as u32) || (b as u32) + 32 == (a as u32)
}

/// Windows path equality: `/` and `\` both separate components; drives are
/// compared ignoring the case of their letter, then the rest of the path by
/// components; a path that starts with two separators (a network share or
/// a device) equals only another such path with the same components.
pub open spec fn win_path_eq(a: Seq<char>, b: Seq<char>) -> bool {
    let ta = slashed(a);
    let tb = slashed(b);
    if has_drive(ta) && has_drive(tb) {
        same_letter(ta[0], tb[0]) && path_eq(ta.skip(2), tb.skip(2))
    } else if !has_drive(ta) && !has_drive(tb) {
        is_double_rooted(ta) == is_double_rooted(tb) && path_eq(ta, tb)
    } else {
        false
    }
}

/// Path equality on the platform (`Path == Path`).
pub open spec fn same_path(p: Platform, a: Seq<char>, b: Seq<char>) -> bool {
    match p {
        Platform::Unix => path_eq(a, b),
        Platform::Windows => win_path_eq(a, b),
    }
}

// ---------------------------------------------------------------------------
// Executable forms.
// ---------------------------------------------------------------------------

/// Whether `s` holds `c`.
pub fn holds_char(s: &[char], c: char) -> (res: bool)
    ensures
        res == s@.contains(c),
{
    let mut k: usize = 0;
    while k < s.len()
        invariant
            k <= s@.len(),
            forall|j: int| 0 <= j < k ==> s@[j] != c,
        decreases s@.len() - k,
    {
        if s[k] == c {
            return true;
        }
        k += 1;
    }
    false
}

fn split_quoted(s: &[char]) -> (res: Vec<Vec<char>>)
    ensures
        views(res@) == split_paths(Platform::Windows, s@),
{
    let mut out: Vec<Vec<char>> = Vec::new();
    let mut cur: Vec<char> = Vec::new();
    let mut quoted = false;
    let mut i: usize = 0;
    proof {
        assert(s@.skip(0) =~= s@);
        assert(views(out@) + quoted_scan(s@.skip(0), quoted, cur@) =~= quoted_scan(s@, false, seq![]));
    }
    while i < s.len()
        invariant
            i <= s@.len(),
            views(out@) + quoted_scan(s@.skip(i as int), quoted, cur@) == quoted_scan(s@, false, seq![]),
        decreases s@.len() - i,
    {
        let c = s[i];
        proof {
            assert(s@.skip(i as int).drop_first() =~= s@.skip(i + 1));
            assert(s@.skip(i as int)[0] == c);
        }
        if c == '"' {
            quoted = !quoted;
        } else if c == ';' && !quoted {
            let ghost before = out@;
            let piece = cur;
            cur = Vec::new();
            out.push(piece);
            proof {
                assert(views(out@) =~= views(before).push(piece@));
                assert(views(out@) + quoted_scan(s@.skip(i + 1), false, cur@) =~= views(before) + (
                seq![piece@] + quoted_scan(s@.skip(i + 1), false, seq![])));
            }
        } else {
            cur.push(c);
        }
        i += 1;
    }
    let ghost before = out@;
    out.push(cur);
    proof {
        assert(views(out@) =~= views(before).push(out@[before.len() as int]@));
        assert(views(out@) =~= quoted_scan(s@, false, seq![]));
    }
    if out[0].len() == 0 {
        proof {
            assert(views(out@)[0] == out@[0]@);
        }
        Vec::new()
    } else {
        proof {
            assert(views(out@)[0] == out@[0]@);
        }
        out
    }
}

/// The entries of a list.
pub fn split_path_list(p: Platform, s: &[char]) -> (res: Vec<Vec<char>>)
    ensures
        views(res@) == split_paths(p, s@),
{
    match p {
        Platform::Unix => split_chars(s, ':'),
        Platform::Windows => split_quoted(s),
    }
}

fn entry_fits_exec(p: Platform, e: &[char]) -> (res: bool)
    ensures
        res == entry_fits(p, e@),
{
    match p {
        Platform::Unix => !holds_char(e, ':'),
        Platform::Windows => !holds_char(e, '"'),
    }
}

/// The list of the entries; `None` when one of them cannot be joined.
pub fn join_path_entries(p: Platform, es: &Vec<Vec<char>>) -> (res: Option<Vec<char>>)
    ensures
        match res {
            Some(t) => join_paths(p, views(es@)) == Some(t@),
            None => join_paths(p, views(es@)) is None,
        },
{
    let sep = match p {
        Platform::Unix => ':',
        Platform::Windows => ';',
    };
    let ghost v = views(es@);
    let mut out: Vec<char> = Vec::new();
    let mut i: usize = 0;
    while i < es.len()
        invariant
            i <= es@.len(),
            v == views(es@),
            sep == list_sep(p),
            forall|k: int| 0 <= k < i ==> entry_fits(p, #[trigger] v[k]),
            out@ == joined(v.take(i as int).map_values(|e: Seq<char>| entry_text(p, e)), seq![sep]),
        decreases es@.len() - i,
    {
        proof {
            assert(v[i as int] == es@[i as int]@);
        }
        if !entry_fits_exec(p, es[i].as_slice()) {
            return None;
        }
        let ghost before = out@;
        proof {
            let m = v.take(i as int).map_values(|e: Seq<char>| entry_text(p, e));
            assert(v.take(i + 1).map_values(|e: Seq<char>| entry_text(p, e)) =~= m.push(
                entry_text(p, v[i as int]),
            ));
            lemma_joined_push(m, seq![sep], entry_text(p, v[i as int]));
        }
        if i > 0 {
            out.push(sep);
        }
        let quote = match p {
            Platform::Windows => holds_char(es[i].as_slice(), ';'),
            Platform::Unix => false,
        };
        if quote {
            out.push('"');
            push_all(&mut out, es[i].as_slice());
            out.push('"');
            proof {
                assert(out@ =~= (if i > 0 { before + seq![sep] } else { before }) + (seq!['"']
                    + v[i as int] + seq!['"']));
            }
        } else {
            push_all(&mut out, es[i].as_slice());
        }
        i += 1;
    }
    proof {
        assert(v.take(es@.len() as int) =~= v);
    }
    Some(out)
}

fn slashed_exec(s: &[char]) -> (res: Vec<char>)
    ensures
        res@ == slashed(s@),
{
    let mut out: Vec<char> = Vec::new();
    let mut i: usize = 0;
    while i < s.len()
        invariant
            i <= s@.len(),
            out@ == slashed(s@.take(i as int)),
        decreases s@.len() - i,
    {
        proof {
            assert(slashed(s@.take(i + 1)) =~= slashed(s@.take(i as int)).push(
                if s@[i as int] == '\\' { '/' } else { s@[i as int] },
            ));
        }
        if s[i] == '\\' {
            out.push('/');
        } else {
            out.push(s[i]);
        }
        i += 1;
    }
    proof {
        assert(s@.take(s@.len() as int) =~= s@);
    }
    out
}

fn has_drive_exec(t: &[char]) -> (res: bool)
    ensures
        res == has_drive(t@),
{
    t.len() >= 2 && t[1] == ':' && (('a' <= t[0] && t[0] <= 'z') || ('A' <= t[0] && t[0] <= 'Z'))
}

/// Whether two entries name the same path on the platform.
pub fn same_path_exec(p: Platform, a: &[char], b: &[char]) -> (res: bool)
    ensures
        res == same_path(p, a@, b@),
{
    match p {
        Platform::Unix => paths_equal(a, b),
        Platform::Windows => {
            let ta = slashed_exec(a);
            let tb = slashed_exec(b);
            let da = has_drive_exec(ta.as_slice());
            let db = has_drive_exec(tb.as_slice());
            if da && db {
                let x = ta[0];
                let y = tb[0];
                if !(x == y || (x as u32) + 32 == (y as u32) || (y as u32) + 32 == (x as u32)) {
                    return false;
                }
                let ra = sub_chars(ta.as_slice(), 2, ta.len());
                let rb = sub_chars(tb.as_slice(), 2, tb.len());
                proof {
                    assert(ra@ =~= ta@.skip(2));
                    assert(rb@ =~= tb@.skip(2));
                }
                paths_equal(ra.as_slice(), rb.as_slice())
            } else if !da && !db {
                let ua = ta.len() >= 2 && ta[0] == '/' && ta[1] == '/';
                let ub = tb.len() >= 2 && tb[0] == '/' && tb[1] == '/';
                ua == ub && paths_equal(ta.as_slice(), tb.as_slice())
            } else {
                false
            }
        },
    }
}

// ---------------------------------------------------------------------------
// What a split gives back of a join.
// ---------------------------------------------------------------------------

pub proof fn lemma_same_path_refl(p: Platform, a: Seq<char>)
    ensures
        same_path(p, a, a),
{
}

proof fn lemma_split_concat(a: Seq<char>, c: char, b: Seq<char>)
    ensures
        split_on(a + seq![c] + b, c) == split_on(a, c) + split_on(b, c),
    decreases a.len(),
{
    let s = a + seq![c] + b;
    lemma_first_index_of(a, c);
    match first_index_of(a, c) {
        Some(i) => {
            assert forall|j: int| 0 <= j < i implies s[j] != c by {
                assert(s[j] == a[j]);
            }
            assert(s[i] == a[i]);
            lemma_first_index_unique(s, c, i);
            assert(s.take(i) =~= a.take(i));
            assert(s.skip(i + 1) =~= a.skip(i + 1) + seq![c] + b);
            lemma_split_concat(a.skip(i + 1), c, b);
        },
        None => {
            assert forall|j: int| 0 <= j < a.len() implies s[j] != c by {
                assert(s[j] == a[j]);
            }
            assert(s[a.len() as int] == c);
            lemma_first_index_unique(s, c, a.len() as int);
            assert(s.take(a.len() as int) =~= a);
            assert(s.skip(a.len() + 1int) =~= b);
        },
    }
}

proof fn lemma_split_without_separator(s: Seq<char>, c: char)
    requires
        !s.contains(c),
    ensures
        split_on(s, c) == seq![s],
{
    lemma_first_index_of(s, c);
    if first_index_of(s, c) is Some {
        let i = first_index_of(s, c)->0;
        assert(s[i] == c);
    }
}

proof fn lemma_split_joined(parts: Seq<Seq<char>>, c: char)
    requires
        parts.len() > 0,
        forall|k: int| 0 <= k < parts.len() ==> !(#[trigger] parts[k]).contains(c),
    ensures
        split_on(joined(parts, seq![c]), c) == parts,
    decreases parts.len(),
{
    if parts.len() == 1 {
        lemma_split_without_separator(parts[0], c);
        assert(seq![parts[0]] =~= parts);
    } else {
        let init = parts.drop_last();
        lemma_split_joined(init, c);
        assert(joined(parts, seq![c]) == joined(init, seq![c]) + seq![c] + parts.last());
        lemma_split_concat(joined(init, seq![c]), c, parts.last());
        lemma_split_without_separator(parts.last(), c);
        assert(init + seq![parts.last()] =~= parts);
    }
}

proof fn lemma_split_pieces(s: Seq<char>, c: char)
    ensures
        forall|k: int| 0 <= k < split_on(s, c).len() ==> !(#[trigger] split_on(s, c)[k]).contains(c),
    decreases s.len(),
{
    lemma_first_index_of(s, c);
    match first_index_of(s, c) {
        Some(i) => {
            lemma_split_pieces(s.skip(i + 1), c);
            let rest = split_on(s.skip(i + 1), c);
            assert forall|k: int| 0 <= k < split_on(s, c).len() implies !(#[trigger] split_on(
                s,
                c,
            )[k]).contains(c) by {
                if k == 0 {
                    if s.take(i).contains(c) {
                        let j = choose|j: int| 0 <= j < s.take(i).len() && s.take(i)[j] == c;
                        assert(s[j] == c);
                    }
                } else {
                    assert(split_on(s, c)[k] == rest[k - 1]);
                }
            }
        },
        None => {},
    }
}

proof fn lemma_scan_plain(e: Seq<char>, r: Seq<char>, quoted: bool, cur: Seq<char>)
    requires
        !e.contains('"'),
        quoted || !e.contains(';'),
    ensures
        quoted_scan(e + r, quoted, cur) == quoted_scan(r, quoted, cur + e),
    decreases e.len(),
{
    if e.len() == 0 {
        assert(e + r =~= r);
        assert(cur + e =~= cur);
    } else {
        let s = e + r;
        assert(s[0] == e[0]);
        assert(s.drop_first() =~= e.drop_first() + r);
        assert(e[0] != '"');
        assert(!(e[0] == ';' && !quoted));
        assert(!e.drop_first().contains('"')) by {
            if e.drop_first().contains('"') {
                let j = choose|j: int| 0 <= j < e.drop_first().len() && e.drop_first()[j] == '"';
                assert(e[j + 1] == '"');
            }
        }
        assert(quoted || !e.drop_first().contains(';')) by {
            if !quoted && e.drop_first().contains(';') {
                let j = choose|j: int| 0 <= j < e.drop_first().len() && e.drop_first()[j] == ';';
                assert(e[j + 1] == ';');
            }
        }
        lemma_scan_plain(e.drop_first(), r, quoted, cur.push(e[0]));
        assert(cur.push(e[0]) + e.drop_first() =~= cur + e);
    }
}

proof fn lemma_scan_entry(e: Seq<char>, r: Seq<char>, cur: Seq<char>)
    requires
        !e.contains('"'),
    ensures
        quoted_scan(entry_text(Platform::Windows, e) + r, false, cur) == quoted_scan(r, false, cur + e),
{
    if e.contains(';') {
        let s = entry_text(Platform::Windows, e) + r;
        assert(s[0] == '"');
        assert(s.drop_first() =~= e + (seq!['"'] + r));
        lemma_scan_plain(e, seq!['"'] + r, true, cur);
        let t = seq!['"'] + r;
        assert(t[0] == '"');
        assert(t.drop_first() =~= r);
    } else {
        lemma_scan_plain(e, r, false, cur);
    }
}

proof fn lemma_scan_joined(es: Seq<Seq<char>>, r: Seq<char>)
    requires
        es.len() > 0,
        forall|k: int| 0 <= k < es.len() ==> !(#[trigger] es[k]).contains('"'),
    ensures
        quoted_scan(
            joined(es.map_values(|e: Seq<char>| entry_text(Platform::Windows, e)), seq![';']) + r,
            false,
            seq![],
        ) == es.drop_last() + quoted_scan(r, false, es.last()),
    decreases es.len(),
{
    let ts = es.map_values(|e: Seq<char>| entry_text(Platform::Windows, e));
    if es.len() == 1 {
        assert(joined(ts, seq![';']) == ts[0]);
        lemma_scan_entry(es[0], r, seq![]);
        assert(Seq::<char>::empty() + es[0] =~= es[0]);
        assert(es.drop_last() =~= Seq::<Seq<char>>::empty());
        assert(es.drop_last() + quoted_scan(r, false, es.last()) =~= quoted_scan(r, false, es.last()));
    } else {
        let init = es.drop_last();
        let ti = init.map_values(|e: Seq<char>| entry_text(Platform::Windows, e));
        assert(ts.drop_last() =~= ti);
        assert(joined(ts, seq![';']) == joined(ti, seq![';']) + seq![';'] + ts.last());
        let tail = seq![';'] + entry_text(Platform::Windows, es.last()) + r;
        assert(joined(ts, seq![';']) + r =~= joined(ti, seq![';']) + tail);
        lemma_scan_joined(init, tail);
        assert(tail[0] == ';');
        assert(tail.drop_first() =~= entry_text(Platform::Windows, es.last()) + r);
        lemma_scan_entry(es.last(), r, seq![]);
        assert(Seq::<char>::empty() + es.last() =~= es.last());
        assert(init.drop_last() + (seq![init.last()] + quoted_scan(r, false, es.last())) =~= es.drop_last()
            + quoted_scan(r, false, es.last()));
    }
}

proof fn lemma_scan_pieces(s: Seq<char>, quoted: bool, cur: Seq<char>)
    requires
        !cur.contains('"'),
    ensures
        forall|k: int|
            0 <= k < quoted_scan(s, quoted, cur).len() ==> !(#[trigger] quoted_scan(s, quoted, cur)[k]).contains(
                '"',
            ),
    decreases s.len(),
{
    if s.len() == 0 {
        assert(quoted_scan(s, quoted, cur) =~= seq![cur]);
        assert forall|k: int| 0 <= k < quoted_scan(s, quoted, cur).len() implies !(#[trigger] quoted_scan(
            s,
            quoted,
            cur,
        )[k]).contains('"') by {
            assert(quoted_scan(s, quoted, cur)[k] == cur);
        }
    } else if s[0] == '"' {
        lemma_scan_pieces(s.drop_first(), !quoted, cur);
        assert(quoted_scan(s, quoted, cur) == quoted_scan(s.drop_first(), !quoted, cur));
    } else if s[0] == ';' && !quoted {
        lemma_scan_pieces(s.drop_first(), false, seq![]);
        let rest = quoted_scan(s.drop_first(), false, seq![]);
        assert forall|k: int| 0 <= k < quoted_scan(s, quoted, cur).len() implies !(#[trigger] quoted_scan(
            s,
            quoted,
            cur,
        )[k]).contains('"') by {
            if k > 0 {
                assert(quoted_scan(s, quoted, cur)[k] == rest[k - 1]);
            } else {
                assert(quoted_scan(s, quoted, cur)[k] == cur);
            }
        }
    } else {
        assert(!cur.push(s[0]).contains('"')) by {
            if cur.push(s[0]).contains('"') {
                let j = choose|j: int| 0 <= j < cur.push(s[0]).len() && cur.push(s[0])[j] == '"';
                if j < cur.len() {
                    assert(cur[j] == '"');
                }
            }
        }
        lemma_scan_pieces(s.drop_first(), quoted, cur.push(s[0]));
        assert(quoted_scan(s, quoted, cur) == quoted_scan(s.drop_first(), quoted, cur.push(s[0])));
    }
}

/// Every entry that a split gives can be joined again.
pub proof fn lemma_split_entries_fit(p: Platform, s: Seq<char>)
    ensures
        forall|k: int| 0 <= k < split_paths(p, s).len() ==> entry_fits(p, #[trigger] split_paths(p, s)[k]),
{
    match p {
        Platform::Unix => lemma_split_pieces(s, ':'),
        Platform::Windows => lemma_scan_pieces(s, false, seq![]),
    }
}

/// Splitting what a join gives hands back the entries, when there is at
/// least one and (on Windows) the first is not empty.
pub proof fn law_split_join_round_trip(p: Platform, es: Seq<Seq<char>>)
    requires
        es.len() > 0,
        join_paths(p, es) is Some,
        p == Platform::Windows ==> es[0].len() > 0,
    ensures
        split_paths(p, join_paths(p, es).unwrap()) == es,
{
    assert forall|k: int| 0 <= k < es.len() implies entry_fits(p, #[trigger] es[k]) by {}
    match p {
        Platform::Unix => {
            assert(es.map_values(|e: Seq<char>| entry_text(p, e)) =~= es);
            lemma_split_joined(es, ':');
        },
        Platform::Windows => {
            lemma_scan_joined(es, seq![]);
            assert(joined(es.map_values(|e: Seq<char>| entry_text(p, e)), seq![';']) + Seq::<char>::empty()
                =~= joined(es.map_values(|e: Seq<char>| entry_text(p, e)), seq![';']));
            assert(es.drop_last() + seq![es.last()] =~= es);
            assert(quoted_scan(join_paths(p, es).unwrap(), false, seq![])[0] == es[0]);
        },
    }
}

} // verus!
