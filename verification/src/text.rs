//! Character-level text helpers shared by the parsers of this crate.
//!
//! Text is modelled as `Seq<char>`; executable code works on `Vec<char>`.
use vstd::prelude::*;
use vstd::utf8::*;

verus! {

/// The characters of `s`, in order.
pub fn str_chars(s: &str) -> (res: Vec<char>)
    ensures
        res@ == s@,
{
    let mut res: Vec<char> = Vec::new();
    for c in it: s.chars()
        invariant
            res@ == it.seq().take(it.index() as int),
            it.seq() == s@,
    {
        res.push(c);
    }
    res
}

/// Collects `chars` into an owned string (`FromIterator<char>` for `String`).
#[verifier::external_body]
pub fn chars_to_string(chars: &[char]) -> (res: String)
    ensures
        res@ == chars@,
{
    chars.iter().collect()
}

/// Decodes `bytes` as UTF-8 (`core::str::from_utf8`): `None` exactly when the
/// bytes are not well-formed UTF-8, else the decoded characters.
#[verifier::external_body]
pub fn decode_utf8_bytes(bytes: &[u8]) -> (res: Option<Vec<char>>)
    ensures
        res is Some <==> valid_utf8(bytes@),
        res matches Some(chars) ==> chars@ == decode_utf8(bytes@),
{
    core::str::from_utf8(bytes).ok().map(|text| text.chars().collect())
}

/// The characters with the Unicode `White_Space` property (`char::is_whitespace`).
pub open spec fn is_ws(c: char) -> bool {
    ||| ('\u{9}' <= c && c <= '\u{d}')
    ||| c == ' '
    ||| c == '\u{85}'
    ||| c == '\u{a0}'
    ||| c == '\u{1680}'
    ||| ('\u{2000}' <= c && c <= '\u{200a}')
    ||| c == '\u{2028}'
    ||| c == '\u{2029}'
    ||| c == '\u{202f}'
    ||| c == '\u{205f}'
    ||| c == '\u{3000}'
}

pub fn is_whitespace(c: char) -> (res: bool)
    ensures
        res == is_ws(c),
{
    ('\u{9}' <= c && c <= '\u{d}') || c == ' ' || c == '\u{85}' || c == '\u{a0}' || c
        == '\u{1680}' || ('\u{2000}' <= c && c <= '\u{200a}') || c == '\u{2028}' || c
        == '\u{2029}' || c == '\u{202f}' || c == '\u{205f}' || c == '\u{3000}'
}

/// `s` without its leading whitespace.
pub open spec fn trim_start(s: Seq<char>) -> Seq<char>
    decreases s.len(),
{
    if s.len() > 0 && is_ws(s[0]) {
        trim_start(s.drop_first())
    } else {
        s
    }
}

/// `s` without its trailing whitespace.
pub open spec fn trim_end(s: Seq<char>) -> Seq<char>
    decreases s.len(),
{
    if s.len() > 0 && is_ws(s.last()) {
        trim_end(s.drop_last())
    } else {
        s
    }
}

/// `s` without leading and trailing whitespace (`str::trim`).
pub open spec fn trim(s: Seq<char>) -> Seq<char> {
    trim_end(trim_start(s))
}

/// `s` without leading and trailing newlines (`str::trim_matches('\n')`).
pub open spec fn trim_newlines(s: Seq<char>) -> Seq<char> {
    trim_nl_end(trim_nl_start(s))
}

pub open spec fn trim_nl_start(s: Seq<char>) -> Seq<char>
    decreases s.len(),
{
    if s.len() > 0 && s[0] == '\n' {
        trim_nl_start(s.drop_first())
    } else {
        s
    }
}

pub open spec fn trim_nl_end(s: Seq<char>) -> Seq<char>
    decreases s.len(),
{
    if s.len() > 0 && s.last() == '\n' {
        trim_nl_end(s.drop_last())
    } else {
        s
    }
}

proof fn lemma_skip_step<T>(s: Seq<T>, i: int)
    requires
        0 <= i < s.len(),
    ensures
        s.skip(i).drop_first() == s.skip(i + 1),
        s.skip(i).len() > 0,
        s.skip(i)[0] == s[i],
{
    assert(s.skip(i).drop_first() =~= s.skip(i + 1));
}

/// Removes leading and trailing whitespace (`str::trim`).
pub fn trim_chars(s: &[char]) -> (res: Vec<char>)
    ensures
        res@ == trim(s@),
{
    let mut i: usize = 0;
    proof {
        assert(s@.skip(0) =~= s@);
    }
    while i < s.len() && is_whitespace(s[i])
        invariant
            i <= s.len(),
            trim_start(s@.skip(i as int)) == trim_start(s@),
        decreases s.len() - i,
    {
        proof {
            lemma_skip_step(s@, i as int);
        }
        i += 1;
    }
    proof {
        if i < s.len() {
            lemma_skip_step(s@, i as int);
        }
        assert(s@.skip(i as int) =~= s@.subrange(i as int, s@.len() as int));
    }
    let mut j: usize = s.len();
    while j > i && is_whitespace(s[j - 1])
        invariant
            i <= j <= s.len(),
            trim_start(s@) == s@.subrange(i as int, s@.len() as int),
            trim_end(s@.subrange(i as int, j as int)) == trim(s@),
        decreases j,
    {
        proof {
            assert(s@.subrange(i as int, j as int).drop_last() =~= s@.subrange(
                i as int,
                j - 1,
            ));
        }
        j -= 1;
    }
    let mut res: Vec<char> = Vec::new();
    let mut k: usize = i;
    while k < j
        invariant
            i <= k <= j <= s.len(),
            res@ == s@.subrange(i as int, k as int),
        decreases j - k,
    {
        res.push(s[k]);
        proof {
            assert(res@ =~= s@.subrange(i as int, k + 1));
        }
        k += 1;
    }
    proof {
        let t = s@.subrange(i as int, j as int);
        if t.len() > 0 {
            assert(t.last() == s@[j - 1]);
        }
    }
    res
}

/// Removes leading and trailing `'\n'` characters (`str::trim_matches('\n')`).
pub fn trim_newline_chars(s: &[char]) -> (res: Vec<char>)
    ensures
        res@ == trim_newlines(s@),
{
    let mut i: usize = 0;
    proof {
        assert(s@.skip(0) =~= s@);
    }
    while i < s.len() && s[i] == '\n'
        invariant
            i <= s.len(),
            trim_nl_start(s@.skip(i as int)) == trim_nl_start(s@),
        decreases s.len() - i,
    {
        proof {
            lemma_skip_step(s@, i as int);
        }
        i += 1;
    }
    proof {
        if i < s.len() {
            lemma_skip_step(s@, i as int);
        }
        assert(s@.skip(i as int) =~= s@.subrange(i as int, s@.len() as int));
    }
    let mut j: usize = s.len();
    while j > i && s[j - 1] == '\n'
        invariant
            i <= j <= s.len(),
            trim_nl_start(s@) == s@.subrange(i as int, s@.len() as int),
            trim_nl_end(s@.subrange(i as int, j as int)) == trim_newlines(s@),
        decreases j,
    {
        proof {
            assert(s@.subrange(i as int, j as int).drop_last() =~= s@.subrange(
                i as int,
                j - 1,
            ));
        }
        j -= 1;
    }
    let res = sub_chars(s, i, j);
    proof {
        let t = s@.subrange(i as int, j as int);
        if t.len() > 0 {
            assert(t.last() == s@[j - 1]);
        }
    }
    res
}

/// A copy of `s[from..to]`.
pub fn sub_chars(s: &[char], from: usize, to: usize) -> (res: Vec<char>)
    requires
        from <= to <= s.len(),
    ensures
        res@ == s@.subrange(from as int, to as int),
{
    let mut res: Vec<char> = Vec::new();
    let mut k: usize = from;
    while k < to
        invariant
            from <= k <= to <= s.len(),
            res@ == s@.subrange(from as int, k as int),
        decreases to - k,
    {
        res.push(s[k]);
        proof {
            assert(res@ =~= s@.subrange(from as int, k + 1));
        }
        k += 1;
    }
    res
}

/// Appends a copy of `t` to `v`.
pub fn push_all<T: Copy>(v: &mut Vec<T>, t: &[T])
    ensures
        final(v)@ == old(v)@ + t@,
{
    let ghost start = v@;
    let mut k: usize = 0;
    while k < t.len()
        invariant
            k <= t.len(),
            v@ == start + t@.take(k as int),
        decreases t.len() - k,
    {
        v.push(t[k]);
        proof {
            assert(v@ =~= start + t@.take(k + 1));
        }
        k += 1;
    }
    proof {
        assert(t@.take(t.len() as int) =~= t@);
    }
}

/// Index of the first occurrence of `c` in `s`, if any.
pub open spec fn first_index_of(s: Seq<char>, c: char) -> Option<int>
    decreases s.len(),
{
    if s.len() == 0 {
        None
    } else if s[0] == c {
        Some(0)
    } else {
        match first_index_of(s.drop_first(), c) {
            Some(i) => Some(i + 1),
            None => None,
        }
    }
}

pub proof fn lemma_first_index_of(s: Seq<char>, c: char)
    ensures
        first_index_of(s, c) matches Some(i) ==> 0 <= i < s.len() && s[i] == c && forall|j: int|
            0 <= j < i ==> s[j] != c,
        first_index_of(s, c) is None ==> forall|j: int| 0 <= j < s.len() ==> s[j] != c,
    decreases s.len(),
{
    if s.len() > 0 {
        lemma_first_index_of(s.drop_first(), c);
        if s[0] != c {
            assert forall|j: int| 0 < j < s.len() implies s[j] == s.drop_first()[j - 1] by {}
        }
    }
}

pub proof fn lemma_first_index_unique(s: Seq<char>, c: char, i: int)
    requires
        0 <= i < s.len(),
        s[i] == c,
        forall|j: int| 0 <= j < i ==> s[j] != c,
    ensures
        first_index_of(s, c) == Some(i),
{
    lemma_first_index_of(s, c);
    match first_index_of(s, c) {
        Some(k) => {
            if k < i {
                assert(s[k] != c);
            } else if k > i {
                assert(s[i] != c);
            }
        },
        None => {
            assert(s[i] != c);
        },
    }
}

/// `line` without a final `'\r'`.
pub open spec fn strip_cr(line: Seq<char>) -> Seq<char> {
    if line.len() > 0 && line.last() == '\r' {
        line.drop_last()
    } else {
        line
    }
}

/// The lines of `s` (`str::lines`): split at `'\n'`, a `'\r'` before the
/// `'\n'` dropped, and no empty line after a final line ending.
pub open spec fn lines(s: Seq<char>) -> Seq<Seq<char>>
    decreases s.len(),
{
    if s.len() == 0 {
        seq![]
    } else {
        match first_index_of(s, '\n') {
            Some(i) => {
                if 0 <= i < s.len() {
                    seq![strip_cr(s.take(i))] + lines(s.skip(i + 1))
                } else {
                    seq![]
                }
            },
            None => seq![s],
        }
    }
}

pub open spec fn views(v: Seq<Vec<char>>) -> Seq<Seq<char>> {
    v.map_values(|x: Vec<char>| x@)
}

/// Splits `s` into lines (`str::lines`).
pub fn split_lines(s: &[char]) -> (res: Vec<Vec<char>>)
    ensures
        views(res@) == lines(s@),
{
    let mut res: Vec<Vec<char>> = Vec::new();
    let mut start: usize = 0;
    proof {
        assert(s@.skip(0) =~= s@);
        assert(views(res@) =~= Seq::<Seq<char>>::empty());
        assert(Seq::<Seq<char>>::empty() + lines(s@) =~= lines(s@));
    }
    while start < s.len()
        invariant
            start <= s.len(),
            views(res@) + lines(s@.skip(start as int)) == lines(s@),
        decreases s.len() - start,
    {
        let ghost rest = s@.skip(start as int);
        let mut k: usize = start;
        while k < s.len() && s[k] != '\n'
            invariant
                start <= k <= s.len(),
                forall|j: int| start <= j < k ==> s@[j] != '\n',
            decreases s.len() - k,
        {
            k += 1;
        }
        let mut end: usize = k;
        if end > start && s[end - 1] == '\r' && k < s.len() {
            end = end - 1;
        }
        let line = sub_chars(s, start, end);
        proof {
            lemma_first_index_of(rest, '\n');
            if k < s.len() {
                assert(rest[k - start] == '\n');
                assert forall|j: int| 0 <= j < k - start implies rest[j] != '\n' by {
                    assert(rest[j] == s@[start + j]);
                }
                lemma_first_index_unique(rest, '\n', k - start);
                assert(rest.take(k - start) =~= s@.subrange(start as int, k as int));
                assert(rest.skip(k - start + 1) =~= s@.skip(k + 1));
                assert(line@ == strip_cr(rest.take(k - start)));
            } else {
                assert forall|j: int| 0 <= j < rest.len() implies rest[j] != '\n' by {
                    assert(rest[j] == s@[start + j]);
                }
                if first_index_of(rest, '\n') is Some {
                    let i = first_index_of(rest, '\n')->0;
                    assert(rest[i] == '\n');
                }
                assert(line@ =~= rest);
            }
        }
        let ghost before = res@;
        res.push(line);
        proof {
            assert(views(res@) =~= views(before).push(line@));
            assert(views(before).push(line@) + lines(s@.skip(if k < s.len() { k + 1 } else { s.len() as int })) =~= views(before) + lines(rest));
        }
        if k < s.len() {
            start = k + 1;
        } else {
            start = s.len();
        }
        proof {
            if start == s.len() {
                assert(s@.skip(start as int) =~= Seq::<char>::empty());
            }
        }
    }
    proof {
        assert(s@.skip(start as int) =~= Seq::<char>::empty());
        assert(views(res@) + Seq::<Seq<char>>::empty() =~= views(res@));
    }
    res
}

/// Whether `s` begins with `p`.
pub open spec fn has_prefix(s: Seq<char>, p: Seq<char>) -> bool {
    p.len() <= s.len() && s.take(p.len() as int) == p
}

pub fn starts_with(s: &[char], p: &[char]) -> (res: bool)
    ensures
        res == has_prefix(s@, p@),
{
    if p.len() > s.len() {
        return false;
    }
    let mut k: usize = 0;
    while k < p.len()
        invariant
            k <= p.len() <= s.len(),
            forall|j: int| 0 <= j < k ==> s@[j] == p@[j],
        decreases p.len() - k,
    {
        if s[k] != p[k] {
            proof {
                assert(s@.take(p.len() as int)[k as int] != p@[k as int]);
            }
            return false;
        }
        k += 1;
    }
    proof {
        assert(s@.take(p.len() as int) =~= p@);
    }
    true
}

/// Whether two character sequences are equal.
pub fn chars_eq(a: &[char], b: &[char]) -> (res: bool)
    ensures
        res == (a@ == b@),
{
    if a.len() != b.len() {
        return false;
    }
    let mut k: usize = 0;
    while k < a.len()
        invariant
            k <= a.len() == b.len(),
            forall|j: int| 0 <= j < k ==> a@[j] == b@[j],
        decreases a.len() - k,
    {
        if a[k] != b[k] {
            return false;
        }
        k += 1;
    }
    proof {
        assert(a@ =~= b@);
    }
    true
}

/// Whether two strings are equal.
pub fn str_eq(a: &str, b: &str) -> (res: bool)
    ensures
        res == (a@ == b@),
{
    let x = str_chars(a);
    let y = str_chars(b);
    chars_eq(x.as_slice(), y.as_slice())
}

/// Index of the first occurrence of `pat` at or after `from`, if any.
pub open spec fn find_from(s: Seq<char>, pat: Seq<char>, from: int) -> Option<int>
    decreases s.len() + 1 - from,
{
    if from < 0 || from + pat.len() > s.len() {
        None
    } else if s.subrange(from, from + pat.len()) == pat {
        Some(from)
    } else {
        find_from(s, pat, from + 1)
    }
}

/// Index of the first occurrence of `pat` in `s` (`str::find`).
pub open spec fn find(s: Seq<char>, pat: Seq<char>) -> Option<int> {
    find_from(s, pat, 0)
}

/// Whether `pat` occurs in `s` (`str::contains`).
pub open spec fn contains(s: Seq<char>, pat: Seq<char>) -> bool {
    find(s, pat) is Some
}

pub proof fn lemma_find_from_bounds(s: Seq<char>, pat: Seq<char>, from: int)
    ensures
        find_from(s, pat, from) matches Some(i) ==> from <= i && i + pat.len() <= s.len()
            && s.subrange(i, i + pat.len()) == pat,
    decreases s.len() + 1 - from,
{
    if from < 0 || from + pat.len() > s.len() {
    } else if s.subrange(from, from + pat.len()) == pat {
    } else {
        lemma_find_from_bounds(s, pat, from + 1);
    }
}

fn matches_at(s: &[char], pat: &[char], at: usize) -> (res: bool)
    requires
        at + pat.len() <= s.len(),
    ensures
        res == (s@.subrange(at as int, at + pat.len()) == pat@),
{
    let mut k: usize = 0;
    while k < pat.len()
        invariant
            k <= pat.len(),
            at + pat.len() <= s.len(),
            forall|j: int| 0 <= j < k ==> s@[at + j] == pat@[j],
        decreases pat.len() - k,
    {
        if s[at + k] != pat[k] {
            proof {
                assert(s@.subrange(at as int, at + pat.len())[k as int] != pat@[k as int]);
            }
            return false;
        }
        k += 1;
    }
    proof {
        assert(s@.subrange(at as int, at + pat.len()) =~= pat@);
    }
    true
}

/// Index of the first occurrence of `pat` at or after `from`.
pub fn find_chars_from(s: &[char], pat: &[char], from: usize) -> (res: Option<usize>)
    ensures
        match res {
            Some(i) => find_from(s@, pat@, from as int) == Some(i as int),
            None => find_from(s@, pat@, from as int) is None,
        },
{
    let mut i: usize = from;
    while i <= s.len() && pat.len() <= s.len() - i
        invariant
            from <= i,
            find_from(s@, pat@, i as int) == find_from(s@, pat@, from as int),
        decreases s.len() + 1 - i,
    {
        if matches_at(s, pat, i) {
            return Some(i);
        }
        if i == s.len() {
            proof {
                assert(find_from(s@, pat@, i + 1) is None);
            }
            return None;
        }
        i += 1;
    }
    None
}

/// Index of the first occurrence of `pat` in `s` (`str::find`).
pub fn find_chars(s: &[char], pat: &[char]) -> (res: Option<usize>)
    ensures
        match res {
            Some(i) => find(s@, pat@) == Some(i as int),
            None => find(s@, pat@) is None,
        },
{
    find_chars_from(s, pat, 0)
}

/// Splits `s` around the first occurrence of `pat` (`str::split_once`).
pub open spec fn split_once(s: Seq<char>, pat: Seq<char>) -> Option<(Seq<char>, Seq<char>)> {
    match find(s, pat) {
        Some(i) => Some((s.take(i), s.skip(i + pat.len()))),
        None => None,
    }
}

pub fn split_once_chars(s: &[char], pat: &[char]) -> (res: Option<(Vec<char>, Vec<char>)>)
    ensures
        match res {
            Some((a, b)) => split_once(s@, pat@) == Some((a@, b@)),
            None => split_once(s@, pat@) is None,
        },
{
    match find_chars(s, pat) {
        Some(i) => {
            proof {
                lemma_find_from_bounds(s@, pat@, 0);
                assert(find_from(s@, pat@, 0) == Some(i as int));
                assert(i + pat@.len() <= s@.len());
                assert(s@.len() == s.len());
                assert(pat@.len() == pat.len());
            }
            let a = sub_chars(s, 0, i);
            let b = sub_chars(s, i + pat.len(), s.len());
            proof {
                assert(a@ =~= s@.take(i as int));
                assert(b@ =~= s@.skip(i + pat.len()));
            }
            Some((a, b))
        },
        None => None,
    }
}

/// Index of the last occurrence of `pat` in `s` (`str::rfind`).
pub open spec fn rfind_before(s: Seq<char>, pat: Seq<char>, end: int) -> Option<int>
    decreases end + 1,
{
    if end < 0 {
        None
    } else if end + pat.len() <= s.len() && s.subrange(end, end + pat.len()) == pat {
        Some(end)
    } else {
        rfind_before(s, pat, end - 1)
    }
}

pub open spec fn rfind(s: Seq<char>, pat: Seq<char>) -> Option<int> {
    rfind_before(s, pat, s.len() - pat.len())
}

/// Splits `s` around the last occurrence of `pat` (`str::rsplit_once`).
pub open spec fn rsplit_once(s: Seq<char>, pat: Seq<char>) -> Option<(Seq<char>, Seq<char>)> {
    match rfind(s, pat) {
        Some(i) => Some((s.take(i), s.skip(i + pat.len()))),
        None => None,
    }
}

pub proof fn lemma_rfind_bounds(s: Seq<char>, pat: Seq<char>, end: int)
    ensures
        rfind_before(s, pat, end) matches Some(i) ==> 0 <= i <= end && i + pat.len() <= s.len()
            && s.subrange(i, i + pat.len()) == pat,
    decreases end + 1,
{
    if end >= 0 && !(end + pat.len() <= s.len() && s.subrange(end, end + pat.len()) == pat) {
        lemma_rfind_bounds(s, pat, end - 1);
    }
}

pub fn rsplit_once_chars(s: &[char], pat: &[char]) -> (res: Option<(Vec<char>, Vec<char>)>)
    ensures
        match res {
            Some((a, b)) => rsplit_once(s@, pat@) == Some((a@, b@)),
            None => rsplit_once(s@, pat@) is None,
        },
{
    if pat.len() > s.len() {
        proof {
            assert(rfind_before(s@, pat@, s@.len() - pat@.len()) is None);
        }
        return None;
    }
    let mut e: usize = s.len() - pat.len();
    loop
        invariant
            e + pat.len() <= s.len(),
            rfind_before(s@, pat@, e as int) == rfind(s@, pat@),
        decreases e,
    {
        if matches_at(s, pat, e) {
            let a = sub_chars(s, 0, e);
            let b = sub_chars(s, e + pat.len(), s.len());
            proof {
                assert(a@ =~= s@.take(e as int));
                assert(b@ =~= s@.skip(e + pat.len()));
            }
            return Some((a, b));
        }
        if e == 0 {
            proof {
                assert(rfind_before(s@, pat@, -1) is None);
            }
            return None;
        }
        e -= 1;
    }
}

/// The reason a decimal integer could not be read (`core::num::IntErrorKind`).
#[derive(Debug, Clone, Copy, PartialEq, Eq)]
pub enum IntErrorKind {
    Empty,
    InvalidDigit,
    PosOverflow,
}

impl IntErrorKind {
    /// The `Display` text of `core::num::ParseIntError` for this kind.
    pub fn message(&self) -> (res: String)
        ensures
            res@ == int_error_message(*self),
    {
        match self {
            IntErrorKind::Empty => String::from_str("cannot parse integer from empty string"),
            IntErrorKind::InvalidDigit => String::from_str("invalid digit found in string"),
            IntErrorKind::PosOverflow => String::from_str("number too large to fit in target type"),
        }
    }
}

pub open spec fn int_error_message(kind: IntErrorKind) -> Seq<char> {
    match kind {
        IntErrorKind::Empty => "cannot parse integer from empty string"@,
        IntErrorKind::InvalidDigit => "invalid digit found in string"@,
        IntErrorKind::PosOverflow => "number too large to fit in target type"@,
    }
}

pub open spec fn is_digit(c: char) -> bool {
    '0' <= c && c <= '9'
}

pub open spec fn digit_value(c: char) -> nat {
    (c as int - '0' as int) as nat
}

/// Reads the decimal digits `d[i..]` on top of the value `acc` already read,
/// left to right, as `usize::from_str` does.
pub open spec fn scan_digits(d: Seq<char>, i: int, acc: nat) -> Result<nat, IntErrorKind>
    decreases d.len() - i,
{
    if i < 0 || i >= d.len() {
        Ok(acc)
    } else if !is_digit(d[i]) {
        Err(IntErrorKind::InvalidDigit)
    } else if acc * 10 + digit_value(d[i]) > usize::MAX {
        Err(IntErrorKind::PosOverflow)
    } else {
        scan_digits(d, i + 1, acc * 10 + digit_value(d[i]))
    }
}

/// The result of `usize::from_str` on `s`: an optional `'+'` sign, then at
/// least one decimal digit.
pub open spec fn parse_usize_spec(s: Seq<char>) -> Result<nat, IntErrorKind> {
    if s.len() == 0 {
        Err(IntErrorKind::Empty)
    } else if s[0] == '+' && s.len() == 1 {
        Err(IntErrorKind::InvalidDigit)
    } else if s[0] == '+' {
        scan_digits(s, 1, 0)
    } else {
        scan_digits(s, 0, 0)
    }
}

pub proof fn lemma_scan_bound(d: Seq<char>, i: int, acc: nat)
    requires
        acc <= usize::MAX,
    ensures
        scan_digits(d, i, acc) matches Ok(v) ==> v <= usize::MAX,
    decreases d.len() - i,
{
    if i >= 0 && i < d.len() && is_digit(d[i]) && acc * 10 + digit_value(d[i]) <= usize::MAX {
        lemma_scan_bound(d, i + 1, acc * 10 + digit_value(d[i]));
    }
}

/// Reads a decimal `usize` (`usize::from_str`).
pub fn parse_usize(s: &[char]) -> (res: Result<usize, IntErrorKind>)
    ensures
        match res {
            Ok(v) => parse_usize_spec(s@) == Ok::<nat, IntErrorKind>(v as nat),
            Err(e) => parse_usize_spec(s@) == Err::<nat, IntErrorKind>(e),
        },
{
    if s.len() == 0 {
        return Err(IntErrorKind::Empty);
    }
    let mut i: usize = 0;
    if s[0] == '+' {
        if s.len() == 1 {
            return Err(IntErrorKind::InvalidDigit);
        }
        i = 1;
    }
    let ghost start = i as int;
    let mut acc: usize = 0;
    while i < s.len()
        invariant
            start <= i <= s.len(),
            scan_digits(s@, i as int, acc as nat) == parse_usize_spec(s@),
        decreases s.len() - i,
    {
        let c = s[i];
        if !('0' <= c && c <= '9') {
            return Err(IntErrorKind::InvalidDigit);
        }
        let d: usize = (c as u32 - '0' as u32) as usize;
        if acc > (usize::MAX - d) / 10 {
            proof {
                assert(acc * 10 + d > usize::MAX) by (nonlinear_arith)
                    requires
                        acc > (usize::MAX - d) / 10,
                        d <= 9,
                ;
            }
            return Err(IntErrorKind::PosOverflow);
        }
        proof {
            assert(acc * 10 + d <= usize::MAX) by (nonlinear_arith)
                requires
                    acc <= (usize::MAX - d) / 10,
                    d <= 9,
            ;
        }
        acc = acc * 10 + d;
        i += 1;
    }
    Ok(acc)
}

/// The decimal digits of `n` as text.
pub open spec fn decimal(n: nat) -> Seq<char>
    decreases n,
{
    if n < 10 {
        seq![digit_char(n)]
    } else {
        decimal(n / 10).push(digit_char(n % 10))
    }
}

pub open spec fn digit_char(d: nat) -> char {
    if d == 0 {
        '0'
    } else if d == 1 {
        '1'
    } else if d == 2 {
        '2'
    } else if d == 3 {
        '3'
    } else if d == 4 {
        '4'
    } else if d == 5 {
        '5'
    } else if d == 6 {
        '6'
    } else if d == 7 {
        '7'
    } else if d == 8 {
        '8'
    } else {
        '9'
    }
}

fn digit(d: u128) -> (c: char)
    requires
        d < 10,
    ensures
        c == digit_char(d as nat),
{
    if d == 0 {
        '0'
    } else if d == 1 {
        '1'
    } else if d == 2 {
        '2'
    } else if d == 3 {
        '3'
    } else if d == 4 {
        '4'
    } else if d == 5 {
        '5'
    } else if d == 6 {
        '6'
    } else if d == 7 {
        '7'
    } else if d == 8 {
        '8'
    } else {
        '9'
    }
}

/// The decimal text of `n` (`n.to_string()`).
pub fn format_decimal(n: u128) -> (res: Vec<char>)
    ensures
        res@ == decimal(n as nat),
{
    let mut rev: Vec<char> = Vec::new();
    let mut v: u128 = n;
    loop
        invariant_except_break
            decimal(n as nat) == decimal(v as nat) + rev@.reverse(),
        ensures
            decimal(n as nat) == rev@.reverse(),
        decreases v,
    {
        let d = digit(v % 10);
        let ghost old_rev = rev@;
        rev.push(d);
        proof {
            assert(rev@.reverse() =~= seq![d] + old_rev.reverse());
        }
        if v < 10 {
            proof {
                assert(decimal(v as nat) =~= seq![d]);
                assert(decimal(n as nat) =~= rev@.reverse());
            }
            break;
        }
        proof {
            assert(decimal(v as nat) == decimal((v / 10) as nat).push(d));
            assert(decimal(v as nat) + old_rev.reverse() =~= decimal((v / 10) as nat)
                + rev@.reverse());
        }
        v = v / 10;
    }
    let mut res: Vec<char> = Vec::new();
    let mut k: usize = rev.len();
    while k > 0
        invariant
            k <= rev.len(),
            res@ == rev@.reverse().take((rev.len() - k) as int),
        decreases k,
    {
        k -= 1;
        res.push(rev[k]);
        proof {
            assert(res@ =~= rev@.reverse().take((rev.len() - k) as int));
        }
    }
    proof {
        assert(res@ =~= rev@.reverse());
    }
    res
}

/// The decimal text of a signed number, with a leading `-` when negative.
pub open spec fn signed_decimal(n: int) -> Seq<char> {
    if n < 0 {
        seq!['-'] + decimal((-n) as nat)
    } else {
        decimal(n as nat)
    }
}

pub fn format_signed(n: i64) -> (res: Vec<char>)
    ensures
        res@ == signed_decimal(n as int),
{
    if n < 0 {
        let magnitude: u128 = (0i128 - n as i128) as u128;
        let digits = format_decimal(magnitude);
        let mut res: Vec<char> = vec!['-'];
        push_all(&mut res, digits.as_slice());
        res
    } else {
        format_decimal(n as u128)
    }
}


/// `parts` with `sep` between each two.
pub open spec fn joined(parts: Seq<Seq<char>>, sep: Seq<char>) -> Seq<char>
    decreases parts.len(),
{
    if parts.len() == 0 {
        seq![]
    } else if parts.len() == 1 {
        parts[0]
    } else {
        joined(parts.drop_last(), sep) + sep + parts.last()
    }
}

pub proof fn lemma_joined_push(parts: Seq<Seq<char>>, sep: Seq<char>, p: Seq<char>)
    ensures
        joined(parts.push(p), sep) == if parts.len() == 0 {
            p
        } else {
            joined(parts, sep) + sep + p
        },
{
    assert(parts.push(p).drop_last() =~= parts);
}

/// Appends the characters of `s`.
pub fn push_str(out: &mut Vec<char>, s: &str)
    ensures
        final(out)@ == old(out)@ + s@,
{
    push_all(out, str_chars(s).as_slice());
}

/// Lexicographic order of texts by code point (which is the byte order of
/// their UTF-8 forms).
pub open spec fn text_le(a: Seq<char>, b: Seq<char>) -> bool
    decreases a.len(),
{
    if a.len() == 0 {
        true
    } else if b.len() == 0 {
        false
    } else if a[0] != b[0] {
        a[0] < b[0]
    } else {
        text_le(a.drop_first(), b.drop_first())
    }
}

pub proof fn lemma_text_le_total(a: Seq<char>, b: Seq<char>)
    ensures
        text_le(a, b) || text_le(b, a),
    decreases a.len(),
{
    if a.len() > 0 && b.len() > 0 && a[0] == b[0] {
        lemma_text_le_total(a.drop_first(), b.drop_first());
    }
}

pub proof fn lemma_text_le_trans(a: Seq<char>, b: Seq<char>, c: Seq<char>)
    requires
        text_le(a, b),
        text_le(b, c),
    ensures
        text_le(a, c),
    decreases a.len(),
{
    if a.len() > 0 && b.len() > 0 && c.len() > 0 && a[0] == b[0] && b[0] == c[0] {
        lemma_text_le_trans(a.drop_first(), b.drop_first(), c.drop_first());
    }
}

pub fn text_le_exec(a: &[char], b: &[char]) -> (res: bool)
    ensures
        res == text_le(a@, b@),
{
    let mut i: usize = 0;
    proof {
        assert(a@.skip(0) =~= a@);
        assert(b@.skip(0) =~= b@);
    }
    while i < a.len() && i < b.len()
        invariant
            i <= a@.len(),
            i <= b@.len(),
            text_le(a@.skip(i as int), b@.skip(i as int)) == text_le(a@, b@),
        decreases a@.len() - i,
    {
        proof {
            assert(a@.skip(i as int).drop_first() =~= a@.skip(i + 1));
            assert(b@.skip(i as int).drop_first() =~= b@.skip(i + 1));
        }
        if a[i] != b[i] {
            return a[i] < b[i];
        }
        i += 1;
    }
    i == a.len()
}

/// `s` with each occurrence of `from`, found left to right without
/// overlapping, replaced by `to` (`str::replace` for a non-empty `from`).
pub open spec fn replace_all(s: Seq<char>, from: Seq<char>, to: Seq<char>) -> Seq<char>
    decreases s.len(),
{
    if from.len() == 0 || s.len() < from.len() {
        s
    } else if s.take(from.len() as int) == from {
        to + replace_all(s.skip(from.len() as int), from, to)
    } else {
        seq![s[0]] + replace_all(s.skip(1), from, to)
    }
}

/// Replaces every occurrence of `from` in `s` by `to`.
pub fn replace_text(s: &str, from: &str, to: &str) -> (res: String)
    requires
        from@.len() > 0,
    ensures
        res@ == replace_all(s@, from@, to@),
{
    let c = str_chars(s);
    let f = str_chars(from);
    let t = str_chars(to);
    let mut out: Vec<char> = Vec::new();
    let mut i: usize = 0;
    proof {
        assert(c@.skip(0) =~= c@);
    }
    while i < c.len()
        invariant
            i <= c@.len(),
            f@ == from@,
            t@ == to@,
            f@.len() > 0,
            out@ + replace_all(c@.skip(i as int), f@, t@) == replace_all(c@, f@, t@),
        decreases c@.len() - i,
    {
        let ghost rest = c@.skip(i as int);
        if f.len() <= c.len() - i && matches_at(c.as_slice(), f.as_slice(), i) {
            proof {
                assert(rest.take(f@.len() as int) =~= c@.subrange(i as int, i + f@.len()));
                assert(rest.skip(f@.len() as int) =~= c@.skip(i + f@.len()));
                assert((out@ + t@) + replace_all(c@.skip(i + f@.len()), f@, t@) =~= out@ + (t@
                    + replace_all(rest.skip(f@.len() as int), f@, t@)));
            }
            push_all(&mut out, t.as_slice());
            i += f.len();
        } else {
            proof {
                assert(rest.skip(1) =~= c@.skip(i + 1));
                if f@.len() <= rest.len() {
                    assert(rest.take(f@.len() as int) =~= c@.subrange(i as int, i + f@.len()));
                } else {
                    assert(c@.skip(i + 1).len() < f@.len());
                    assert(rest =~= seq![c@[i as int]] + c@.skip(i + 1));
                }
                assert(out@.push(c@[i as int]) + replace_all(c@.skip(i + 1), f@, t@) =~= out@ + (seq![
                    rest[0],
                ] + replace_all(rest.skip(1), f@, t@)));
            }
            out.push(c[i]);
            i += 1;
        }
    }
    proof {
        assert(c@.skip(i as int) =~= Seq::<char>::empty());
        assert(out@ + Seq::<char>::empty() =~= out@);
    }
    chars_to_string(out.as_slice())
}

} // verus!
