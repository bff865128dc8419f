//! Portable helpers of the Windows shim trampoline: UTF-16 command lines and
//! paths, the `<name>.shim` sidecar format, and the launch plan of a shim.
use vstd::prelude::*;
use vstd::utf8::*;

use crate::text::{
    chars_eq, chars_to_string, decode_utf8_bytes, has_prefix, lines, split_lines, starts_with,
    str_chars, sub_chars, trim, trim_chars, views,
};

verus! {

pub const SPACE: u16 = 32;
pub const TAB: u16 = 9;
pub const QUOTE: u16 = 34;
pub const DOT: u16 = 46;
pub const COLON: u16 = 58;
pub const QUESTION: u16 = 63;
pub const BACKSLASH: u16 = 92;
pub const FORWARD_SLASH: u16 = 47;
pub const UPPER_U: u16 = 85;
pub const UPPER_N: u16 = 78;
pub const UPPER_C: u16 = 67;

/// Header of the versioned sidecar format.
pub const SHIM_POINTER_HEADER: &'static str = "vite-plus-shim-v1";

/// The layout recorded by a sidecar.
#[derive(Debug, PartialEq, Eq)]
pub enum ShimLayout {
    SingleRoot,
    Split { cache: String },
}

/// The parsed `<name>.shim` sidecar.
#[derive(Debug, PartialEq, Eq)]
pub struct ShimPointer {
    pub data: String,
    pub layout: ShimLayout,
}

/// Plain model of a parsed sidecar: the data root, and the cache root of a
/// split layout (`None` for the single-root layout).
pub open spec fn pointer_model(p: ShimPointer) -> (Seq<char>, Option<Seq<char>>) {
    (
        p.data@,
        match p.layout {
            ShimLayout::SingleRoot => None,
            ShimLayout::Split { cache } => Some(cache@),
        },
    )
}

// ---------------------------------------------------------------------------
// Program argument of a raw command line.
// ---------------------------------------------------------------------------

/// Index of the first space or tab outside quotes at or after `i`, or the
/// length of the line. A quote toggles quoted mode; backslashes escape nothing.
pub open spec fn program_end(cmdline: Seq<u16>, i: int, quoted: bool) -> int
    decreases cmdline.len() - i,
{
    if i >= cmdline.len() || i < 0 {
        cmdline.len() as int
    } else if cmdline[i] == QUOTE {
        program_end(cmdline, i + 1, !quoted)
    } else if (cmdline[i] == SPACE || cmdline[i] == TAB) && !quoted {
        i
    } else {
        program_end(cmdline, i + 1, quoted)
    }
}

/// The number of quotes among the first `i` units.
pub open spec fn quotes_before(cmdline: Seq<u16>, i: int) -> nat
    decreases i,
{
    if i <= 0 {
        0
    } else {
        quotes_before(cmdline, i - 1) + if cmdline[i - 1] == QUOTE {
            1nat
        } else {
            0nat
        }
    }
}

/// A space or tab with an even number of quotes before it: a separator
/// outside quotes.
pub open spec fn unquoted_blank(cmdline: Seq<u16>, i: int) -> bool {
    (cmdline[i] == SPACE || cmdline[i] == TAB) && quotes_before(cmdline, i) % 2 == 0
}

proof fn lemma_program_end_from(cmdline: Seq<u16>, i: int)
    requires
        0 <= i <= cmdline.len(),
    ensures
        ({
            let e = program_end(cmdline, i, quotes_before(cmdline, i) % 2 == 1);
            &&& i <= e <= cmdline.len()
            &&& e < cmdline.len() ==> unquoted_blank(cmdline, e)
            &&& forall|j: int| i <= j < e ==> !#[trigger] unquoted_blank(cmdline, j)
        }),
    decreases cmdline.len() - i,
{
    if i < cmdline.len() {
        lemma_program_end_from(cmdline, i + 1);
        assert(quotes_before(cmdline, i + 1) == quotes_before(cmdline, i) + if cmdline[i] == QUOTE {
            1nat
        } else {
            0nat
        });
    }
}

/// The program argument ends at the first space or tab with an even number
/// of quotes before it, or at the end of the line.
pub proof fn law_program_argument_end(cmdline: Seq<u16>)
    ensures
        ({
            let e = program_end(cmdline, 0, false);
            &&& 0 <= e <= cmdline.len()
            &&& e < cmdline.len() ==> unquoted_blank(cmdline, e)
            &&& forall|j: int| 0 <= j < e ==> !#[trigger] unquoted_blank(cmdline, j)
        }),
{
    lemma_program_end_from(cmdline, 0);
}

/// Return the end index of the first program argument in a raw command line.
///
/// This follows the MSVC rule for a program name: a quote starts or stops
/// quoted mode, backslashes do not escape characters, and leading whitespace
/// ends an empty program argument.
pub fn skip_program_argument(cmdline: &[u16]) -> (res: usize)
    ensures
        res == program_end(cmdline@, 0, false),
        res <= cmdline.len(),
{
    let mut i: usize = 0;
    let mut quoted = false;
    while i < cmdline.len()
        invariant
            i <= cmdline.len(),
            program_end(cmdline@, i as int, quoted) == program_end(cmdline@, 0, false),
        decreases cmdline.len() - i,
    {
        let c = cmdline[i];
        if c == QUOTE {
            quoted = !quoted;
        } else if (c == SPACE || c == TAB) && !quoted {
            return i;
        }
        i += 1;
    }
    i
}

// ---------------------------------------------------------------------------
// Paths.
// ---------------------------------------------------------------------------

pub open spec fn is_sep(unit: u16) -> bool {
    unit == BACKSLASH || unit == FORWARD_SLASH
}

/// Whether a UTF-16 unit is a path separator (`\` or `/`).
pub fn is_path_separator(unit: u16) -> (res: bool)
    ensures
        res == is_sep(unit),
{
    unit == BACKSLASH || unit == FORWARD_SLASH
}

/// Same predicate, under the name the launcher uses.
pub fn is_separator(value: u16) -> (res: bool)
    ensures
        res == is_sep(value),
{
    is_path_separator(value)
}

pub open spec fn verbatim_prefix() -> Seq<u16> {
    seq![BACKSLASH, BACKSLASH, QUESTION, BACKSLASH]
}

pub open spec fn unc_prefix() -> Seq<u16> {
    seq![BACKSLASH, BACKSLASH, QUESTION, BACKSLASH, UPPER_U, UPPER_N, UPPER_C, BACKSLASH]
}

/// Whether `path` is already in the extended-length (`\\?\`) or NT (`\??\`)
/// namespace.
pub open spec fn in_verbatim_namespace(p: Seq<u16>) -> bool {
    p.len() >= 4 && p[0] == BACKSLASH && p[3] == BACKSLASH && p[2] == QUESTION && (p[1]
        == BACKSLASH || p[1] == QUESTION)
}

/// The extended-length form of a normalized absolute path.
pub open spec fn verbatim_path_spec(p: Seq<u16>) -> Seq<u16> {
    if in_verbatim_namespace(p) {
        p
    } else if p.len() >= 3 && p[1] == COLON && p[2] == BACKSLASH {
        verbatim_prefix() + p
    } else if p.len() >= 4 && p[0] == BACKSLASH && p[1] == BACKSLASH && p[2] == DOT && p[3]
        == BACKSLASH {
        verbatim_prefix() + p.skip(4)
    } else if p.len() >= 2 && p[0] == BACKSLASH && p[1] == BACKSLASH {
        unc_prefix() + p.skip(2)
    } else {
        p
    }
}

fn copy_units(s: &[u16], from: usize) -> (res: Vec<u16>)
    requires
        from <= s.len(),
    ensures
        res@ == s@.skip(from as int),
{
    let mut res: Vec<u16> = Vec::new();
    let mut k: usize = from;
    while k < s.len()
        invariant
            from <= k <= s.len(),
            res@ == s@.subrange(from as int, k as int),
        decreases s.len() - k,
    {
        res.push(s[k]);
        proof {
            assert(res@ =~= s@.subrange(from as int, k + 1));
        }
        k += 1;
    }
    proof {
        assert(res@ =~= s@.skip(from as int));
    }
    res
}

fn prefixed(prefix: Vec<u16>, s: &[u16], from: usize) -> (res: Vec<u16>)
    requires
        from <= s.len(),
    ensures
        res@ == prefix@ + s@.skip(from as int),
{
    let mut res = prefix;
    let tail = copy_units(s, from);
    let ghost start = res@;
    let mut k: usize = 0;
    while k < tail.len()
        invariant
            k <= tail.len(),
            res@ == start + tail@.take(k as int),
        decreases tail.len() - k,
    {
        res.push(tail[k]);
        proof {
            assert(res@ =~= start + tail@.take(k + 1));
        }
        k += 1;
    }
    proof {
        assert(tail@.take(tail.len() as int) =~= tail@);
    }
    res
}

/// Whether `path` is in the extended-length or NT namespace.
pub fn is_verbatim(path: &[u16]) -> (res: bool)
    ensures
        res == in_verbatim_namespace(path@),
{
    path.len() >= 4 && path[0] == BACKSLASH && path[3] == BACKSLASH && path[2] == QUESTION && (
    path[1] == BACKSLASH || path[1] == QUESTION)
}

/// Add the Win32 extended-length prefix to a normalized absolute path.
///
/// `C:\path` becomes `\\?\C:\path`, `\\.\device` becomes `\\?\device`,
/// `\\server\share` becomes `\\?\UNC\server\share`; paths already in the
/// extended-length or NT namespace, and all other paths, are kept.
pub fn verbatim_path(path: &[u16]) -> (res: Vec<u16>)
    ensures
        res@ == verbatim_path_spec(path@),
{
    if is_verbatim(path) {
        return copy_units(path, 0);
    }
    let verbatim = vec![BACKSLASH, BACKSLASH, QUESTION, BACKSLASH];
    if path.len() >= 3 && path[1] == COLON && path[2] == BACKSLASH {
        proof {
            assert(path@.skip(0) =~= path@);
        }
        prefixed(verbatim, path, 0)
    } else if path.len() >= 4 && path[0] == BACKSLASH && path[1] == BACKSLASH && path[2] == DOT
        && path[3] == BACKSLASH {
        prefixed(verbatim, path, 4)
    } else if path.len() >= 2 && path[0] == BACKSLASH && path[1] == BACKSLASH {
        let unc = vec![BACKSLASH, BACKSLASH, QUESTION, BACKSLASH, UPPER_U, UPPER_N, UPPER_C, BACKSLASH];
        prefixed(unc, path, 2)
    } else {
        proof {
            assert(path@.skip(0) =~= path@);
        }
        copy_units(path, 0)
    }
}

/// The extended-length form is idempotent, and it is the path itself or
/// starts with `\\?\`.
pub proof fn law_verbatim_path_idempotent(p: Seq<u16>)
    ensures
        verbatim_path_spec(verbatim_path_spec(p)) == verbatim_path_spec(p),
        verbatim_path_spec(p) == p || verbatim_path_spec(p).take(4) == verbatim_prefix(),
{
    let v = verbatim_path_spec(p);
    if !in_verbatim_namespace(p) && (p.len() >= 3 && p[1] == COLON && p[2] == BACKSLASH) {
        assert(v.take(4) =~= verbatim_prefix());
        assert(v[0] == BACKSLASH && v[1] == BACKSLASH && v[2] == QUESTION && v[3] == BACKSLASH);
    } else if !in_verbatim_namespace(p) && (p.len() >= 4 && p[0] == BACKSLASH && p[1] == BACKSLASH
        && p[2] == DOT && p[3] == BACKSLASH) {
        assert(v.take(4) =~= verbatim_prefix());
        assert(v[0] == BACKSLASH && v[1] == BACKSLASH && v[2] == QUESTION && v[3] == BACKSLASH);
    } else if !in_verbatim_namespace(p) && (p.len() >= 2 && p[0] == BACKSLASH && p[1] == BACKSLASH) {
        assert(v.take(4) =~= verbatim_prefix());
        assert(v[0] == BACKSLASH && v[1] == BACKSLASH && v[2] == QUESTION && v[3] == BACKSLASH);
    }
}

/// End index of the parent directory of a path whose last separator is at
/// `last_separator`. The separator is kept when it ends a root: the only
/// separator at index 0, a drive root (`C:\`), or a device root (`\\?\X\`,
/// `\\.\X\`).
pub open spec fn parent_dir_len_spec(p: Seq<u16>, last: int) -> int {
    let drive_root = last >= 1 && p[last - 1] == COLON;
    let device_root = last >= 4 && is_sep(p[0]) && is_sep(p[1]) && (p[2] == QUESTION || p[2]
        == DOT) && is_sep(p[3]) && (forall|j: int| 4 <= j < last ==> !is_sep(#[trigger] p[j]));
    if last == 0 || drive_root || device_root {
        last + 1
    } else {
        last
    }
}

/// Return the end index of a parent directory, keeping the separator when it
/// is part of a Windows root (as `Path::parent` does for other paths).
pub fn parent_dir_len(path: &[u16], last_separator: usize) -> (res: usize)
    requires
        last_separator < path.len(),
    ensures
        res == parent_dir_len_spec(path@, last_separator as int),
{
    let drive_root = last_separator >= 1 && path[last_separator - 1] == COLON;
    let device_root = last_separator >= 4 && is_path_separator(path[0]) && is_path_separator(
        path[1],
    ) && (path[2] == QUESTION || path[2] == DOT) && is_path_separator(path[3])
        && no_separator_between(path, 4, last_separator);
    if last_separator == 0 || drive_root || device_root {
        last_separator + 1
    } else {
        last_separator
    }
}

fn no_separator_between(path: &[u16], from: usize, to: usize) -> (res: bool)
    requires
        from <= to <= path.len(),
    ensures
        res == (forall|j: int| from <= j < to ==> !is_sep(#[trigger] path@[j])),
{
    let mut j: usize = from;
    while j < to
        invariant
            from <= j <= to <= path.len(),
            forall|k: int| from <= k < j ==> !is_sep(#[trigger] path@[k]),
        decreases to - j,
    {
        if is_path_separator(path[j]) {
            return false;
        }
        j += 1;
    }
    true
}

/// Index of the last `.` at index 1 or later, if any.
pub open spec fn last_dot_from(name: Seq<u16>, end: int) -> Option<int>
    decreases end,
{
    if end <= 1 {
        None
    } else if name[end - 1] == DOT {
        Some(end - 1)
    } else {
        last_dot_from(name, end - 1)
    }
}

/// Length of the file stem of `name` (`Path::file_stem`): the stem ends before
/// the last `.`, but a leading `.` does not start an extension.
pub open spec fn file_stem_len_spec(name: Seq<u16>) -> int {
    match last_dot_from(name, name.len() as int) {
        Some(i) => i,
        None => name.len() as int,
    }
}

/// Return the file-stem length, as `Path::file_stem` does.
pub fn file_stem_len(name: &[u16]) -> (res: usize)
    ensures
        res == file_stem_len_spec(name@),
        res <= name.len(),
{
    let mut end: usize = name.len();
    while end > 1
        invariant
            end <= name.len(),
            last_dot_from(name@, end as int) == last_dot_from(name@, name.len() as int),
        decreases end,
    {
        if name[end - 1] == DOT {
            return end - 1;
        }
        end -= 1;
    }
    name.len()
}

/// Case-sensitive comparison of a UTF-16 slice against an ASCII string.
pub fn eq_ascii(wide: &[u16], ascii: &[u8]) -> (res: bool)
    ensures
        res == (wide.len() == ascii.len() && forall|i: int|
            0 <= i < wide.len() ==> #[trigger] wide@[i] == ascii@[i] as u16),
{
    if wide.len() != ascii.len() {
        return false;
    }
    let mut i: usize = 0;
    while i < wide.len()
        invariant
            i <= wide.len() == ascii.len(),
            forall|k: int| 0 <= k < i ==> #[trigger] wide@[k] == ascii@[k] as u16,
        decreases wide.len() - i,
    {
        if wide[i] != ascii[i] as u16 {
            return false;
        }
        i += 1;
    }
    true
}

/// The decimal ASCII digits of `n`.
pub open spec fn decimal_digits(n: nat) -> Seq<u8>
    decreases n,
{
    if n < 10 {
        seq![(48 + n) as u8]
    } else {
        decimal_digits(n / 10).push((48 + n % 10) as u8)
    }
}

proof fn lemma_digits_bound(n: nat, k: nat)
    requires
        n < pow10(k),
        k >= 1,
    ensures
        decimal_digits(n).len() <= k,
    decreases n,
{
    if n >= 10 {
        assert(k >= 2) by {
            if k < 2 {
                if k == 0 {
                    assert(pow10(0) == 1);
                } else {
                    assert(pow10(1) == 10) by {
                        assert(pow10(0) == 1);
                    }
                }
            }
        }
        assert(n / 10 < pow10((k - 1) as nat)) by {
            assert(pow10(k) == 10 * pow10((k - 1) as nat));
        }
        lemma_digits_bound(n / 10, (k - 1) as nat);
    }
}

pub open spec fn pow10(k: nat) -> nat
    decreases k,
{
    if k == 0 {
        1
    } else {
        10 * pow10((k - 1) as nat)
    }
}

/// Format `value` as decimal ASCII.
pub fn format_u32(value: u32) -> (res: Vec<u8>)
    ensures
        res@ == decimal_digits(value as nat),
        res@.len() <= 10,
{
    proof {
        reveal_with_fuel(pow10, 11);
        assert(pow10(10) == 10000000000);
        lemma_digits_bound(value as nat, 10);
    }
    let mut digits: Vec<u8> = Vec::new();
    let mut v: u32 = value;
    loop
        invariant_except_break
            decimal_digits(value as nat) == decimal_digits(v as nat) + digits@.reverse(),
        ensures
            decimal_digits(value as nat) == digits@.reverse(),
        decreases v,
    {
        let d = (48 + v % 10) as u8;
        proof {
            if v >= 10 {
                assert(decimal_digits(v as nat) == decimal_digits((v / 10) as nat).push(d));
            }
        }
        let ghost old_digits = digits@;
        digits.push(d);
        proof {
            assert(digits@.reverse() =~= seq![d] + old_digits.reverse());
        }
        if v < 10 {
            proof {
                assert(decimal_digits(v as nat) =~= seq![d]);
                assert(decimal_digits(value as nat) =~= digits@.reverse());
            }
            break;
        }
        proof {
            assert(decimal_digits(v as nat) + old_digits.reverse() =~= decimal_digits(
                (v / 10) as nat,
            ) + digits@.reverse());
        }
        v = v / 10;
    }
    let mut res: Vec<u8> = Vec::new();
    let mut k: usize = digits.len();
    while k > 0
        invariant
            k <= digits.len(),
            res@ == digits@.reverse().take((digits.len() - k) as int),
        decreases k,
    {
        k -= 1;
        res.push(digits[k]);
        proof {
            assert(res@ =~= digits@.reverse().take((digits.len() - k) as int));
        }
    }
    proof {
        assert(res@ =~= digits@.reverse());
    }
    res
}

/// `wide` without its final (NUL) unit.
pub fn without_nul(wide: &[u16]) -> (res: &[u16])
    requires
        wide.len() >= 1,
    ensures
        res@ == wide@.drop_last(),
{
    &wide[0..wide.len() - 1]
}

/// A copy of `wide` with a NUL unit appended.
pub fn nul_terminated(wide: &[u16]) -> (res: Vec<u16>)
    requires
        wide.len() < usize::MAX,
    ensures
        res@ == wide@.push(0u16),
{
    let mut out = copy_units(wide, 0);
    proof {
        assert(wide@.skip(0) =~= wide@);
    }
    out.push(0);
    out
}

/// `base` and `suffix` joined by a backslash, unless `base` is empty or
/// already ends with a separator.
pub open spec fn join_path_spec(base: Seq<u16>, suffix: Seq<u16>) -> Seq<u16> {
    if base.len() > 0 && !is_sep(base.last()) {
        base.push(BACKSLASH) + suffix
    } else {
        base + suffix
    }
}

pub fn join_path(base: &[u16], suffix: &[u16]) -> (res: Vec<u16>)
    ensures
        res@ == join_path_spec(base@, suffix@),
{
    let mut path = copy_units(base, 0);
    proof {
        assert(base@.skip(0) =~= base@);
    }
    if base.len() > 0 && !is_separator(base[base.len() - 1]) {
        path.push(BACKSLASH);
    }
    let ghost start = path@;
    let tail = copy_units(suffix, 0);
    proof {
        assert(suffix@.skip(0) =~= suffix@);
    }
    let mut k: usize = 0;
    while k < tail.len()
        invariant
            k <= tail.len(),
            path@ == start + tail@.take(k as int),
        decreases tail.len() - k,
    {
        path.push(tail[k]);
        proof {
            assert(path@ =~= start + tail@.take(k + 1));
        }
        k += 1;
    }
    proof {
        assert(tail@.take(tail.len() as int) =~= tail@);
    }
    path
}

/// UTF-16 encoding of one character.
pub open spec fn utf16_of(c: char) -> Seq<u16> {
    let v = c as u32;
    if v < 0x10000 {
        seq![v as u16]
    } else {
        seq![(0xD800 + (v - 0x10000) / 1024) as u16, (0xDC00 + (v - 0x10000) % 1024) as u16]
    }
}

/// UTF-16 encoding of a character sequence (`str::encode_utf16`).
pub open spec fn utf16(s: Seq<char>) -> Seq<u16>
    decreases s.len(),
{
    if s.len() == 0 {
        seq![]
    } else {
        utf16(s.drop_last()) + utf16_of(s.last())
    }
}

/// A path for Win32 calls from the UTF-8 text of a sidecar: `None` when the
/// text is empty or contains a NUL character.
pub open spec fn utf8_path_spec(text: Seq<char>) -> Option<Seq<u16>> {
    if text.len() == 0 || (exists|i: int| 0 <= i < text.len() && text[i] == '\0') {
        None
    } else {
        Some(utf16(text))
    }
}

pub fn utf8_path(text: &str) -> (res: Option<Vec<u16>>)
    ensures
        match res {
            Some(p) => utf8_path_spec(text@) == Some(p@),
            None => utf8_path_spec(text@) is None,
        },
{
    let chars = str_chars(text);
    let mut path: Vec<u16> = Vec::new();
    let mut i: usize = 0;
    while i < chars.len()
        invariant
            i <= chars.len(),
            chars@ == text@,
            path@ == utf16(chars@.take(i as int)),
            forall|k: int| 0 <= k < i ==> chars@[k] != '\0',
        decreases chars.len() - i,
    {
        let c = chars[i];
        if c == '\0' {
            return None;
        }
        let v = c as u32;
        proof {
            assert(chars@.take(i + 1).drop_last() =~= chars@.take(i as int));
            assert(chars@.take(i + 1).last() == c);
            vstd::utf8::char_is_scalar(c);
            assert(v <= 0x10FFFF);
        }
        if v < 0x10000 {
            path.push(v as u16);
            proof {
                assert(path@ =~= utf16(chars@.take(i + 1)));
            }
        } else {
            let w = v - 0x10000;
            path.push((0xD800 + w / 1024) as u16);
            path.push((0xDC00 + w % 1024) as u16);
            proof {
                assert(path@ =~= utf16(chars@.take(i + 1)));
            }
        }
        i += 1;
    }
    proof {
        assert(chars@.take(i as int) =~= chars@);
    }
    if path.len() == 0 {
        proof {
            if chars@.len() > 0 {
                lemma_utf16_nonempty(chars@);
            }
        }
        return None;
    }
    proof {
        if chars@.len() == 0 {
            assert(utf16(chars@) =~= Seq::<u16>::empty());
        }
    }
    Some(path)
}

proof fn lemma_utf16_nonempty(s: Seq<char>)
    requires
        s.len() > 0,
    ensures
        utf16(s).len() > 0,
{
}

/// Path of the sidecar of an executable: the directory part of `exe` up to
/// and including the separator, the stem of `file_name`, then `.shim`.
pub open spec fn pointer_path_spec(exe: Seq<u16>, last: int, file_name: Seq<u16>) -> Seq<u16> {
    exe.take(last + 1) + file_name.take(file_stem_len_spec(file_name)) + seq![
        DOT,
        115u16,
        104u16,
        105u16,
        109u16,
    ]
}

pub fn pointer_path(exe: &[u16], last_separator: usize, file_name: &[u16]) -> (res: Vec<u16>)
    requires
        last_separator < exe.len(),
    ensures
        res@ == pointer_path_spec(exe@, last_separator as int, file_name@),
{
    let stem_len = file_stem_len(file_name);
    let mut path = copy_units(&exe[0..last_separator + 1], 0);
    let stem = copy_units(&file_name[0..stem_len], 0);
    let ghost start = path@;
    let mut k: usize = 0;
    while k < stem.len()
        invariant
            k <= stem.len(),
            path@ == start + stem@.take(k as int),
        decreases stem.len() - k,
    {
        path.push(stem[k]);
        proof {
            assert(path@ =~= start + stem@.take(k + 1));
        }
        k += 1;
    }
    path.push(DOT);
    path.push(115);
    path.push(104);
    path.push(105);
    path.push(109);
    proof {
        assert(exe@.subrange(0, last_separator + 1).skip(0) =~= exe@.take(last_separator + 1));
        assert(file_name@.subrange(0, stem_len as int).skip(0) =~= file_name@.take(
            stem_len as int,
        ));
        assert(stem@.take(stem.len() as int) =~= stem@);
        assert(path@ =~= pointer_path_spec(exe@, last_separator as int, file_name@));
    }
    path
}

// ---------------------------------------------------------------------------
// The `<name>.shim` sidecar.
// ---------------------------------------------------------------------------

/// `bytes` without a leading UTF-8 byte-order mark.
pub open spec fn strip_bom(bytes: Seq<u8>) -> Seq<u8> {
    if bytes.len() >= 3 && bytes[0] == 0xEF && bytes[1] == 0xBB && bytes[2] == 0xBF {
        bytes.skip(3)
    } else {
        bytes
    }
}

/// The value of the last line in `ls` that starts with `key`, if any.
pub open spec fn last_field(ls: Seq<Seq<char>>, key: Seq<char>) -> Option<Seq<char>>
    decreases ls.len(),
{
    if ls.len() == 0 {
        None
    } else if has_prefix(ls.last(), key) {
        Some(ls.last().skip(key.len() as int))
    } else {
        last_field(ls.drop_last(), key)
    }
}

/// A field whose last value is non-empty.
pub open spec fn non_empty_field(ls: Seq<Seq<char>>, key: Seq<char>) -> Option<Seq<char>> {
    match last_field(ls, key) {
        Some(v) => if v.len() > 0 {
            Some(v)
        } else {
            None
        },
        None => None,
    }
}

/// The sidecar read from trimmed text: the first line is the versioned
/// header; `layout=`, `data=` and `cache=` lines set fields (the last line of
/// each key wins, and an empty `data`/`cache` value unsets it). Data is
/// required; layout `single-root`, or `split` with a cache root.
pub open spec fn shim_pointer_from_text(text: Seq<char>) -> Option<(Seq<char>, Option<Seq<char>>)> {
    let ls = lines(text);
    if ls.len() == 0 || ls[0] != SHIM_POINTER_HEADER@ {
        None
    } else {
        let fields = ls.drop_first();
        match (non_empty_field(fields, "data="@), last_field(fields, "layout="@)) {
            (Some(data), Some(layout)) => {
                if layout == "single-root"@ {
                    Some((data, None))
                } else if layout == "split"@ {
                    match non_empty_field(fields, "cache="@) {
                        Some(cache) => Some((data, Some(cache))),
                        None => None,
                    }
                } else {
                    None
                }
            },
            _ => None,
        }
    }
}

/// The sidecar read from its bytes: an optional UTF-8 byte-order mark, then
/// valid UTF-8 text, which is trimmed and read as above.
pub open spec fn shim_pointer_spec(bytes: Seq<u8>) -> Option<(Seq<char>, Option<Seq<char>>)> {
    let b = strip_bom(bytes);
    if !valid_utf8(b) {
        None
    } else {
        shim_pointer_from_text(trim(decode_utf8(b)))
    }
}

/// Reads the last value of the field `key` in `lines[1..]`.
fn find_last_field(ls: &Vec<Vec<char>>, key: &[char]) -> (res: Option<Vec<char>>)
    requires
        ls.len() >= 1,
    ensures
        match res {
            Some(v) => last_field(views(ls@).drop_first(), key@) == Some(v@),
            None => last_field(views(ls@).drop_first(), key@) is None,
        },
{
    let ghost fields = views(ls@).drop_first();
    proof {
        assert(fields.take(ls.len() - 1) =~= fields);
    }
    let mut end: usize = ls.len();
    while end > 1
        invariant
            1 <= end <= ls.len(),
            fields == views(ls@).drop_first(),
            last_field(fields.take(end - 1), key@) == last_field(fields, key@),
        decreases end,
    {
        let line = &ls[end - 1];
        proof {
            let t = fields.take(end - 1);
            assert(views(ls@).len() == ls@.len());
            assert(fields.len() == ls@.len() - 1);
            assert(t.len() == end - 1);
            assert(views(ls@)[end - 1] == ls@[end - 1]@);
            assert(fields[end - 2] == views(ls@)[end - 1]);
            assert(t[end - 2] == fields[end - 2]);
            assert(t.last() == line@);
            assert(t.drop_last() =~= fields.take(end - 2));
        }
        if starts_with(line.as_slice(), key) {
            let v = sub_chars(line.as_slice(), key.len(), line.len());
            proof {
                assert(v@ =~= line@.skip(key@.len() as int));
            }
            return Some(v);
        }
        end -= 1;
    }
    proof {
        assert(fields.take(0) =~= Seq::<Seq<char>>::empty());
        if end == 1 {
            assert(fields.take(end - 1) =~= Seq::<Seq<char>>::empty());
        }
        assert(fields.take(fields.len() as int) =~= fields);
    }
    None
}

/// Parse the UTF-8 `<name>.shim` sidecar written by the directory layer.
///
/// The parser requires the versioned header and accepts a UTF-8 byte-order
/// mark and CRLF line endings.
pub fn parse_shim_pointer(bytes: &[u8]) -> (res: Option<ShimPointer>)
    ensures
        match res {
            Some(p) => shim_pointer_spec(bytes@) == Some(pointer_model(p)),
            None => shim_pointer_spec(bytes@) is None,
        },
{
    let body: &[u8] = if bytes.len() >= 3 && bytes[0] == 0xEF && bytes[1] == 0xBB && bytes[2]
        == 0xBF {
        &bytes[3..bytes.len()]
    } else {
        bytes
    };
    proof {
        assert(body@ =~= strip_bom(bytes@));
    }
    let decoded = match decode_utf8_bytes(body) {
        Some(d) => d,
        None => return None,
    };
    let text = trim_chars(decoded.as_slice());
    let ls = split_lines(text.as_slice());
    if ls.len() == 0 {
        return None;
    }
    let header = str_chars(SHIM_POINTER_HEADER);
    if !chars_eq(ls[0].as_slice(), header.as_slice()) {
        return None;
    }
    let data_key = str_chars("data=");
    let layout_key = str_chars("layout=");
    let cache_key = str_chars("cache=");
    let data = match find_last_field(&ls, data_key.as_slice()) {
        Some(d) => if d.len() > 0 {
            d
        } else {
            return None;
        },
        None => return None,
    };
    let layout = match find_last_field(&ls, layout_key.as_slice()) {
        Some(l) => l,
        None => return None,
    };
    let single = str_chars("single-root");
    let split = str_chars("split");
    if chars_eq(layout.as_slice(), single.as_slice()) {
        let p = ShimPointer { data: chars_to_string(data.as_slice()), layout: ShimLayout::SingleRoot };
        Some(p)
    } else if chars_eq(layout.as_slice(), split.as_slice()) {
        let cache = match find_last_field(&ls, cache_key.as_slice()) {
            Some(c) => if c.len() > 0 {
                c
            } else {
                return None;
            },
            None => return None,
        };
        Some(
            ShimPointer {
                data: chars_to_string(data.as_slice()),
                layout: ShimLayout::Split { cache: chars_to_string(cache.as_slice()) },
            },
        )
    } else {
        None
    }
}

} // verus!
