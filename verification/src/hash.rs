//! Checking a downloaded artifact against its pinned hash: either
//! `algorithm.hex` (the `packageManager` field) or the SRI form
//! `algorithm-base64` (a registry's `dist.integrity`). Hex never holds a
//! `-` and base64 never a `.`, so the separator tells the forms apart.
use vstd::prelude::*;

use sha2::Digest;

use crate::text::{chars_to_string, find, find_from, push_all, push_str, split_once, split_once_chars, str_chars};

verus! {

/// The hash algorithms a pin may name.
#[derive(Debug, Clone, Copy, PartialEq, Eq)]
pub enum HashAlgorithm {
    Sha512,
    Sha256,
    Sha224,
    Sha1,
}

pub open spec fn algorithm_named(name: Seq<char>) -> Option<HashAlgorithm> {
    if name == "sha512"@ {
        Some(HashAlgorithm::Sha512)
    } else if name == "sha256"@ {
        Some(HashAlgorithm::Sha256)
    } else if name == "sha224"@ {
        Some(HashAlgorithm::Sha224)
    } else if name == "sha1"@ {
        Some(HashAlgorithm::Sha1)
    } else {
        None
    }
}

/// Why a hash check failed.
#[derive(Debug, Clone, PartialEq, Eq)]
pub enum HashError {
    /// Neither `algorithm.hex` nor `algorithm-base64`.
    InvalidFormat(String),
    /// An algorithm that is not supported.
    Unsupported(String),
    /// The artifact's hash, written as the pin is, differs.
    Mismatch { expected: String, actual: String },
}

/// A pin taken apart: the algorithm (by name and by value), the separator
/// (`.` for hex, `-` for base64) and the encoded hash.
#[derive(Debug, Clone)]
pub struct ExpectedHash {
    pub algorithm: HashAlgorithm,
    pub algorithm_name: String,
    pub separator: char,
    pub encoded: String,
}

/// The pin split at its first `.`, else at its first `-`.
pub open spec fn pin_parts(pin: Seq<char>) -> Option<(Seq<char>, char, Seq<char>)> {
    match split_once(pin, "."@) {
        Some((a, h)) => Some((a, '.', h)),
        None => match split_once(pin, "-"@) {
            Some((a, h)) => Some((a, '-', h)),
            None => None,
        },
    }
}

pub fn parse_expected_hash(pin: &str) -> (res: Result<ExpectedHash, HashError>)
    ensures
        match pin_parts(pin@) {
            None => res matches Err(HashError::InvalidFormat(p)) && p@ == pin@,
            Some((a, sep, h)) => match algorithm_named(a) {
                None => res matches Err(HashError::Unsupported(n)) && n@ == a,
                Some(alg) => res matches Ok(e) && e.algorithm == alg && e.algorithm_name@ == a
                    && e.separator == sep && e.encoded@ == h,
            },
        },
{
    let p = str_chars(pin);
    let dot = str_chars(".");
    let dash = str_chars("-");
    let parts: (Vec<char>, char, Vec<char>) = match split_once_chars(p.as_slice(), dot.as_slice()) {
        Some((a, h)) => (a, '.', h),
        None => match split_once_chars(p.as_slice(), dash.as_slice()) {
            Some((a, h)) => (a, '-', h),
            None => return Err(HashError::InvalidFormat(String::from_str(pin))),
        },
    };
    let (a, sep, h) = parts;
    let name = chars_to_string(a.as_slice());
    let algorithm = if crate::text::str_eq(name.as_str(), "sha512") {
        HashAlgorithm::Sha512
    } else if crate::text::str_eq(name.as_str(), "sha256") {
        HashAlgorithm::Sha256
    } else if crate::text::str_eq(name.as_str(), "sha224") {
        HashAlgorithm::Sha224
    } else if crate::text::str_eq(name.as_str(), "sha1") {
        HashAlgorithm::Sha1
    } else {
        return Err(HashError::Unsupported(name));
    };
    Ok(ExpectedHash { algorithm, algorithm_name: name, separator: sep, encoded: chars_to_string(h.as_slice()) })
}

/// The SHA-512 digest of the data.
pub uninterp spec fn sha512(data: Seq<u8>) -> Seq<u8>;

/// The SHA-256 digest of the data.
pub uninterp spec fn sha256(data: Seq<u8>) -> Seq<u8>;

/// The SHA-224 digest of the data.
pub uninterp spec fn sha224(data: Seq<u8>) -> Seq<u8>;

/// The SHA-1 digest of the data.
pub uninterp spec fn sha1(data: Seq<u8>) -> Seq<u8>;

/// A digit of the standard base64 alphabet: `A`-`Z`, `a`-`z`, `0`-`9`,
/// `+`, `/`.
pub open spec fn base64_char(n: int) -> char {
    if n < 26 {
        (65 + n) as char
    } else if n < 52 {
        (71 + n) as char
    } else if n < 62 {
        (n - 4) as char
    } else if n == 62 {
        '+'
    } else {
        '/'
    }
}

/// The standard, padded base64 text of the data: each group of three bytes
/// as four digits of six bits, high bits first; a last group of one or two
/// bytes padded with `=` to four characters.
pub open spec fn base64_standard(d: Seq<u8>) -> Seq<char>
    decreases d.len(),
{
    if d.len() == 0 {
        seq![]
    } else if d.len() == 1 {
        seq![base64_char(d[0] as int / 4), base64_char((d[0] as int % 4) * 16), '=', '=']
    } else if d.len() == 2 {
        seq![
            base64_char(d[0] as int / 4),
            base64_char((d[0] as int % 4) * 16 + d[1] as int / 16),
            base64_char((d[1] as int % 16) * 4),
            '=',
        ]
    } else {
        seq![
            base64_char(d[0] as int / 4),
            base64_char((d[0] as int % 4) * 16 + d[1] as int / 16),
            base64_char((d[1] as int % 16) * 4 + d[2] as int / 64),
            base64_char(d[2] as int % 64),
        ] + base64_standard(d.skip(3))
    }
}

/// `sha2::Sha512::digest`: the digest of the data, named `sha512`.
#[verifier::external_body]
fn sha512_digest(data: &[u8]) -> (res: Vec<u8>)
    ensures
        res@ == sha512(data@),
{
    sha2::Sha512::digest(data).to_vec()
}

/// `sha2::Sha256::digest`: the digest of the data, named `sha256`.
#[verifier::external_body]
fn sha256_digest(data: &[u8]) -> (res: Vec<u8>)
    ensures
        res@ == sha256(data@),
{
    sha2::Sha256::digest(data).to_vec()
}

/// `sha2::Sha224::digest`: the digest of the data, named `sha224`.
#[verifier::external_body]
fn sha224_digest(data: &[u8]) -> (res: Vec<u8>)
    ensures
        res@ == sha224(data@),
{
    sha2::Sha224::digest(data).to_vec()
}

/// `sha1::Sha1::digest`: the digest of the data, named `sha1`.
#[verifier::external_body]
fn sha1_digest(data: &[u8]) -> (res: Vec<u8>)
    ensures
        res@ == sha1(data@),
{
    sha1::Sha1::digest(data).to_vec()
}

/// `base64_simd::STANDARD.encode_to_string`: the padded standard base64
/// text of the data (RFC 4648, with `=` padding), as `base64_standard`
/// states it.
#[verifier::external_body]
fn base64_encode(data: &[u8]) -> (res: String)
    ensures
        res@ == base64_standard(data@),
{
    base64_simd::STANDARD.encode_to_string(data)
}

/// A lowercase hexadecimal digit.
pub open spec fn hex_digit(n: int) -> char {
    if n < 10 {
        (48 + n) as char
    } else {
        (87 + n) as char
    }
}

/// Each byte as two lowercase hexadecimal digits, high digit first.
pub open spec fn hex_text(data: Seq<u8>) -> Seq<char>
    decreases data.len(),
{
    if data.len() == 0 {
        seq![]
    } else {
        seq![hex_digit(data[0] as int / 16), hex_digit(data[0] as int % 16)] + hex_text(data.drop_first())
    }
}

/// The data as lowercase hexadecimal, two digits per byte (what
/// `hex::encode` gives).
fn hex_encode(data: &[u8]) -> (res: String)
    ensures
        res@ == hex_text(data@),
{
    let digits = str_chars("0123456789abcdef");
    proof {
        reveal_strlit("0123456789abcdef");
        assert forall|n: int| 0 <= n < 16 implies digits@[n] == #[trigger] hex_digit(n) by {
            assert(('0' as int) == 48);
            assert(('a' as int) == 97);
            if n == 0 { assert(digits@[n] == '0'); }
            if n == 1 { assert(digits@[n] == '1'); assert(('1' as int) == 49); }
            if n == 2 { assert(digits@[n] == '2'); assert(('2' as int) == 50); }
            if n == 3 { assert(digits@[n] == '3'); assert(('3' as int) == 51); }
            if n == 4 { assert(digits@[n] == '4'); assert(('4' as int) == 52); }
            if n == 5 { assert(digits@[n] == '5'); assert(('5' as int) == 53); }
            if n == 6 { assert(digits@[n] == '6'); assert(('6' as int) == 54); }
            if n == 7 { assert(digits@[n] == '7'); assert(('7' as int) == 55); }
            if n == 8 { assert(digits@[n] == '8'); assert(('8' as int) == 56); }
            if n == 9 { assert(digits@[n] == '9'); assert(('9' as int) == 57); }
            if n == 10 { assert(digits@[n] == 'a'); }
            if n == 11 { assert(digits@[n] == 'b'); assert(('b' as int) == 98); }
            if n == 12 { assert(digits@[n] == 'c'); assert(('c' as int) == 99); }
            if n == 13 { assert(digits@[n] == 'd'); assert(('d' as int) == 100); }
            if n == 14 { assert(digits@[n] == 'e'); assert(('e' as int) == 101); }
            if n == 15 { assert(digits@[n] == 'f'); assert(('f' as int) == 102); }
        }
    }
    let mut out: Vec<char> = Vec::new();
    let mut i: usize = 0;
    proof {
        assert(data@.skip(0) =~= data@);
    }
    while i < data.len()
        invariant
            i <= data@.len(),
            digits@.len() == 16,
            forall|n: int| 0 <= n < 16 ==> digits@[n] == #[trigger] hex_digit(n),
            out@ + hex_text(data@.skip(i as int)) == hex_text(data@),
        decreases data@.len() - i,
    {
        let b = data[i];
        proof {
            let rest = data@.skip(i as int);
            assert(rest[0] == b);
            assert(rest.drop_first() =~= data@.skip(i + 1));
            assert(hex_text(rest) == seq![hex_digit(b as int / 16), hex_digit(b as int % 16)] + hex_text(
                data@.skip(i + 1),
            ));
        }
        let hi = (b / 16) as usize;
        let lo = (b % 16) as usize;
        let ghost before = out@;
        out.push(digits[hi]);
        out.push(digits[lo]);
        proof {
            assert(out@ =~= before + seq![hex_digit(b as int / 16), hex_digit(b as int % 16)]);
            assert(out@ + hex_text(data@.skip(i + 1)) =~= before + (seq![hex_digit(b as int / 16), hex_digit(b as int % 16)] + hex_text(data@.skip(i + 1))));
        }
        i += 1;
    }
    proof {
        assert(data@.skip(data@.len() as int) =~= Seq::<u8>::empty());
        assert(out@ + hex_text(Seq::<u8>::empty()) =~= out@);
    }
    chars_to_string(out.as_slice())
}

pub open spec fn digest_spec(algorithm: HashAlgorithm, data: Seq<u8>) -> Seq<u8> {
    match algorithm {
        HashAlgorithm::Sha512 => sha512(data),
        HashAlgorithm::Sha256 => sha256(data),
        HashAlgorithm::Sha224 => sha224(data),
        HashAlgorithm::Sha1 => sha1(data),
    }
}

/// The digest of the data under the algorithm.
pub fn digest(algorithm: HashAlgorithm, data: &[u8]) -> (res: Vec<u8>)
    ensures
        res@ == digest_spec(algorithm, data@),
{
    match algorithm {
        HashAlgorithm::Sha512 => sha512_digest(data),
        HashAlgorithm::Sha256 => sha256_digest(data),
        HashAlgorithm::Sha224 => sha224_digest(data),
        HashAlgorithm::Sha1 => sha1_digest(data),
    }
}

pub open spec fn encoded_spec(separator: char, digest: Seq<u8>) -> Seq<char> {
    if separator == '-' {
        base64_standard(digest)
    } else {
        hex_text(digest)
    }
}

/// A digest written as the pin writes it: base64 after `-`, hex after `.`.
pub fn encode_digest(separator: char, digest: &[u8]) -> (res: String)
    ensures
        res@ == encoded_spec(separator, digest@),
{
    if separator == '-' {
        base64_encode(digest)
    } else {
        hex_encode(digest)
    }
}

/// The pin compared with the artifact's encoded digest: a mismatch reports
/// the pin and the artifact's hash written the same way.
pub fn compare_digest(pin: &str, expected: &ExpectedHash, actual: &str) -> (res: Result<(), HashError>)
    ensures
        if actual@ == expected.encoded@ {
            res is Ok
        } else {
            res matches Err(HashError::Mismatch { expected: e, actual: a }) && e@ == pin@ && a@
                == expected.algorithm_name@.push(expected.separator) + actual@
        },
{
    if crate::text::str_eq(actual, expected.encoded.as_str()) {
        return Ok(());
    }
    let mut a = str_chars(expected.algorithm_name.as_str());
    a.push(expected.separator);
    push_str(&mut a, actual);
    Err(HashError::Mismatch { expected: String::from_str(pin), actual: chars_to_string(a.as_slice()) })
}

/// The outcome of checking data against a pin.
pub open spec fn verify_spec(data: Seq<u8>, pin: Seq<char>, res: Result<(), HashError>) -> bool {
    match pin_parts(pin) {
        None => res matches Err(HashError::InvalidFormat(p)) && p@ == pin,
        Some((a, sep, h)) => match algorithm_named(a) {
            None => res matches Err(HashError::Unsupported(n)) && n@ == a,
            Some(alg) => {
                let actual = encoded_spec(sep, digest_spec(alg, data));
                if actual == h {
                    res is Ok
                } else {
                    res matches Err(HashError::Mismatch { expected: e, actual: x }) && e@ == pin
                        && x@ == a.push(sep) + actual
                }
            },
        },
    }
}

/// Checks the data against the pin.
pub fn verify_hash(data: &[u8], pin: &str) -> (res: Result<(), HashError>)
    ensures
        verify_spec(data@, pin@, res),
{
    let expected = match parse_expected_hash(pin) {
        Ok(e) => e,
        Err(e) => return Err(e),
    };
    let d = digest(expected.algorithm, data);
    let actual = encode_digest(expected.separator, d.as_slice());
    compare_digest(pin, &expected, actual.as_str())
}

/// The name a pin gives an algorithm.
pub open spec fn algorithm_name(algorithm: HashAlgorithm) -> Seq<char> {
    match algorithm {
        HashAlgorithm::Sha512 => "sha512"@,
        HashAlgorithm::Sha256 => "sha256"@,
        HashAlgorithm::Sha224 => "sha224"@,
        HashAlgorithm::Sha1 => "sha1"@,
    }
}

/// The separator of an SRI pin (`-`) or of a hex pin (`.`).
pub open spec fn pin_separator(sri: bool) -> char {
    if sri {
        '-'
    } else {
        '.'
    }
}

/// The pin that writes the data's own digest: the algorithm's name, the
/// separator, and the digest in hex (after `.`) or base64 (after `-`).
pub open spec fn own_pin(algorithm: HashAlgorithm, separator: char, data: Seq<u8>) -> Seq<char> {
    algorithm_name(algorithm) + seq![separator] + encoded_spec(separator, digest_spec(algorithm, data))
}

proof fn lemma_find_first_char(s: Seq<char>, c: char, k: int, from: int)
    requires
        0 <= from <= k < s.len(),
        s[k] == c,
        forall|j: int| 0 <= j < k ==> s[j] != c,
    ensures
        find_from(s, seq![c], from) == Some(k),
    decreases k - from,
{
    if s.subrange(from, from + 1) == seq![c] {
        assert(s.subrange(from, from + 1)[0] == s[from]);
    } else {
        assert(s.subrange(k, k + 1) =~= seq![c]);
        lemma_find_first_char(s, c, k, from + 1);
    }
}

proof fn lemma_find_no_char(s: Seq<char>, c: char, from: int)
    requires
        0 <= from,
        forall|j: int| 0 <= j < s.len() ==> s[j] != c,
    ensures
        find_from(s, seq![c], from) is None,
    decreases s.len() + 1 - from,
{
    if from + 1 > s.len() {
    } else {
        assert(s.subrange(from, from + 1)[0] == s[from]);
        lemma_find_no_char(s, c, from + 1);
    }
}

proof fn lemma_base64_char_is_no_dot(n: int)
    requires
        0 <= n < 64,
    ensures
        base64_char(n) != '.',
{
    assert(('.' as int) == 46);
}

proof fn lemma_base64_has_no_dot(data: Seq<u8>)
    ensures
        !base64_standard(data).contains('.'),
    decreases data.len(),
{
    let b = base64_standard(data);
    if data.len() >= 3 {
        lemma_base64_has_no_dot(data.skip(3));
    }
    if b.contains('.') {
        let j = choose|j: int| 0 <= j < b.len() && b[j] == '.';
        if data.len() > 0 {
            lemma_base64_char_is_no_dot(data[0] as int / 4);
            lemma_base64_char_is_no_dot((data[0] as int % 4) * 16);
        }
        if data.len() == 2 {
            lemma_base64_char_is_no_dot((data[0] as int % 4) * 16 + data[1] as int / 16);
            lemma_base64_char_is_no_dot((data[1] as int % 16) * 4);
        }
        if data.len() >= 3 {
            lemma_base64_char_is_no_dot((data[0] as int % 4) * 16 + data[1] as int / 16);
            lemma_base64_char_is_no_dot((data[1] as int % 16) * 4 + data[2] as int / 64);
            lemma_base64_char_is_no_dot(data[2] as int % 64);
            if j >= 4 {
                assert(b[j] == base64_standard(data.skip(3))[j - 4]);
            }
        }
    }
}

proof fn lemma_hex_has_no_dot(data: Seq<u8>)
    ensures
        forall|j: int| 0 <= j < hex_text(data).len() ==> hex_text(data)[j] != '.',
    decreases data.len(),
{
    if data.len() > 0 {
        lemma_hex_has_no_dot(data.drop_first());
        let h = hex_text(data);
        let t = hex_text(data.drop_first());
        assert forall|j: int| 0 <= j < h.len() implies h[j] != '.' by {
            if j >= 2 {
                assert(h[j] == t[j - 2]);
            }
        }
    }
}

proof fn lemma_names_are_told_apart(algorithm: HashAlgorithm)
    ensures
        algorithm_named(algorithm_name(algorithm)) == Some(algorithm),
        forall|j: int|
            0 <= j < algorithm_name(algorithm).len() ==> algorithm_name(algorithm)[j] != '.'
                && algorithm_name(algorithm)[j] != '-',
{
    reveal_strlit("sha512");
    reveal_strlit("sha256");
    reveal_strlit("sha224");
    reveal_strlit("sha1");
    assert("sha512"@[3] != "sha256"@[3]);
    assert("sha512"@[3] != "sha224"@[3]);
    assert("sha256"@[4] != "sha224"@[4]);
}

/// A pin made from the data's own digest verifies the data, in hex form and
/// in SRI form alike.
pub proof fn law_own_digest_pin_verifies(algorithm: HashAlgorithm, sri: bool, data: Seq<u8>)
    ensures
        forall|res: Result<(), HashError>|
            #[trigger] verify_spec(data, own_pin(algorithm, pin_separator(sri), data), res) <==> res is Ok,
{
    let sep = pin_separator(sri);
    let name = algorithm_name(algorithm);
    let enc = encoded_spec(sep, digest_spec(algorithm, data));
    let pin = own_pin(algorithm, sep, data);
    lemma_names_are_told_apart(algorithm);
    reveal_strlit(".");
    reveal_strlit("-");
    assert(pin.take(name.len() as int) =~= name);
    assert(pin.skip(name.len() + 1int) =~= enc);
    assert(pin[name.len() as int] == sep);
    if sri {
        lemma_base64_has_no_dot(digest_spec(algorithm, data));
        assert forall|j: int| 0 <= j < pin.len() implies pin[j] != '.' by {
            if j > name.len() {
                assert(pin[j] == enc[j - name.len() - 1]);
                assert(enc.contains(enc[j - name.len() - 1]));
            }
        }
        lemma_find_no_char(pin, '.', 0);
        assert("."@ =~= seq!['.']);
        assert("-"@ =~= seq!['-']);
        lemma_find_first_char(pin, '-', name.len() as int, 0);
        assert(pin_parts(pin) == Some((name, sep, enc)));
    } else {
        lemma_hex_has_no_dot(digest_spec(algorithm, data));
        assert("."@ =~= seq!['.']);
        lemma_find_first_char(pin, '.', name.len() as int, 0);
        assert(pin_parts(pin) == Some((name, sep, enc)));
    }
}

} // verus!

