//! String similarity helpers shared by the command-line front ends.
use vstd::prelude::*;

use vstd::string::StringSliceAdditionalSpecFns;

use crate::text::str_chars;

verus! {

pub open spec fn min2(a: nat, b: nat) -> nat {
    if a <= b {
        a
    } else {
        b
    }
}

/// The Levenshtein (edit) distance between two character sequences: the
/// least number of single-character insertions, deletions and substitutions
/// that turn `a` into `b`.
pub open spec fn lev(a: Seq<char>, b: Seq<char>) -> nat
    decreases a.len() + b.len(),
{
    if a.len() == 0 {
        b.len()
    } else if b.len() == 0 {
        a.len()
    } else {
        min2(
            min2(lev(a.drop_last(), b) + 1, lev(a, b.drop_last()) + 1),
            lev(a.drop_last(), b.drop_last()) + (if a.last() == b.last() {
                0nat
            } else {
                1nat
            }),
        )
    }
}

pub proof fn lemma_lev_bound(a: Seq<char>, b: Seq<char>)
    ensures
        lev(a, b) <= (if a.len() >= b.len() {
            a.len()
        } else {
            b.len()
        }),
    decreases a.len() + b.len(),
{
    if a.len() > 0 && b.len() > 0 {
        lemma_lev_bound(a.drop_last(), b.drop_last());
    }
}

/// The edit distance is symmetric.
pub proof fn law_lev_symmetric(a: Seq<char>, b: Seq<char>)
    ensures
        lev(a, b) == lev(b, a),
    decreases a.len() + b.len(),
{
    if a.len() > 0 && b.len() > 0 {
        law_lev_symmetric(a.drop_last(), b);
        law_lev_symmetric(a, b.drop_last());
        law_lev_symmetric(a.drop_last(), b.drop_last());
    }
}

/// The edit distance is zero exactly between equal texts.
pub proof fn law_lev_zero_iff_equal(a: Seq<char>, b: Seq<char>)
    ensures
        lev(a, b) == 0 <==> a == b,
    decreases a.len() + b.len(),
{
    if a.len() > 0 && b.len() > 0 {
        law_lev_zero_iff_equal(a.drop_last(), b.drop_last());
        if a == b {
            assert(a.drop_last() == b.drop_last());
        }
        if lev(a, b) == 0 {
            assert(a =~= a.drop_last().push(a.last()));
            assert(b =~= b.drop_last().push(b.last()));
        }
    } else if a.len() == 0 && b.len() == 0 {
        assert(a =~= b);
    }
}

/// The edit distance is at least the difference of the lengths, and at most
/// the longer length; to the empty text it is the length.
pub proof fn law_lev_length_bounds(a: Seq<char>, b: Seq<char>)
    ensures
        lev(a, b) >= a.len() - b.len(),
        lev(a, b) >= b.len() - a.len(),
        lev(a, b) <= (if a.len() >= b.len() {
            a.len()
        } else {
            b.len()
        }),
        lev(a, seq![]) == a.len(),
    decreases a.len() + b.len(),
{
    lemma_lev_bound(a, b);
    if a.len() > 0 && b.len() > 0 {
        law_lev_length_bounds(a.drop_last(), b);
        law_lev_length_bounds(a, b.drop_last());
        law_lev_length_bounds(a.drop_last(), b.drop_last());
    }
}

/// The triangle inequality: going through `b` never shortens the way from
/// `a` to `c`.
pub proof fn law_lev_triangle(a: Seq<char>, b: Seq<char>, c: Seq<char>)
    ensures
        lev(a, c) <= lev(a, b) + lev(b, c),
    decreases a.len() + b.len() + c.len(),
{
    law_lev_length_bounds(a, b);
    law_lev_length_bounds(b, c);
    law_lev_length_bounds(a, c);
    if a.len() == 0 || b.len() == 0 || c.len() == 0 {
    } else {
        let a1 = a.drop_last();
        let b1 = b.drop_last();
        let c1 = c.drop_last();
        let sab: nat = if a.last() == b.last() { 0 } else { 1 };
        let sbc: nat = if b.last() == c.last() { 0 } else { 1 };
        let sac: nat = if a.last() == c.last() { 0 } else { 1 };
        let d1 = lev(a, b);
        let d2 = lev(b, c);
        assert(lev(a, c) <= lev(a1, c) + 1);
        assert(lev(a, c) <= lev(a, c1) + 1);
        assert(lev(a, c) <= lev(a1, c1) + sac);
        if d1 == lev(a1, b) + 1 {
            law_lev_triangle(a1, b, c);
        } else if d2 == lev(b, c1) + 1 {
            law_lev_triangle(a, b, c1);
        } else if d1 == lev(a, b1) + 1 {
            if d2 == lev(b1, c) + 1 {
                law_lev_triangle(a, b1, c);
            } else {
                assert(d2 == lev(b1, c1) + sbc);
                law_lev_triangle(a, b1, c1);
            }
        } else {
            assert(d1 == lev(a1, b1) + sab);
            if d2 == lev(b1, c) + 1 {
                law_lev_triangle(a1, b1, c);
            } else {
                assert(d2 == lev(b1, c1) + sbc);
                law_lev_triangle(a1, b1, c1);
                assert(sac <= sab + sbc);
            }
        }
    }
}

/// One step of an edit script, read from the end of the text: keep the
/// last character, replace it, delete it, or insert a character after it.
pub enum EditOp {
    Keep,
    Substitute(char),
    Delete,
    Insert(char),
}

/// The text an edit script makes of `a`, if the script fits `a` (it keeps,
/// replaces or deletes each character of `a` exactly once).
pub open spec fn apply_edits(script: Seq<EditOp>, a: Seq<char>) -> Option<Seq<char>>
    decreases script.len(),
{
    if script.len() == 0 {
        if a.len() == 0 {
            Some(seq![])
        } else {
            None
        }
    } else {
        let init = script.drop_last();
        match script.last() {
            EditOp::Keep => if a.len() > 0 {
                match apply_edits(init, a.drop_last()) {
                    Some(r) => Some(r.push(a.last())),
                    None => None,
                }
            } else {
                None
            },
            EditOp::Substitute(c) => if a.len() > 0 {
                match apply_edits(init, a.drop_last()) {
                    Some(r) => Some(r.push(c)),
                    None => None,
                }
            } else {
                None
            },
            EditOp::Delete => if a.len() > 0 {
                apply_edits(init, a.drop_last())
            } else {
                None
            },
            EditOp::Insert(c) => match apply_edits(init, a) {
                Some(r) => Some(r.push(c)),
                None => None,
            },
        }
    }
}

/// The number of insertions, deletions and substitutions in a script.
pub open spec fn edit_cost(script: Seq<EditOp>) -> nat
    decreases script.len(),
{
    if script.len() == 0 {
        0
    } else {
        edit_cost(script.drop_last()) + (if script.last() is Keep {
            0nat
        } else {
            1nat
        })
    }
}

/// Which last step a cheapest script from `a` to `b` takes (both
/// non-empty): 0 keeps or replaces the last character, 1 deletes it, 2
/// inserts the last character of `b`.
pub open spec fn cheapest_step(a: Seq<char>, b: Seq<char>) -> int {
    let del = lev(a.drop_last(), b) + 1;
    let ins = lev(a, b.drop_last()) + 1;
    let sub = lev(a.drop_last(), b.drop_last()) + (if a.last() == b.last() {
        0nat
    } else {
        1nat
    });
    if sub <= del && sub <= ins {
        0
    } else if del <= ins {
        1
    } else {
        2
    }
}

/// The step that keeps or replaces the last character of `a` by that of
/// `b`.
pub open spec fn match_step(a: Seq<char>, b: Seq<char>) -> EditOp {
    if a.last() == b.last() {
        EditOp::Keep
    } else {
        EditOp::Substitute(b.last())
    }
}

/// The step that inserts the last character of `b`.
pub open spec fn insert_step(b: Seq<char>) -> EditOp {
    EditOp::Insert(b.last())
}

/// A script of `lev(a, b)` edits that turns `a` into `b`.
pub open spec fn best_script(a: Seq<char>, b: Seq<char>) -> Seq<EditOp>
    decreases a.len() + b.len(),
{
    if a.len() == 0 && b.len() == 0 {
        seq![]
    } else if a.len() == 0 {
        best_script(a, b.drop_last()).push(insert_step(b))
    } else if b.len() == 0 {
        best_script(a.drop_last(), b).push(EditOp::Delete)
    } else if cheapest_step(a, b) == 0 {
        best_script(a.drop_last(), b.drop_last()).push(match_step(a, b))
    } else if cheapest_step(a, b) == 1 {
        best_script(a.drop_last(), b).push(EditOp::Delete)
    } else {
        best_script(a, b.drop_last()).push(insert_step(b))
    }
}

proof fn lemma_best_script(a: Seq<char>, b: Seq<char>)
    ensures
        apply_edits(best_script(a, b), a) == Some(b),
        edit_cost(best_script(a, b)) == lev(a, b),
    decreases a.len() + b.len(),
{
    let s = best_script(a, b);
    if a.len() == 0 && b.len() == 0 {
        assert(b =~= seq![]);
    } else if a.len() == 0 {
        lemma_best_script(a, b.drop_last());
        assert(s.drop_last() =~= best_script(a, b.drop_last()));
        assert(b.drop_last().push(b.last()) =~= b);
    } else if b.len() == 0 {
        lemma_best_script(a.drop_last(), b);
        assert(s.drop_last() =~= best_script(a.drop_last(), b));
    } else {
        assert(b.drop_last().push(b.last()) =~= b);
        if cheapest_step(a, b) == 0 {
            lemma_best_script(a.drop_last(), b.drop_last());
            assert(s.drop_last() =~= best_script(a.drop_last(), b.drop_last()));
        } else if cheapest_step(a, b) == 1 {
            lemma_best_script(a.drop_last(), b);
            assert(s.drop_last() =~= best_script(a.drop_last(), b));
        } else {
            lemma_best_script(a, b.drop_last());
            assert(s.drop_last() =~= best_script(a, b.drop_last()));
        }
    }
}

proof fn lemma_script_at_least_lev(script: Seq<EditOp>, a: Seq<char>, b: Seq<char>)
    requires
        apply_edits(script, a) == Some(b),
    ensures
        lev(a, b) <= edit_cost(script),
    decreases script.len(),
{
    if script.len() > 0 {
        let init = script.drop_last();
        match script.last() {
            EditOp::Keep => {
                let r = apply_edits(init, a.drop_last())->0;
                lemma_script_at_least_lev(init, a.drop_last(), r);
                assert(b == r.push(a.last()));
                assert(b.drop_last() =~= r);
            },
            EditOp::Substitute(c) => {
                let r = apply_edits(init, a.drop_last())->0;
                lemma_script_at_least_lev(init, a.drop_last(), r);
                assert(b == r.push(c));
                assert(b.drop_last() =~= r);
            },
            EditOp::Delete => {
                lemma_script_at_least_lev(init, a.drop_last(), b);
            },
            EditOp::Insert(c) => {
                let r = apply_edits(init, a)->0;
                lemma_script_at_least_lev(init, a, r);
                assert(b == r.push(c));
                assert(b.drop_last() =~= r);
            },
        }
    }
}

/// The edit distance is the least number of insertions, deletions and
/// substitutions of single characters that turn `a` into `b`: some script
/// of that many edits does it, and none does it with fewer.
pub proof fn law_lev_is_least_edit_count(a: Seq<char>, b: Seq<char>)
    ensures
        apply_edits(best_script(a, b), a) == Some(b) && edit_cost(best_script(a, b)) == lev(a, b),
        forall|script: Seq<EditOp>| #[trigger] apply_edits(script, a) == Some(b) ==> lev(a, b) <= edit_cost(
            script,
        ),
{
    lemma_best_script(a, b);
    assert forall|script: Seq<EditOp>| #[trigger] apply_edits(script, a) == Some(b) implies lev(a, b)
        <= edit_cost(script) by {
        lemma_script_at_least_lev(script, a, b);
    }
}

/// Compute Levenshtein distance between two strings.
pub fn levenshtein_distance(left: &str, right: &str) -> (res: usize)
    requires
        left@.len() < usize::MAX,
        right@.len() < usize::MAX,
    ensures
        res == lev(left@, right@),
{
    let a = str_chars(left);
    let b = str_chars(right);
    let n = b.len();
    let mut prev: Vec<usize> = Vec::new();
    let mut j: usize = 0;
    while j <= n
        invariant
            j <= n + 1,
            n == b@.len(),
            n < usize::MAX,
            prev@.len() == j,
            forall|k: int| 0 <= k < j ==> prev@[k] == k,
        decreases n + 1 - j,
    {
        prev.push(j);
        j += 1;
    }
    proof {
        assert forall|k: int| 0 <= k <= n implies prev@[k] == lev(
            a@.take(0),
            #[trigger] b@.take(k),
        ) by {
            assert(a@.take(0).len() == 0);
        }
    }
    let mut i: usize = 0;
    while i < a.len()
        invariant
            i <= a@.len(),
            a@ == left@,
            b@ == right@,
            n == b@.len(),
            a@.len() < usize::MAX,
            n < usize::MAX,
            prev@.len() == n + 1,
            forall|k: int| 0 <= k <= n ==> prev@[k] == lev(a@.take(i as int), #[trigger] b@.take(k)),
        decreases a@.len() - i,
    {
        let mut curr: Vec<usize> = Vec::new();
        curr.push(i + 1);
        proof {
            assert(b@.take(0).len() == 0);
            assert(a@.take(i + 1).len() == i + 1);
        }
        let mut k: usize = 0;
        while k < n
            invariant
                k <= n,
                i < a@.len(),
                a@ == left@,
                b@ == right@,
                n == b@.len(),
                a@.len() < usize::MAX,
                n < usize::MAX,
                prev@.len() == n + 1,
                forall|m: int|
                    0 <= m <= n ==> prev@[m] == lev(a@.take(i as int), #[trigger] b@.take(m)),
                curr@.len() == k + 1,
                forall|m: int|
                    0 <= m <= k ==> curr@[m] == lev(a@.take(i + 1), #[trigger] b@.take(m)),
            decreases n - k,
        {
            let ghost ai = a@.take(i + 1);
            let ghost bk = b@.take(k + 1);
            proof {
                assert(ai.drop_last() =~= a@.take(i as int));
                assert(bk.drop_last() =~= b@.take(k as int));
                assert(ai.last() == a@[i as int]);
                assert(bk.last() == b@[k as int]);
                lemma_lev_bound(a@.take(i as int), b@.take(k + 1));
                lemma_lev_bound(a@.take(i + 1), b@.take(k as int));
                lemma_lev_bound(a@.take(i as int), b@.take(k as int));
            }
            let cost: usize = if a[i] != b[k] {
                1
            } else {
                0
            };
            let deletion = prev[k + 1] + 1;
            let insertion = curr[k] + 1;
            let substitution = prev[k] + cost;
            let mut best = if deletion <= insertion {
                deletion
            } else {
                insertion
            };
            if substitution < best {
                best = substitution;
            }
            curr.push(best);
            proof {
                assert(best == lev(ai, bk));
            }
            k += 1;
        }
        prev = curr;
        i += 1;
    }
    proof {
        assert(a@.take(a@.len() as int) =~= a@);
        assert(b@.take(n as int) =~= b@);
    }
    prev[n]
}

/// Ordering key of a suggestion: its distance to the input, then its length
/// in bytes.
pub open spec fn key_le(d1: nat, l1: nat, d2: nat, l2: nat) -> bool {
    d1 < d2 || (d1 == d2 && l1 <= l2)
}

pub open spec fn suggestion_key(input: Seq<char>, c: String) -> (nat, nat) {
    (lev(input, c@), vstd::utf8::encode_utf8(c@).len())
}

/// Whether `k` is the first candidate with the least key.
pub open spec fn is_best_index(input: Seq<char>, candidates: Seq<String>, k: int) -> bool {
    &&& 0 <= k < candidates.len()
    &&& forall|j: int|
        0 <= j < candidates.len() ==> key_le(
            suggestion_key(input, candidates[k]).0,
            suggestion_key(input, candidates[k]).1,
            #[trigger] suggestion_key(input, candidates[j]).0,
            suggestion_key(input, candidates[j]).1,
        )
    &&& forall|j: int|
        0 <= j < k ==> !key_le(
            #[trigger] suggestion_key(input, candidates[j]).0,
            suggestion_key(input, candidates[j]).1,
            suggestion_key(input, candidates[k]).0,
            suggestion_key(input, candidates[k]).1,
        )
}

/// There is at most one best index, so the suggestion picked is determined
/// by the input and the candidates.
pub proof fn law_best_index_unique(input: Seq<char>, candidates: Seq<String>, k1: int, k2: int)
    requires
        is_best_index(input, candidates, k1),
        is_best_index(input, candidates, k2),
    ensures
        k1 == k2,
{
    let a = suggestion_key(input, candidates[k1]);
    let b = suggestion_key(input, candidates[k2]);
    assert(key_le(a.0, a.1, b.0, b.1));
    assert(key_le(b.0, b.1, a.0, a.1));
}

/// Pick the best suggestion by Levenshtein distance and then shortest length:
/// the first candidate whose (distance, byte length) is least.
pub fn pick_best_suggestion(input: &str, candidates: &[String]) -> (res: Option<String>)
    requires
        input@.len() < usize::MAX,
        forall|j: int| 0 <= j < candidates@.len() ==> (#[trigger] candidates@[j])@.len() < usize::MAX,
        forall|j: int|
            0 <= j < candidates@.len() ==> vstd::utf8::encode_utf8((#[trigger] candidates@[j])@).len()
                <= usize::MAX,
    ensures
        candidates@.len() == 0 ==> res is None,
        candidates@.len() > 0 ==> exists|k: int|
            is_best_index(input@, candidates@, k) && res == Some(candidates@[k]),
{
    if candidates.len() == 0 {
        return None;
    }
    let mut best: usize = 0;
    let mut best_dist = levenshtein_distance(input, candidates[0].as_str());
    let first = candidates[0].as_str();
    let mut best_len = first.len();
    proof {
        assert(first.spec_bytes() == vstd::utf8::encode_utf8(first@));
    }
    let mut j: usize = 1;
    while j < candidates.len()
        invariant
            1 <= j <= candidates@.len(),
            best < j,
            input@.len() < usize::MAX,
            forall|m: int| 0 <= m < candidates@.len() ==> (#[trigger] candidates@[m])@.len() < usize::MAX,
            forall|m: int|
                0 <= m < candidates@.len() ==> vstd::utf8::encode_utf8(
                    (#[trigger] candidates@[m])@,
                ).len() <= usize::MAX,
            best_dist == suggestion_key(input@, candidates@[best as int]).0,
            best_len == suggestion_key(input@, candidates@[best as int]).1,
            forall|m: int|
                0 <= m < j ==> key_le(
                    best_dist as nat,
                    best_len as nat,
                    #[trigger] suggestion_key(input@, candidates@[m]).0,
                    suggestion_key(input@, candidates@[m]).1,
                ),
            forall|m: int|
                0 <= m < best ==> !key_le(
                    #[trigger] suggestion_key(input@, candidates@[m]).0,
                    suggestion_key(input@, candidates@[m]).1,
                    best_dist as nat,
                    best_len as nat,
                ),
        decreases candidates@.len() - j,
    {
        let c = candidates[j].as_str();
        let d = levenshtein_distance(input, c);
        let l = c.len();
        proof {
            assert(c.spec_bytes() == vstd::utf8::encode_utf8(c@));
        }
        if d < best_dist || (d == best_dist && l < best_len) {
            best = j;
            best_dist = d;
            best_len = l;
        }
        j += 1;
    }
    let res = candidates[best].clone();
    proof {
        assert(is_best_index(input@, candidates@, best as int));
    }
    Some(res)
}

} // verus!
