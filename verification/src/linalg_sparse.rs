//! Sparse matrices in coordinate (COO), compressed-sparse-row (CSR) and
//! compressed-sparse-column (CSC) form, generic over a [`Scalar`], with the conjugate gradient
//! and BiCGSTAB iterative solvers.
//!
//! Converting from COO sums duplicate entries: each stored entry of a compressed matrix
//! carries the in-order sum of the values pushed at its position (see [`key_sum`] and
//! [`merged_ok`]).
use vstd::prelude::*;

use crate::linalg_dense::DVector;
use crate::linalg_fixed::dot_prefix;
use crate::scalar::Scalar;

verus! {

// ===========================================================================
// Ordering of keyed triplets
// ===========================================================================

/// `a <= b` in the lexicographic order of triples.
pub open spec fn le3(a: (usize, usize, usize), b: (usize, usize, usize)) -> bool {
    a.0 < b.0 || (a.0 == b.0 && (a.1 < b.1 || (a.1 == b.1 && a.2 <= b.2)))
}

/// `a < b` in the lexicographic order of the pairs `(a.0, a.1)` and `(b.0, b.1)`.
pub open spec fn key_lt<T>(a: (usize, usize, T), b: (usize, usize, T)) -> bool {
    a.0 < b.0 || (a.0 == b.0 && a.1 < b.1)
}

/// Sorts `v` in ascending order with the standard library's `sort` (tuples compare
/// lexicographically). The contract states what its documentation says: the result is in
/// order and holds the same elements.
#[verifier::external_body]
fn sort_triples(v: &mut Vec<(usize, usize, usize)>)
    ensures
        final(v)@.to_multiset() == old(v)@.to_multiset(),
        forall|i: int, j: int| 0 <= i < j < final(v)@.len() ==> le3(final(v)@[i], final(v)@[j]),
{
    v.sort();
}

// ===========================================================================
// Duplicate-summing merge
// ===========================================================================

/// The triplets `(major[k], minor[k], vals[k])`.
pub open spec fn triples<T>(major: Seq<usize>, minor: Seq<usize>, vals: Seq<T>) -> Seq<(usize, usize, T)> {
    Seq::new(vals.len(), |k: int| (major[k], minor[k], vals[k]))
}

/// The values of the first `m` triplets of `t` at key `(a, b)`, summed left to right
/// starting from the first of them; `None` when there is none.
pub open spec fn key_sum<T: Scalar>(t: Seq<(usize, usize, T)>, a: usize, b: usize, m: int) -> Option<T>
    decreases m,
{
    if m <= 0 {
        None
    } else {
        let prev = key_sum(t, a, b, m - 1);
        if t[m - 1].0 == a && t[m - 1].1 == b {
            Some(
                match prev {
                    Some(s) => s.plus_spec(t[m - 1].2),
                    None => t[m - 1].2,
                },
            )
        } else {
            prev
        }
    }
}

/// Some triplet among the first `end` of `m` has key `(a, b)`.
pub open spec fn has_key_before<T>(m: Seq<(usize, usize, T)>, end: int, a: usize, b: usize) -> bool {
    exists|i: int| 0 <= i < end && i < m.len() && m[i].0 == a && m[i].1 == b
}

/// `m` is the duplicate-summed form of the triplets `t`: its keys are strictly increasing
/// (lexicographically), each of its entries carries the in-order sum of the values of `t` at
/// its key, and every key of `t` occurs in it. (These three properties determine `m`.)
pub open spec fn merged_ok<T: Scalar>(t: Seq<(usize, usize, T)>, m: Seq<(usize, usize, T)>) -> bool {
    &&& forall|i: int, j: int| 0 <= i < j < m.len() ==> key_lt(#[trigger] m[i], #[trigger] m[j])
    &&& forall|i: int| 0 <= i < m.len() ==> key_sum(t, (#[trigger] m[i]).0, m[i].1, t.len() as int) == Some(m[i].2)
    &&& forall|k: int| 0 <= k < t.len() ==> has_key_before(m, m.len() as int, (#[trigger] t[k]).0, t[k].1)
}

/// Triplets `m` with no key outside those of `t`.
pub open spec fn keys_from<T>(t: Seq<(usize, usize, T)>, m: Seq<(usize, usize, T)>) -> bool {
    forall|i: int| 0 <= i < m.len() ==> has_key_before(t, t.len() as int, (#[trigger] m[i]).0, m[i].1)
}

/// The in-order sum at a key exists exactly when some of the first `m` triplets has that key.
pub proof fn lemma_key_sum_some<T: Scalar>(t: Seq<(usize, usize, T)>, a: usize, b: usize, m: int)
    requires
        0 <= m <= t.len(),
    ensures
        key_sum(t, a, b, m) is Some <==> has_key_before(t, m, a, b),
    decreases m,
{
    if m > 0 {
        lemma_key_sum_some(t, a, b, m - 1);
        if has_key_before(t, m, a, b) && !(t[m - 1].0 == a && t[m - 1].1 == b) {
            let i = choose|i: int| 0 <= i < m && i < t.len() && t[i].0 == a && t[i].1 == b;
            assert(has_key_before(t, m - 1, a, b));
        }
    }
}

/// Two duplicate-summed forms of the same triplets agree on their first `i` entries.
proof fn lemma_merged_prefix<T: Scalar>(t: Seq<(usize, usize, T)>, m1: Seq<(usize, usize, T)>, m2: Seq<(usize, usize, T)>, i: int)
    requires
        merged_ok(t, m1),
        merged_ok(t, m2),
        0 <= i <= m1.len(),
        i <= m2.len(),
    ensures
        forall|j: int| 0 <= j < i ==> #[trigger] m1[j] == m2[j],
    decreases i,
{
    if i > 0 {
        lemma_merged_prefix(t, m1, m2, i - 1);
        let p = i - 1;
        // The key of m1[p] occurs in m2 at some position q >= p, and symmetrically.
        lemma_key_in_other(t, m1, m2, p);
        lemma_key_in_other(t, m2, m1, p);
        let q1 = choose|q: int| p <= q < m2.len() && m2[q].0 == m1[p].0 && m2[q].1 == m1[p].1;
        let q2 = choose|q: int| p <= q < m1.len() && m1[q].0 == m2[p].0 && m1[q].1 == m2[p].1;
        if q1 > p {
            assert(key_lt(m2[p], m2[q1]));
        }
        if q2 > p {
            assert(key_lt(m1[p], m1[q2]));
        }
        assert(m1[p].0 == m2[p].0 && m1[p].1 == m2[p].1);
        assert(key_sum(t, m1[p].0, m1[p].1, t.len() as int) == Some(m1[p].2));
        assert(key_sum(t, m2[p].0, m2[p].1, t.len() as int) == Some(m2[p].2));
    }
}

/// When two duplicate-summed forms agree before position `p`, the key at position `p` of the
/// first occurs in the second at position `p` or later.
proof fn lemma_key_in_other<T: Scalar>(t: Seq<(usize, usize, T)>, m1: Seq<(usize, usize, T)>, m2: Seq<(usize, usize, T)>, p: int)
    requires
        merged_ok(t, m1),
        merged_ok(t, m2),
        0 <= p < m1.len(),
        p <= m2.len(),
        forall|j: int| 0 <= j < p ==> #[trigger] m1[j] == m2[j],
    ensures
        exists|q: int| p <= q < m2.len() && m2[q].0 == m1[p].0 && m2[q].1 == m1[p].1,
{
    let (a, b) = (m1[p].0, m1[p].1);
    assert(key_sum(t, a, b, t.len() as int) == Some(m1[p].2));
    lemma_key_sum_some(t, a, b, t.len() as int);
    let k = choose|k: int| 0 <= k < t.len() && k < t.len() && t[k].0 == a && t[k].1 == b;
    assert(has_key_before(m2, m2.len() as int, t[k].0, t[k].1));
    let q = choose|q: int| 0 <= q < m2.len() && q < m2.len() && m2[q].0 == a && m2[q].1 == b;
    if q < p {
        assert(m1[q] == m2[q]);
        assert(key_lt(m1[q], m1[p]));
    }
}

/// The duplicate-summed form of triplets is unique: any two sequences that are both
/// [`merged_ok`] for the same triplets are equal.
pub proof fn lemma_merged_unique<T: Scalar>(t: Seq<(usize, usize, T)>, m1: Seq<(usize, usize, T)>, m2: Seq<(usize, usize, T)>)
    requires
        merged_ok(t, m1),
        merged_ok(t, m2),
    ensures
        m1 == m2,
{
    let n = if m1.len() <= m2.len() { m1.len() as int } else { m2.len() as int };
    lemma_merged_prefix(t, m1, m2, n);
    if m1.len() > m2.len() {
        lemma_key_in_other(t, m1, m2, n);
    } else if m2.len() > m1.len() {
        assert forall|j: int| 0 <= j < n implies #[trigger] m2[j] == m1[j] by {
            assert(m1[j] == m2[j]);
        }
        lemma_key_in_other(t, m2, m1, n);
    }
    assert(m1 =~= m2);
}

/// Triplets that are already in strictly increasing key order are their own duplicate-summed
/// form.
pub proof fn lemma_sorted_is_merged<T: Scalar>(t: Seq<(usize, usize, T)>)
    requires
        forall|i: int, j: int| 0 <= i < j < t.len() ==> key_lt(#[trigger] t[i], #[trigger] t[j]),
    ensures
        merged_ok(t, t),
{
    assert forall|i: int| 0 <= i < t.len() implies key_sum(t, (#[trigger] t[i]).0, t[i].1, t.len() as int) == Some(t[i].2) by {
        lemma_key_sum_skip(t, t[i].0, t[i].1, i + 1, t.len() as int);
        assert forall|m: int| 0 <= m < i implies !((#[trigger] t[m]).0 == t[i].0 && t[m].1 == t[i].1) by {
            assert(key_lt(t[m], t[i]));
        }
        lemma_key_sum_skip(t, t[i].0, t[i].1, 0, i);
        assert forall|m: int| i + 1 <= m < t.len() implies !((#[trigger] t[m]).0 == t[i].0 && t[m].1 == t[i].1) by {
            assert(key_lt(t[i], t[m]));
        }
    }
    assert forall|k: int| 0 <= k < t.len() implies has_key_before(t, t.len() as int, (#[trigger] t[k]).0, t[k].1) by {
        assert(t[k].0 == t[k].0);
    }
}

/// The keyed triples `(major[k], minor[k], k)`.
spec fn keyed(major: Seq<usize>, minor: Seq<usize>, n: nat) -> Seq<(usize, usize, usize)> {
    Seq::new(n, |k: int| (major[k], minor[k], k as usize))
}

/// A sorted rearrangement `s` of the keyed triples: each element is the keyed triple of its
/// own index, every index occurs, and the order is strict.
proof fn lemma_sorted_keyed(major: Seq<usize>, minor: Seq<usize>, n: nat, s: Seq<(usize, usize, usize)>)
    requires
        major.len() == n,
        minor.len() == n,
        n <= usize::MAX,
        s.to_multiset() == keyed(major, minor, n).to_multiset(),
        forall|i: int, j: int| 0 <= i < j < s.len() ==> le3(s[i], s[j]),
    ensures
        s.len() == n,
        forall|j: int| 0 <= j < n ==> (#[trigger] s[j]).2 < n && s[j].0 == major[s[j].2 as int] && s[j].1 == minor[s[j].2 as int],
        forall|k: int| 0 <= k < n ==> #[trigger] s.contains((major[k], minor[k], k as usize)),
        forall|i: int, j: int| 0 <= i < j < n ==> #[trigger] s[i] != #[trigger] s[j],
{
    broadcast use vstd::seq_lib::group_to_multiset_ensures;

    let kd = keyed(major, minor, n);
    assert(s.len() == kd.len()) by {
        vstd::seq_lib::to_multiset_len(s);
        vstd::seq_lib::to_multiset_len(kd);
    }
    assert forall|j: int| 0 <= j < n implies (#[trigger] s[j]).2 < n && s[j].0 == major[s[j].2 as int] && s[j].1
        == minor[s[j].2 as int] by {
        assert(s.contains(s[j]));
        vstd::seq_lib::to_multiset_contains(s, s[j]);
        vstd::seq_lib::to_multiset_contains(kd, s[j]);
        let i = choose|i: int| 0 <= i < kd.len() && kd[i] == s[j];
        assert(kd[i] == (major[i], minor[i], i as usize));
    }
    assert forall|k: int| 0 <= k < n implies #[trigger] s.contains((major[k], minor[k], k as usize)) by {
        assert(kd[k] == (major[k], minor[k], k as usize));
        assert(kd.contains(kd[k]));
        vstd::seq_lib::to_multiset_contains(s, kd[k]);
        vstd::seq_lib::to_multiset_contains(kd, kd[k]);
    }
    assert(kd.no_duplicates()) by {
        assert forall|i: int, j: int| 0 <= i < kd.len() && 0 <= j < kd.len() && i != j implies kd[i] != kd[j] by {
            assert(kd[i].2 == i as usize);
            assert(kd[j].2 == j as usize);
        }
    }
    kd.lemma_multiset_has_no_duplicates();
    s.lemma_multiset_has_no_duplicates_conv();
}

/// In a strictly sorted sequence of triples, the order of two elements decides the order of
/// their positions.
proof fn lemma_position_order(s: Seq<(usize, usize, usize)>, i: int, j: int)
    requires
        forall|a: int, b: int| 0 <= a < b < s.len() ==> le3(s[a], s[b]),
        forall|a: int, b: int| 0 <= a < b < s.len() ==> #[trigger] s[a] != #[trigger] s[b],
        0 <= i < s.len(),
        0 <= j < s.len(),
        le3(s[i], s[j]),
        s[i] != s[j],
    ensures
        i < j,
{
    if j < i {
        assert(le3(s[j], s[i]));
    }
}

/// Triplets of `t` at positions in `[m1, m2)` whose keys all differ from `(a, b)` leave the sum
/// at `(a, b)` unchanged.
proof fn lemma_key_sum_skip<T: Scalar>(t: Seq<(usize, usize, T)>, a: usize, b: usize, m1: int, m2: int)
    requires
        0 <= m1 <= m2,
        forall|m: int| m1 <= m < m2 ==> !((#[trigger] t[m]).0 == a && t[m].1 == b),
    ensures
        key_sum(t, a, b, m2) == key_sum(t, a, b, m1),
    decreases m2 - m1,
{
    if m2 > m1 {
        lemma_key_sum_skip(t, a, b, m1, m2 - 1);
    }
}

/// The facts about the sorted keyed triples that the merge relies on.
spec fn sorted_keyed_facts(major: Seq<usize>, minor: Seq<usize>, n: nat, s: Seq<(usize, usize, usize)>) -> bool {
    &&& s.len() == n
    &&& forall|i: int, j: int| 0 <= i < j < s.len() ==> le3(s[i], s[j])
    &&& forall|j: int| 0 <= j < n ==> (#[trigger] s[j]).2 < n && s[j].0 == major[s[j].2 as int] && s[j].1 == minor[s[j].2 as int]
    &&& forall|k: int| 0 <= k < n ==> #[trigger] s.contains((major[k], minor[k], k as usize))
    &&& forall|i: int, j: int| 0 <= i < j < n ==> #[trigger] s[i] != #[trigger] s[j]
    &&& n <= usize::MAX
}

/// No triplet before the first element of a run of equal keys has that key.
proof fn lemma_run_start<T: Scalar>(t: Seq<(usize, usize, T)>, major: Seq<usize>, minor: Seq<usize>, s: Seq<(usize, usize, usize)>, j: int)
    requires
        t.len() == major.len(),
        t.len() == minor.len(),
        forall|k: int| 0 <= k < t.len() ==> (#[trigger] t[k]).0 == major[k] && t[k].1 == minor[k],
        sorted_keyed_facts(major, minor, t.len(), s),
        0 <= j < s.len(),
        j == 0 || !(s[j - 1].0 == s[j].0 && s[j - 1].1 == s[j].1),
    ensures
        key_sum(t, s[j].0, s[j].1, s[j].2 as int) is None,
{
    let (a, b) = (s[j].0, s[j].1);
    assert forall|m: int| 0 <= m < s[j].2 implies !((#[trigger] t[m]).0 == a && t[m].1 == b) by {
        if t[m].0 == a && t[m].1 == b {
            assert(s.contains((major[m], minor[m], m as usize)));
            let jj = choose|jj: int| 0 <= jj < s.len() && s[jj] == (major[m], minor[m], m as usize);
            lemma_position_order(s, jj, j);
            assert(le3(s[jj], s[j - 1]));
            assert(le3(s[j - 1], s[j]));
        }
    }
    lemma_key_sum_skip(t, a, b, 0, s[j].2 as int);
}

/// No triplet strictly between two consecutive elements of a run of equal keys has that key.
proof fn lemma_run_step<T: Scalar>(t: Seq<(usize, usize, T)>, major: Seq<usize>, minor: Seq<usize>, s: Seq<(usize, usize, usize)>, q: int)
    requires
        t.len() == major.len(),
        t.len() == minor.len(),
        forall|k: int| 0 <= k < t.len() ==> (#[trigger] t[k]).0 == major[k] && t[k].1 == minor[k],
        sorted_keyed_facts(major, minor, t.len(), s),
        0 < q < s.len(),
        s[q - 1].0 == s[q].0 && s[q - 1].1 == s[q].1,
    ensures
        s[q - 1].2 < s[q].2,
        key_sum(t, s[q].0, s[q].1, s[q].2 as int) == key_sum(t, s[q].0, s[q].1, s[q - 1].2 + 1),
{
    let (a, b) = (s[q].0, s[q].1);
    assert(le3(s[q - 1], s[q]));
    assert forall|m: int| s[q - 1].2 + 1 <= m < s[q].2 implies !((#[trigger] t[m]).0 == a && t[m].1 == b) by {
        if t[m].0 == a && t[m].1 == b {
            assert(s.contains((major[m], minor[m], m as usize)));
            let jj = choose|jj: int| 0 <= jj < s.len() && s[jj] == (major[m], minor[m], m as usize);
            lemma_position_order(s, jj, q);
            lemma_position_order(s, q - 1, jj);
        }
    }
    lemma_key_sum_skip(t, a, b, s[q - 1].2 + 1, s[q].2 as int);
}

/// No triplet after the last element of a run of equal keys has that key.
proof fn lemma_run_end<T: Scalar>(t: Seq<(usize, usize, T)>, major: Seq<usize>, minor: Seq<usize>, s: Seq<(usize, usize, usize)>, e: int)
    requires
        t.len() == major.len(),
        t.len() == minor.len(),
        forall|k: int| 0 <= k < t.len() ==> (#[trigger] t[k]).0 == major[k] && t[k].1 == minor[k],
        sorted_keyed_facts(major, minor, t.len(), s),
        0 < e <= s.len(),
        e == s.len() || !(s[e - 1].0 == s[e].0 && s[e - 1].1 == s[e].1),
    ensures
        key_sum(t, s[e - 1].0, s[e - 1].1, t.len() as int) == key_sum(t, s[e - 1].0, s[e - 1].1, s[e - 1].2 + 1),
{
    let (a, b) = (s[e - 1].0, s[e - 1].1);
    assert forall|m: int| s[e - 1].2 + 1 <= m < t.len() implies !((#[trigger] t[m]).0 == a && t[m].1 == b) by {
        if t[m].0 == a && t[m].1 == b {
            assert(s.contains((major[m], minor[m], m as usize)));
            let jj = choose|jj: int| 0 <= jj < s.len() && s[jj] == (major[m], minor[m], m as usize);
            assert(s[jj].2 != s[e - 1].2);
            lemma_position_order(s, e - 1, jj);
            assert(le3(s[e - 1], s[e]));
            assert(le3(s[e], s[jj]));
        }
    }
    lemma_key_sum_skip(t, a, b, s[e - 1].2 + 1, t.len() as int);
}

/// Appending the merged entry of the run `s[j..jj)` keeps the merge invariant.
proof fn lemma_merge_push<T: Scalar>(
    t: Seq<(usize, usize, T)>,
    s: Seq<(usize, usize, usize)>,
    before: Seq<(usize, usize, T)>,
    after: Seq<(usize, usize, T)>,
    j: int,
    jj: int,
    a: usize,
    b: usize,
    summed: T,
)
    requires
        after == before.push((a, b, summed)),
        0 <= j < jj <= s.len(),
        forall|i: int, k: int| 0 <= i < k < s.len() ==> le3(s[i], s[k]),
        s[j].0 == a && s[j].1 == b,
        forall|q: int| j <= q < jj ==> (#[trigger] s[q]).0 == a && s[q].1 == b,
        j > 0 ==> before.len() > 0 && before.last().0 == s[j - 1].0 && before.last().1 == s[j - 1].1,
        j > 0 ==> !(s[j - 1].0 == a && s[j - 1].1 == b),
        j == 0 ==> before.len() == 0,
        forall|i1: int, i2: int| 0 <= i1 < i2 < before.len() ==> key_lt(#[trigger] before[i1], #[trigger] before[i2]),
        forall|q: int| 0 <= q < j ==> has_key_before(before, before.len() as int, (#[trigger] s[q]).0, s[q].1),
        forall|i: int| 0 <= i < before.len() ==> has_key_before(s, j, (#[trigger] before[i]).0, before[i].1),
    ensures
        forall|i1: int, i2: int| 0 <= i1 < i2 < after.len() ==> key_lt(#[trigger] after[i1], #[trigger] after[i2]),
        forall|q: int| 0 <= q < jj ==> has_key_before(after, after.len() as int, (#[trigger] s[q]).0, s[q].1),
        forall|i: int| 0 <= i < after.len() ==> has_key_before(s, jj, (#[trigger] after[i]).0, after[i].1),
{
    if j > 0 {
        assert(le3(s[j - 1], s[j]));
    }
    assert forall|q: int| 0 <= q < jj implies has_key_before(after, after.len() as int, (#[trigger] s[q]).0, s[q].1) by {
        if q < j {
            assert(has_key_before(before, before.len() as int, s[q].0, s[q].1));
            let i = choose|i: int| 0 <= i < before.len() && i < before.len() && before[i].0 == s[q].0 && before[i].1 == s[q].1;
            assert(after[i] == before[i]);
        } else {
            assert(after[before.len() as int] == (a, b, summed));
        }
    }
    assert forall|i: int| 0 <= i < after.len() implies has_key_before(s, jj, (#[trigger] after[i]).0, after[i].1) by {
        if i < before.len() {
            assert(after[i] == before[i]);
            assert(has_key_before(s, j, before[i].0, before[i].1));
        } else {
            assert(after[i].0 == s[j].0);
        }
    }
    assert forall|i1: int, i2: int| 0 <= i1 < i2 < after.len() implies key_lt(#[trigger] after[i1], #[trigger] after[i2]) by {
        if i2 == before.len() {
            if i1 < before.len() - 1 {
                assert(key_lt(before[i1], before[before.len() - 1]));
            }
        } else {
            assert(after[i1] == before[i1]);
            assert(after[i2] == before[i2]);
        }
    }
}

/// The triplets `(major[k], minor[k], vals[k])` with duplicate keys summed in input order,
/// listed in increasing key order (see [`merged_ok`]).
fn merge_triplets<T: Scalar>(major: &[usize], minor: &[usize], vals: &[T]) -> (r: Vec<(usize, usize, T)>)
    requires
        major@.len() == vals@.len(),
        minor@.len() == vals@.len(),
    ensures
        merged_ok(triples(major@, minor@, vals@), r@),
        keys_from(triples(major@, minor@, vals@), r@),
{
    let n = vals.len();
    let ghost t = triples(major@, minor@, vals@);
    let mut keyed_v: Vec<(usize, usize, usize)> = Vec::new();
    for k in 0..n
        invariant
            n == vals@.len(),
            major@.len() == n,
            minor@.len() == n,
            keyed_v@ == keyed(major@, minor@, k as nat),
    {
        keyed_v.push((major[k], minor[k], k));
        assert(keyed_v@ =~= keyed(major@, minor@, (k + 1) as nat));
    }
    sort_triples(&mut keyed_v);
    let ghost s = keyed_v@;
    proof {
        lemma_sorted_keyed(major@, minor@, n as nat, s);
    }
    let mut merged: Vec<(usize, usize, T)> = Vec::new();
    let mut j: usize = 0;
    while j < n
        invariant
            n == vals@.len(),
            major@.len() == n,
            minor@.len() == n,
            t == triples(major@, minor@, vals@),
            s == keyed_v@,
            sorted_keyed_facts(major@, minor@, n as nat, s),
            j <= n,
            0 < j < n ==> !(s[j - 1].0 == s[j as int].0 && s[j - 1].1 == s[j as int].1),
            j > 0 ==> merged@.len() > 0 && merged@.last().0 == s[j - 1].0 && merged@.last().1 == s[j - 1].1,
            j == 0 ==> merged@.len() == 0,
            forall|i1: int, i2: int| 0 <= i1 < i2 < merged@.len() ==> key_lt(#[trigger] merged@[i1], #[trigger] merged@[i2]),
            forall|i: int| 0 <= i < merged@.len() ==> key_sum(t, (#[trigger] merged@[i]).0, merged@[i].1, n as int) == Some(merged@[i].2),
            forall|q: int| 0 <= q < j ==> has_key_before(merged@, merged@.len() as int, (#[trigger] s[q]).0, s[q].1),
            forall|i: int| 0 <= i < merged@.len() ==> has_key_before(s, j as int, (#[trigger] merged@[i]).0, merged@[i].1),
        decreases n - j,
    {
        let (a, b, idx) = keyed_v[j];
        proof {
            assert(forall|k: int| 0 <= k < t.len() ==> (#[trigger] t[k]).0 == major@[k] && t[k].1 == minor@[k]);
            lemma_run_start(t, major@, minor@, s, j as int);
        }
        let mut summed = vals[idx];
        let mut jj = j + 1;
        while jj < n && keyed_v[jj].0 == a && keyed_v[jj].1 == b
            invariant
                n == vals@.len(),
                major@.len() == n,
                minor@.len() == n,
                t == triples(major@, minor@, vals@),
                s == keyed_v@,
                sorted_keyed_facts(major@, minor@, n as nat, s),
                j < jj <= n,
                s[j as int] == (a, b, idx),
                forall|q: int| j <= q < jj ==> (#[trigger] s[q]).0 == a && s[q].1 == b,
                key_sum(t, a, b, s[jj - 1].2 + 1) == Some(summed),
            decreases n - jj,
        {
            let ix = keyed_v[jj].2;
            proof {
                assert(forall|k: int| 0 <= k < t.len() ==> (#[trigger] t[k]).0 == major@[k] && t[k].1 == minor@[k]);
                lemma_run_step(t, major@, minor@, s, jj as int);
            }
            summed = summed.plus(vals[ix]);
            jj = jj + 1;
        }
        proof {
            assert(forall|k: int| 0 <= k < t.len() ==> (#[trigger] t[k]).0 == major@[k] && t[k].1 == minor@[k]);
            lemma_run_end(t, major@, minor@, s, jj as int);
            if j > 0 {
                assert(le3(s[j - 1], s[j as int]));
            }
        }
        let ghost before = merged@;
        merged.push((a, b, summed));
        proof {
            lemma_merge_push(t, s, before, merged@, j as int, jj as int, a, b, summed);
        }
        j = jj;
    }
    proof {
        assert forall|k: int| 0 <= k < t.len() implies has_key_before(merged@, merged@.len() as int, (#[trigger] t[k]).0, t[k].1) by {
            assert(s.contains((major@[k], minor@[k], k as usize)));
            let q = choose|q: int| 0 <= q < s.len() && s[q] == (major@[k], minor@[k], k as usize);
            assert(has_key_before(merged@, merged@.len() as int, s[q].0, s[q].1));
        }
        assert forall|i: int| 0 <= i < merged@.len() implies has_key_before(t, t.len() as int, (#[trigger] merged@[i]).0, merged@[i].1) by {
            assert(has_key_before(s, n as int, merged@[i].0, merged@[i].1));
            let q = choose|q: int| 0 <= q < n && q < s.len() && s[q].0 == merged@[i].0 && s[q].1 == merged@[i].1;
            let k = s[q].2 as int;
            assert(t[k].0 == major@[k]);
        }
    }
    merged
}


// ===========================================================================
// Compressed storage
// ===========================================================================

/// How many of the first `m` triplets of `e` have a major index below `v`.
pub open spec fn count_below<T>(e: Seq<(usize, usize, T)>, v: int, m: int) -> nat
    decreases m,
{
    if m <= 0 {
        0
    } else {
        count_below(e, v, m - 1) + if e[m - 1].0 < v { 1nat } else { 0nat }
    }
}

/// How many of the first `m` triplets of `e` have major index `v`.
pub open spec fn count_at<T>(e: Seq<(usize, usize, T)>, v: int, m: int) -> nat
    decreases m,
{
    if m <= 0 {
        0
    } else {
        count_at(e, v, m - 1) + if e[m - 1].0 == v { 1nat } else { 0nat }
    }
}

/// The stored entries of major line `i` (a row of a CSR matrix, a column of a CSC one), as
/// `(i, minor, value)` triplets.
pub open spec fn line_entries<T>(ptr: Seq<usize>, minor: Seq<usize>, vals: Seq<T>, i: int) -> Seq<(usize, usize, T)> {
    Seq::new((ptr[i + 1] - ptr[i]) as nat, |q: int| (i as usize, minor[ptr[i] + q], vals[ptr[i] + q]))
}

/// The stored entries of the major lines before `i`, line by line, as `(major, minor, value)`
/// triplets.
pub open spec fn entries_upto<T>(ptr: Seq<usize>, minor: Seq<usize>, vals: Seq<T>, i: int) -> Seq<(usize, usize, T)>
    decreases i,
{
    if i <= 0 {
        Seq::empty()
    } else {
        entries_upto(ptr, minor, vals, i - 1) + line_entries(ptr, minor, vals, i - 1)
    }
}

/// The shape of compressed storage with `n` major lines: `ptr` has `n + 1` nondecreasing
/// offsets from `0` to the number of stored entries, and the index and value arrays have one
/// element per entry.
pub open spec fn compressed_ok<T>(n: nat, ptr: Seq<usize>, minor: Seq<usize>, vals: Seq<T>) -> bool {
    &&& ptr.len() == n + 1
    &&& ptr[0] == 0
    &&& forall|i: int, j: int| 0 <= i <= j <= n ==> ptr[i] <= ptr[j]
    &&& ptr[n as int] == vals.len()
    &&& minor.len() == vals.len()
}

proof fn lemma_count_bounds<T>(e: Seq<(usize, usize, T)>, v: int, m: int)
    requires
        0 <= m,
    ensures
        count_below(e, v, m) <= m,
        count_at(e, v, m) <= m,
        count_below(e, v + 1, m) == count_below(e, v, m) + count_at(e, v, m),
    decreases m,
{
    if m > 0 {
        lemma_count_bounds(e, v, m - 1);
    }
}

/// No major index lies below zero.
proof fn lemma_count_below_zero<T>(e: Seq<(usize, usize, T)>, m: int)
    requires
        0 <= m,
    ensures
        count_below(e, 0, m) == 0,
    decreases m,
{
    if m > 0 {
        lemma_count_below_zero(e, m - 1);
    }
}

/// In triplets whose major indices never decrease, the first `count_below(e, v, m)` of the
/// first `m` are exactly those with a major index below `v`.
proof fn lemma_count_below_prefix<T>(e: Seq<(usize, usize, T)>, v: int, m: int)
    requires
        0 <= m <= e.len(),
        forall|a: int, b: int| 0 <= a < b < e.len() ==> (#[trigger] e[a]).0 <= (#[trigger] e[b]).0,
    ensures
        forall|k: int| 0 <= k < m ==> (k < count_below(e, v, m) <==> (#[trigger] e[k]).0 < v),
    decreases m,
{
    if m > 0 {
        lemma_count_below_prefix(e, v, m - 1);
        lemma_count_bounds(e, v, m - 1);
        if e[m - 1].0 < v {
            assert forall|k: int| 0 <= k < m - 1 implies (#[trigger] e[k]).0 < v by {
                assert(e[k].0 <= e[m - 1].0);
            }
        }
    }
}

/// Compressed storage whose offsets count the major indices of sorted triplets `e` lists
/// exactly `e`, line by line.
proof fn lemma_entries_are_merged<T>(ptr: Seq<usize>, minor: Seq<usize>, vals: Seq<T>, e: Seq<(usize, usize, T)>, n: nat, i: int)
    requires
        0 <= i <= n,
        n <= usize::MAX,
        ptr.len() == n + 1,
        forall|v: int| 0 <= v <= n ==> #[trigger] ptr[v] == count_below(e, v, e.len() as int),
        minor.len() == e.len(),
        vals.len() == e.len(),
        forall|k: int| 0 <= k < e.len() ==> #[trigger] minor[k] == e[k].1 && vals[k] == e[k].2,
        forall|a: int, b: int| 0 <= a < b < e.len() ==> (#[trigger] e[a]).0 <= (#[trigger] e[b]).0,
    ensures
        entries_upto(ptr, minor, vals, i) == e.take(ptr[i] as int),
    decreases i,
{
    lemma_count_bounds(e, i, e.len() as int);
    if i == 0 {
        lemma_count_below_zero(e, e.len() as int);
        assert(e.take(0) =~= Seq::<(usize, usize, T)>::empty());
    } else {
        lemma_entries_are_merged(ptr, minor, vals, e, n, i - 1);
        lemma_count_bounds(e, i - 1, e.len() as int);
        lemma_count_below_prefix(e, i - 1, e.len() as int);
        lemma_count_below_prefix(e, i, e.len() as int);
        let lo = ptr[i - 1] as int;
        let hi = ptr[i] as int;
        assert(lo <= hi);
        assert forall|q: int| 0 <= q < hi - lo implies #[trigger] line_entries(ptr, minor, vals, i - 1)[q] == e[lo + q] by {
            assert(e[lo + q].0 >= i - 1);
            assert(e[lo + q].0 < i);
        }
        assert(entries_upto(ptr, minor, vals, i) =~= e.take(hi));
    }
}

/// Compresses the triplets `(major[k], minor[k], vals[k])` (every major index below `n`):
/// duplicates are summed (see [`merge_triplets`]), and the offsets count the entries per major
/// line.
fn compress<T: Scalar>(n: usize, major: &[usize], minor: &[usize], vals: &[T]) -> (r: (Vec<usize>, Vec<usize>, Vec<T>))
    requires
        n < usize::MAX,
        major@.len() == vals@.len(),
        minor@.len() == vals@.len(),
        forall|k: int| 0 <= k < major@.len() ==> #[trigger] major@[k] < n,
    ensures
        compressed_ok(n as nat, r.0@, r.1@, r.2@),
        merged_ok(triples(major@, minor@, vals@), entries_upto(r.0@, r.1@, r.2@, n as int)),
        keys_from(triples(major@, minor@, vals@), entries_upto(r.0@, r.1@, r.2@, n as int)),
{
    let ghost t = triples(major@, minor@, vals@);
    let merged = merge_triplets(major, minor, vals);
    let ghost e = merged@;
    let len = merged.len();
    proof {
        assert forall|k: int| 0 <= k < len implies (#[trigger] e[k]).0 < n by {
            assert(has_key_before(t, t.len() as int, e[k].0, e[k].1));
            let q = choose|q: int| 0 <= q < t.len() && q < t.len() && t[q].0 == e[k].0 && t[q].1 == e[k].1;
            assert(t[q].0 == major@[q]);
        }
        assert forall|a: int, b: int| 0 <= a < b < e.len() implies (#[trigger] e[a]).0 <= (#[trigger] e[b]).0 by {
            assert(key_lt(e[a], e[b]));
        }
    }
    let mut counts: Vec<usize> = Vec::new();
    for i in 0..n
        invariant
            counts@.len() == i,
            forall|v: int| 0 <= v < i ==> #[trigger] counts@[v] == 0,
    {
        counts.push(0);
    }
    for q in 0..len
        invariant
            len == e.len(),
            e == merged@,
            counts@.len() == n,
            forall|k: int| 0 <= k < len ==> (#[trigger] e[k]).0 < n,
            forall|v: int| 0 <= v < n ==> #[trigger] counts@[v] == count_at(e, v, q as int),
    {
        let r = merged[q].0;
        proof {
            lemma_count_bounds(e, r as int, q as int);
        }
        let c = counts[r] + 1;
        counts.set(r, c);
    }
    let mut ptr: Vec<usize> = Vec::new();
    ptr.push(0);
    proof {
        lemma_count_below_zero(e, len as int);
    }
    for i in 0..n
        invariant
            len == e.len(),
            counts@.len() == n,
            forall|v: int| 0 <= v < n ==> #[trigger] counts@[v] == count_at(e, v, len as int),
            ptr@.len() == i + 1,
            forall|v: int| 0 <= v <= i ==> #[trigger] ptr@[v] == count_below(e, v, len as int),
    {
        proof {
            lemma_count_bounds(e, i as int, len as int);
            lemma_count_bounds(e, i + 1, len as int);
        }
        let next = ptr[i] + counts[i];
        ptr.push(next);
    }
    let mut minor_idx: Vec<usize> = Vec::new();
    let mut values: Vec<T> = Vec::new();
    for q in 0..len
        invariant
            len == e.len(),
            e == merged@,
            forall|k: int| 0 <= k < len ==> (#[trigger] e[k]).0 < n,
            minor_idx@.len() == q,
            values@.len() == q,
            forall|k: int| 0 <= k < q ==> #[trigger] minor_idx@[k] == e[k].1,
            forall|k: int| 0 <= k < q ==> #[trigger] values@[k] == e[k].2,
    {
        minor_idx.push(merged[q].1);
        values.push(merged[q].2);
    }
    proof {
        lemma_count_bounds(e, 0, len as int);
        lemma_count_below_zero(e, len as int);
        assert(count_below(e, n as int, len as int) == len) by {
            lemma_count_below_prefix(e, n as int, len as int);
            lemma_count_bounds(e, n as int, len as int);
            if count_below(e, n as int, len as int) < len {
                let k = count_below(e, n as int, len as int) as int;
                assert(e[k].0 < n);
            }
        }
        assert forall|i: int, j: int| 0 <= i <= j <= n implies ptr@[i] <= ptr@[j] by {
            lemma_count_bounds(e, i, len as int);
            lemma_count_below_prefix(e, i, len as int);
            lemma_count_below_prefix(e, j, len as int);
            if ptr@[j] < ptr@[i] {
                let k = ptr@[j] as int;
                assert(e[k].0 < i);
            }
        }
        lemma_entries_are_merged(ptr@, minor_idx@, values@, e, n as nat, n as int);
        assert(e.take(len as int) =~= e);
    }
    (ptr, minor_idx, values)
}


/// One past the largest element of `s` (zero when `s` is empty).
pub open spec fn index_bound(s: Seq<usize>) -> nat
    decreases s.len(),
{
    if s.len() == 0 {
        0
    } else {
        let b = index_bound(s.drop_last());
        if s.last() + 1 > b {
            (s.last() + 1) as nat
        } else {
            b
        }
    }
}

/// The column count of a conversion: the declared count `declared`, widened to one past
/// the largest column index present when some index lies at or beyond it.
pub open spec fn column_count(declared: usize, s: Seq<usize>) -> nat {
    if index_bound(s) <= declared {
        declared as nat
    } else {
        index_bound(s)
    }
}

/// When every index lies below `declared`, the column count is `declared`.
proof fn lemma_column_count_declared(declared: usize, s: Seq<usize>)
    requires
        forall|k: int| 0 <= k < s.len() ==> #[trigger] s[k] < declared,
    ensures
        column_count(declared, s) == declared,
    decreases s.len(),
{
    if s.len() > 0 {
        assert forall|k: int| 0 <= k < s.drop_last().len() implies #[trigger] s.drop_last()[k] < declared by {
            assert(s.drop_last()[k] == s[k]);
        }
        lemma_column_count_declared(declared, s.drop_last());
    }
}

proof fn lemma_index_bound(s: Seq<usize>)
    ensures
        forall|k: int| 0 <= k < s.len() ==> #[trigger] s[k] < index_bound(s),
    decreases s.len(),
{
    if s.len() > 0 {
        lemma_index_bound(s.drop_last());
        assert forall|k: int| 0 <= k < s.len() implies #[trigger] s[k] < index_bound(s) by {
            if k < s.len() - 1 {
                assert(s[k] == s.drop_last()[k]);
            }
        }
    }
}

/// The entries of the first `i` lines of compressed storage: one per stored position from
/// `ptr[0]`, carrying that position's minor index and value, with a major index below `i`.
proof fn lemma_entries_major<T>(ptr: Seq<usize>, minor: Seq<usize>, vals: Seq<T>, i: int)
    requires
        0 <= i < ptr.len(),
        ptr.len() <= usize::MAX,
        forall|a: int, b: int| 0 <= a <= b < ptr.len() ==> ptr[a] <= ptr[b],
    ensures
        entries_upto(ptr, minor, vals, i).len() == ptr[i] - ptr[0],
        forall|k: int| 0 <= k < entries_upto(ptr, minor, vals, i).len() ==> {
            let e = #[trigger] entries_upto(ptr, minor, vals, i)[k];
            e.0 < i && e.1 == minor[ptr[0] + k] && e.2 == vals[ptr[0] + k]
        },
    decreases i,
{
    if i > 0 {
        lemma_entries_major(ptr, minor, vals, i - 1);
        let prev = entries_upto(ptr, minor, vals, i - 1);
        let line = line_entries(ptr, minor, vals, i - 1);
        assert forall|k: int| 0 <= k < entries_upto(ptr, minor, vals, i).len() implies {
            let e = #[trigger] entries_upto(ptr, minor, vals, i)[k];
            e.0 < i && e.1 == minor[ptr[0] + k] && e.2 == vals[ptr[0] + k]
        } by {
            if k < prev.len() {
                assert(entries_upto(ptr, minor, vals, i)[k] == prev[k]);
            } else {
                assert(entries_upto(ptr, minor, vals, i)[k] == line[k - prev.len()]);
            }
        }
    }
}

/// The stored entries of compressed storage, in storage order, as `(major, minor, value)`.
fn compressed_entries<T: Copy>(n: usize, ptr: &Vec<usize>, minor: &Vec<usize>, vals: &Vec<T>) -> (r: Vec<(usize, usize, T)>)
    requires
        compressed_ok(n as nat, ptr@, minor@, vals@),
    ensures
        r@ == entries_upto(ptr@, minor@, vals@, n as int),
{
    let mut out: Vec<(usize, usize, T)> = Vec::new();
    for i in 0..n
        invariant
            compressed_ok(n as nat, ptr@, minor@, vals@),
            out@ == entries_upto(ptr@, minor@, vals@, i as int),
    {
        let ghost before = out@;
        let lo = ptr[i];
        let hi = ptr[i + 1];
        assert(lo <= hi);
        for k in lo..hi
            invariant
                compressed_ok(n as nat, ptr@, minor@, vals@),
                i < n,
                lo == ptr@[i as int],
                hi == ptr@[i + 1],
                out@ == before + line_entries(ptr@, minor@, vals@, i as int).take(k - lo),
        {
            assert(hi <= ptr@[n as int]);
            out.push((i, minor[k], vals[k]));
            assert(out@ =~= before + line_entries(ptr@, minor@, vals@, i as int).take(k + 1 - lo));
        }
        assert(line_entries(ptr@, minor@, vals@, i as int).take(hi - lo) =~= line_entries(ptr@, minor@, vals@, i as int));
    }
    out
}

// ===========================================================================
// Errors
// ===========================================================================

/// Errors of the sparse operators and solvers.
#[derive(Debug, Clone, PartialEq, Eq)]
pub enum SparseError {
    /// A matrix and a vector (or matrix) of incompatible dimensions.
    DimensionMismatch,
    /// The iterative solver stopped after `iterations` iterations without meeting the
    /// tolerance.
    NotConverged { iterations: usize },
}

// ===========================================================================
// COO
// ===========================================================================

/// A sparse matrix as an unordered list of `(row, col, value)` triplets; duplicates are
/// allowed and are summed on conversion to a compressed form.
#[derive(Clone, Debug, PartialEq, Eq)]
pub struct CooMatrix<T> {
    nrows: usize,
    ncols: usize,
    entries: Vec<(usize, usize, T)>,
}

impl<T> CooMatrix<T> {
    /// Number of rows.
    pub closed spec fn rows_spec(&self) -> nat {
        self.nrows as nat
    }

    /// Number of columns.
    pub closed spec fn cols_spec(&self) -> nat {
        self.ncols as nat
    }

    /// The entries pushed so far, in order.
    pub closed spec fn triplets(&self) -> Seq<(usize, usize, T)> {
        self.entries@
    }

    /// An empty `nrows x ncols` matrix.
    pub fn new(nrows: usize, ncols: usize) -> (r: Self)
        ensures
            r.rows_spec() == nrows,
            r.cols_spec() == ncols,
            r.triplets() == Seq::<(usize, usize, T)>::empty(),
    {
        CooMatrix { nrows, ncols, entries: Vec::new() }
    }

    /// Number of rows.
    pub fn nrows(&self) -> (r: usize)
        ensures
            r == self.rows_spec(),
    {
        self.nrows
    }

    /// Number of columns.
    pub fn ncols(&self) -> (r: usize)
        ensures
            r == self.cols_spec(),
    {
        self.ncols
    }

    /// Number of stored triplets (duplicates included).
    pub fn nnz(&self) -> (r: usize)
        ensures
            r == self.triplets().len(),
    {
        self.entries.len()
    }

    /// Appends the triplet `(row, col, val)`.
    pub fn push(&mut self, row: usize, col: usize, val: T)
        ensures
            final(self).rows_spec() == old(self).rows_spec(),
            final(self).cols_spec() == old(self).cols_spec(),
            final(self).triplets() == old(self).triplets().push((row, col, val)),
    {
        self.entries.push((row, col, val));
    }
}

impl<T: Scalar> CooMatrix<T> {
    /// Builds from parallel triplet arrays (which must have equal lengths).
    pub fn from_triplets(nrows: usize, ncols: usize, rows: Vec<usize>, cols: Vec<usize>, vals: Vec<T>) -> (r: Self)
        requires
            rows@.len() == cols@.len(),
            rows@.len() == vals@.len(),
        ensures
            r.rows_spec() == nrows,
            r.cols_spec() == ncols,
            r.triplets() == triples(rows@, cols@, vals@),
    {
        let mut entries: Vec<(usize, usize, T)> = Vec::new();
        for k in 0..vals.len()
            invariant
                rows@.len() == vals@.len(),
                cols@.len() == vals@.len(),
                entries@ == triples(rows@, cols@, vals@).take(k as int),
        {
            entries.push((rows[k], cols[k], vals[k]));
            assert(entries@ =~= triples(rows@, cols@, vals@).take(k + 1));
        }
        assert(triples(rows@, cols@, vals@).take(vals@.len() as int) =~= triples(rows@, cols@, vals@));
        CooMatrix { nrows, ncols, entries }
    }

    /// The three parallel arrays of the triplets.
    fn split(&self) -> (r: (Vec<usize>, Vec<usize>, Vec<T>))
        ensures
            r.0@.len() == r.2@.len(),
            r.1@.len() == r.2@.len(),
            triples(r.0@, r.1@, r.2@) == self.triplets(),
    {
        let mut rows: Vec<usize> = Vec::new();
        let mut cols: Vec<usize> = Vec::new();
        let mut vals: Vec<T> = Vec::new();
        for k in 0..self.entries.len()
            invariant
                rows@.len() == k,
                cols@.len() == k,
                vals@.len() == k,
                triples(rows@, cols@, vals@) == self.entries@.take(k as int),
        {
            rows.push(self.entries[k].0);
            cols.push(self.entries[k].1);
            vals.push(self.entries[k].2);
            assert(triples(rows@, cols@, vals@) =~= self.entries@.take(k + 1));
        }
        assert(self.entries@.take(self.entries@.len() as int) =~= self.entries@);
        (rows, cols, vals)
    }

    /// Converts to CSR form, summing duplicates (every row index must lie below `nrows`, and
    /// every column index below `usize::MAX`). The shape stays `nrows x ncols` when every
    /// column index lies below `ncols`; an entry beyond it widens the column count to one past
    /// the largest column index (see [`column_count`]).
    pub fn to_csr(&self) -> (r: CsrMatrix<T>)
        requires
            self.rows_spec() < usize::MAX,
            forall|k: int| 0 <= k < self.triplets().len() ==> (#[trigger] self.triplets()[k]).0 < self.rows_spec(),
            forall|k: int| 0 <= k < self.triplets().len() ==> (#[trigger] self.triplets()[k]).1 < usize::MAX,
        ensures
            r.well_formed(),
            r.rows_spec() == self.rows_spec(),
            r.cols_spec() == column_count(
                self.cols_spec() as usize,
                swap_keys(self.triplets()).map_values(|e: (usize, usize, T)| e.0),
            ),
            (forall|k: int| 0 <= k < self.triplets().len() ==> (#[trigger] self.triplets()[k]).1 < self.cols_spec())
                ==> r.cols_spec() == self.cols_spec(),
            merged_ok(self.triplets(), r.entries()),
    {
        let (rows, cols, vals) = self.split();
        proof {
            let t = self.triplets();
            assert(swap_keys(t).map_values(|e: (usize, usize, T)| e.0) =~= cols@);
            assert forall|k: int| 0 <= k < rows@.len() implies #[trigger] rows@[k] < self.nrows by {
                assert(t[k].0 == rows@[k]);
            }
            assert forall|k: int| 0 <= k < cols@.len() implies #[trigger] cols@[k] < usize::MAX by {
                assert(t[k].1 == cols@[k]);
            }
        }
        proof {
            if forall|k: int| 0 <= k < self.triplets().len() ==> (#[trigger] self.triplets()[k]).1 < self.cols_spec() {
                assert forall|k: int| 0 <= k < cols@.len() implies #[trigger] cols@[k] < self.ncols by {
                    assert(self.triplets()[k].1 == cols@[k]);
                }
                lemma_column_count_declared(self.ncols, cols@);
            }
        }
        to_csr_impl(self.nrows, self.ncols, rows.as_slice(), cols.as_slice(), vals.as_slice())
    }

    /// Converts to CSC form, summing duplicates (every column index must lie below `ncols`).
    pub fn to_csc(&self) -> (r: CscMatrix<T>)
        requires
            self.cols_spec() < usize::MAX,
            forall|k: int| 0 <= k < self.triplets().len() ==> (#[trigger] self.triplets()[k]).1 < self.cols_spec(),
        ensures
            r.well_formed(),
            r.rows_spec() == self.rows_spec(),
            r.cols_spec() == self.cols_spec(),
            merged_ok(swap_keys(self.triplets()), r.col_entries()),
    {
        let (rows, cols, vals) = self.split();
        proof {
            let t = self.triplets();
            assert(swap_keys(t) =~= triples(cols@, rows@, vals@));
            assert forall|k: int| 0 <= k < cols@.len() implies #[trigger] cols@[k] < self.ncols by {
                assert(t[k].1 == cols@[k]);
            }
        }
        to_csc_impl(self.nrows, self.ncols, rows.as_slice(), cols.as_slice(), vals.as_slice())
    }
}

/// The triplets with row and column exchanged.
pub open spec fn swap_keys<T>(t: Seq<(usize, usize, T)>) -> Seq<(usize, usize, T)> {
    Seq::new(t.len(), |k: int| (t[k].1, t[k].0, t[k].2))
}

// ===========================================================================
// CSR
// ===========================================================================

/// A sparse matrix in compressed-sparse-row form: the entries of row `i` are stored at
/// positions `row_ptr[i] .. row_ptr[i + 1]` of `col_idx` and `values`.
#[derive(Clone, Debug, PartialEq, Eq)]
pub struct CsrMatrix<T> {
    nrows: usize,
    ncols: usize,
    row_ptr: Vec<usize>,
    col_idx: Vec<usize>,
    values: Vec<T>,
}

impl<T> CsrMatrix<T> {
    /// The storage is well formed and every column index lies below `ncols`; every
    /// constructor establishes it.
    pub closed spec fn well_formed(&self) -> bool {
        &&& self.nrows < usize::MAX
        &&& compressed_ok(self.nrows as nat, self.row_ptr@, self.col_idx@, self.values@)
        &&& forall|k: int| 0 <= k < self.col_idx@.len() ==> #[trigger] self.col_idx@[k] < self.ncols
    }

    /// Number of rows.
    pub closed spec fn rows_spec(&self) -> nat {
        self.nrows as nat
    }

    /// Number of columns.
    pub closed spec fn cols_spec(&self) -> nat {
        self.ncols as nat
    }

    /// The row offsets.
    pub closed spec fn row_ptr_spec(&self) -> Seq<usize> {
        self.row_ptr@
    }

    /// The column index of each stored entry.
    pub closed spec fn col_idx_spec(&self) -> Seq<usize> {
        self.col_idx@
    }

    /// The value of each stored entry.
    pub closed spec fn values_spec(&self) -> Seq<T> {
        self.values@
    }

    /// The stored entries as `(row, col, value)`, row by row in storage order.
    pub closed spec fn entries(&self) -> Seq<(usize, usize, T)> {
        entries_upto(self.row_ptr@, self.col_idx@, self.values@, self.nrows as int)
    }

    /// Number of rows.
    pub fn nrows(&self) -> (r: usize)
        ensures
            r == self.rows_spec(),
    {
        self.nrows
    }

    /// Number of columns.
    pub fn ncols(&self) -> (r: usize)
        ensures
            r == self.cols_spec(),
    {
        self.ncols
    }

    /// Number of stored entries (the entries of a well-formed matrix, one per value).
    pub fn nnz(&self) -> (r: usize)
        ensures
            r == self.values_spec().len(),
            self.well_formed() ==> r == self.entries().len(),
    {
        proof {
            if self.well_formed() {
                lemma_entries_major(self.row_ptr@, self.col_idx@, self.values@, self.nrows as int);
            }
        }
        self.values.len()
    }

    /// The row offsets.
    pub fn row_ptr(&self) -> (r: &[usize])
        ensures
            r@ == self.row_ptr_spec(),
    {
        self.row_ptr.as_slice()
    }

    /// The column index of each stored entry.
    pub fn col_idx(&self) -> (r: &[usize])
        ensures
            r@ == self.col_idx_spec(),
    {
        self.col_idx.as_slice()
    }

    /// The value of each stored entry.
    pub fn values(&self) -> (r: &[T])
        ensures
            r@ == self.values_spec(),
    {
        self.values.as_slice()
    }
}

impl<T: Copy> CsrMatrix<T> {
    /// The stored entries as `(row, col, value)`, row by row in storage order.
    pub fn iter(&self) -> (r: Vec<(usize, usize, T)>)
        requires
            self.well_formed(),
        ensures
            r@ == self.entries(),
    {
        compressed_entries(self.nrows, &self.row_ptr, &self.col_idx, &self.values)
    }
}

/// Compresses triplets into CSR form with `nrows` rows; the column count is one past the
/// largest column index.
fn to_csr_impl<T: Scalar>(nrows: usize, declared_cols: usize, rows: &[usize], cols: &[usize], vals: &[T]) -> (r: CsrMatrix<T>)
    requires
        nrows < usize::MAX,
        rows@.len() == vals@.len(),
        cols@.len() == vals@.len(),
        forall|k: int| 0 <= k < rows@.len() ==> #[trigger] rows@[k] < nrows,
        forall|k: int| 0 <= k < cols@.len() ==> #[trigger] cols@[k] < usize::MAX,
    ensures
        r.well_formed(),
        r.rows_spec() == nrows,
        r.cols_spec() == column_count(declared_cols, cols@),
        merged_ok(triples(rows@, cols@, vals@), r.entries()),
{
    let (row_ptr, col_idx, values) = compress(nrows, rows, cols, vals);
    let mut bound: usize = 0;
    for k in 0..cols.len()
        invariant
            forall|q: int| 0 <= q < cols@.len() ==> #[trigger] cols@[q] < usize::MAX,
            bound == index_bound(cols@.take(k as int)),
    {
        assert(cols@.take(k + 1).drop_last() =~= cols@.take(k as int));
        if cols[k] + 1 > bound {
            bound = cols[k] + 1;
        }
    }
    let ncols = if bound <= declared_cols {
        declared_cols
    } else {
        bound
    };
    proof {
        assert(cols@.take(cols@.len() as int) =~= cols@);
        let t = triples(rows@, cols@, vals@);
        let e = entries_upto(row_ptr@, col_idx@, values@, nrows as int);
        lemma_index_bound(cols@);
        lemma_entries_major(row_ptr@, col_idx@, values@, nrows as int);
        assert forall|k: int| 0 <= k < col_idx@.len() implies #[trigger] col_idx@[k] < ncols by {
            let q = k;
            assert(e[q].1 == col_idx@[k]);
            assert(has_key_before(t, t.len() as int, e[q].0, e[q].1));
            let p = choose|p: int| 0 <= p < t.len() && p < t.len() && t[p].0 == e[q].0 && t[p].1 == e[q].1;
            assert(t[p].1 == cols@[p]);
        }
    }
    CsrMatrix { nrows, ncols, row_ptr, col_idx, values }
}

/// Compresses triplets into CSC form (`nrows x ncols`).
fn to_csc_impl<T: Scalar>(nrows: usize, ncols: usize, rows: &[usize], cols: &[usize], vals: &[T]) -> (r: CscMatrix<T>)
    requires
        ncols < usize::MAX,
        rows@.len() == vals@.len(),
        cols@.len() == vals@.len(),
        forall|k: int| 0 <= k < cols@.len() ==> #[trigger] cols@[k] < ncols,
    ensures
        r.well_formed(),
        r.rows_spec() == nrows,
        r.cols_spec() == ncols,
        merged_ok(triples(cols@, rows@, vals@), r.col_entries()),
{
    let (col_ptr, row_idx, values) = compress(ncols, cols, rows, vals);
    CscMatrix { nrows, ncols, col_ptr, row_idx, values }
}

// ===========================================================================
// CSC
// ===========================================================================

/// A sparse matrix in compressed-sparse-column form: the entries of column `j` are stored at
/// positions `col_ptr[j] .. col_ptr[j + 1]` of `row_idx` and `values`.
#[derive(Clone, Debug, PartialEq, Eq)]
pub struct CscMatrix<T> {
    nrows: usize,
    ncols: usize,
    col_ptr: Vec<usize>,
    row_idx: Vec<usize>,
    values: Vec<T>,
}

impl<T> CscMatrix<T> {
    /// The storage is well formed; every constructor establishes it.
    pub closed spec fn well_formed(&self) -> bool {
        &&& self.ncols < usize::MAX
        &&& compressed_ok(self.ncols as nat, self.col_ptr@, self.row_idx@, self.values@)
    }

    /// Number of rows.
    pub closed spec fn rows_spec(&self) -> nat {
        self.nrows as nat
    }

    /// Number of columns.
    pub closed spec fn cols_spec(&self) -> nat {
        self.ncols as nat
    }

    /// The column offsets.
    pub closed spec fn col_ptr_spec(&self) -> Seq<usize> {
        self.col_ptr@
    }

    /// The row index of each stored entry.
    pub closed spec fn row_idx_spec(&self) -> Seq<usize> {
        self.row_idx@
    }

    /// The value of each stored entry.
    pub closed spec fn values_spec(&self) -> Seq<T> {
        self.values@
    }

    /// The stored entries as `(col, row, value)`, column by column in storage order.
    pub closed spec fn col_entries(&self) -> Seq<(usize, usize, T)> {
        entries_upto(self.col_ptr@, self.row_idx@, self.values@, self.ncols as int)
    }

    /// The stored entries as `(row, col, value)`, column by column in storage order.
    pub open spec fn entries(&self) -> Seq<(usize, usize, T)> {
        swap_keys(self.col_entries())
    }

    /// Number of rows.
    pub fn nrows(&self) -> (r: usize)
        ensures
            r == self.rows_spec(),
    {
        self.nrows
    }

    /// Number of columns.
    pub fn ncols(&self) -> (r: usize)
        ensures
            r == self.cols_spec(),
    {
        self.ncols
    }

    /// Number of stored entries (the entries of a well-formed matrix, one per value).
    pub fn nnz(&self) -> (r: usize)
        ensures
            r == self.values_spec().len(),
            self.well_formed() ==> r == self.entries().len(),
    {
        proof {
            if self.well_formed() {
                lemma_entries_major(self.col_ptr@, self.row_idx@, self.values@, self.ncols as int);
            }
        }
        self.values.len()
    }

    /// The column offsets.
    pub fn col_ptr(&self) -> (r: &[usize])
        ensures
            r@ == self.col_ptr_spec(),
    {
        self.col_ptr.as_slice()
    }

    /// The row index of each stored entry.
    pub fn row_idx(&self) -> (r: &[usize])
        ensures
            r@ == self.row_idx_spec(),
    {
        self.row_idx.as_slice()
    }

    /// The value of each stored entry.
    pub fn values(&self) -> (r: &[T])
        ensures
            r@ == self.values_spec(),
    {
        self.values.as_slice()
    }
}

impl<T: Copy> CscMatrix<T> {
    /// The stored entries as `(row, col, value)`, column by column in storage order.
    pub fn iter(&self) -> (r: Vec<(usize, usize, T)>)
        requires
            self.well_formed(),
        ensures
            r@ == self.entries(),
    {
        let ce = compressed_entries(self.ncols, &self.col_ptr, &self.row_idx, &self.values);
        let mut out: Vec<(usize, usize, T)> = Vec::new();
        for k in 0..ce.len()
            invariant
                ce@ == self.col_entries(),
                out@ == swap_keys(ce@).take(k as int),
        {
            out.push((ce[k].1, ce[k].0, ce[k].2));
            assert(out@ =~= swap_keys(ce@).take(k + 1));
        }
        assert(swap_keys(ce@).take(ce@.len() as int) =~= swap_keys(ce@));
        out
    }
}


// ===========================================================================
// Transposes
// ===========================================================================

impl<T: Scalar> CsrMatrix<T> {
    /// The transpose as a CSC matrix (`ncols x nrows`): its columns are this matrix's rows,
    /// so its column-major entries are this matrix's entries, merged.
    pub fn transpose(&self) -> (r: CscMatrix<T>)
        requires
            self.well_formed(),
        ensures
            r.well_formed(),
            r.rows_spec() == self.cols_spec(),
            r.cols_spec() == self.rows_spec(),
            merged_ok(self.entries(), r.col_entries()),
    {
        let e = self.iter();
        let ghost es = e@;
        let mut rows: Vec<usize> = Vec::new();
        let mut cols: Vec<usize> = Vec::new();
        let mut vals: Vec<T> = Vec::new();
        for k in 0..e.len()
            invariant
                es == e@,
                rows@.len() == k,
                cols@.len() == k,
                vals@.len() == k,
                forall|q: int| 0 <= q < k ==> #[trigger] rows@[q] == es[q].1,
                forall|q: int| 0 <= q < k ==> #[trigger] cols@[q] == es[q].0,
                forall|q: int| 0 <= q < k ==> #[trigger] vals@[q] == es[q].2,
        {
            rows.push(e[k].1);
            cols.push(e[k].0);
            vals.push(e[k].2);
        }
        proof {
            lemma_entries_major(self.row_ptr@, self.col_idx@, self.values@, self.nrows as int);
            assert forall|q: int| 0 <= q < cols@.len() implies #[trigger] cols@[q] < self.nrows by {
                assert(rows@[q] == es[q].1);
            }
            assert(triples(cols@, rows@, vals@) =~= es);
        }
        to_csc_impl(self.ncols, self.nrows, rows.as_slice(), cols.as_slice(), vals.as_slice())
    }
}

impl<T: Scalar> CscMatrix<T> {
    /// The transpose as a CSR matrix: its rows are this matrix's columns, so its row-major
    /// entries are this matrix's column-major entries, merged. It is `ncols x nrows` when
    /// every stored row index lies below `nrows` (a larger one widens the column count, see
    /// [`column_count`]; every row index must lie below `usize::MAX`).
    pub fn transpose(&self) -> (r: CsrMatrix<T>)
        requires
            self.well_formed(),
            forall|k: int| 0 <= k < self.row_idx_spec().len() ==> #[trigger] self.row_idx_spec()[k] < usize::MAX,
        ensures
            r.well_formed(),
            r.rows_spec() == self.cols_spec(),
            r.cols_spec() == column_count(self.rows_spec() as usize, self.row_idx_spec()),
            (forall|k: int| 0 <= k < self.row_idx_spec().len() ==> #[trigger] self.row_idx_spec()[k] < self.rows_spec())
                ==> r.cols_spec() == self.rows_spec(),
            merged_ok(self.col_entries(), r.entries()),
    {
        let e = self.iter();
        let ghost es = e@;
        let mut rows: Vec<usize> = Vec::new();
        let mut cols: Vec<usize> = Vec::new();
        let mut vals: Vec<T> = Vec::new();
        for k in 0..e.len()
            invariant
                es == e@,
                rows@.len() == k,
                cols@.len() == k,
                vals@.len() == k,
                forall|q: int| 0 <= q < k ==> #[trigger] rows@[q] == es[q].1,
                forall|q: int| 0 <= q < k ==> #[trigger] cols@[q] == es[q].0,
                forall|q: int| 0 <= q < k ==> #[trigger] vals@[q] == es[q].2,
        {
            rows.push(e[k].1);
            cols.push(e[k].0);
            vals.push(e[k].2);
        }
        proof {
            let ce = self.col_entries();
            lemma_entries_major(self.col_ptr@, self.row_idx@, self.values@, self.ncols as int);
            assert(es == swap_keys(ce));
            assert forall|q: int| 0 <= q < rows@.len() implies #[trigger] rows@[q] < self.ncols by {
                assert(rows@[q] == ce[q].0);
            }
            assert forall|q: int| 0 <= q < cols@.len() implies #[trigger] cols@[q] < usize::MAX by {
                assert(cols@[q] == es[q].0);
                assert(ce[q].1 == self.row_idx@[q]);
                assert(self.row_idx_spec()[q] < usize::MAX);
            }
            assert(cols@ =~= self.row_idx@);
            assert(triples(rows@, cols@, vals@) =~= ce);
            if forall|k: int| 0 <= k < self.row_idx_spec().len() ==> #[trigger] self.row_idx_spec()[k] < self.rows_spec() {
                assert forall|k: int| 0 <= k < cols@.len() implies #[trigger] cols@[k] < self.nrows by {
                    assert(cols@[k] == self.row_idx_spec()[k]);
                }
                lemma_column_count_declared(self.nrows, cols@);
            }
        }
        to_csr_impl(self.ncols, self.nrows, rows.as_slice(), cols.as_slice(), vals.as_slice())
    }
}

// ===========================================================================
// Matrix-vector products
// ===========================================================================

/// The sum, from zero and in storage order, of `vals[k] * x[minor[k]]` for `lo <= k < hi`.
pub open spec fn stored_dot<T: Scalar>(vals: Seq<T>, minor: Seq<usize>, x: Seq<T>, lo: int, hi: int) -> T
    decreases hi - lo,
{
    if hi <= lo {
        T::zero_spec()
    } else {
        stored_dot(vals, minor, x, lo, hi - 1).plus_spec(vals[hi - 1].times_spec(x[minor[hi - 1] as int]))
    }
}

impl<T: Scalar> CsrMatrix<T> {
    /// `A x` as the CSR product computes it: component `i` sums row `i`'s stored products.
    pub closed spec fn apply(&self, x: Seq<T>) -> Seq<T> {
        Seq::new(
            self.nrows as nat,
            |i: int| stored_dot(self.values@, self.col_idx@, x, self.row_ptr@[i] as int, self.row_ptr@[i + 1] as int),
        )
    }

    /// The sum over row `i`'s stored entries of `value * x[col]`.
    fn row_dot(&self, x: &DVector<T>, i: usize) -> (r: T)
        requires
            self.well_formed(),
            x@.len() == self.cols_spec(),
            i < self.rows_spec(),
        ensures
            r == self.apply(x@)[i as int],
    {
        let lo = self.row_ptr[i];
        let hi = self.row_ptr[i + 1];
        let xs = x.iter();
        let mut s = T::zero();
        for k in lo..hi
            invariant
                xs@ == x@,
                self.well_formed(),
                x@.len() == self.cols_spec(),
                i < self.rows_spec(),
                lo == self.row_ptr@[i as int],
                hi == self.row_ptr@[i + 1],
                s == stored_dot(self.values@, self.col_idx@, x@, lo as int, k as int),
        {
            assert(hi <= self.row_ptr@[self.nrows as int]);
            let c = self.col_idx[k];
            assert(c < self.ncols);
            s = s.plus(self.values[k].times(xs[c]));
        }
        s
    }

    /// The product `A x`; a dimension error unless `x` has `ncols` components.
    pub fn matvec(&self, x: &DVector<T>) -> (r: Result<DVector<T>, SparseError>)
        requires
            self.well_formed(),
        ensures
            x@.len() != self.cols_spec() ==> r == Err::<DVector<T>, SparseError>(SparseError::DimensionMismatch),
            x@.len() == self.cols_spec() ==> (r matches Ok(y) && y@ == self.apply(x@)),
    {
        if x.len() != self.ncols {
            return Err(SparseError::DimensionMismatch);
        }
        let nrows = self.nrows;
        let y = DVector::from_fn(
            nrows,
            |i: usize| -> (r: T)
                requires
                    i < nrows
                ensures
                    r == self.apply(x@)[i as int]
                { self.row_dot(x, i) },
        );
        assert(y@ =~= self.apply(x@));
        Ok(y)
    }
}

impl<'a, T: Scalar> vstd::std_specs::ops::MulSpecImpl<&'a DVector<T>> for &'a CsrMatrix<T> {
    open spec fn obeys_mul_spec() -> bool {
        false
    }

    open spec fn mul_req(self, rhs: &'a DVector<T>) -> bool {
        self.well_formed() && rhs@.len() == self.cols_spec()
    }

    open spec fn mul_spec(self, rhs: &'a DVector<T>) -> DVector<T> {
        *rhs
    }
}

impl<'a, T: Scalar> core::ops::Mul<&'a DVector<T>> for &'a CsrMatrix<T> {
    type Output = DVector<T>;

    /// The product `A x` (`x` must have `ncols` components).
    fn mul(self, rhs: &'a DVector<T>) -> (r: DVector<T>)
        ensures
            r@ == self.apply(rhs@),
    {
        match self.matvec(rhs) {
            Ok(y) => y,
            Err(_) => {
                assert(false);
                DVector::from_vec(Vec::new())
            },
        }
    }
}

/// Column `j`'s stored entries from `lo` up to `hi` added into `y`: each adds
/// `vals[k] * xj` to `y[minor[k]]`, in storage order.
pub open spec fn scatter_line<T: Scalar>(y: Seq<T>, vals: Seq<T>, minor: Seq<usize>, xj: T, lo: int, hi: int) -> Seq<T>
    decreases hi - lo,
{
    if hi <= lo {
        y
    } else {
        let y1 = scatter_line(y, vals, minor, xj, lo, hi - 1);
        let r = minor[hi - 1] as int;
        y1.update(r, y1[r].plus_spec(vals[hi - 1].times_spec(xj)))
    }
}

/// The columns before `j` scattered into `y`, column by column.
pub open spec fn scatter_upto<T: Scalar>(y: Seq<T>, ptr: Seq<usize>, vals: Seq<T>, minor: Seq<usize>, x: Seq<T>, j: int) -> Seq<T>
    decreases j,
{
    if j <= 0 {
        y
    } else {
        scatter_line(scatter_upto(y, ptr, vals, minor, x, j - 1), vals, minor, x[j - 1], ptr[j - 1] as int, ptr[j] as int)
    }
}

proof fn lemma_scatter_line_len<T: Scalar>(y: Seq<T>, vals: Seq<T>, minor: Seq<usize>, xj: T, lo: int, hi: int)
    requires
        forall|k: int| lo <= k < hi ==> #[trigger] minor[k] < y.len(),
    ensures
        scatter_line(y, vals, minor, xj, lo, hi).len() == y.len(),
    decreases hi - lo,
{
    if hi > lo {
        lemma_scatter_line_len(y, vals, minor, xj, lo, hi - 1);
    }
}

proof fn lemma_scatter_upto_len<T: Scalar>(y: Seq<T>, ptr: Seq<usize>, vals: Seq<T>, minor: Seq<usize>, x: Seq<T>, j: int)
    requires
        forall|k: int| 0 <= k < minor.len() ==> #[trigger] minor[k] < y.len(),
        forall|a: int| 0 <= a < j ==> 0 <= #[trigger] ptr[a] && ptr[a + 1] <= minor.len(),
    ensures
        scatter_upto(y, ptr, vals, minor, x, j).len() == y.len(),
    decreases j,
{
    if j > 0 {
        lemma_scatter_upto_len(y, ptr, vals, minor, x, j - 1);
        lemma_scatter_line_len(scatter_upto(y, ptr, vals, minor, x, j - 1), vals, minor, x[j - 1], ptr[j - 1] as int, ptr[j] as int);
    }
}

impl<T: Scalar> CscMatrix<T> {
    /// `A x` as the CSC product computes it: starting from zeros, each column's stored
    /// entries are scattered into the result in storage order.
    pub closed spec fn apply(&self, x: Seq<T>) -> Seq<T> {
        scatter_upto(
            Seq::new(self.nrows as nat, |i: int| T::zero_spec()),
            self.col_ptr@,
            self.values@,
            self.row_idx@,
            x,
            self.ncols as int,
        )
    }

    /// The product `A x`; a dimension error unless `x` has `ncols` components (every stored
    /// row index must then lie below `nrows`).
    #[verifier::rlimit(40)]
    pub fn matvec(&self, x: &DVector<T>) -> (r: Result<DVector<T>, SparseError>)
        requires
            self.well_formed(),
            x@.len() == self.cols_spec() ==> forall|k: int| 0 <= k < self.row_idx_spec().len() ==> #[trigger] self.row_idx_spec()[k] < self.rows_spec(),
        ensures
            x@.len() != self.cols_spec() ==> r == Err::<DVector<T>, SparseError>(SparseError::DimensionMismatch),
            x@.len() == self.cols_spec() ==> (r matches Ok(y) && y@ == self.apply(x@)),
    {
        if x.len() != self.ncols {
            return Err(SparseError::DimensionMismatch);
        }
        let nrows = self.nrows;
        let mut y: Vec<T> = Vec::new();
        for i in 0..nrows
            invariant
                y@ == Seq::new(i as nat, |q: int| T::zero_spec()),
        {
            y.push(T::zero());
            assert(y@ =~= Seq::new((i + 1) as nat, |q: int| T::zero_spec()));
        }
        let ghost y0 = y@;
        assert forall|k: int| 0 <= k < self.row_idx@.len() implies #[trigger] self.row_idx@[k] < self.nrows by {
            assert(self.row_idx_spec()[k] < self.rows_spec());
        }
        for j in 0..self.ncols
            invariant
                self.well_formed(),
                x@.len() == self.cols_spec(),
                forall|k: int| 0 <= k < self.row_idx@.len() ==> #[trigger] self.row_idx@[k] < self.nrows,
                nrows == self.nrows,
                y0 == Seq::new(nrows as nat, |q: int| T::zero_spec()),
                y@ == scatter_upto(y0, self.col_ptr@, self.values@, self.row_idx@, x@, j as int),
        {
            let lo = self.col_ptr[j];
            let hi = self.col_ptr[j + 1];
            let xj = x[j];
            let ghost ybefore = y@;
            proof {
                assert forall|a: int| 0 <= a < j implies 0 <= #[trigger] self.col_ptr@[a] && self.col_ptr@[a + 1] <= self.row_idx@.len() by {
                    assert(self.col_ptr@[a + 1] <= self.col_ptr@[self.ncols as int]);
                }
                lemma_scatter_upto_len(y0, self.col_ptr@, self.values@, self.row_idx@, x@, j as int);
            }
            for k in lo..hi
                invariant
                    self.well_formed(),
                    forall|q: int| 0 <= q < self.row_idx@.len() ==> #[trigger] self.row_idx@[q] < self.nrows,
                    j < self.ncols,
                    lo == self.col_ptr@[j as int],
                    hi == self.col_ptr@[j + 1],
                    ybefore.len() == self.nrows,
                    y@ == scatter_line(ybefore, self.values@, self.row_idx@, xj, lo as int, k as int),
            {
                assert(hi <= self.col_ptr@[self.ncols as int]);
                proof {
                    lemma_scatter_line_len(ybefore, self.values@, self.row_idx@, xj, lo as int, k as int);
                }
                let r = self.row_idx[k];
                let v = y[r].plus(self.values[k].times(xj));
                y.set(r, v);
            }
        }
        Ok(DVector::from_vec(y))
    }
}


// ===========================================================================
// Iterative solvers
// ===========================================================================

/// `a + b`, componentwise over `a`'s length.
pub open spec fn seq_add<T: Scalar>(a: Seq<T>, b: Seq<T>) -> Seq<T> {
    Seq::new(a.len(), |i: int| a[i].plus_spec(b[i]))
}

/// `a - b`, componentwise over `a`'s length.
pub open spec fn seq_sub<T: Scalar>(a: Seq<T>, b: Seq<T>) -> Seq<T> {
    Seq::new(a.len(), |i: int| a[i].minus_spec(b[i]))
}

/// `a * s`, componentwise.
pub open spec fn seq_times<T: Scalar>(a: Seq<T>, s: T) -> Seq<T> {
    Seq::new(a.len(), |i: int| a[i].times_spec(s))
}

/// The dot product over the common length, accumulated in order from zero.
pub open spec fn seq_dot<T: Scalar>(a: Seq<T>, b: Seq<T>) -> T {
    dot_prefix(a, b, if a.len() <= b.len() { a.len() as int } else { b.len() as int })
}

/// The Euclidean norm, the square root of the in-order sum of squares.
pub open spec fn seq_norm<T: Scalar>(a: Seq<T>) -> T {
    dot_prefix(a, a, a.len() as int).sqrt_spec()
}

/// `n` zeros.
pub open spec fn seq_zeros<T: Scalar>(n: nat) -> Seq<T> {
    Seq::new(n, |i: int| T::zero_spec())
}

/// The vector a solver starts from: `x0`, or zeros of length `n` without one.
pub open spec fn start_vector<T: Scalar>(x0: Option<DVector<T>>, n: nat) -> Seq<T> {
    match x0 {
        Some(v) => v@,
        None => seq_zeros(n),
    }
}

/// Conjugate gradient from iteration `it` of at most `max_iter`, with iterate `x`, residual
/// `r`, search direction `p` and `rs_old = r . r`: a breakdown (`|p . Ap| <= 0`) at
/// iteration `it` stops with `NotConverged { iterations: it }`; the first iterate whose
/// updated residual has norm at most `tol` is returned; running out of iterations gives
/// `NotConverged { iterations: max_iter }`.
pub open spec fn cg_iterate<T: Scalar>(
    a: &CsrMatrix<T>,
    tol: T,
    max_iter: nat,
    it: nat,
    x: Seq<T>,
    r: Seq<T>,
    p: Seq<T>,
    rs_old: T,
) -> Result<Seq<T>, SparseError>
    decreases max_iter - it,
{
    if it >= max_iter {
        Err(SparseError::NotConverged { iterations: max_iter as usize })
    } else {
        let ap = a.apply(p);
        let p_ap = seq_dot(p, ap);
        if p_ap.abs_spec().le_spec(T::zero_spec()) {
            Err(SparseError::NotConverged { iterations: it as usize })
        } else {
            let alpha = rs_old.divide_spec(p_ap);
            let x2 = seq_add(x, seq_times(p, alpha));
            let r2 = seq_sub(r, seq_times(ap, alpha));
            if seq_norm(r2).le_spec(tol) {
                Ok(x2)
            } else {
                let rs_new = seq_dot(r2, r2);
                let beta = rs_new.divide_spec(rs_old);
                cg_iterate(a, tol, max_iter, it + 1, x2, r2, seq_add(r2, seq_times(p, beta)), rs_new)
            }
        }
    }
}

/// The conjugate gradient method on `A x = b`: a dimension error unless `A` is square with
/// as many rows as `b` has components and the start vector fits; the start vector itself when
/// its residual `b - A x0` has norm at most `tol`; otherwise [`cg_iterate`] from it.
pub open spec fn cg_spec<T: Scalar>(a: &CsrMatrix<T>, b: Seq<T>, x0: Option<DVector<T>>, tol: T, max_iter: nat) -> Result<Seq<T>, SparseError> {
    if a.rows_spec() != a.cols_spec() || b.len() != a.rows_spec() {
        Err(SparseError::DimensionMismatch)
    } else {
        let x = start_vector(x0, b.len());
        if x.len() != a.cols_spec() {
            Err(SparseError::DimensionMismatch)
        } else {
            let r = seq_sub(b, a.apply(x));
            if seq_norm(r).le_spec(tol) {
                Ok(x)
            } else {
                cg_iterate(a, tol, max_iter, 0, x, r, r, seq_dot(r, r))
            }
        }
    }
}

/// `v`'s product with a well-formed square `a` of matching size.
fn apply_square<T: Scalar>(a: &CsrMatrix<T>, v: &DVector<T>) -> (r: DVector<T>)
    requires
        a.well_formed(),
        v@.len() == a.cols_spec(),
    ensures
        r@ == a.apply(v@),
        r@.len() == a.rows_spec(),
{
    match a.matvec(v) {
        Ok(y) => {
            assert(a.apply(v@).len() == a.rows_spec()) by {
                reveal_apply_len(a, v@);
            }
            y
        },
        Err(_) => {
            assert(false);
            DVector::from_vec(Vec::new())
        },
    }
}

/// The CSR product has one component per row.
proof fn reveal_apply_len<T: Scalar>(a: &CsrMatrix<T>, x: Seq<T>)
    ensures
        a.apply(x).len() == a.rows_spec(),
{
}

/// A copy of `v`.
fn copy_vec<T: Scalar>(v: &DVector<T>) -> (r: DVector<T>)
    ensures
        r@ == v@,
{
    DVector::from_row_slice(v.iter())
}

/// Solves `A x = b` by the conjugate gradient method for symmetric positive-definite `A`,
/// from `x0` (zeros without one), until the residual norm is at most `tol` or `max_iter`
/// iterations have run; see [`cg_spec`] for the result on every input.
pub fn conjugate_gradient<T: Scalar>(a: &CsrMatrix<T>, b: &DVector<T>, x0: Option<DVector<T>>, tol: T, max_iter: usize) -> (res: Result<DVector<T>, SparseError>)
    requires
        a.well_formed(),
    ensures
        match res {
            Ok(x) => cg_spec(a, b@, x0, tol, max_iter as nat) == Ok::<Seq<T>, SparseError>(x@),
            Err(e) => cg_spec(a, b@, x0, tol, max_iter as nat) == Err::<Seq<T>, SparseError>(e),
        },
{
    if a.nrows() != a.ncols() || b.len() != a.nrows() {
        return Err(SparseError::DimensionMismatch);
    }
    let n = b.len();
    let ghost spec_result = cg_spec(a, b@, x0, tol, max_iter as nat);
    let mut x = match x0 {
        Some(v) => v,
        None => DVector::zeros(n),
    };
    assert(x@ == start_vector(x0, b@.len()));
    let ax = match a.matvec(&x) {
        Ok(y) => y,
        Err(e) => {
            return Err(e);
        },
    };
    proof {
        reveal_apply_len(a, x@);
    }
    let mut r = copy_vec(b) - ax;
    assert(r@ =~= seq_sub(b@, a.apply(x@)));
    if r.norm().le(tol) {
        return Ok(x);
    }
    let mut p = copy_vec(&r);
    let mut rs_old = r.dot(&r);
    for it in 0..max_iter
        invariant
            a.well_formed(),
            n == a.rows_spec(),
            n == a.cols_spec(),
            x@.len() == n,
            r@.len() == n,
            p@.len() == n,
            spec_result == cg_spec(a, b@, x0, tol, max_iter as nat),
            cg_iterate(a, tol, max_iter as nat, it as nat, x@, r@, p@, rs_old) == spec_result,
    {
        let ap = apply_square(a, &p);
        let p_ap = p.dot(&ap);
        if p_ap.abs().le(T::zero()) {
            return Err(SparseError::NotConverged { iterations: it });
        }
        let alpha = rs_old.divide(p_ap);
        let ghost x_old = x@;
        let ghost r_old = r@;
        let ghost p_old = p@;
        x = copy_vec(&x) + copy_vec(&p) * alpha;
        assert(x@ =~= seq_add(x_old, seq_times(p_old, alpha)));
        r = copy_vec(&r) - ap * alpha;
        assert(r@ =~= seq_sub(r_old, seq_times(a.apply(p_old), alpha)));
        if r.norm().le(tol) {
            return Ok(x);
        }
        let rs_new = r.dot(&r);
        let beta = rs_new.divide(rs_old);
        p = copy_vec(&r) + p * beta;
        assert(p@ =~= seq_add(r@, seq_times(p_old, beta)));
        rs_old = rs_new;
    }
    Err(SparseError::NotConverged { iterations: max_iter })
}

/// The state BiCGSTAB carries from one iteration to the next.
pub struct BicgState<T> {
    pub x: Seq<T>,
    pub r: Seq<T>,
    pub p: Seq<T>,
    pub v: Seq<T>,
    pub rho: T,
    pub alpha: T,
    pub omega: T,
}

/// BiCGSTAB from iteration `it` of at most `max_iter` with shadow residual `r0` and state
/// `st`: a breakdown (`|r0 . r| <= 0` or `|r0 . Ap| <= 0`) at iteration `it` stops with
/// `NotConverged { iterations: it }`; the first iterate whose updated residual has norm at
/// most `tol` is returned; running out of iterations gives
/// `NotConverged { iterations: max_iter }`. The stabilising weight is one when `|t . t| <= 0`.
pub open spec fn bicgstab_iterate<T: Scalar>(
    a: &CsrMatrix<T>,
    tol: T,
    max_iter: nat,
    it: nat,
    r0: Seq<T>,
    st: BicgState<T>,
) -> Result<Seq<T>, SparseError>
    decreases max_iter - it,
{
    if it >= max_iter {
        Err(SparseError::NotConverged { iterations: max_iter as usize })
    } else {
        let rho_new = seq_dot(r0, st.r);
        if rho_new.abs_spec().le_spec(T::zero_spec()) {
            Err(SparseError::NotConverged { iterations: it as usize })
        } else {
            let beta = rho_new.divide_spec(st.rho).times_spec(st.alpha.divide_spec(st.omega));
            let p = seq_add(st.r, seq_times(seq_sub(st.p, seq_times(st.v, st.omega)), beta));
            let ap = a.apply(p);
            let r0_ap = seq_dot(r0, ap);
            if r0_ap.abs_spec().le_spec(T::zero_spec()) {
                Err(SparseError::NotConverged { iterations: it as usize })
            } else {
                let alpha = rho_new.divide_spec(r0_ap);
                let s = seq_sub(st.r, seq_times(ap, alpha));
                let t = a.apply(s);
                let t_sq = seq_dot(t, t);
                let omega = if t_sq.abs_spec().le_spec(T::zero_spec()) {
                    T::one_spec()
                } else {
                    seq_dot(t, s).divide_spec(t_sq)
                };
                let x = seq_add(seq_add(st.x, seq_times(p, alpha)), seq_times(s, omega));
                let r = seq_sub(s, seq_times(t, omega));
                if seq_norm(r).le_spec(tol) {
                    Ok(x)
                } else {
                    bicgstab_iterate(a, tol, max_iter, it + 1, r0, BicgState { x, r, p, v: ap, rho: rho_new, alpha, omega })
                }
            }
        }
    }
}

/// BiCGSTAB on `A x = b`: a dimension error unless `A` is square with as many rows as `b`
/// has components and the start vector fits; the start vector itself when its residual has
/// norm at most `tol`; otherwise [`bicgstab_iterate`] from it, with the residual as shadow
/// residual, zero `p` and `v`, and `rho`, `alpha`, `omega` one.
pub open spec fn bicgstab_spec<T: Scalar>(a: &CsrMatrix<T>, b: Seq<T>, x0: Option<DVector<T>>, tol: T, max_iter: nat) -> Result<Seq<T>, SparseError> {
    if a.rows_spec() != a.cols_spec() || b.len() != a.rows_spec() {
        Err(SparseError::DimensionMismatch)
    } else {
        let x = start_vector(x0, b.len());
        if x.len() != a.cols_spec() {
            Err(SparseError::DimensionMismatch)
        } else {
            let r = seq_sub(b, a.apply(x));
            if seq_norm(r).le_spec(tol) {
                Ok(x)
            } else {
                bicgstab_iterate(
                    a,
                    tol,
                    max_iter,
                    0,
                    r,
                    BicgState {
                        x,
                        r,
                        p: seq_zeros(b.len()),
                        v: seq_zeros(b.len()),
                        rho: T::one_spec(),
                        alpha: T::one_spec(),
                        omega: T::one_spec(),
                    },
                )
            }
        }
    }
}

/// Solves `A x = b` by BiCGSTAB for general (non-symmetric) `A`, from `x0` (zeros without
/// one), until the residual norm is at most `tol` or `max_iter` iterations have run; see
/// [`bicgstab_spec`] for the result on every input.
pub fn bicgstab<T: Scalar>(a: &CsrMatrix<T>, b: &DVector<T>, x0: Option<DVector<T>>, tol: T, max_iter: usize) -> (res: Result<DVector<T>, SparseError>)
    requires
        a.well_formed(),
    ensures
        match res {
            Ok(x) => bicgstab_spec(a, b@, x0, tol, max_iter as nat) == Ok::<Seq<T>, SparseError>(x@),
            Err(e) => bicgstab_spec(a, b@, x0, tol, max_iter as nat) == Err::<Seq<T>, SparseError>(e),
        },
{
    if a.nrows() != a.ncols() || b.len() != a.nrows() {
        return Err(SparseError::DimensionMismatch);
    }
    let n = b.len();
    let ghost spec_result = bicgstab_spec(a, b@, x0, tol, max_iter as nat);
    let mut x = match x0 {
        Some(v) => v,
        None => DVector::zeros(n),
    };
    assert(x@ == start_vector(x0, b@.len()));
    let ax = match a.matvec(&x) {
        Ok(y) => y,
        Err(e) => {
            return Err(e);
        },
    };
    proof {
        reveal_apply_len(a, x@);
    }
    let mut r = copy_vec(b) - ax;
    assert(r@ =~= seq_sub(b@, a.apply(x@)));
    if r.norm().le(tol) {
        return Ok(x);
    }
    let r0 = copy_vec(&r);
    let mut p: DVector<T> = DVector::zeros(n);
    let mut v: DVector<T> = DVector::zeros(n);
    let mut rho = T::one();
    let mut alpha = T::one();
    let mut omega = T::one();
    for it in 0..max_iter
        invariant
            a.well_formed(),
            n == a.rows_spec(),
            n == a.cols_spec(),
            x@.len() == n,
            r@.len() == n,
            r0@.len() == n,
            p@.len() == n,
            v@.len() == n,
            spec_result == bicgstab_spec(a, b@, x0, tol, max_iter as nat),
            bicgstab_iterate(
                a,
                tol,
                max_iter as nat,
                it as nat,
                r0@,
                BicgState { x: x@, r: r@, p: p@, v: v@, rho, alpha, omega },
            ) == spec_result,
    {
        let rho_new = r0.dot(&r);
        if rho_new.abs().le(T::zero()) {
            return Err(SparseError::NotConverged { iterations: it });
        }
        let beta = rho_new.divide(rho).times(alpha.divide(omega));
        let ghost p_old = p@;
        let ghost v_old = v@;
        let ghost r_old = r@;
        let ghost x_old = x@;
        p = copy_vec(&r) + (p - copy_vec(&v) * omega) * beta;
        assert(p@ =~= seq_add(r_old, seq_times(seq_sub(p_old, seq_times(v_old, omega)), beta)));
        let ap = apply_square(a, &p);
        v = copy_vec(&ap);
        let r0_ap = r0.dot(&ap);
        if r0_ap.abs().le(T::zero()) {
            return Err(SparseError::NotConverged { iterations: it });
        }
        alpha = rho_new.divide(r0_ap);
        let s = copy_vec(&r) - ap * alpha;
        assert(s@ =~= seq_sub(r_old, seq_times(a.apply(p@), alpha)));
        let t = apply_square(a, &s);
        let t_sq = t.dot(&t);
        omega = if t_sq.abs().le(T::zero()) {
            T::one()
        } else {
            t.dot(&s).divide(t_sq)
        };
        x = copy_vec(&x) + copy_vec(&p) * alpha + copy_vec(&s) * omega;
        assert(x@ =~= seq_add(seq_add(x_old, seq_times(p@, alpha)), seq_times(s@, omega)));
        r = copy_vec(&s) - t * omega;
        assert(r@ =~= seq_sub(s@, seq_times(a.apply(s@), omega)));
        if r.norm().le(tol) {
            return Ok(x);
        }
        rho = rho_new;
    }
    Err(SparseError::NotConverged { iterations: max_iter })
}

} // verus!
