//! Permutation helpers: the specification of an index permutation, the one
//! call into the random number generator, and a verified sort used by the
//! un-shuffle strategies.

use vstd::prelude::*;

verus! {

/// `o` is a permutation of the positions `0..n`: it has length `n`, every
/// entry is a valid position, and no position occurs twice.
pub open spec fn is_permutation(o: Seq<usize>, n: nat) -> bool {
    &&& o.len() == n
    &&& forall|i: int| 0 <= i < o.len() ==> (#[trigger] o[i]) < n
    &&& forall|i: int, j: int| 0 <= i < j < o.len() ==> o[i] != o[j]
}

/// Relies on `rand::seq::SliceRandom::shuffle` with `rand::thread_rng()`:
/// the Fisher-Yates shuffle rearranges the addressed range in place, so the
/// entries from `start` on afterwards hold the same values with the same
/// multiplicities, in some order.
#[verifier::external_body]
pub(crate) fn shuffle_from(v: &mut Vec<usize>, start: usize)
    requires
        start <= old(v).len(),
    ensures
        final(v)@.len() == old(v)@.len(),
        forall|i: int| 0 <= i < start ==> final(v)@[i] == old(v)@[i],
        final(v)@.skip(start as int).to_multiset() == old(v)@.skip(start as int).to_multiset(),
{
    rand::seq::SliceRandom::shuffle(&mut v[start..], &mut rand::thread_rng());
}

/// The identity order of a store of `n` items: position `i` maps to raw
/// index `i`.
pub fn identity_order(n: usize) -> (r: Vec<usize>)
    ensures
        r@.len() == n,
        forall|j: int| 0 <= j < n ==> (#[trigger] r@[j]) == j,
        is_permutation(r@, n as nat),
{
    let mut v: Vec<usize> = Vec::new();
    let mut i: usize = 0;
    while i < n
        invariant
            i <= n,
            v@.len() == i,
            forall|j: int| 0 <= j < i ==> (#[trigger] v@[j]) == j,
        decreases n - i,
    {
        v.push(i);
        i += 1;
    }
    v
}

/// A random permutation of the positions `0..size`.
pub fn shuffled_vec(size: usize) -> (r: Vec<usize>)
    ensures
        is_permutation(r@, size as nat),
{
    let mut v = identity_order(size);
    let ghost before = v@;
    shuffle_from(&mut v, 0);
    proof {
        assert(before.skip(0) =~= before);
        assert(v@.skip(0) =~= v@);
        lemma_multiset_equal_permutation(before, v@, size as nat);
    }
    v
}

/// Two sequences with equal multisets have the same length and the same set
/// of values with the same multiplicities; so if one is a permutation of
/// `0..n`, the other is too.
pub proof fn lemma_multiset_equal_permutation(a: Seq<usize>, b: Seq<usize>, n: nat)
    requires
        is_permutation(a, n),
        a.to_multiset() == b.to_multiset(),
    ensures
        is_permutation(b, n),
{
    broadcast use vstd::seq_lib::group_to_multiset_ensures;

    assert(b.len() == n) by {
        assert(a.to_multiset().len() == a.len());
        assert(b.to_multiset().len() == b.len());
    }
    assert forall|i: int| 0 <= i < b.len() implies (#[trigger] b[i]) < n by {
        assert(b.to_multiset().count(b[i]) > 0);
        assert(a.to_multiset().count(b[i]) > 0);
        assert(a.contains(b[i]));
    }
    assert(a.no_duplicates()) by {
        assert forall|i: int, j: int|
            0 <= i < a.len() && 0 <= j < a.len() && i != j implies a[i] != a[j] by {
            if i < j {
                assert(a[i] != a[j]);
            } else {
                assert(a[j] != a[i]);
            }
        }
    }
    a.lemma_multiset_has_no_duplicates();
    b.lemma_multiset_has_no_duplicates_conv();
    assert(b.no_duplicates());
}

/// `s` is sorted ascending.
pub open spec fn sorted(s: Seq<usize>) -> bool {
    forall|i: int, j: int| 0 <= i < j < s.len() ==> s[i] <= s[j]
}

/// Swapping two positions of a sequence keeps its multiset.
proof fn lemma_swap_multiset(s: Seq<usize>, i: int, j: int)
    requires
        0 <= i < j < s.len(),
    ensures
        s.update(i, s[j]).update(j, s[i]).to_multiset() == s.to_multiset(),
{
    broadcast use vstd::multiset::group_multiset_axioms;
    broadcast use vstd::seq_lib::group_to_multiset_ensures;

    vstd::seq_lib::to_multiset_update(s, i, s[j]);
    let s1 = s.update(i, s[j]);
    vstd::seq_lib::to_multiset_update(s1, j, s[i]);
    assert(s.contains(s[i]));
    assert(s1.update(j, s[i]).to_multiset() =~= s.to_multiset());
}

/// Sort the vector ascending, by insertion sort.
pub fn sort_indices(v: &mut Vec<usize>)
    ensures
        final(v)@.len() == old(v)@.len(),
        sorted(final(v)@),
        final(v)@.to_multiset() == old(v)@.to_multiset(),
{
    let n = v.len();
    let mut i: usize = 1;
    while i < n
        invariant
            n == v@.len(),
            i >= 1,
            v@.to_multiset() == old(v)@.to_multiset(),
            forall|a: int, b: int| 0 <= a < b < i && b < n ==> v@[a] <= v@[b],
        decreases n - i,
    {
        let mut j: usize = i;
        while j > 0 && v[j - 1] > v[j]
            invariant
                n == v@.len(),
                i < n,
                0 <= j <= i,
                v@.to_multiset() == old(v)@.to_multiset(),
                forall|a: int, b: int| 0 <= a < b <= i && b != j ==> v@[a] <= v@[b],
            decreases j,
        {
            let ghost before = v@;
            let x = v[j - 1];
            let y = v[j];
            v[j - 1] = y;
            v[j] = x;
            proof {
                lemma_swap_multiset(before, j as int - 1, j as int);
                assert(v@ =~= before.update(j as int - 1, before[j as int]).update(
                    j as int,
                    before[j as int - 1],
                ));
            }
            j = j - 1;
        }
        i += 1;
    }
}

/// The raw indices `lo`, `lo + 1`, ..., `hi - 1`, in order; empty if
/// `hi <= lo`.
pub open spec fn index_range(lo: int, hi: int) -> Seq<usize> {
    Seq::new(
        if hi > lo {
            (hi - lo) as nat
        } else {
            0
        },
        |i: int| (lo + i) as usize,
    )
}

/// Append the raw indices `lo..hi` to `v`.
pub fn push_index_range(v: &mut Vec<usize>, lo: usize, hi: usize)
    ensures
        final(v)@ == old(v)@ + index_range(lo as int, hi as int),
{
    let mut k = lo;
    if hi <= lo {
        assert(v@ =~= old(v)@ + index_range(lo as int, hi as int));
        return ;
    }
    while k < hi
        invariant
            lo <= k <= hi,
            v@ == old(v)@ + index_range(lo as int, k as int),
        decreases hi - k,
    {
        v.push(k);
        assert(v@ =~= old(v)@ + index_range(lo as int, k + 1 as int));
        k += 1;
    }
}

/// The first `k` entries of `v`, as a new vector.
pub fn prefix_of(v: &Vec<usize>, k: usize) -> (r: Vec<usize>)
    requires
        k <= v@.len(),
    ensures
        r@ == v@.take(k as int),
{
    let mut out: Vec<usize> = Vec::new();
    let mut i: usize = 0;
    while i < k
        invariant
            i <= k <= v@.len(),
            out@.len() == i,
            forall|j: int| 0 <= j < i ==> (#[trigger] out@[j]) == v@[j],
        decreases k - i,
    {
        out.push(v[i]);
        i += 1;
    }
    assert(out@ =~= v@.take(k as int));
    out
}

/// Two sequences that agree up to `k` and whose parts from `k` on hold the
/// same values with the same multiplicities hold the same values overall.
pub proof fn lemma_prefix_suffix_multiset(a: Seq<usize>, b: Seq<usize>, k: int)
    requires
        0 <= k <= a.len(),
        a.len() == b.len(),
        forall|i: int| 0 <= i < k ==> a[i] == b[i],
        a.skip(k).to_multiset() == b.skip(k).to_multiset(),
    ensures
        a.to_multiset() == b.to_multiset(),
{
    broadcast use vstd::seq_lib::lemma_multiset_commutative;

    assert(a =~= a.take(k) + a.skip(k));
    assert(b =~= b.take(k) + b.skip(k));
    assert(a.take(k) =~= b.take(k));
    assert(a.to_multiset() =~= a.take(k).to_multiset().add(a.skip(k).to_multiset()));
    assert(b.to_multiset() =~= b.take(k).to_multiset().add(b.skip(k).to_multiset()));
}

/// A sequence with the same multiset as one whose entries are below `n` has
/// its entries below `n` too.
pub proof fn lemma_multiset_entries_bounded(a: Seq<usize>, b: Seq<usize>, n: int)
    requires
        a.to_multiset() == b.to_multiset(),
        forall|i: int| 0 <= i < a.len() ==> (#[trigger] a[i]) < n,
    ensures
        forall|i: int| 0 <= i < b.len() ==> (#[trigger] b[i]) < n,
{
    broadcast use vstd::seq_lib::group_to_multiset_ensures;

    assert forall|i: int| 0 <= i < b.len() implies (#[trigger] b[i]) < n by {
        assert(b.contains(b[i]));
        assert(b.to_multiset().count(b[i]) > 0);
        assert(a.to_multiset().count(b[i]) > 0);
        assert(a.contains(b[i]));
    }
}

} // verus!
