//! Adaptive percentile threshold: the squared gradient magnitudes with the
//! zeros discarded are sorted ascending and the value at rank `floor(0.85*n)`
//! (clamped to the last index) becomes the single edge threshold.  When no
//! nonzero magnitude exists the threshold is zero.

use vstd::prelude::*;
use vstd::relations::{sorted_by, total_ordering};
use vstd::seq_lib::lemma_sorted_unique;
use crate::grid::as_ints;

verus! {

/// The nonzero entries of a field, in order.
pub open spec fn nonzero_of(values: Seq<int>) -> Seq<int> {
    values.filter(|v: int| v != 0)
}

/// Rank of the 85th percentile in a sorted sample of length `n`:
/// `floor(n * 0.85)`, clamped to the last valid index.
pub open spec fn percentile_index(n: int) -> int {
    let i = 17 * n / 20;
    if i > n - 1 {
        n - 1
    } else {
        i
    }
}

/// The percentile threshold of a magnitude field: zero when every entry is
/// zero, otherwise the value at the percentile rank of the ascending sort
/// of the nonzero entries.
pub open spec fn percentile_spec(values: Seq<int>) -> int {
    let nz = nonzero_of(values);
    if nz.len() == 0 {
        0
    } else {
        nz.sort()[percentile_index(nz.len() as int)]
    }
}

/// A sorted run of nonzero magnitudes is its own sort, so the threshold it
/// yields is exactly its element at the percentile rank.
pub proof fn lemma_percentile_of_sorted(values: Seq<int>)
    requires
        values.len() > 0,
        forall|i: int| 0 <= i < values.len() ==> #[trigger] values[i] != 0,
        forall|i: int, j: int| 0 <= i <= j < values.len() ==> values[i] <= values[j],
    ensures
        percentile_spec(values) == values[percentile_index(values.len() as int)],
{
    lemma_filter_all_nonzero(values);
    let leq = |x: int, y: int| x <= y;
    assert(total_ordering(leq));
    values.lemma_sort_ensures();
    assert(sorted_by(values, leq));
    lemma_sorted_unique(values, values.sort(), leq);
}

/// Filtering keeps a sequence without zero entries unchanged.
proof fn lemma_filter_all_nonzero(values: Seq<int>)
    requires
        forall|i: int| 0 <= i < values.len() ==> #[trigger] values[i] != 0,
    ensures
        nonzero_of(values) == values,
    decreases values.len(),
{
    reveal(Seq::filter);
    if values.len() == 0 {
        assert(nonzero_of(values) =~= values);
    } else {
        lemma_filter_all_nonzero(values.drop_last());
        assert(nonzero_of(values) =~= values);
    }
}

/// Sorts a field of samples ascending in place; the result is a
/// permutation of the input.
pub fn sort_ascending(v: &mut Vec<i64>)
    ensures
        final(v)@.len() == old(v)@.len(),
        as_ints(final(v)@) == as_ints(old(v)@).sort(),
        forall|a: int, b: int| 0 <= a <= b < final(v)@.len() ==> final(v)@[a] <= final(v)@[b],
{
    let ghost ms0 = as_ints(old(v)@).to_multiset();
    let n = v.len();
    let mut i: usize = 0;
    while i < n
        invariant
            n == v@.len(),
            i <= n,
            as_ints(v@).to_multiset() == ms0,
            forall|a: int, b: int| 0 <= a < i && a <= b < n ==> v@[a] <= v@[b],
        decreases n - i,
    {
        let mut m = i;
        let mut j = i + 1;
        while j < n
            invariant
                n == v@.len(),
                i < n,
                i <= m < j <= n,
                forall|t: int| i <= t < j ==> v@[m as int] <= v@[t],
            decreases n - j,
        {
            if v[j] < v[m] {
                m = j;
            }
            j = j + 1;
        }
        if m != i {
            let a = v[i];
            let b = v[m];
            let ghost pre = v@;
            v[i] = b;
            v[m] = a;
            proof {
                lemma_swap_multiset(pre, v@, i as int, m as int);
            }
        }
        i = i + 1;
    }
    proof {
        let s0 = as_ints(old(v)@);
        let s1 = as_ints(v@);
        let leq = |x: int, y: int| x <= y;
        assert(total_ordering(leq));
        s0.lemma_sort_ensures();
        assert(sorted_by(s1, leq));
        assert(sorted_by(s0.sort(), leq));
        assert(s1.to_multiset() == s0.sort().to_multiset());
        lemma_sorted_unique(s1, s0.sort(), leq);
        assert(s1 == s0.sort());
    }
}

/// Swapping two entries preserves the multiset of samples.
proof fn lemma_swap_multiset(pre: Seq<i64>, post: Seq<i64>, i: int, m: int)
    requires
        0 <= i < pre.len(),
        0 <= m < pre.len(),
        i != m,
        post == pre.update(i, pre[m]).update(m, pre[i]),
    ensures
        as_ints(post).to_multiset() == as_ints(pre).to_multiset(),
{
    broadcast use vstd::seq_lib::to_multiset_update;
    broadcast use vstd::multiset::group_multiset_axioms;

    let p = as_ints(pre);
    let q = as_ints(post);
    let u1 = p.update(i, p[m]);
    assert(u1 =~= as_ints(pre.update(i, pre[m])));
    assert(q =~= u1.update(m, p[i]));
    assert(u1.to_multiset() == p.to_multiset().insert(p[m]).remove(p[i]));
    assert(q.to_multiset() == u1.to_multiset().insert(p[i]).remove(u1[m]));
    assert(u1[m] == p[m]);
    p.to_multiset_ensures();
    assert(p.to_multiset().contains(p[i]));
    assert(q.to_multiset() =~= p.to_multiset());
}

/// Computes the percentile threshold of a magnitude field: discards zero
/// entries, sorts the rest ascending, and returns the entry at rank
/// `floor(0.85 * n)` clamped to the last index, or zero when every entry
/// is zero.
pub fn percentile_threshold(mags: &Vec<i64>) -> (t: i64)
    ensures
        t as int == percentile_spec(as_ints(mags@)),
        (exists|i: int| 0 <= i < mags@.len() && mags@[i] != 0) ==> (exists|i: int|
            0 <= i < mags@.len() && t == mags@[i] && t != 0),
        (forall|i: int| 0 <= i < mags@.len() ==> mags@[i] == 0) ==> t == 0,
{
    let ghost all = as_ints(mags@);
    let ghost p = |v: int| v != 0;
    let n = mags.len();
    let mut nz: Vec<i64> = Vec::new();
    let mut i: usize = 0;
    while i < n
        invariant
            n == mags@.len(),
            i <= n,
            all == as_ints(mags@),
            p == (|v: int| v != 0),
            as_ints(nz@) == all.take(i as int).filter(p),
            forall|t: int| 0 <= t < nz@.len() ==> exists|s: int| 0 <= s < mags@.len() && #[trigger] nz@[t] == mags@[s] && nz@[t] != 0,
        decreases n - i,
    {
        let ghost tk = all.take(i as int);
        let ghost tk1 = all.take(i as int + 1);
        proof {
            reveal(Seq::filter);
            assert(tk1.drop_last() =~= tk);
            assert(tk1.last() == all[i as int]);
        }
        let x = mags[i];
        if x != 0 {
            nz.push(x);
            proof {
                reveal(Seq::filter);
                assert(as_ints(nz@) =~= tk.filter(p).push(x as int));
                assert(tk1.filter(p) == tk.filter(p).push(tk1.last()));
            }
        } else {
            proof {
                reveal(Seq::filter);
                assert(tk1.filter(p) == tk.filter(p));
            }
        }
        i = i + 1;
    }
    proof {
        assert(all.take(n as int) =~= all);
    }
    if nz.len() == 0 {
        proof {
            assert(nonzero_of(all).len() == 0);
            assert forall|t: int| 0 <= t < mags@.len() implies mags@[t] == 0 by {
                if mags@[t] != 0 {
                    all.lemma_filter_contains(p, t);
                }
            }
        }
        return 0;
    }
    let ghost nz_pre = as_ints(nz@);
    sort_ascending(&mut nz);
    let m = nz.len();
    let idx128: u128 = (m as u128) * 17 / 20;
    assert(idx128 as int == 17 * (m as int) / 20);
    let idx: usize = if (idx128 as usize) > m - 1 {
        m - 1
    } else {
        idx128 as usize
    };
    proof {
        assert(17 * (m as int) / 20 < m as int) by (nonlinear_arith)
            requires 1 <= m as int;
        assert(idx as int == percentile_index(m as int));
    }
    let t = nz[idx];
    proof {
        assert(as_ints(nz@) == nonzero_of(all).sort());
        assert(t as int == percentile_spec(all));
        let srt = nonzero_of(all).sort();
        nonzero_of(all).lemma_sort_ensures();
        assert(srt.to_multiset() == nonzero_of(all).to_multiset());
        nonzero_of(all).to_multiset_ensures();
        srt.to_multiset_ensures();
        assert(srt.contains(srt[idx as int]));
        assert(nonzero_of(all).to_multiset().contains(srt[idx as int]));
        assert(nonzero_of(all).contains(srt[idx as int]));
        let s = choose|s: int| 0 <= s < nz_pre.len() && nz_pre[s] == srt[idx as int];
        assert(exists|s2: int| 0 <= s2 < mags@.len() && t == mags@[s2] && t != 0);
    }
    t
}

} // verus!
