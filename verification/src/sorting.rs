//! Sorting of price values, used for medians and quartiles.

use vstd::prelude::*;

verus! {

broadcast use vstd::seq_lib::group_to_multiset_ensures;

/// Whether a sequence is in non-decreasing order.
pub open spec fn is_sorted(s: Seq<i128>) -> bool {
    forall|i: int, j: int| 0 <= i <= j < s.len() ==> s[i] <= s[j]
}

/// Whether `t` is `s` put in non-decreasing order.
pub open spec fn is_sorted_version(t: Seq<i128>, s: Seq<i128>) -> bool {
    is_sorted(t) && t.to_multiset() =~= s.to_multiset()
}

proof fn lemma_insert_multiset(s: Seq<i128>, i: int, a: i128)
    requires
        0 <= i <= s.len(),
    ensures
        s.insert(i, a).to_multiset() =~= s.to_multiset().insert(a),
{
    let t = s.insert(i, a);
    s.insert_ensures(i, a);
    assert(t.remove(i) =~= s);
    assert(t[i] == a);
    assert(t.remove(i).to_multiset() =~= t.to_multiset().remove(a));
    assert(t.contains(a));
    assert(t.to_multiset().count(a) > 0);
}

/// A sequence has exactly one sorted version.
pub proof fn lemma_sorted_version_unique(a: Seq<i128>, b: Seq<i128>)
    requires
        is_sorted(a),
        is_sorted(b),
        a.to_multiset() =~= b.to_multiset(),
    ensures
        a =~= b,
    decreases a.len(),
{
    assert(a.len() == a.to_multiset().len());
    assert(b.len() == b.to_multiset().len());
    if a.len() > 0 {
        assert(a.contains(a[0]));
        assert(a.to_multiset().count(a[0]) > 0);
        assert(b.contains(a[0]));
        let j = choose|j: int| 0 <= j < b.len() && b[j] == a[0];
        assert(b[0] <= b[j]);
        assert(b.contains(b[0]));
        assert(b.to_multiset().count(b[0]) > 0);
        assert(a.contains(b[0]));
        let k = choose|k: int| 0 <= k < a.len() && a[k] == b[0];
        assert(a[0] <= a[k]);
        assert(a[0] == b[0]);
        let a1 = a.remove(0);
        let b1 = b.remove(0);
        assert(a1.to_multiset() =~= a.to_multiset().remove(a[0]));
        assert(b1.to_multiset() =~= b.to_multiset().remove(b[0]));
        assert(is_sorted(a1)) by {
            assert forall|i: int, j: int| 0 <= i <= j < a1.len() implies a1[i] <= a1[j] by {
                assert(a1[i] == a[i + 1] && a1[j] == a[j + 1]);
            }
        }
        assert(is_sorted(b1)) by {
            assert forall|i: int, j: int| 0 <= i <= j < b1.len() implies b1[i] <= b1[j] by {
                assert(b1[i] == b[i + 1] && b1[j] == b[j + 1]);
            }
        }
        lemma_sorted_version_unique(a1, b1);
        assert forall|i: int| 0 <= i < a.len() implies a[i] == b[i] by {
            if i > 0 {
                assert(a[i] == a1[i - 1] && b[i] == b1[i - 1]);
            }
        }
    }
}

/// A sequence put in non-decreasing order.
pub open spec fn sorted_values(s: Seq<i128>) -> Seq<i128> {
    s.sort_by(|x: i128, y: i128| x <= y)
}

/// `sorted_values` is a sorted rearrangement of its argument.
pub proof fn lemma_sorted_values(s: Seq<i128>)
    ensures
        is_sorted_version(sorted_values(s), s),
{
    let leq = |x: i128, y: i128| x <= y;
    assert(vstd::relations::total_ordering(leq));
    s.lemma_sort_by_ensures(leq);
    let t = sorted_values(s);
    assert forall|i: int, j: int| 0 <= i <= j < t.len() implies t[i] <= t[j] by {
        if i < j {
            assert(leq(t[i], t[j]));
        }
    }
}

/// The values in non-decreasing order.
pub fn sort_values(v: &Vec<i128>) -> (r: Vec<i128>)
    ensures
        is_sorted_version(r@, v@),
        r@ == sorted_values(v@),
{
    let mut out: Vec<i128> = Vec::new();
    let mut i: usize = 0;
    while i < v.len()
        invariant
            i <= v@.len(),
            is_sorted(out@),
            out@.to_multiset() =~= v@.take(i as int).to_multiset(),
        decreases v@.len() - i,
    {
        let x = v[i];
        let mut k: usize = 0;
        while k < out.len() && out[k] <= x
            invariant
                k <= out@.len(),
                forall|m: int| 0 <= m < k ==> out@[m] <= x,
            decreases out@.len() - k,
        {
            k = k + 1;
        }
        let ghost before = out@;
        proof {
            lemma_insert_multiset(before, k as int, x);
            before.insert_ensures(k as int, x);
        }
        out.insert(k, x);
        assert(is_sorted(out@)) by {
            assert forall|a: int, b: int| 0 <= a <= b < out@.len() implies out@[a] <= out@[b] by {
                if a < k && b < k {
                    assert(out@[a] == before[a] && out@[b] == before[b]);
                } else if a < k && b == k {
                    assert(out@[a] == before[a]);
                } else if a < k {
                    assert(out@[a] == before[a] && out@[b] == before[b - 1]);
                } else if a == k && b == k {
                } else if a == k {
                    assert(out@[b] == before[b - 1]);
                    assert(before[k as int] > x);
                    assert(before[k as int] <= before[b - 1]);
                } else {
                    assert(out@[a] == before[a - 1] && out@[b] == before[b - 1]);
                }
            }
        }
        assert(v@.take(i + 1) =~= v@.take(i as int).push(x));
        i = i + 1;
    }
    assert(v@.take(v@.len() as int) =~= v@);
    proof {
        lemma_sorted_values(v@);
        lemma_sorted_version_unique(out@, sorted_values(v@));
    }
    out
}

} // verus!
