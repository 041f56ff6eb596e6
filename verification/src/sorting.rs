//! Sorting bit patterns by the total order of the numbers they stand for.

use vstd::multiset::Multiset;
use vstd::prelude::*;

use crate::heap::MinHeap;
use crate::ieee;

verus! {

/// The total order of 32-bit patterns.
pub open spec fn total_le32() -> spec_fn(u32, u32) -> bool {
    |a: u32, b: u32| ieee::total32(a) <= ieee::total32(b)
}

spec fn keys(s: Seq<u32>) -> Seq<u128> {
    s.map_values(|b: u32| ieee::total32(b) as u128)
}

proof fn lemma_total_order()
    ensures
        vstd::relations::total_ordering(total_le32()),
{
    let leq = total_le32();
    assert forall|a: u32, b: u32| #[trigger] leq(a, b) && #[trigger] leq(b, a) implies a == b by {
        ieee::lemma_total_refines_rank32(a, b);
    }
}

proof fn lemma_key_count(s: Seq<u32>, x: u32)
    ensures
        s.to_multiset().count(x) == keys(s).to_multiset().count(ieee::total32(x) as u128),
    decreases s.len(),
{
    broadcast use vstd::seq_lib::group_to_multiset_ensures;

    if s.len() == 0 {
        assert(s.to_multiset().len() == 0);
        assert(keys(s).to_multiset().len() == 0);
    } else {
        let t = s.drop_last();
        lemma_key_count(t, x);
        assert(s =~= t.push(s.last()));
        assert(keys(s) =~= keys(t).push(ieee::total32(s.last()) as u128));
        ieee::lemma_total_refines_rank32(x, s.last());
    }
}

/// The patterns in the total order, lowest first.
pub fn sorted32(v: &Vec<u32>) -> (r: Vec<u32>)
    ensures
        r@ == v@.sort_by(total_le32()),
{
    broadcast use vstd::seq_lib::group_to_multiset_ensures;

    let n: usize = v.len();
    let mut open = MinHeap::new();
    let mut i: usize = 0;
    assert(keys(v@.take(0)).to_multiset() =~= open@) by {
        assert(keys(v@.take(0)).len() == 0);
        assert(keys(v@.take(0)).to_multiset().len() == 0);
    }
    while i < n
        invariant
            i <= n == v@.len(),
            open.wf(),
            open@ == keys(v@.take(i as int)).to_multiset(),
        decreases n - i,
    {
        let k: u128 = ieee::ordered(v[i]) as u128;
        open.push(k);
        proof {
            broadcast use vstd::seq_lib::group_to_multiset_ensures;

            assert(v@.take(i + 1) =~= v@.take(i as int).push(v@[i as int]));
            assert(keys(v@.take(i + 1)) =~= keys(v@.take(i as int)).push(k));
        }
        i += 1;
    }
    let mut r: Vec<u32> = Vec::with_capacity(n);
    proof {
        assert(v@.take(n as int) =~= v@);
        assert(keys(r@).len() == 0);
        assert(keys(r@).to_multiset().len() == 0);
        assert(keys(r@).to_multiset().add(open@) =~= keys(v@).to_multiset());
        assert(keys(v@).to_multiset().len() == n);
    }
    loop
        invariant
            open.wf(),
            keys(r@).to_multiset().add(open@) == keys(v@).to_multiset(),
            forall|a: int, b: int|
                0 <= a < b < r@.len() ==> ieee::total32(#[trigger] r@[a]) <= ieee::total32(
                    #[trigger] r@[b],
                ),
            forall|a: int, x: u128|
                0 <= a < r@.len() && #[trigger] open@.count(x) > 0 ==> ieee::total32(
                    #[trigger] r@[a],
                ) <= x,
            forall|x: u128| #[trigger] keys(v@).to_multiset().count(x) > 0 ==> x <= u32::MAX,
        ensures
            open@.len() == 0,
        decreases open@.len(),
    {
        let ghost left = open@;
        if let Some(k) = open.pop() {
            assert(keys(v@).to_multiset().count(k) > 0);
            let b: u32 = ieee::from_ordered(k as u32);
            let ghost before = r@;
            r.push(b);
            proof {
                broadcast use vstd::seq_lib::group_to_multiset_ensures;

                assert(keys(r@) =~= keys(before).push(k));
                assert(keys(r@).to_multiset().add(open@) =~= keys(v@).to_multiset());
                assert forall|a: int, x: u128|
                    0 <= a < r@.len() && #[trigger] open@.count(x) > 0 implies ieee::total32(
                    #[trigger] r@[a],
                ) <= x by {
                    assert(left.count(x) > 0);
                }
                assert forall|a: int, c: int| 0 <= a < c < r@.len() implies ieee::total32(
                    #[trigger] r@[a],
                ) <= ieee::total32(#[trigger] r@[c]) by {
                    if c == before.len() {
                        assert(left.count(k) > 0);
                        assert(ieee::total32(before[a]) <= k);
                    }
                }
            }
        } else {
            break;
        }
    }
    proof {
        let leq = total_le32();
        lemma_total_order();
        assert(keys(r@).to_multiset() =~= keys(v@).to_multiset()) by {
            assert(open@ =~= Multiset::empty());
        }
        assert(r@.to_multiset() =~= v@.to_multiset()) by {
            assert forall|x: u32| r@.to_multiset().count(x) == v@.to_multiset().count(x) by {
                lemma_key_count(r@, x);
                lemma_key_count(v@, x);
            }
        }
        v@.lemma_sort_by_ensures(leq);
        assert(vstd::relations::sorted_by(r@, leq));
        vstd::seq_lib::lemma_sorted_unique(r@, v@.sort_by(leq), leq);
    }
    r
}

/// Sorting keeps the length.
pub proof fn lemma_sorted_len(s: Seq<u32>)
    ensures
        s.sort_by(total_le32()).len() == s.len(),
{
    broadcast use vstd::seq_lib::group_to_multiset_ensures;

    lemma_total_order();
    s.lemma_sort_by_ensures(total_le32());
    assert(s.to_multiset().len() == s.len());
    assert(s.sort_by(total_le32()).to_multiset().len() == s.sort_by(total_le32()).len());
}

proof fn lemma_filter_count(s: Seq<u32>, p: spec_fn(u32) -> bool)
    ensures
        s.filter(p).len() == s.to_multiset().filter(p).len(),
    decreases s.len(),
{
    broadcast use vstd::seq_lib::group_to_multiset_ensures;
    broadcast use Seq::lemma_filter_len_push;

    if s.len() == 0 {
        assert(s.to_multiset().len() == 0);
        assert(s.to_multiset().filter(p) =~= Multiset::empty());
        assert(s =~= Seq::empty());
        reveal(Seq::filter);
    } else {
        let (t, x) = (s.drop_last(), s.last());
        lemma_filter_count(t, p);
        assert(s =~= t.push(x));
        if p(x) {
            assert(s.to_multiset().filter(p) =~= t.to_multiset().filter(p).insert(x));
        } else {
            assert(s.to_multiset().filter(p) =~= t.to_multiset().filter(p));
        }
    }
}

/// In a sorted sequence, at most `k` numbers lie below the one in place `k`.
pub proof fn lemma_few_below(s: Seq<u32>, k: int, level: u32)
    requires
        0 <= k < s.len(),
        ieee::rank32(level) <= ieee::rank32(s.sort_by(total_le32())[k]),
    ensures
        s.filter(|b: u32| ieee::lt32(b, level)).len() <= k,
{
    let leq = total_le32();
    let g = s.sort_by(leq);
    let p = |b: u32| ieee::lt32(b, level);
    lemma_total_order();
    s.lemma_sort_by_ensures(leq);
    lemma_sorted_len(s);
    lemma_filter_count(s, p);
    lemma_filter_count(g, p);
    assert forall|j: int| k <= j < g.len() implies !p(#[trigger] g[j]) by {
        if j > k {
            assert(leq(g[k], g[j]));
        }
        ieee::lemma_total_refines_rank32(g[j], g[k]);
    }
    lemma_filter_prefix(g, p, k, g.len() as int);
}

proof fn lemma_filter_prefix(g: Seq<u32>, p: spec_fn(u32) -> bool, k: int, n: int)
    requires
        0 <= k <= n <= g.len(),
        forall|j: int| k <= j < g.len() ==> !p(#[trigger] g[j]),
    ensures
        g.take(n).filter(p).len() <= k,
        n == g.len() ==> g.filter(p).len() <= k,
    decreases n,
{
    broadcast use Seq::lemma_filter_len_push;

    if n == k {
        g.take(n).lemma_filter_len(p);
    } else {
        lemma_filter_prefix(g, p, k, n - 1);
        assert(g.take(n) =~= g.take(n - 1).push(g[n - 1]));
    }
    assert(n == g.len() ==> g.take(n) =~= g);
}

/// Sorting only moves numbers.
pub proof fn lemma_sorted_from(s: Seq<u32>, k: int)
    requires
        0 <= k < s.len(),
    ensures
        s.contains(s.sort_by(total_le32())[k]),
{
    lemma_total_order();
    lemma_sorted_len(s);
    s.lemma_sort_by_ensures(total_le32());
    let g = s.sort_by(total_le32());
    assert(g.contains(g[k]));
}

/// In sorted order no number lies above one that comes later.
pub proof fn lemma_sorted_below(s: Seq<u32>, k: int)
    requires
        0 <= k < s.len(),
    ensures
        forall|j: int|
            0 <= j <= k ==> ieee::rank32(#[trigger] s.sort_by(total_le32())[j]) <= ieee::rank32(
                s.sort_by(total_le32())[k],
            ),
{
    let g = s.sort_by(total_le32());
    lemma_total_order();
    s.lemma_sort_by_ensures(total_le32());
    lemma_sorted_len(s);
    assert forall|j: int| 0 <= j <= k implies ieee::rank32(#[trigger] g[j]) <= ieee::rank32(g[k]) by {
        if j < k {
            assert(total_le32()(g[j], g[k]));
            ieee::lemma_total_refines_rank32(g[k], g[j]);
        }
    }
}

/// Sorting changes no count.
pub proof fn lemma_sorting_keeps_counts(s: Seq<u32>, p: spec_fn(u32) -> bool)
    ensures
        s.sort_by(total_le32()).filter(p).len() == s.filter(p).len(),
{
    let g = s.sort_by(total_le32());
    lemma_total_order();
    s.lemma_sort_by_ensures(total_le32());
    lemma_filter_count(s, p);
    lemma_filter_count(g, p);
}

} // verus!
