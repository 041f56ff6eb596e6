//! Upstream areas: how many vertices drain through each vertex.

use vstd::prelude::*;

use crate::flood;
use crate::flood::Drainage;
use crate::flood::OUTLET;

verus! {

/// The sum of `acc` over the vertices at place `k` of the order and later whose parent is `i`.
pub open spec fn inflow(o: Seq<u32>, p: Seq<u32>, acc: Seq<u32>, i: u32, k: int) -> int
    decreases o.len() - k,
{
    if k >= o.len() || k < 0 {
        0
    } else {
        (if p[o[k] as int] == i {
            acc[o[k] as int] as int
        } else {
            0
        }) + inflow(o, p, acc, i, k + 1)
    }
}

/// The sum of `acc` over the first `k` vertices of the order.
spec fn held(o: Seq<u32>, acc: Seq<u32>, k: int) -> int
    decreases k,
{
    if k <= 0 {
        0
    } else {
        held(o, acc, k - 1) + acc[o[k - 1] as int]
    }
}

proof fn lemma_held_update(o: Seq<u32>, acc: Seq<u32>, q: int, x: u32, k: int)
    requires
        o.no_duplicates(),
        forall|a: int| 0 <= a < o.len() ==> #[trigger] o[a] < acc.len(),
        0 <= q < o.len(),
        0 <= k <= o.len(),
    ensures
        held(o, acc.update(o[q] as int, x), k) == held(o, acc, k) + (if q < k {
            x - acc[o[q] as int]
        } else {
            0
        }),
    decreases k,
{
    if k > 0 {
        lemma_held_update(o, acc, q, x, k - 1);
        assert(o[k - 1] < acc.len());
        assert(k - 1 != q ==> o[k - 1] != o[q]);
        assert(o[q] < acc.len());
    }
}

proof fn lemma_held_covers(o: Seq<u32>, acc: Seq<u32>, a: int, k: int)
    requires
        0 <= a < k,
    ensures
        acc[o[a] as int] <= held(o, acc, k),
        held(o, acc, k) >= 0,
    decreases k,
{
    assert(held(o, acc, 0) == 0);
    if k - 1 > 0 {
        if a < k - 1 {
            lemma_held_covers(o, acc, a, k - 1);
        } else {
            lemma_held_covers(o, acc, 0, k - 1);
        }
    }
}

proof fn lemma_inflow_agrees(o: Seq<u32>, p: Seq<u32>, acc: Seq<u32>, bcc: Seq<u32>, i: u32, k: int)
    requires
        0 <= k,
        forall|a: int| k <= a < o.len() ==> acc[#[trigger] o[a] as int] == bcc[o[a] as int],
    ensures
        inflow(o, p, acc, i, k) == inflow(o, p, bcc, i, k),
    decreases o.len() - k,
{
    if k < o.len() {
        lemma_inflow_agrees(o, p, acc, bcc, i, k + 1);
    }
}

proof fn lemma_inflow_nonneg(o: Seq<u32>, p: Seq<u32>, acc: Seq<u32>, i: u32, k: int)
    ensures
        inflow(o, p, acc, i, k) >= 0,
    decreases o.len() - k,
{
    if 0 <= k < o.len() {
        lemma_inflow_nonneg(o, p, acc, i, k + 1);
    }
}

proof fn lemma_ones(o: Seq<u32>, acc: Seq<u32>, k: int)
    requires
        0 <= k <= o.len(),
        forall|a: int| 0 <= a < o.len() ==> #[trigger] o[a] < acc.len(),
        forall|a: int| 0 <= a < acc.len() ==> acc[a] == 1,
    ensures
        held(o, acc, k) == k,
    decreases k,
{
    if k > 0 {
        lemma_ones(o, acc, k - 1);
        assert(o[k - 1] < acc.len());
    }
}

/// Whether `acc` counts the vertices that drain through each vertex: itself, and all that drain
/// through the vertices whose parent it is.
pub open spec fn accumulated(o: Seq<u32>, p: Seq<u32>, acc: Seq<u32>) -> bool {
    &&& acc.len() == p.len()
    &&& forall|i: int| 0 <= i < acc.len() ==> #[trigger] acc[i] == 1 + inflow(o, p, acc, i as u32, 0)
}

/// Number of vertices draining through each vertex, itself counted. All of them leave the map
/// through the vertices without a parent.
pub fn accumulation(d: &Drainage) -> (acc: Vec<u32>)
    requires
        flood::forest(d.order@, d.parent@),
    ensures
        accumulated(d.order@, d.parent@, acc@),
        inflow(d.order@, d.parent@, acc@, OUTLET, 0) == acc@.len(),
{
    let n: usize = d.parent.len();
    let mut acc: Vec<u32> = vec![1u32; n];
    let ghost (o, p) = (d.order@, d.parent@);
    let mut k: usize = n;
    proof {
        lemma_ones(o, acc@, n as int);
    }
    while k > 0
        invariant
            k <= n == d.parent@.len() == d.order@.len() == acc@.len() <= u32::MAX,
            o == d.order@,
            p == d.parent@,
            flood::forest(o, p),
            forall|i: int|
                0 <= i < n ==> #[trigger] acc@[i] == 1 + inflow(o, p, acc@, i as u32, k as int),
            held(o, acc@, k as int) + inflow(o, p, acc@, OUTLET, k as int) == n,
        decreases k,
    {
        k -= 1;
        let c: usize = d.order[k] as usize;
        let q: u32 = d.parent[c];
        let ghost before = acc@;
        proof {
            flood::lemma_everything_has_a_place(o, c as int);
            assert(o[flood::places(o)[c as int]] == o[k as int]);
            assert(flood::places(o)[c as int] == k);
        }
        if q != OUTLET {
            let ghost up = flood::places(o)[q as int];
            proof {
                flood::lemma_everything_has_a_place(o, q as int);
                lemma_held_covers(o, acc@, up, k as int);
                lemma_inflow_nonneg(o, p, acc@, OUTLET, k + 1);
                assert(o[up] == q);
            }
            acc[q as usize] = acc[q as usize] + acc[c];
            proof {
                lemma_held_update(o, before, up, acc@[q as int], k as int);
            }
        }
        proof {
            assert forall|a: int| k <= a < n implies before[#[trigger] o[a] as int]
                == acc@[o[a] as int] by {
                if q != OUTLET {
                    assert(o[a] != o[flood::places(o)[q as int]]);
                }
            }
            assert forall|i: u32| #[trigger]
                inflow(o, p, acc@, i, k + 1) == inflow(o, p, before, i, k + 1) by {
                lemma_inflow_agrees(o, p, acc@, before, i, k + 1);
            }
            assert forall|i: int| 0 <= i < n implies #[trigger] acc@[i] == 1 + inflow(
                o,
                p,
                acc@,
                i as u32,
                k as int,
            ) by {
                assert(before[i] == 1 + inflow(o, p, before, i as u32, k + 1));
                assert(acc@[c as int] == before[c as int]);
                assert(inflow(o, p, acc@, i as u32, k + 1) == inflow(o, p, before, i as u32, k + 1));
            }
            assert(inflow(o, p, acc@, OUTLET, k + 1) == inflow(o, p, before, OUTLET, k + 1));
        }
    }
    acc
}

/// Water gathers downstream: more vertices drain through a vertex than through any that drains into it,
/// and through one that nothing drains into only itself.
pub proof fn lemma_water_gathers_downstream(o: Seq<u32>, p: Seq<u32>, acc: Seq<u32>, i: int)
    requires
        accumulated(o, p, acc),
        0 <= i < acc.len() <= u32::MAX,
    ensures
        forall|k: int| 0 <= k < o.len() && p[(#[trigger] o[k]) as int] == i ==> acc[o[k] as int] < acc[i],
        (forall|k: int| 0 <= k < o.len() ==> p[(#[trigger] o[k]) as int] != i) ==> acc[i] == 1,
{
    assert(acc[i] == 1 + inflow(o, p, acc, i as u32, 0));
    assert forall|k: int| 0 <= k < o.len() && p[(#[trigger] o[k]) as int] == i implies acc[o[k] as int] < acc[i] by {
        lemma_inflow_covers(o, p, acc, i as u32, 0, k);
    }
    if forall|k: int| 0 <= k < o.len() ==> p[(#[trigger] o[k]) as int] != i {
        lemma_no_inflow(o, p, acc, i as u32, 0);
    }
}

proof fn lemma_inflow_covers(o: Seq<u32>, p: Seq<u32>, acc: Seq<u32>, i: u32, from: int, k: int)
    requires
        0 <= from <= k < o.len(),
        p[o[k] as int] == i,
    ensures
        acc[o[k] as int] <= inflow(o, p, acc, i, from),
    decreases k - from,
{
    lemma_inflow_nonneg(o, p, acc, i, from + 1);
    if from < k {
        lemma_inflow_covers(o, p, acc, i, from + 1, k);
    }
}

proof fn lemma_no_inflow(o: Seq<u32>, p: Seq<u32>, acc: Seq<u32>, i: u32, from: int)
    requires
        0 <= from,
        forall|k: int| 0 <= k < o.len() ==> p[(#[trigger] o[k]) as int] != i,
    ensures
        inflow(o, p, acc, i, from) == 0,
    decreases o.len() - from,
{
    if from < o.len() {
        lemma_no_inflow(o, p, acc, i, from + 1);
    }
}

} // verus!
