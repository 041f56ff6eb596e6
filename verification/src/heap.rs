//! A priority queue of integers that gives out the smallest first.

use vstd::multiset::Multiset;
use vstd::prelude::*;

verus! {

/// The slot above slot `i` of a binary heap.
spec fn above(i: int) -> int {
    (i - 1) / 2
}

/// Whether slot `j` holds at least what the slot above it holds.
spec fn in_order(s: Seq<u128>, j: int) -> bool {
    s[above(j)] <= s[j]
}

/// Whether slot `j` holds at least `x`.
spec fn at_least(s: Seq<u128>, x: u128, j: int) -> bool {
    x <= s[j]
}

/// Every slot except `hole` holds at least what the slot above it holds.
spec fn ordered_but_at(s: Seq<u128>, hole: int) -> bool {
    forall|j: int| 0 < j < s.len() && j != hole ==> #[trigger] in_order(s, j)
}

/// Every slot whose upper neighbour is not `hole` holds at least what that neighbour holds.
spec fn ordered_but_below(s: Seq<u128>, hole: int) -> bool {
    forall|j: int| 0 < j < s.len() && above(j) != hole ==> #[trigger] in_order(s, j)
}

/// The slots under `hole` hold at least what the slot above `hole` holds.
spec fn bridged(s: Seq<u128>, hole: int) -> bool {
    hole > 0 ==> forall|j: int|
        0 < j < s.len() && above(j) == hole ==> #[trigger] at_least(s, s[above(hole)], j)
}

spec fn ordered(s: Seq<u128>) -> bool {
    forall|j: int| 0 < j < s.len() ==> #[trigger] in_order(s, j)
}

proof fn lemma_first_is_least(s: Seq<u128>, i: int)
    requires
        ordered(s),
        0 <= i < s.len(),
    ensures
        s[0] <= s[i],
    decreases i,
{
    if i > 0 {
        assert(in_order(s, i));
        lemma_first_is_least(s, above(i));
    }
}

proof fn lemma_update_multiset(s: Seq<u128>, i: int, x: u128)
    requires
        0 <= i < s.len(),
    ensures
        s.update(i, x).to_multiset() == s.to_multiset().remove(s[i]).insert(x),
{
    broadcast use vstd::seq_lib::group_to_multiset_ensures;

    assert(s.update(i, x) =~= s.remove(i).insert(i, x));
}

proof fn lemma_swap_multiset(s: Seq<u128>, i: int, j: int)
    requires
        0 <= i < s.len(),
        0 <= j < s.len(),
    ensures
        s.update(i, s[j]).update(j, s[i]).to_multiset() == s.to_multiset(),
{
    broadcast use vstd::seq_lib::group_to_multiset_ensures;

    let t = s.update(i, s[j]);
    lemma_update_multiset(s, i, s[j]);
    lemma_update_multiset(t, j, s[i]);
    assert(s.contains(s[i]));
    assert(s.contains(s[j]));
    assert(t.update(j, s[i]).to_multiset() =~= s.to_multiset());
}

/// Exchanging slot `i` with the lesser slot `m` under it moves the hole to `m`.
proof fn lemma_moved_down(s: Seq<u128>, i: int, m: int)
    requires
        0 <= i < m < s.len(),
        above(m) == i,
        forall|j: int| 0 < j < s.len() && above(j) == i ==> #[trigger] at_least(s, s[m], j),
        s[m] <= s[i],
        ordered_but_below(s, i),
        bridged(s, i),
    ensures
        ordered_but_below(s.update(i, s[m]).update(m, s[i]), m),
        bridged(s.update(i, s[m]).update(m, s[i]), m),
{
    let t = s.update(i, s[m]).update(m, s[i]);
    assert forall|j: int| 0 < j < t.len() && above(j) != m implies #[trigger] in_order(t, j) by {
        if above(j) == i {
            assert(at_least(s, s[m], j));
        } else if j == i {
            assert(at_least(s, s[above(i)], m));
        } else {
            assert(in_order(s, j));
        }
    }
    assert forall|j: int| 0 < j < t.len() && above(j) == m implies #[trigger] at_least(t, t[above(m)], j) by {
        assert(in_order(s, j));
    }
}

/// Exchanging slot `i` with the greater slot above it moves the hole there.
proof fn lemma_moved_up(s: Seq<u128>, i: int)
    requires
        0 < i < s.len(),
        s[i] <= s[above(i)],
        ordered_but_at(s, i),
        bridged(s, i),
    ensures
        ordered_but_at(s.update(above(i), s[i]).update(i, s[above(i)]), above(i)),
        bridged(s.update(above(i), s[i]).update(i, s[above(i)]), above(i)),
{
    let up = above(i);
    let t = s.update(up, s[i]).update(i, s[up]);
    assert forall|j: int| 0 < j < t.len() && j != up implies #[trigger] in_order(t, j) by {
        if above(j) == i {
            assert(at_least(s, s[up], j));
        } else if j != i {
            assert(in_order(s, j));
        }
    }
    if up > 0 {
        assert(in_order(s, up));
        assert forall|j: int| 0 < j < t.len() && above(j) == up implies #[trigger] at_least(t, t[above(up)], j) by {
            if j != i {
                assert(in_order(s, j));
            }
        }
    }
}

/// Restores the heap order where only the first slot may break it.
fn sift_down(v: &mut Vec<u128>)
    requires
        old(v)@.len() > 0,
        ordered_but_below(old(v)@, 0),
    ensures
        ordered(final(v)@),
        final(v)@.to_multiset() == old(v)@.to_multiset(),
{
    let ghost rest = v@.to_multiset();
    let mut i: usize = 0;
    loop
        invariant
            i < v.len(),
            ordered_but_below(v@, i as int),
            bridged(v@, i as int),
            v@.to_multiset() == rest,
        ensures
            ordered(v@),
            v@.to_multiset() == rest,
        decreases v.len() - i,
    {
        let len: usize = v.len();
        if i >= len / 2 {
            assert forall|j: int| 0 < j < v@.len() implies #[trigger] in_order(v@, j) by {
                assert(above(j) != i);
            }
            break;
        }
        let l: usize = 2 * i + 1;
        let mut m: usize = l;
        if l + 1 < len && v[l + 1] < v[l] {
            m = l + 1;
        }
        if v[i] <= v[m] {
            assert forall|j: int| 0 < j < v@.len() implies #[trigger] in_order(v@, j) by {
                if above(j) == i {
                    assert(j == l || j == l + 1);
                }
            }
            break;
        }
        let ghost before = v@;
        let (a, b): (u128, u128) = (v[i], v[m]);
        v[i] = b;
        v[m] = a;
        proof {
            lemma_swap_multiset(before, i as int, m as int);
            assert(v@ =~= before.update(i as int, b).update(m as int, a));
            assert forall|j: int| 0 < j < before.len() && above(j) == i implies #[trigger] at_least(
                before,
                before[m as int],
                j,
            ) by {
                assert(j == l || j == l + 1);
            }
            lemma_moved_down(before, i as int, m as int);
        }
        i = m;
    }
}

/// A min-heap of integers. Its view is the multiset of the integers it holds.
pub struct MinHeap {
    data: Vec<u128>,
}

impl View for MinHeap {
    type V = Multiset<u128>;

    closed spec fn view(&self) -> Multiset<u128> {
        self.data@.to_multiset()
    }
}

impl MinHeap {
    /// The heap order.
    pub closed spec fn wf(&self) -> bool {
        ordered(self.data@)
    }

    /// An empty heap.
    pub fn new() -> (heap: MinHeap)
        ensures
            heap.wf(),
            heap@ == Multiset::<u128>::empty(),
    {
        broadcast use vstd::seq_lib::group_to_multiset_ensures;

        let heap = MinHeap { data: Vec::new() };
        assert(heap.data@.to_multiset().len() == 0);
        heap
    }

    /// Adds `x`.
    pub fn push(&mut self, x: u128)
        requires
            old(self).wf(),
        ensures
            final(self).wf(),
            final(self)@ == old(self)@.insert(x),
    {
        broadcast use vstd::seq_lib::group_to_multiset_ensures;

        self.data.push(x);
        let mut i: usize = self.data.len() - 1;
        let ghost all = self.data@.to_multiset();
        assert(all == old(self)@.insert(x));
        assert forall|j: int| 0 < j < self.data@.len() && j != i implies #[trigger] in_order(self.data@, j) by {
            assert(in_order(old(self).data@, j));
        }
        while i > 0
            invariant
                i < self.data.len(),
                ordered_but_at(self.data@, i as int),
                bridged(self.data@, i as int),
                self.data@.to_multiset() == all,
            ensures
                ordered(self.data@),
            decreases i,
        {
            let up: usize = (i - 1) / 2;
            assert(up == above(i as int));
            if self.data[up] <= self.data[i] {
                assert(in_order(self.data@, i as int));
                break;
            }
            let ghost before = self.data@;
            let (a, b): (u128, u128) = (self.data[up], self.data[i]);
            self.data[up] = b;
            self.data[i] = a;
            proof {
                lemma_swap_multiset(before, up as int, i as int);
                assert(self.data@ =~= before.update(up as int, b).update(i as int, a));
                lemma_moved_up(before, i as int);
            }
            i = up;
        }
    }

    /// Takes out the smallest integer; `None` if the heap is empty.
    pub fn pop(&mut self) -> (least: Option<u128>)
        requires
            old(self).wf(),
        ensures
            final(self).wf(),
            least is None <==> old(self)@.len() == 0,
            least is None ==> final(self)@ == old(self)@,
            least matches Some(m) ==> {
                &&& old(self)@.count(m) > 0
                &&& final(self)@ == old(self)@.remove(m)
                &&& forall|x: u128| old(self)@.count(x) > 0 ==> m <= x
            },
    {
        broadcast use vstd::seq_lib::group_to_multiset_ensures;

        let n: usize = self.data.len();
        if n == 0 {
            return None;
        }
        let ghost start = self.data@;
        let least: u128 = self.data[0];
        proof {
            assert(start.contains(least));
            assert forall|x: u128| start.to_multiset().count(x) > 0 implies least <= x by {
                assert(start.contains(x));
                let k = choose|k: int| 0 <= k < start.len() && start[k] == x;
                lemma_first_is_least(start, k);
            }
        }
        let last: u128 = self.data[n - 1];
        self.data.pop();
        if n == 1 {
            assert(start.remove(0) =~= self.data@);
            return Some(least);
        }
        self.data[0] = last;
        let ghost rest = self.data@.to_multiset();
        proof {
            assert(self.data@ =~= start.update(0, last).remove(n - 1));
            lemma_update_multiset(start, 0, last);
            assert(start.contains(last));
            assert(rest =~= start.to_multiset().remove(least));
            assert forall|j: int| 0 < j < self.data@.len() && above(j) != 0 implies #[trigger] in_order(
                self.data@,
                j,
            ) by {
                assert(in_order(start, j));
            }
        }
        sift_down(&mut self.data);
        Some(least)
    }
}

} // verus!
