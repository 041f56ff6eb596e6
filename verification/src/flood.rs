//! Priority-Flood: filling depressions and finding the drainage tree of a height grid.
//!
//! The grid is flooded inward from its border, lowest vertex first. Each vertex is discovered by
//! the first of its neighbours to be flooded, its *parent*, and is raised to the parent's level if
//! it lies below it. Raised vertices are flooded at once, in the order of their discovery; the
//! others wait in a heap ordered by height, then by index. Heights are given by their bits.

use std::collections::VecDeque;
use vstd::multiset::Multiset;
use vstd::prelude::*;

use crate::grid;
use crate::heap::MinHeap;
use crate::ieee;

verus! {

/// No parent: a border vertex drains off the map.
pub const OUTLET: u32 = 0xffff_ffff;

/// The result of flooding a grid.
pub struct Drainage {
    /// Height after filling depressions up to their spill level.
    pub filled: Vec<u32>,
    /// Vertices in flooding order.
    pub order: Vec<u32>,
    /// The neighbour that each vertex drains to, or [`OUTLET`].
    pub parent: Vec<u32>,
}

/// Heap order: height, then index.
pub open spec fn key(h: Seq<u32>, i: int) -> int {
    ieee::total32(h[i]) * 0x1_0000_0000 + i
}

/// The height of a vertex discovered from a neighbour at `level`.
pub open spec fn raised_to(height: u32, level: u32) -> u32 {
    if ieee::le32(height, level) {
        level
    } else {
        height
    }
}

/// Whether vertex `i` lies no higher than the level it was discovered from.
pub open spec fn sunken(h: Seq<u32>, f: Seq<u32>, p: Seq<u32>, i: int) -> bool {
    p[i] != OUTLET && ieee::le32(h[i], f[p[i] as int])
}

/// The place of every vertex in the flooding order.
pub open spec fn places(o: Seq<u32>) -> Seq<int> {
    Seq::new(o.len(), |i: int| o.index_of(i as u32))
}

/// Whether vertex `i` is discovered but not flooded before step `k`. `pos` gives the step that
/// floods each vertex.
pub open spec fn pending(p: Seq<u32>, pos: Seq<int>, k: int, i: int, w: int, ht: int) -> bool {
    &&& 0 <= i < w * ht
    &&& grid::on_border(i, w, ht) || p[i] != OUTLET && 0 <= pos[p[i] as int] < k
    &&& !(0 <= pos[i] < k)
}

/// Whether `a` was discovered before `b`.
pub open spec fn sooner(p: Seq<u32>, pos: Seq<int>, a: int, b: int) -> bool {
    pos[p[a] as int] < pos[p[b] as int] || pos[p[a] as int] == pos[p[b] as int] && a < b
}

/// Whether `c` is the pending vertex whose turn it is at step `k`: the first discovered of the
/// sunken ones, else the least by height and index.
pub open spec fn in_turn(
    h: Seq<u32>,
    f: Seq<u32>,
    p: Seq<u32>,
    pos: Seq<int>,
    c: int,
    k: int,
    w: int,
    ht: int,
) -> bool {
    &&& pending(p, pos, k, c, w, ht)
    &&& if sunken(h, f, p, c) {
        forall|q: int| #[trigger]
            pending(p, pos, k, q, w, ht) && sunken(h, f, p, q) && q != c ==> sooner(p, pos, c, q)
    } else {
        forall|q: int| #[trigger]
            pending(p, pos, k, q, w, ht) ==> !sunken(h, f, p, q) && key(h, c) <= key(h, q)
    }
}

/// Whether the parents form a drainage tree that vertices join after their parents.
pub open spec fn forest(o: Seq<u32>, p: Seq<u32>) -> bool {
    &&& o.len() == p.len() <= u32::MAX
    &&& o.no_duplicates()
    &&& forall|k: int| 0 <= k < o.len() ==> #[trigger] o[k] < o.len()
    &&& forall|i: int|
        0 <= i < p.len() && #[trigger] p[i] != OUTLET ==> p[i] < p.len() && places(o)[p[i] as int]
            < places(o)[i]
}

/// What flooding the heights `h` of a grid gives.
pub open spec fn flooded(
    h: Seq<u32>,
    w: int,
    ht: int,
    f: Seq<u32>,
    o: Seq<u32>,
    p: Seq<u32>,
) -> bool {
    &&& h.len() == w * ht
    &&& f.len() == w * ht
    &&& p.len() == w * ht
    &&& o.len() == w * ht
    &&& forest(o, p)
    &&& forall|i: int|
        0 <= i < w * ht && grid::on_border(i, w, ht) ==> #[trigger] p[i] == OUTLET && f[i] == h[i]
    &&& forall|i: int|
        0 <= i < w * ht && !grid::on_border(i, w, ht) ==> {
            &&& #[trigger] p[i] != OUTLET
            &&& grid::adjacent(p[i] as int, i, w, ht)
            &&& f[i] == raised_to(h[i], f[p[i] as int])
        }
    &&& forall|v: int, i: int|
        0 <= v < w * ht && !grid::on_border(i, w, ht) && #[trigger] grid::adjacent(v, i, w, ht)
            ==> places(o)[p[i] as int] <= places(o)[v]
    &&& forall|k: int|
        0 <= k < w * ht ==> in_turn(h, f, p, places(o), #[trigger] o[k] as int, k, w, ht)
}

/// Whether all heights are numbers.
pub open spec fn all_numbers(h: Seq<u32>) -> bool {
    forall|i: int| 0 <= i < h.len() ==> !ieee::nan32(#[trigger] h[i])
}

pub open spec fn max(a: int, b: int) -> int {
    if a >= b {
        a
    } else {
        b
    }
}

/// Whether the filled heights never fall along the flooding order, and no vertex stands above
/// both its own height and the level of a neighbour.
pub open spec fn levelled(
    h: Seq<u32>,
    w: int,
    ht: int,
    f: Seq<u32>,
    o: Seq<u32>,
) -> bool {
    &&& forall|k: int, l: int|
        0 <= k <= l < o.len() ==> ieee::rank32(f[#[trigger] o[k] as int]) <= ieee::rank32(
            f[#[trigger] o[l] as int],
        )
    &&& forall|v: int, i: int|
        0 <= v < w * ht && #[trigger] grid::adjacent(v, i, w, ht) ==> ieee::rank32(f[i]) <= max(
            ieee::rank32(h[i]),
            ieee::rank32(f[v]),
        )
}

/// The state of the flood: heights and parents so far, which vertices are discovered, the order
/// and its inverse (-1 for a dry vertex), the two queues, and the vertex `c` whose directions
/// below `m` have been looked at (-1 if none is being looked at).
struct Flood {
    f: Seq<u32>,
    p: Seq<u32>,
    closed: Seq<bool>,
    o: Seq<u32>,
    pos: Seq<int>,
    pit: Seq<u32>,
    heap: Multiset<u128>,
    c: int,
    m: int,
}

impl Flood {
    /// Whether the direction `k` from vertex `v` has been looked at.
    spec fn looked(self, v: int, k: int) -> bool {
        0 <= self.pos[v] && (v != self.c || k < self.m)
    }

    spec fn shape(self, h: Seq<u32>, w: int, ht: int) -> bool {
        &&& 0 <= w
        &&& 0 <= ht
        &&& w * ht <= u32::MAX
        &&& h.len() == w * ht
        &&& self.f.len() == w * ht
        &&& self.p.len() == w * ht
        &&& self.closed.len() == w * ht
        &&& self.pos.len() == w * ht
        &&& 0 <= self.m <= 8
        &&& -1 <= self.c < w * ht
        &&& self.c >= 0 ==> self.o.len() > 0 && self.o[self.o.len() - 1] == self.c
    }

    spec fn ordered(self) -> bool {
        &&& forall|k: int|
            0 <= k < self.o.len() ==> #[trigger] self.o[k] < self.pos.len()
                && self.pos[self.o[k] as int] == k
        &&& forall|i: int|
            0 <= i < self.pos.len() ==> -1 <= #[trigger] self.pos[i] < self.o.len() && (self.pos[i]
                >= 0 ==> self.o[self.pos[i]] == i)
    }

    spec fn dry(self, h: Seq<u32>, w: int, ht: int) -> bool {
        forall|i: int|
            #![trigger self.closed[i]]
            0 <= i < w * ht && !self.closed[i] ==> {
                &&& !grid::on_border(i, w, ht)
                &&& self.p[i] == OUTLET
                &&& self.f[i] == h[i]
                &&& self.pos[i] < 0
            }
    }

    /// Whether the discovered vertex `i` hangs on a flooded neighbour.
    spec fn hangs(self, h: Seq<u32>, i: int, w: int, ht: int) -> bool {
        &&& self.p[i] < w * ht
        &&& 0 <= self.pos[self.p[i] as int]
        &&& self.f[i] == raised_to(h[i], self.f[self.p[i] as int])
        &&& exists|k: int|
            0 <= k < 8 && self.looked(self.p[i] as int, k) && #[trigger] grid::neighbour(
                self.p[i] as int,
                k,
                w,
                ht,
            ) == Some(i)
    }

    spec fn found(self, h: Seq<u32>, w: int, ht: int) -> bool {
        &&& forall|i: int|
            #![trigger self.closed[i]]
            0 <= i < w * ht && grid::on_border(i, w, ht) ==> self.closed[i] && self.p[i] == OUTLET
                && self.f[i] == h[i]
        &&& forall|i: int|
            #![trigger self.closed[i]]
            0 <= i < w * ht && !grid::on_border(i, w, ht) && self.closed[i] ==> self.hangs(
                h,
                i,
                w,
                ht,
            )
    }

    /// Every neighbour looked at is discovered, from itself or from an earlier vertex.
    spec fn reached(self, w: int, ht: int) -> bool {
        forall|v: int, k: int|
            0 <= v < w * ht && 0 <= k < 8 && self.looked(v, k) && (#[trigger] grid::neighbour(
                v,
                k,
                w,
                ht,
            )) is Some ==> {
                let i = grid::neighbour(v, k, w, ht)->0;
                &&& self.closed[i]
                &&& !grid::on_border(i, w, ht) ==> self.pos[self.p[i] as int] <= self.pos[v]
            }
    }

    spec fn waiting(self, i: int) -> bool {
        self.closed[i] && self.pos[i] < 0
    }

    spec fn queued(self, h: Seq<u32>, w: int, ht: int) -> bool {
        &&& forall|a: int|
            0 <= a < self.pit.len() ==> {
                &&& (#[trigger] self.pit[a]) < w * ht
                &&& self.waiting(self.pit[a] as int)
                &&& sunken(h, self.f, self.p, self.pit[a] as int)
            }
        &&& forall|a: int, b: int|
            0 <= a < b < self.pit.len() ==> sooner(
                self.p,
                self.pos,
                #[trigger] self.pit[a] as int,
                #[trigger] self.pit[b] as int,
            )
        &&& forall|i: int|
            0 <= i < w * ht && #[trigger] self.waiting(i) && sunken(h, self.f, self.p, i)
                ==> self.pit.contains(i as u32)
    }

    spec fn heaped(self, h: Seq<u32>, w: int, ht: int) -> bool {
        &&& forall|x: u128|
            #![trigger self.heap.count(x)]
            self.heap.count(x) <= 1 && (self.heap.count(x) > 0 ==> {
                let i = x as int % 0x1_0000_0000;
                &&& i < w * ht
                &&& x == key(h, i)
                &&& self.waiting(i)
                &&& !sunken(h, self.f, self.p, i)
            })
        &&& forall|i: int|
            0 <= i < w * ht && #[trigger] self.waiting(i) && !sunken(h, self.f, self.p, i)
                ==> self.heap.count(key(h, i) as u128) > 0
    }

    spec fn turns(self, h: Seq<u32>, w: int, ht: int) -> bool {
        forall|k: int|
            0 <= k < self.o.len() ==> in_turn(
                h,
                self.f,
                self.p,
                self.pos,
                #[trigger] self.o[k] as int,
                k,
                w,
                ht,
            )
    }

    spec fn level(self) -> int {
        ieee::rank32(self.f[self.o[self.o.len() - 1] as int])
    }

    spec fn level_so_far(self, h: Seq<u32>, w: int, ht: int) -> bool {
        &&& forall|i: int| 0 <= i < w * ht ==> !ieee::nan32(#[trigger] self.f[i])
        &&& forall|k: int, l: int|
            0 <= k <= l < self.o.len() ==> ieee::rank32(self.f[#[trigger] self.o[k] as int])
                <= ieee::rank32(self.f[#[trigger] self.o[l] as int])
        &&& forall|i: int|
            0 <= i < w * ht && self.o.len() > 0 && #[trigger] self.waiting(i) && sunken(
                h,
                self.f,
                self.p,
                i,
            ) ==> ieee::rank32(self.f[i]) == self.level()
        &&& forall|i: int|
            0 <= i < w * ht && self.o.len() > 0 && #[trigger] self.waiting(i) && !sunken(
                h,
                self.f,
                self.p,
                i,
            ) ==> ieee::rank32(h[i]) >= self.level()
        &&& forall|v: int, k: int|
            0 <= v < w * ht && 0 <= k < 8 && self.looked(v, k) && (#[trigger] grid::neighbour(
                v,
                k,
                w,
                ht,
            )) is Some ==> {
                let i = grid::neighbour(v, k, w, ht)->0;
                ieee::rank32(self.f[i]) <= max(ieee::rank32(h[i]), ieee::rank32(self.f[v]))
            }
    }

    spec fn inv(self, h: Seq<u32>, w: int, ht: int) -> bool {
        &&& self.shape(h, w, ht)
        &&& self.ordered()
        &&& self.dry(h, w, ht)
        &&& self.found(h, w, ht)
        &&& self.reached(w, ht)
        &&& self.queued(h, w, ht)
        &&& self.heaped(h, w, ht)
        &&& self.turns(h, w, ht)
        &&& all_numbers(h) ==> self.level_so_far(h, w, ht)
    }

    /// The state after vertex `c` leaves its queue.
    spec fn take(self, c: int, pit: Seq<u32>, heap: Multiset<u128>) -> Flood {
        Flood {
            o: self.o.push(c as u32),
            pos: self.pos.update(c, self.o.len() as int),
            pit,
            heap,
            c,
            m: 0,
            ..self
        }
    }

    /// The state after the next direction led nowhere new.
    spec fn pass(self) -> Flood {
        Flood { m: self.m + 1, ..self }
    }

    /// The state after the next direction led to the undiscovered vertex `j`.
    spec fn discover(self, j: int, height: u32, pit: Seq<u32>, heap: Multiset<u128>) -> Flood {
        Flood {
            f: self.f.update(j, height),
            p: self.p.update(j, self.c as u32),
            closed: self.closed.update(j, true),
            pit,
            heap,
            m: self.m + 1,
            ..self
        }
    }

    /// The state after all directions have been looked at.
    spec fn leave(self) -> Flood {
        Flood { c: -1, m: 0, ..self }
    }
}

/// At most `n` different indices are below `n`.
pub proof fn lemma_pigeonhole(s: Seq<int>, n: int)
    requires
        s.no_duplicates(),
        forall|k: int| 0 <= k < s.len() ==> 0 <= #[trigger] s[k] < n,
        n >= 0,
    ensures
        s.len() <= n,
    decreases n,
{
    if n == 0 {
        if s.len() > 0 {
            assert(s[0] < n);
            assert(0 <= s[0]);
        }
    } else if s.contains(n - 1) {
        let k = choose|k: int| 0 <= k < s.len() && s[k] == n - 1;
        let t = s.remove(k);
        assert forall|a: int| 0 <= a < t.len() implies 0 <= #[trigger] t[a] < n - 1 by {
            let b = if a < k { a } else { a + 1 };
            assert(t[a] == s[b] && s[b] != s[k]);
        }
        assert(t.no_duplicates()) by {
            assert forall|a: int, b: int| 0 <= a < t.len() && 0 <= b < t.len() && a != b implies t[a]
                != t[b] by {
                let x = if a < k { a } else { a + 1 };
                let y = if b < k { b } else { b + 1 };
                assert(s[x] != s[y]);
            }
        }
        lemma_pigeonhole(t, n - 1);
    } else {
        assert forall|k: int| 0 <= k < s.len() implies 0 <= #[trigger] s[k] < n - 1 by {
            assert(s.contains(s[k]));
        }
        lemma_pigeonhole(s, n - 1);
    }
}

proof fn lemma_discovered_last(s: Flood, h: Seq<u32>, w: int, ht: int, a: int)
    requires
        s.inv(h, w, ht),
        s.c >= 0,
        s.m < 8,
        0 <= a < s.pit.len(),
        grid::neighbour(s.c, s.m, w, ht) is Some,
        s.p[s.pit[a] as int] == s.c,
    ensures
        s.pit[a] < grid::neighbour(s.c, s.m, w, ht)->0,
{
    let i = s.pit[a] as int;
    assert(s.closed[i] && s.waiting(i));
    assert(!grid::on_border(i, w, ht));
    let k = choose|k: int|
        0 <= k < 8 && s.looked(s.p[i] as int, k) && #[trigger] grid::neighbour(
            s.p[i] as int,
            k,
            w,
            ht,
        ) == Some(i);
    grid::lemma_reading_order(s.c, k, s.m, w, ht);
}

/// Taking a waiting vertex out of its queue when it is its turn.
proof fn lemma_take(s: Flood, h: Seq<u32>, w: int, ht: int, c: int, pit: Seq<u32>, heap: Multiset<u128>)
    requires
        s.inv(h, w, ht),
        s.c == -1,
        0 <= c < w * ht,
        s.waiting(c),
        sunken(h, s.f, s.p, c) ==> s.pit.len() > 0 && s.pit[0] == c && pit == s.pit.subrange(
            1,
            s.pit.len() as int,
        ) && heap == s.heap,
        !sunken(h, s.f, s.p, c) ==> {
            &&& pit == s.pit
            &&& s.pit.len() == 0
            &&& s.heap.count(key(h, c) as u128) > 0
            &&& heap == s.heap.remove(key(h, c) as u128)
            &&& forall|x: u128| s.heap.count(x) > 0 ==> key(h, c) as u128 <= x
        },
    ensures
        s.take(c, pit, heap).inv(h, w, ht),
        s.o.len() < w * ht,
{
    let t = s.take(c, pit, heap);
    let done = s.o.len() as int;
    assert(t.ordered()) by {
        assert forall|k: int| 0 <= k < t.o.len() implies #[trigger] t.o[k] < t.pos.len()
            && t.pos[t.o[k] as int] == k by {
            if k < done {
                assert(s.pos[s.o[k] as int] == k);
            }
        }
        assert forall|i: int| 0 <= i < t.pos.len() implies -1 <= #[trigger] t.pos[i] < t.o.len() && (
        t.pos[i] >= 0 ==> t.o[t.pos[i]] == i) by {
            assert(-1 <= s.pos[i] < s.o.len());
        }
    }
    assert(t.o.len() <= w * ht) by {
        let q = t.o.map_values(|x: u32| x as int);
        assert forall|k: int| 0 <= k < q.len() implies 0 <= #[trigger] q[k] < w * ht by {
            assert(t.o[k] < t.pos.len());
        }
        assert(q.no_duplicates()) by {
            assert forall|a: int, b: int| 0 <= a < q.len() && 0 <= b < q.len() && a != b implies q[a]
                != q[b] by {
                assert(t.pos[t.o[a] as int] == a && t.pos[t.o[b] as int] == b);
            }
        }
        lemma_pigeonhole(q, w * ht);
    }
    // No discovered vertex has the parent `c` yet.
    assert forall|i: int| 0 <= i < w * ht && #[trigger] s.closed[i] && !grid::on_border(i, w, ht)
        implies s.p[i] != c by {
    }
    assert(t.found(h, w, ht)) by {
        assert forall|i: int|
            #![trigger t.closed[i]]
            0 <= i < w * ht && !grid::on_border(i, w, ht) && t.closed[i] implies t.hangs(h, i, w, ht) by {
            assert(s.closed[i]);
            let k = choose|k: int|
                0 <= k < 8 && s.looked(s.p[i] as int, k) && #[trigger] grid::neighbour(
                    s.p[i] as int,
                    k,
                    w,
                    ht,
                ) == Some(i);
            assert(t.looked(t.p[i] as int, k));
        }
    }
    assert(t.reached(w, ht)) by {
        assert forall|v: int, k: int|
            0 <= v < w * ht && 0 <= k < 8 && t.looked(v, k) && (#[trigger] grid::neighbour(
                v,
                k,
                w,
                ht,
            )) is Some implies {
            let i = grid::neighbour(v, k, w, ht)->0;
            &&& t.closed[i]
            &&& !grid::on_border(i, w, ht) ==> t.pos[t.p[i] as int] <= t.pos[v]
        } by {
            grid::lemma_neighbour(v, k, w, ht);
            assert(s.looked(v, k));
        }
    }
    assert forall|i: int| 0 <= i < w * ht && i != c implies #[trigger] t.waiting(i) == s.waiting(i) by {
    }
    assert(t.queued(h, w, ht)) by {
        if sunken(h, s.f, s.p, c) {
            assert forall|a: int| 0 <= a < t.pit.len() implies {
                &&& (#[trigger] t.pit[a]) < w * ht
                &&& t.waiting(t.pit[a] as int)
                &&& sunken(h, t.f, t.p, t.pit[a] as int)
            } by {
                assert(t.pit[a] == s.pit[a + 1]);
                assert(sooner(s.p, s.pos, s.pit[0] as int, s.pit[a + 1] as int));
            }
            assert forall|a: int, b: int| 0 <= a < b < t.pit.len() implies sooner(
                t.p,
                t.pos,
                #[trigger] t.pit[a] as int,
                #[trigger] t.pit[b] as int,
            ) by {
                assert(sooner(s.p, s.pos, s.pit[a + 1] as int, s.pit[b + 1] as int));
                assert(s.closed[s.pit[a + 1] as int] && s.waiting(s.pit[a + 1] as int));
                assert(s.closed[s.pit[b + 1] as int] && s.waiting(s.pit[b + 1] as int));
            }
            assert forall|i: int|
                0 <= i < w * ht && #[trigger] t.waiting(i) && sunken(h, t.f, t.p, i) implies t.pit.contains(
                i as u32,
            ) by {
                assert(s.waiting(i) && i != c);
                assert(s.pit.contains(i as u32));
                let a = choose|a: int| 0 <= a < s.pit.len() && s.pit[a] == i as u32;
                assert(a != 0);
                assert(t.pit[a - 1] == i as u32);
            }
        } else {
            assert forall|i: int|
                0 <= i < w * ht && #[trigger] t.waiting(i) && sunken(h, t.f, t.p, i) implies t.pit.contains(
                i as u32,
            ) by {
                assert(s.waiting(i));
            }
        }
    }
    assert(t.heaped(h, w, ht)) by {
        assert forall|x: u128|
            #![trigger t.heap.count(x)]
            t.heap.count(x) <= 1 && (t.heap.count(x) > 0 ==> {
                let i = x as int % 0x1_0000_0000;
                &&& i < w * ht
                &&& x == key(h, i)
                &&& t.waiting(i)
                &&& !sunken(h, t.f, t.p, i)
            }) by {
            assert(s.heap.count(x) <= 1);
            if t.heap.count(x) > 0 {
                assert(s.heap.count(x) > 0);
                let i = x as int % 0x1_0000_0000;
                if i == c {
                    assert(x == key(h, c));
                }
            }
        }
        assert forall|i: int|
            0 <= i < w * ht && #[trigger] t.waiting(i) && !sunken(h, t.f, t.p, i) implies t.heap.count(
            key(h, i) as u128,
        ) > 0 by {
            assert(s.waiting(i) && i != c);
            assert(key(h, i) != key(h, c));
        }
    }
    // The vertices pending at the new step are exactly those that were waiting.
    assert forall|q: int| #[trigger] pending(t.p, t.pos, done, q, w, ht) implies s.waiting(q) by {
        assert(s.closed[q]);
        assert(-1 <= s.pos[q] < done);
    }
    assert forall|k: int, q: int|
        0 <= k < done && #[trigger] pending(t.p, t.pos, k, q, w, ht) implies pending(
        s.p,
        s.pos,
        k,
        q,
        w,
        ht,
    ) by {
        assert(s.closed[q]);
    }
    assert forall|k: int, q: int|
        0 <= k < done && #[trigger] pending(s.p, s.pos, k, q, w, ht) implies pending(
        t.p,
        t.pos,
        k,
        q,
        w,
        ht,
    ) by {
        assert(s.closed[q]);
    }
    assert(t.turns(h, w, ht)) by {
        assert forall|k: int| 0 <= k < t.o.len() implies in_turn(
            h,
            t.f,
            t.p,
            t.pos,
            #[trigger] t.o[k] as int,
            k,
            w,
            ht,
        ) by {
            if k < done {
                let d = s.o[k] as int;
                assert(in_turn(h, s.f, s.p, s.pos, d, k, w, ht));
                assert(pending(t.p, t.pos, k, d, w, ht));
                if sunken(h, t.f, t.p, d) {
                    assert forall|q: int| #[trigger]
                        pending(t.p, t.pos, k, q, w, ht) && sunken(h, t.f, t.p, q) && q
                            != d implies sooner(t.p, t.pos, d, q) by {
                        assert(pending(s.p, s.pos, k, q, w, ht));
                        assert(s.closed[q] && s.closed[d]);
                    }
                } else {
                    assert forall|q: int| #[trigger]
                        pending(t.p, t.pos, k, q, w, ht) implies !sunken(h, t.f, t.p, q) && key(
                        h,
                        d,
                    ) <= key(h, q) by {
                        assert(pending(s.p, s.pos, k, q, w, ht));
                    }
                }
            } else {
                assert(s.closed[c]);
                assert(pending(t.p, t.pos, k, c, w, ht));
                if sunken(h, t.f, t.p, c) {
                    assert forall|q: int| #[trigger]
                        pending(t.p, t.pos, k, q, w, ht) && sunken(h, t.f, t.p, q) && q
                            != c implies sooner(t.p, t.pos, c, q) by {
                        assert(s.waiting(q));
                        assert(s.closed[q]);
                        assert(s.pit.contains(q as u32));
                        let a = choose|a: int| 0 <= a < s.pit.len() && s.pit[a] == q as u32;
                        assert(a != 0);
                        assert(sooner(s.p, s.pos, s.pit[0] as int, s.pit[a] as int));
                    }
                } else {
                    assert forall|q: int| #[trigger]
                        pending(t.p, t.pos, k, q, w, ht) implies !sunken(h, t.f, t.p, q) && key(
                        h,
                        c,
                    ) <= key(h, q) by {
                        assert(s.waiting(q));
                        if sunken(h, s.f, s.p, q) {
                            assert(s.pit.contains(q as u32));
                        }
                        assert(s.heap.count(key(h, q) as u128) > 0);
                        assert(0 <= key(h, q) < 0x1_0000_0000 * 0x1_0000_0000);
                        assert(0 <= key(h, c) < 0x1_0000_0000 * 0x1_0000_0000);
                    }
                }
            }
        }
    }
    if all_numbers(h) {
        lemma_take_level(s, h, w, ht, c, pit, heap);
    }
}

proof fn lemma_take_level(
    s: Flood,
    h: Seq<u32>,
    w: int,
    ht: int,
    c: int,
    pit: Seq<u32>,
    heap: Multiset<u128>,
)
    requires
        s.inv(h, w, ht),
        s.c == -1,
        0 <= c < w * ht,
        s.waiting(c),
        all_numbers(h),
        !sunken(h, s.f, s.p, c) ==> {
            &&& s.pit.len() == 0
            &&& forall|x: u128| s.heap.count(x) > 0 ==> key(h, c) as u128 <= x
        },
    ensures
        s.take(c, pit, heap).level_so_far(h, w, ht),
{
    let t = s.take(c, pit, heap);
    let done = s.o.len() as int;
    assert(s.closed[c]);
    assert(!sunken(h, s.f, s.p, c) ==> s.f[c] == h[c]);
    assert(done > 0 && sunken(h, s.f, s.p, c) ==> t.level() == s.level());
    assert(done > 0 ==> s.level() <= t.level());
    assert forall|k: int, l: int| 0 <= k <= l < t.o.len() implies ieee::rank32(
        t.f[#[trigger] t.o[k] as int],
    ) <= ieee::rank32(t.f[#[trigger] t.o[l] as int]) by {
        if l < done {
            assert(ieee::rank32(s.f[s.o[k] as int]) <= ieee::rank32(s.f[s.o[l] as int]));
        } else if k < done {
            assert(ieee::rank32(s.f[s.o[k] as int]) <= ieee::rank32(s.f[s.o[done - 1] as int]));
        }
    }
    assert forall|i: int|
        0 <= i < w * ht && t.o.len() > 0 && #[trigger] t.waiting(i) && sunken(
            h,
            t.f,
            t.p,
            i,
        ) implies ieee::rank32(t.f[i]) == t.level() by {
        assert(s.waiting(i));
        assert(s.pit.contains(i as u32));
        assert(s.closed[i]);
        assert(s.pos[s.p[i] as int] < done);
    }
    assert forall|i: int|
        0 <= i < w * ht && t.o.len() > 0 && #[trigger] t.waiting(i) && !sunken(
            h,
            t.f,
            t.p,
            i,
        ) implies ieee::rank32(h[i]) >= t.level() by {
        assert(s.waiting(i));
        if sunken(h, s.f, s.p, c) {
            assert(s.pos[s.p[c] as int] < done);
        } else {
            assert(s.heap.count(key(h, i) as u128) > 0);
            assert(0 <= key(h, i) < 0x1_0000_0000 * 0x1_0000_0000);
            assert(0 <= key(h, c) < 0x1_0000_0000 * 0x1_0000_0000);
            ieee::lemma_total_refines_rank32(h[i], h[c]);
        }
    }
    assert forall|v: int, k: int|
        0 <= v < w * ht && 0 <= k < 8 && t.looked(v, k) && (#[trigger] grid::neighbour(
            v,
            k,
            w,
            ht,
        )) is Some implies {
        let i = grid::neighbour(v, k, w, ht)->0;
        ieee::rank32(t.f[i]) <= max(ieee::rank32(h[i]), ieee::rank32(t.f[v]))
    } by {
        assert(s.looked(v, k));
    }
}

/// Going on to the next direction where the grid ends or the neighbour is already discovered.
proof fn lemma_pass(s: Flood, h: Seq<u32>, w: int, ht: int)
    requires
        s.inv(h, w, ht),
        s.c >= 0,
        s.m < 8,
        grid::neighbour(s.c, s.m, w, ht) matches Some(j) ==> s.closed[j],
    ensures
        s.pass().inv(h, w, ht),
{
    let t = s.pass();
    let done = s.o.len() as int;
    assert(s.pos[s.o[done - 1] as int] == done - 1);
    assert forall|v: int, k: int| #[trigger] t.looked(v, k) implies s.looked(v, k) || v == s.c && k
        == s.m by {
    }
    assert(t.found(h, w, ht)) by {
        assert forall|i: int|
            #![trigger t.closed[i]]
            0 <= i < w * ht && !grid::on_border(i, w, ht) && t.closed[i] implies t.hangs(h, i, w, ht) by {
            assert(s.closed[i]);
            let k = choose|k: int|
                0 <= k < 8 && s.looked(s.p[i] as int, k) && #[trigger] grid::neighbour(
                    s.p[i] as int,
                    k,
                    w,
                    ht,
                ) == Some(i);
            assert(t.looked(t.p[i] as int, k));
        }
    }
    assert forall|v: int, k: int|
        0 <= v < w * ht && 0 <= k < 8 && t.looked(v, k) && (#[trigger] grid::neighbour(
            v,
            k,
            w,
            ht,
        )) is Some implies {
        let i = grid::neighbour(v, k, w, ht)->0;
        &&& t.closed[i]
        &&& !grid::on_border(i, w, ht) ==> t.pos[t.p[i] as int] <= t.pos[v]
        &&& all_numbers(h) ==> ieee::rank32(t.f[i]) <= max(
            ieee::rank32(h[i]),
            ieee::rank32(t.f[v]),
        )
    } by {
        let i = grid::neighbour(v, k, w, ht)->0;
        grid::lemma_neighbour(v, k, w, ht);
        if !s.looked(v, k) {
            assert(s.closed[i]);
            assert(!grid::on_border(i, w, ht) ==> s.pos[s.p[i] as int] < done);
            if all_numbers(h) {
                assert(s.level() == ieee::rank32(s.f[s.c]));
                if s.pos[i] >= 0 {
                    assert(s.o[s.pos[i]] == i);
                    assert(ieee::rank32(s.f[s.o[s.pos[i]] as int]) <= ieee::rank32(
                        s.f[s.o[done - 1] as int],
                    ));
                } else {
                    assert(s.waiting(i));
                }
            }
        }
    }
    assert forall|i: int| #[trigger] t.waiting(i) == s.waiting(i) by {
    }
    assert(t.queued(h, w, ht));
    assert(t.heaped(h, w, ht)) by {
        assert forall|x: u128|
            #![trigger t.heap.count(x)]
            t.heap.count(x) <= 1 && (t.heap.count(x) > 0 ==> {
                let i = x as int % 0x1_0000_0000;
                &&& i < w * ht
                &&& x == key(h, i)
                &&& t.waiting(i)
                &&& !sunken(h, t.f, t.p, i)
            }) by {
            assert(s.heap.count(x) <= 1);
        }
    }
    assert(t.turns(h, w, ht)) by {
        assert forall|k: int| 0 <= k < t.o.len() implies in_turn(
            h,
            t.f,
            t.p,
            t.pos,
            #[trigger] t.o[k] as int,
            k,
            w,
            ht,
        ) by {
            assert(in_turn(h, s.f, s.p, s.pos, s.o[k] as int, k, w, ht));
        }
    }
}

/// Discovering the next neighbour.
proof fn lemma_discover(
    s: Flood,
    h: Seq<u32>,
    w: int,
    ht: int,
    j: int,
    pit: Seq<u32>,
    heap: Multiset<u128>,
)
    requires
        s.inv(h, w, ht),
        s.c >= 0,
        s.m < 8,
        grid::neighbour(s.c, s.m, w, ht) == Some(j),
        !s.closed[j],
        ieee::le32(h[j], s.f[s.c]) ==> pit == s.pit.push(j as u32) && heap == s.heap,
        !ieee::le32(h[j], s.f[s.c]) ==> pit == s.pit && heap == s.heap.insert(
            key(h, j) as u128,
        ),
    ensures
        0 <= j < w * ht,
        s.discover(j, raised_to(h[j], s.f[s.c]), pit, heap).inv(h, w, ht),
{
    let t = s.discover(j, raised_to(h[j], s.f[s.c]), pit, heap);
    let done = s.o.len() as int;
    let c = s.c;
    grid::lemma_neighbour(c, s.m, w, ht);
    assert(s.pos[s.o[done - 1] as int] == done - 1);
    assert(s.pos[j] < 0 && s.p[j] == OUTLET && s.f[j] == h[j]);
    assert(!grid::on_border(j, w, ht));
    // Nothing is discovered from a vertex that is still dry.
    assert forall|i: int| 0 <= i < w * ht && #[trigger] s.closed[i] && !grid::on_border(i, w, ht)
        implies s.p[i] != j by {
    }
    assert forall|i: int| 0 <= i < w * ht && i != j && #[trigger] s.closed[i] implies sunken(
        h,
        t.f,
        t.p,
        i,
    ) == sunken(h, s.f, s.p, i) by {
    }
    assert(sunken(h, t.f, t.p, j) == ieee::le32(h[j], s.f[c]));
    assert(t.dry(h, w, ht)) by {
        assert forall|i: int|
            #![trigger t.closed[i]]
            0 <= i < w * ht && !t.closed[i] implies {
            &&& !grid::on_border(i, w, ht)
            &&& t.p[i] == OUTLET
            &&& t.f[i] == h[i]
            &&& t.pos[i] < 0
        } by {
            assert(!s.closed[i]);
        }
    }
    assert(t.found(h, w, ht)) by {
        assert forall|i: int|
            #![trigger t.closed[i]]
            0 <= i < w * ht && grid::on_border(i, w, ht) implies t.closed[i] && t.p[i] == OUTLET
            && t.f[i] == h[i] by {
            assert(s.closed[i]);
        }
        assert forall|i: int|
            #![trigger t.closed[i]]
            0 <= i < w * ht && !grid::on_border(i, w, ht) && t.closed[i] implies t.hangs(h, i, w, ht) by {
            if i == j {
                assert(t.looked(c, s.m));
            } else {
                assert(s.closed[i]);
                let k = choose|k: int|
                    0 <= k < 8 && s.looked(s.p[i] as int, k) && #[trigger] grid::neighbour(
                        s.p[i] as int,
                        k,
                        w,
                        ht,
                    ) == Some(i);
                assert(t.looked(t.p[i] as int, k));
            }
        }
    }
    assert(t.reached(w, ht)) by {
        assert forall|v: int, k: int|
            0 <= v < w * ht && 0 <= k < 8 && t.looked(v, k) && (#[trigger] grid::neighbour(
                v,
                k,
                w,
                ht,
            )) is Some implies {
            let i = grid::neighbour(v, k, w, ht)->0;
            &&& t.closed[i]
            &&& !grid::on_border(i, w, ht) ==> t.pos[t.p[i] as int] <= t.pos[v]
        } by {
            let i = grid::neighbour(v, k, w, ht)->0;
            grid::lemma_neighbour(v, k, w, ht);
            if s.looked(v, k) {
                assert(s.closed[i]);
            } else {
                assert(v == c && k == s.m);
            }
        }
    }
    assert forall|i: int| 0 <= i < w * ht && i != j implies #[trigger] t.waiting(i) == s.waiting(i) by {
    }
    assert(t.queued(h, w, ht)) by {
        assert forall|a: int| 0 <= a < t.pit.len() implies {
            &&& (#[trigger] t.pit[a]) < w * ht
            &&& t.waiting(t.pit[a] as int)
            &&& sunken(h, t.f, t.p, t.pit[a] as int)
        } by {
            if a < s.pit.len() {
                assert(s.waiting(s.pit[a] as int));
                assert(s.closed[s.pit[a] as int]);
            }
        }
        assert forall|a: int, b: int| 0 <= a < b < t.pit.len() implies sooner(
            t.p,
            t.pos,
            #[trigger] t.pit[a] as int,
            #[trigger] t.pit[b] as int,
        ) by {
            let i = s.pit[a] as int;
            assert(s.waiting(i) && s.closed[i]);
            if b < s.pit.len() {
                assert(sooner(s.p, s.pos, s.pit[a] as int, s.pit[b] as int));
                assert(s.waiting(s.pit[b] as int) && s.closed[s.pit[b] as int]);
            } else {
                assert(s.pos[s.p[i] as int] < done);
                if s.pos[s.p[i] as int] == done - 1 {
                    assert(s.o[s.pos[s.p[i] as int]] == s.p[i]);
                    lemma_discovered_last(s, h, w, ht, a);
                }
            }
        }
        assert forall|i: int|
            0 <= i < w * ht && #[trigger] t.waiting(i) && sunken(h, t.f, t.p, i) implies t.pit.contains(
            i as u32,
        ) by {
            if i == j {
                assert(t.pit[t.pit.len() - 1] == j as u32);
            } else {
                assert(s.waiting(i) && s.closed[i]);
                assert(s.pit.contains(i as u32));
                let a = choose|a: int| 0 <= a < s.pit.len() && s.pit[a] == i as u32;
                assert(t.pit[a] == i as u32);
            }
        }
    }
    assert(t.heaped(h, w, ht)) by {
        assert(0 <= key(h, j) < 0x1_0000_0000 * 0x1_0000_0000);
        assert(key(h, j) % 0x1_0000_0000 == j);
        assert forall|x: u128|
            #![trigger t.heap.count(x)]
            t.heap.count(x) <= 1 && (t.heap.count(x) > 0 ==> {
                let i = x as int % 0x1_0000_0000;
                &&& i < w * ht
                &&& x == key(h, i)
                &&& t.waiting(i)
                &&& !sunken(h, t.f, t.p, i)
            }) by {
            assert(s.heap.count(x) <= 1);
            let i = x as int % 0x1_0000_0000;
            if s.heap.count(x) > 0 {
                assert(s.waiting(i) && s.closed[i]);
            }
        }
        assert forall|i: int|
            0 <= i < w * ht && #[trigger] t.waiting(i) && !sunken(h, t.f, t.p, i) implies t.heap.count(
            key(h, i) as u128,
        ) > 0 by {
            if i != j {
                assert(s.waiting(i) && s.closed[i]);
                assert(s.heap.count(key(h, i) as u128) > 0);
            }
        }
    }
    assert forall|k: int, q: int|
        0 <= k < done && #[trigger] pending(t.p, t.pos, k, q, w, ht) implies pending(
        s.p,
        s.pos,
        k,
        q,
        w,
        ht,
    ) && q != j by {
    }
    assert(t.turns(h, w, ht)) by {
        assert forall|k: int| 0 <= k < t.o.len() implies in_turn(
            h,
            t.f,
            t.p,
            t.pos,
            #[trigger] t.o[k] as int,
            k,
            w,
            ht,
        ) by {
            let d = s.o[k] as int;
            assert(in_turn(h, s.f, s.p, s.pos, d, k, w, ht));
            assert(s.pos[d] == k);
            assert(s.closed[d]);
            assert(pending(t.p, t.pos, k, d, w, ht));
            if sunken(h, t.f, t.p, d) {
                assert forall|q: int| #[trigger]
                    pending(t.p, t.pos, k, q, w, ht) && sunken(h, t.f, t.p, q) && q != d implies sooner(
                    t.p,
                    t.pos,
                    d,
                    q,
                ) by {
                    assert(pending(s.p, s.pos, k, q, w, ht));
                    assert(s.closed[q]);
                }
            } else {
                assert forall|q: int| #[trigger]
                    pending(t.p, t.pos, k, q, w, ht) implies !sunken(h, t.f, t.p, q) && key(h, d)
                    <= key(h, q) by {
                    assert(pending(s.p, s.pos, k, q, w, ht));
                    assert(s.closed[q]);
                }
            }
        }
    }
    if all_numbers(h) {
        assert(t.level() == s.level());
        assert forall|v: int, k: int|
            0 <= v < w * ht && 0 <= k < 8 && t.looked(v, k) && (#[trigger] grid::neighbour(
                v,
                k,
                w,
                ht,
            )) is Some implies {
            let i = grid::neighbour(v, k, w, ht)->0;
            ieee::rank32(t.f[i]) <= max(ieee::rank32(h[i]), ieee::rank32(t.f[v]))
        } by {
            let i = grid::neighbour(v, k, w, ht)->0;
            grid::lemma_neighbour(v, k, w, ht);
            assert(v != j);
            if s.looked(v, k) {
                assert(s.closed[i]);
            } else {
                assert(v == c && k == s.m);
            }
        }
        assert forall|i: int|
            0 <= i < w * ht && t.o.len() > 0 && #[trigger] t.waiting(i) && sunken(
                h,
                t.f,
                t.p,
                i,
            ) implies ieee::rank32(t.f[i]) == t.level() by {
            if i != j {
                assert(s.waiting(i) && s.closed[i]);
            }
        }
        assert forall|i: int|
            0 <= i < w * ht && t.o.len() > 0 && #[trigger] t.waiting(i) && !sunken(
                h,
                t.f,
                t.p,
                i,
            ) implies ieee::rank32(h[i]) >= t.level() by {
            if i != j {
                assert(s.waiting(i) && s.closed[i]);
            }
        }
        assert forall|k: int, l: int| 0 <= k <= l < t.o.len() implies ieee::rank32(
            t.f[#[trigger] t.o[k] as int],
        ) <= ieee::rank32(t.f[#[trigger] t.o[l] as int]) by {
            assert(s.pos[s.o[k] as int] == k && s.pos[s.o[l] as int] == l);
            assert(ieee::rank32(s.f[s.o[k] as int]) <= ieee::rank32(s.f[s.o[l] as int]));
        }
    }
}

/// Turning away from a vertex all of whose directions have been looked at.
proof fn lemma_leave(s: Flood, h: Seq<u32>, w: int, ht: int)
    requires
        s.inv(h, w, ht),
        s.c >= 0,
        s.m == 8,
    ensures
        s.leave().inv(h, w, ht),
{
    let t = s.leave();
    assert forall|v: int, k: int| 0 <= v && 0 <= k < 8 implies #[trigger] t.looked(v, k) == s.looked(v, k) by {
    }
    assert(t.found(h, w, ht)) by {
        assert forall|i: int|
            #![trigger t.closed[i]]
            0 <= i < w * ht && !grid::on_border(i, w, ht) && t.closed[i] implies t.hangs(
            h,
            i,
            w,
            ht,
        ) by {
            assert(s.closed[i]);
            let k = choose|k: int|
                0 <= k < 8 && s.looked(s.p[i] as int, k) && #[trigger] grid::neighbour(
                    s.p[i] as int,
                    k,
                    w,
                    ht,
                ) == Some(i);
            assert(t.looked(t.p[i] as int, k));
        }
    }
    assert forall|i: int| #[trigger] t.waiting(i) == s.waiting(i) by {
    }
    assert(t.heaped(h, w, ht)) by {
        assert forall|x: u128|
            #![trigger t.heap.count(x)]
            t.heap.count(x) <= 1 && (t.heap.count(x) > 0 ==> {
                let i = x as int % 0x1_0000_0000;
                &&& i < w * ht
                &&& x == key(h, i)
                &&& t.waiting(i)
                &&& !sunken(h, t.f, t.p, i)
            }) by {
            assert(s.heap.count(x) <= 1);
        }
    }
    assert(t.turns(h, w, ht)) by {
        assert forall|k: int| 0 <= k < t.o.len() implies in_turn(
            h,
            t.f,
            t.p,
            t.pos,
            #[trigger] t.o[k] as int,
            k,
            w,
            ht,
        ) by {
            assert(in_turn(h, s.f, s.p, s.pos, s.o[k] as int, k, w, ht));
        }
    }
}

/// The flood reaches the whole row: each vertex is discovered from its left neighbour.
proof fn lemma_row_reached(s: Flood, h: Seq<u32>, w: int, ht: int, x: int, y: int)
    requires
        s.inv(h, w, ht),
        s.c == -1,
        s.pit.len() == 0,
        s.heap.len() == 0,
        0 <= x < w,
        0 <= y < ht,
    ensures
        s.closed[grid::at(x, y, w)],
        s.pos[grid::at(x, y, w)] >= 0,
    decreases x,
{
    let i = grid::at(x, y, w);
    grid::lemma_at(x, y, w, ht);
    if x > 0 {
        lemma_row_reached(s, h, w, ht, x - 1, y);
        let v = grid::at(x - 1, y, w);
        grid::lemma_at(x - 1, y, w, ht);
        assert(grid::neighbour(v, 4, w, ht) == Some(i));
        assert(s.looked(v, 4));
    }
    assert(s.closed[i]);
    if s.pos[i] < 0 {
        assert(s.waiting(i));
        if sunken(h, s.f, s.p, i) {
            assert(s.pit.contains(i as u32));
        } else {
            assert(s.heap.count(key(h, i) as u128) > 0);
        }
    }
}

/// Where both queues are empty the grid is flooded.
proof fn lemma_finish(s: Flood, h: Seq<u32>, w: int, ht: int)
    requires
        s.inv(h, w, ht),
        s.c == -1,
        s.pit.len() == 0,
        s.heap.len() == 0,
    ensures
        flooded(h, w, ht, s.f, s.o, s.p),
        all_numbers(h) ==> levelled(h, w, ht, s.f, s.o),
{
    let n = w * ht;
    assert forall|i: int| 0 <= i < n implies #[trigger] s.closed[i] && s.pos[i] >= 0 by {
        grid::lemma_col_row(i, w, ht);
        lemma_row_reached(s, h, w, ht, grid::col(i, w), grid::row(i, w));
    }
    assert(s.o.no_duplicates()) by {
        assert forall|a: int, b: int| 0 <= a < s.o.len() && 0 <= b < s.o.len() && a != b implies s.o[a]
            != s.o[b] by {
            assert(s.pos[s.o[a] as int] == a && s.pos[s.o[b] as int] == b);
        }
    }
    assert(s.pos.no_duplicates()) by {
        assert forall|a: int, b: int|
            0 <= a < s.pos.len() && 0 <= b < s.pos.len() && a != b implies s.pos[a] != s.pos[b] by {
            assert(s.closed[a] && s.closed[b]);
            assert(s.o[s.pos[a]] == a && s.o[s.pos[b]] == b);
        }
    }
    assert(n <= s.o.len()) by {
        assert forall|i: int| 0 <= i < s.pos.len() implies 0 <= #[trigger] s.pos[i] < s.o.len() by {
            assert(s.closed[i]);
        }
        lemma_pigeonhole(s.pos, s.o.len() as int);
    }
    assert(s.o.len() <= n) by {
        let q = s.o.map_values(|x: u32| x as int);
        assert forall|k: int| 0 <= k < q.len() implies 0 <= #[trigger] q[k] < n by {
            assert(s.o[k] < s.pos.len());
        }
        assert(q.no_duplicates()) by {
            assert forall|a: int, b: int| 0 <= a < q.len() && 0 <= b < q.len() && a != b implies q[a]
                != q[b] by {
                assert(s.o[a] != s.o[b]);
            }
        }
        lemma_pigeonhole(q, n);
    }
    assert(places(s.o) =~= s.pos) by {
        assert forall|i: int| 0 <= i < n implies places(s.o)[i] == s.pos[i] by {
            assert(s.closed[i]);
            assert(s.o[s.pos[i]] == i as u32);
            assert(s.o.contains(i as u32));
            let k = s.o.index_of(i as u32);
            assert(s.o[k] == i as u32);
            assert(s.pos[s.o[k] as int] == k);
        }
    }
    assert(forest(s.o, s.p)) by {
        assert forall|i: int|
            0 <= i < s.p.len() && #[trigger] s.p[i] != OUTLET implies s.p[i] < s.p.len() && places(
            s.o,
        )[s.p[i] as int] < places(s.o)[i] by {
            assert(s.closed[i]);
            assert(!grid::on_border(i, w, ht));
            let k = s.pos[i];
            assert(s.o[k] == i);
            assert(in_turn(h, s.f, s.p, s.pos, s.o[k] as int, k, w, ht));
        }
    }
    assert forall|i: int| 0 <= i < n && !grid::on_border(i, w, ht) implies {
        &&& #[trigger] s.p[i] != OUTLET
        &&& grid::adjacent(s.p[i] as int, i, w, ht)
        &&& s.f[i] == raised_to(h[i], s.f[s.p[i] as int])
    } by {
        assert(s.closed[i]);
        assert(s.hangs(h, i, w, ht));
    }
    assert forall|i: int| 0 <= i < n && grid::on_border(i, w, ht) implies #[trigger] s.p[i] == OUTLET
        && s.f[i] == h[i] by {
        assert(s.closed[i]);
    }
    assert forall|v: int, i: int| 0 <= v < n && #[trigger] grid::adjacent(v, i, w, ht) implies {
        &&& !grid::on_border(i, w, ht) ==> places(s.o)[s.p[i] as int] <= places(s.o)[v]
        &&& all_numbers(h) ==> ieee::rank32(s.f[i]) <= max(
            ieee::rank32(h[i]),
            ieee::rank32(s.f[v]),
        )
    } by {
        let k = choose|k: int| 0 <= k < 8 && #[trigger] grid::neighbour(v, k, w, ht) == Some(i);
        grid::lemma_neighbour(v, k, w, ht);
        assert(s.closed[v] && s.closed[i]);
        assert(s.looked(v, k));
    }
    assert forall|k: int| 0 <= k < n implies in_turn(
        h,
        s.f,
        s.p,
        places(s.o),
        #[trigger] s.o[k] as int,
        k,
        w,
        ht,
    ) by {
        assert(in_turn(h, s.f, s.p, s.pos, s.o[k] as int, k, w, ht));
    }
}

/// The state before anything is flooded: the border waits in the heap.
proof fn lemma_start(s: Flood, h: Seq<u32>, w: int, ht: int)
    requires
        0 <= w,
        0 <= ht,
        w * ht <= u32::MAX,
        h.len() == w * ht,
        s.f == h,
        s.p.len() == w * ht,
        forall|i: int| 0 <= i < w * ht ==> s.p[i] == OUTLET,
        s.closed.len() == w * ht,
        forall|i: int|
            0 <= i < w * ht ==> #[trigger] s.closed[i] == grid::on_border(i, w, ht),
        s.o.len() == 0,
        s.pos.len() == w * ht,
        forall|i: int| 0 <= i < w * ht ==> s.pos[i] == -1,
        s.pit.len() == 0,
        forall|x: u128|
            #![trigger s.heap.count(x)]
            s.heap.count(x) <= 1 && (s.heap.count(x) > 0 ==> {
                let i = x as int % 0x1_0000_0000;
                &&& i < w * ht
                &&& x == key(h, i)
                &&& grid::on_border(i, w, ht)
            }),
        forall|i: int|
            0 <= i < w * ht && #[trigger] grid::on_border(i, w, ht) ==> s.heap.count(
                key(h, i) as u128,
            ) > 0,
        s.c == -1,
        s.m == 0,
    ensures
        s.inv(h, w, ht),
{
    assert(s.heaped(h, w, ht)) by {
        assert forall|x: u128|
            #![trigger s.heap.count(x)]
            s.heap.count(x) <= 1 && (s.heap.count(x) > 0 ==> {
                let i = x as int % 0x1_0000_0000;
                &&& i < w * ht
                &&& x == key(h, i)
                &&& s.waiting(i)
                &&& !sunken(h, s.f, s.p, i)
            }) by {
            let i = x as int % 0x1_0000_0000;
            if s.heap.count(x) > 0 {
                assert(s.closed[i]);
            }
        }
    }
}

/// The heap key of vertex `i` at the given height.
fn key_of(height: u32, i: usize) -> (k: u128)
    requires
        i <= u32::MAX,
    ensures
        k == ieee::total32(height) * 0x1_0000_0000 + i,
{
    ieee::ordered(height) as u128 * 0x1_0000_0000 + i as u128
}

/// Marks the border vertices as discovered and puts them in a heap.
fn border_heap(h: &[u32], w: usize, ht: usize) -> (r: (Vec<bool>, MinHeap))
    requires
        h@.len() == w * ht,
        w * ht <= u32::MAX,
    ensures
        r.0@.len() == w * ht,
        forall|i: int|
            0 <= i < w * ht ==> #[trigger] r.0@[i] == grid::on_border(i, w as int, ht as int),
        r.1.wf(),
        forall|x: u128|
            #![trigger r.1@.count(x)]
            r.1@.count(x) <= 1 && (r.1@.count(x) > 0 ==> {
                let i = x as int % 0x1_0000_0000;
                &&& i < w * ht
                &&& x == key(h@, i)
                &&& grid::on_border(i, w as int, ht as int)
            }),
        forall|i: int|
            0 <= i < w * ht && #[trigger] grid::on_border(i, w as int, ht as int) ==> r.1@.count(
                key(h@, i) as u128,
            ) > 0,
{
    let n: usize = h.len();
    let mut closed: Vec<bool> = vec![false; n];
    let mut open = MinHeap::new();
    let mut i: usize = 0;
    while i < n
        invariant
            n == h@.len() == w * ht <= u32::MAX,
            i <= n,
            closed@.len() == n,
            open.wf(),
            forall|j: int|
                0 <= j < i ==> #[trigger] closed@[j] == grid::on_border(j, w as int, ht as int),
            forall|j: int| i <= j < n ==> !#[trigger] closed@[j],
            forall|x: u128|
                #![trigger open@.count(x)]
                open@.count(x) <= 1 && (open@.count(x) > 0 ==> {
                    let j = x as int % 0x1_0000_0000;
                    &&& j < i
                    &&& x == key(h@, j)
                    &&& grid::on_border(j, w as int, ht as int)
                }),
            forall|j: int|
                0 <= j < i && #[trigger] grid::on_border(j, w as int, ht as int)
                    ==> open@.count(key(h@, j) as u128) > 0,
        decreases n - i,
    {
        proof {
            grid::lemma_col_row(i as int, w as int, ht as int);
        }
        let (x, y): (usize, usize) = (i % w, i / w);
        if x == 0 || y == 0 || x == w - 1 || y == ht - 1 {
            let k: u128 = key_of(h[i], i);
            assert(k as int % 0x1_0000_0000 == i);
            assert(open@.count(k) == 0);
            closed[i] = true;
            open.push(k);
        }
        i += 1;
    }
    (closed, open)
}

/// Fills the depressions of the height grid `h` of `w` columns and `ht` rows.
pub fn priority_flood(h: &[u32], w: usize, ht: usize) -> (d: Drainage)
    requires
        h@.len() == w * ht,
        w * ht <= u32::MAX,
    ensures
        flooded(h@, w as int, ht as int, d.filled@, d.order@, d.parent@),
        all_numbers(h@) ==> levelled(h@, w as int, ht as int, d.filled@, d.order@),
{
    let n: usize = h.len();
    let mut filled: Vec<u32> = Vec::with_capacity(n);
    filled.extend_from_slice(h);
    let mut parent: Vec<u32> = vec![OUTLET; n];
    let (mut closed, mut open) = border_heap(h, w, ht);
    let mut order: Vec<u32> = Vec::with_capacity(n);
    let mut pit: VecDeque<u32> = VecDeque::new();
    let ghost mut s = Flood {
        f: filled@,
        p: parent@,
        closed: closed@,
        o: order@,
        pos: Seq::new(n as nat, |i: int| -1int),
        pit: pit@,
        heap: open@,
        c: -1,
        m: 0,
    };
    proof {
        assert(filled@ =~= h@);
        lemma_start(s, h@, w as int, ht as int);
    }
    loop
        invariant
            n == h@.len() == w * ht <= u32::MAX,
            open.wf(),
            s.f == filled@,
            s.p == parent@,
            s.closed == closed@,
            s.o == order@,
            s.pit == pit@,
            s.heap == open@,
            s.c == -1,
            s.inv(h@, w as int, ht as int),
            order@.len() <= n,
        ensures
            s.pit.len() == 0,
            s.heap.len() == 0,
        decreases n - order@.len(),
    {
        let c: usize = if let Some(c) = pit.pop_front() {
            proof {
                let i = s.pit[0] as int;
                assert(s.waiting(i));
                lemma_take(s, h@, w as int, ht as int, i, pit@, open@);
                s = s.take(i, pit@, open@);
            }
            c as usize
        } else if let Some(k) = open.pop() {
            let i: usize = (k % 0x1_0000_0000) as usize;
            proof {
                assert(s.heap.count(k) > 0);
                assert(k == key(h@, i as int));
                lemma_take(s, h@, w as int, ht as int, i as int, pit@, open@);
                s = s.take(i as int, pit@, open@);
            }
            i
        } else {
            break;
        };
        order.push(c as u32);
        assert(s.o =~= order@);
        let level: u32 = filled[c];
        let mut m: usize = 0;
        while m < 8
            invariant
                n == h@.len() == w * ht <= u32::MAX,
                m <= 8,
                c < n,
                open.wf(),
                s.f == filled@,
                s.p == parent@,
                s.closed == closed@,
                s.o == order@,
                s.pit == pit@,
                s.heap == open@,
                s.c == c,
                s.m == m,
                s.f[c as int] == level,
                s.inv(h@, w as int, ht as int),
            decreases 8 - m,
        {
            if let Some(j) = grid::neighbour_of(c, m, w, ht) {
                proof {
                    grid::lemma_neighbour(c as int, m as int, w as int, ht as int);
                }
                if closed[j] {
                    proof {
                        lemma_pass(s, h@, w as int, ht as int);
                        s = s.pass();
                    }
                } else {
                    closed[j] = true;
                    parent[j] = c as u32;
                    if ieee::is_le32(h[j], level) {
                        filled[j] = level;
                        pit.push_back(j as u32);
                    } else {
                        open.push(key_of(h[j], j));
                    }
                    proof {
                        lemma_discover(s, h@, w as int, ht as int, j as int, pit@, open@);
                        assert(s.f.update(j as int, raised_to(h@[j as int], level)) =~= filled@) by {
                            assert(!s.closed[j as int]);
                            assert(s.f[j as int] == h@[j as int]);
                        }
                        s = s.discover(j as int, raised_to(h@[j as int], level), pit@, open@);
                    }
                }
            } else {
                proof {
                    lemma_pass(s, h@, w as int, ht as int);
                    s = s.pass();
                }
            }
            m += 1;
        }
        proof {
            lemma_leave(s, h@, w as int, ht as int);
            s = s.leave();
            let q = s.o.map_values(|x: u32| x as int);
            assert forall|k: int| 0 <= k < q.len() implies 0 <= #[trigger] q[k] < n by {
                assert(s.o[k] < s.pos.len());
            }
            assert(q.no_duplicates()) by {
                assert forall|a: int, b: int|
                    0 <= a < q.len() && 0 <= b < q.len() && a != b implies q[a] != q[b] by {
                    assert(s.pos[s.o[a] as int] == a && s.pos[s.o[b] as int] == b);
                }
            }
            lemma_pigeonhole(q, n as int);
        }
    }
    proof {
        lemma_finish(s, h@, w as int, ht as int);
    }
    Drainage { filled, order, parent }
}

/// A way across the grid from its border, one neighbour at a time.
pub open spec fn way_in(s: Seq<int>, w: int, ht: int) -> bool {
    &&& s.len() > 0
    &&& 0 <= s[0] < w * ht
    &&& grid::on_border(s[0], w, ht)
    &&& forall|k: int| 0 < k < s.len() ==> #[trigger] grid::adjacent(s[k - 1], s[k], w, ht)
}

proof fn lemma_way_in_range(s: Seq<int>, w: int, ht: int, k: int)
    requires
        way_in(s, w, ht),
        0 <= w,
        0 <= ht,
        0 <= k < s.len(),
    ensures
        0 <= s[k] < w * ht,
    decreases k,
{
    if k > 0 {
        lemma_way_in_range(s, w, ht, k - 1);
        assert(grid::adjacent(s[k - 1], s[k], w, ht));
        grid::lemma_adjacent_symmetric(s[k - 1], s[k], w, ht);
    }
}

/// Filled heights are at least as high as they need to be: every way from the border to a vertex
/// passes a height no lower than the vertex's filled height.
pub proof fn lemma_no_lower_way_in(
    h: Seq<u32>,
    w: int,
    ht: int,
    d: Drainage,
    s: Seq<int>,
)
    requires
        0 <= w,
        0 <= ht,
        flooded(h, w, ht, d.filled@, d.order@, d.parent@),
        levelled(h, w, ht, d.filled@, d.order@),
        way_in(s, w, ht),
    ensures
        exists|k: int|
            0 <= k < s.len() && ieee::rank32(h[#[trigger] s[k]]) >= ieee::rank32(
                d.filled@[s.last()],
            ),
    decreases s.len(),
{
    let f = d.filled@;
    if s.len() == 1 {
        assert(d.parent@[s[0]] == OUTLET);
        assert(ieee::rank32(h[s[0]]) >= ieee::rank32(f[s.last()]));
    } else {
        let t = s.drop_last();
        assert(way_in(t, w, ht)) by {
            assert forall|k: int| 0 < k < t.len() implies #[trigger] grid::adjacent(
                t[k - 1],
                t[k],
                w,
                ht,
            ) by {
                assert(grid::adjacent(s[k - 1], s[k], w, ht));
            }
        }
        lemma_no_lower_way_in(h, w, ht, d, t);
        let k = choose|k: int|
            0 <= k < t.len() && ieee::rank32(h[#[trigger] t[k]]) >= ieee::rank32(f[t.last()]);
        lemma_way_in_range(s, w, ht, s.len() - 2);
        assert(grid::adjacent(s[s.len() - 2], s[s.len() - 1], w, ht));
        if ieee::rank32(h[s.last()]) >= ieee::rank32(f[s.last()]) {
            assert(s[s.len() - 1] == s.last());
        } else {
            assert(s[k] == t[k]);
        }
    }
}

/// Filled heights are no higher than they need to be: following the parents from any vertex leads
/// to the border along heights that do not exceed the vertex's filled height.
pub proof fn lemma_drains_to_border(h: Seq<u32>, w: int, ht: int, d: Drainage, i: int) -> (s: Seq<
    int,
>)
    requires
        0 <= w,
        0 <= ht,
        flooded(h, w, ht, d.filled@, d.order@, d.parent@),
        all_numbers(h),
        0 <= i < w * ht,
    ensures
        way_in(s, w, ht),
        s.last() == i,
        forall|k: int| 0 < k < s.len() ==> d.parent@[#[trigger] s[k]] == s[k - 1],
        forall|k: int|
            0 <= k < s.len() ==> ieee::rank32(h[#[trigger] s[k]]) <= ieee::rank32(d.filled@[i]),
        !ieee::nan32(d.filled@[i]),
    decreases places(d.order@)[i],
{
    let (f, p) = (d.filled@, d.parent@);
    assert(0 <= places(d.order@)[i]) by {
        lemma_everything_has_a_place(d.order@, i);
    }
    if grid::on_border(i, w, ht) {
        assert(p[i] == OUTLET && f[i] == h[i]);
        seq![i]
    } else {
        let v = p[i] as int;
        assert(p[i] != OUTLET);
        assert(f[i] == raised_to(h[i], f[v]));
        lemma_everything_has_a_place(d.order@, v);
        let t = lemma_drains_to_border(h, w, ht, d, v);
        let s = t.push(i);
        assert forall|k: int| 0 < k < s.len() implies #[trigger] grid::adjacent(
            s[k - 1],
            s[k],
            w,
            ht,
        ) by {
            if k < t.len() {
                assert(grid::adjacent(t[k - 1], t[k], w, ht));
            } else {
                assert(s[k - 1] == v);
            }
        }
        assert forall|k: int| 0 <= k < s.len() implies ieee::rank32(h[#[trigger] s[k]])
            <= ieee::rank32(f[i]) by {
            if k < t.len() {
                assert(ieee::rank32(h[t[k]]) <= ieee::rank32(f[v]));
            }
        }
        s
    }
}

/// A flooding order holds every vertex, so each has a place.
pub proof fn lemma_everything_has_a_place(o: Seq<u32>, i: int)
    requires
        o.no_duplicates(),
        forall|k: int| 0 <= k < o.len() ==> #[trigger] o[k] < o.len(),
        0 <= i < o.len() <= u32::MAX,
    ensures
        0 <= places(o)[i] < o.len(),
        o[places(o)[i]] == i,
{
    if !o.contains(i as u32) {
        let q = Seq::new(
            o.len() + 1,
            |k: int|
                if k < o.len() {
                    o[k] as int
                } else {
                    i
                },
        );
        assert(q.no_duplicates()) by {
            assert forall|a: int, b: int| 0 <= a < q.len() && 0 <= b < q.len() && a != b implies q[a]
                != q[b] by {
                if a < o.len() && b < o.len() {
                    assert(o[a] != o[b]);
                } else if a < o.len() {
                    assert(o.contains(o[a]));
                } else {
                    assert(o.contains(o[b]));
                }
            }
        }
        assert forall|k: int| 0 <= k < q.len() implies 0 <= #[trigger] q[k] < o.len() by {
            if k < o.len() {
                assert(o[k] < o.len());
            }
        }
        lemma_pigeonhole(q, o.len() as int);
    }
    let k = o.index_of(i as u32);
    assert(o[k] == i as u32);
}

/// The surface over a depression is level: neighbours that are both raised stand equally high.
pub proof fn lemma_depressions_are_level(h: Seq<u32>, w: int, ht: int, d: Drainage, i: int, j: int)
    requires
        0 <= w,
        0 <= ht,
        flooded(h, w, ht, d.filled@, d.order@, d.parent@),
        levelled(h, w, ht, d.filled@, d.order@),
        0 <= i < w * ht,
        grid::adjacent(i, j, w, ht),
        ieee::lt32(h[i], d.filled@[i]),
        ieee::lt32(h[j], d.filled@[j]),
    ensures
        ieee::rank32(d.filled@[i]) == ieee::rank32(d.filled@[j]),
{
    grid::lemma_adjacent_symmetric(i, j, w, ht);
    assert(grid::adjacent(j, i, w, ht));
}

/// The turn goes to vertices in a depression before any other, to the one found from the earliest flooded
/// neighbour first; of the others to the lowest, and among equally low ones to the first.
pub proof fn lemma_turns_go_to_the_lowest(
    h: Seq<u32>,
    f: Seq<u32>,
    p: Seq<u32>,
    pos: Seq<int>,
    c: int,
    q: int,
    k: int,
    w: int,
    ht: int,
)
    requires
        in_turn(h, f, p, pos, c, k, w, ht),
        pending(p, pos, k, q, w, ht),
        0 <= w * ht <= 0x1_0000_0000,
    ensures
        sunken(h, f, p, q) ==> sunken(h, f, p, c) && pos[p[c] as int] <= pos[p[q] as int],
        !sunken(h, f, p, c) ==> !ieee::lt32(h[q], h[c]) && (h[q] == h[c] ==> c <= q),
{
    if !sunken(h, f, p, c) {
        assert(key(h, c) <= key(h, q));
        ieee::lemma_total_refines_rank32(h[q], h[c]);
    }
}

/// Flooding raises a vertex to the level it was found from, never lowers it, and leaves higher ones.
pub proof fn lemma_flooding_raises(height: u32, level: u32)
    requires
        !ieee::nan32(height) && !ieee::nan32(level),
    ensures
        ieee::rank32(raised_to(height, level)) == max(ieee::rank32(height), ieee::rank32(level)),
        ieee::rank32(raised_to(height, level)) >= ieee::rank32(height),
        ieee::rank32(raised_to(height, level)) >= ieee::rank32(level),
        raised_to(height, level) == height || raised_to(height, level) == level,
{
}

} // verus!
