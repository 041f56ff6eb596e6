//! The bookkeeping of a best-first search for a road.
//!
//! The caller takes states out of the queue, computes what the moves out of them cost, and offers
//! those costs. Costs are the bits of non-negative numbers, which order like the numbers.

use vstd::multiset::Multiset;
use vstd::prelude::*;

use crate::heap::MinHeap;
use crate::ieee;
use crate::routing;
use crate::routing::{RouteGrid, NONE};

verus! {

/// Queue order: estimated total cost, then state.
pub open spec fn queue_key(estimate: u64, s: int) -> int {
    ieee::total64(estimate) * 0x1_0000_0000 + s
}

/// The states on the way that a search found to state `s`, from its start.
pub open spec fn trail(cost: Seq<u64>, from: Seq<u32>, s: int) -> Seq<int>
    decreases cost[s],
{
    if from[s] == NONE || cost[from[s] as int] >= cost[s] {
        seq![s]
    } else {
        trail(cost, from, from[s] as int).push(s)
    }
}

/// A search; a state that has not been reached costs infinity.
pub struct Search {
    cost: Vec<u64>,
    from: Vec<u32>,
    touched: Vec<u32>,
    open: MinHeap,
    start: usize,
}

impl Search {
    /// The least cost found so far.
    pub closed spec fn costs(&self) -> Seq<u64> {
        self.cost@
    }

    /// The state before each state on the cheapest way found so far.
    pub closed spec fn origins(&self) -> Seq<u32> {
        self.from@
    }

    /// The keys of the states in the queue.
    pub closed spec fn queue(&self) -> Multiset<u128> {
        self.open@
    }

    /// The vertex where the search starts.
    pub closed spec fn start(&self) -> int {
        self.start as int
    }

    /// Whether state `s` has been reached.
    pub open spec fn reached(&self, s: int) -> bool {
        0 <= s < self.costs().len() && self.costs()[s] < ieee::INFINITY64
    }

    /// The costs and origins of a search on `g` belong together: a state was reached at no cost,
    /// as a start, or by a legal move from a cheaper state.
    pub open spec fn consistent(&self, g: RouteGrid) -> bool {
        &&& g.wf()
        &&& self.costs().len() == g.m * g.m * 16
        &&& self.origins().len() == g.m * g.m * 16
        &&& forall|s: int| 0 <= s < self.costs().len() ==> #[trigger] self.costs()[s] <= ieee::INFINITY64
        &&& forall|s: int|
            0 <= s < self.costs().len() && !self.reached(s) ==> #[trigger] self.origins()[s] == NONE
        &&& forall|s: int|
            self.reached(s) && #[trigger] self.origins()[s] == NONE ==> s / 16 == self.start()
                && self.costs()[s] == 0
        &&& forall|s: int|
            0 <= s < self.costs().len() && #[trigger] self.origins()[s] != NONE ==> {
                let o = self.origins()[s] as int;
                &&& o < self.costs().len()
                &&& self.costs()[o] < self.costs()[s]
                &&& routing::follows(g, o, s)
            }
    }

    /// Touched states are remembered, and queued states have been reached.
    pub closed spec fn tidy(&self) -> bool {
        &&& self.open.wf()
        &&& self.cost@.len() == self.from@.len() <= u32::MAX
        &&& forall|k: int| 0 <= k < self.touched@.len() ==> #[trigger] self.touched@[k] < self.cost@.len()
        &&& forall|s: int|
            0 <= s < self.cost@.len() && #[trigger] self.cost@[s] < ieee::INFINITY64
                ==> self.touched@.contains(s as u32)
        &&& forall|x: u128|
            #[trigger] self.open@.count(x) > 0 ==> {
                let s = x as int % 0x1_0000_0000;
                &&& s < self.cost@.len()
                &&& self.cost@[s] < ieee::INFINITY64
                &&& x < 0x1_0000_0000_0000_0000_0000_0000
            }
    }

    pub open spec fn wf(&self, g: RouteGrid) -> bool {
        self.consistent(g) && self.tidy()
    }

    /// Whether nothing has been reached and nothing is queued.
    pub open spec fn blank(&self) -> bool {
        &&& forall|s: int|
            0 <= s < self.costs().len() ==> #[trigger] self.costs()[s] == ieee::INFINITY64
        &&& self.queue().len() == 0
    }

    /// A search on `g` that has reached nothing.
    pub fn new(g: &RouteGrid) -> (r: Search)
        requires
            g.wf(),
        ensures
            r.wf(*g),
            r.blank(),
    {
        let n: usize = g.blocked.len() * 16;
        let r = Search {
            cost: vec![ieee::INFINITY64; n],
            from: vec![NONE; n],
            touched: Vec::new(),
            open: MinHeap::new(),
            start: 0,
        };
        assert forall|s: int| 0 <= s < n implies !(#[trigger] r.cost@[s] < ieee::INFINITY64) by {
        }
        r
    }

    /// Forgets the last search; only touched states are written.
    pub fn reset(&mut self, g: &RouteGrid)
        requires
            old(self).wf(*g),
        ensures
            final(self).wf(*g),
            final(self).blank(),
    {
        let ghost start = *self;
        let n: usize = self.touched.len();
        let mut k: usize = 0;
        while k < n
            invariant
                g.wf(),
                start.wf(*g),
                k <= n == self.touched@.len(),
                self.touched@ == start.touched@,
                self.cost@.len() == start.cost@.len(),
                self.from@.len() == start.from@.len(),
                forall|s: int|
                    0 <= s < self.cost@.len() ==> #[trigger] self.cost@[s] == (if start.touched@.take(
                        k as int,
                    ).contains(s as u32) {
                        ieee::INFINITY64
                    } else {
                        start.cost@[s]
                    }),
                forall|s: int|
                    0 <= s < self.cost@.len() ==> #[trigger] self.from@[s] == (if start.touched@.take(
                        k as int,
                    ).contains(s as u32) {
                        NONE
                    } else {
                        start.from@[s]
                    }),
            decreases n - k,
        {
            let s: usize = self.touched[k] as usize;
            assert(start.touched@[k as int] < start.cost@.len());
            self.cost.set(s, ieee::INFINITY64);
            self.from.set(s, NONE);
            proof {
                let (before, now) = (start.touched@.take(k as int), start.touched@.take(k + 1));
                assert(now =~= before.push(s as u32));
                assert forall|t: int| 0 <= t < self.cost@.len() implies (#[trigger] now.contains(t as u32)
                    <==> before.contains(t as u32) || t == s) by {
                    if before.contains(t as u32) {
                        let a = choose|a: int| 0 <= a < before.len() && before[a] == t as u32;
                        assert(now[a] == t as u32);
                    }
                    assert(now[k as int] == s as u32);
                }
            }
            k += 1;
        }
        proof {
            assert(start.touched@.take(n as int) =~= start.touched@);
            assert forall|s: int| 0 <= s < self.cost@.len() implies #[trigger] self.cost@[s]
                == ieee::INFINITY64 by {
                if !start.touched@.contains(s as u32) {
                    assert(!(start.cost@[s] < ieee::INFINITY64));
                    assert(start.costs()[s] <= ieee::INFINITY64);
                }
            }
            assert forall|s: int| 0 <= s < self.cost@.len() implies #[trigger] self.from@[s] == NONE by {
                if !start.touched@.contains(s as u32) {
                    assert(!(start.cost@[s] < ieee::INFINITY64));
                    assert(start.origins()[s] == NONE);
                }
            }
        }
        self.touched.clear();
        self.open = MinHeap::new();
    }

    /// Starts at a vertex, in all directions, with an estimate of the whole cost.
    pub fn begin(&mut self, g: &RouteGrid, start: usize, estimate: u64)
        requires
            old(self).wf(*g),
            old(self).blank(),
            start < g.m * g.m,
        ensures
            final(self).wf(*g),
            final(self).start() == start,
            forall|s: int|
                0 <= s < final(self).costs().len() ==> #[trigger] final(self).costs()[s] == (if s / 16
                    == start {
                    0
                } else {
                    ieee::INFINITY64
                }),
            forall|x: u128|
                #[trigger] final(self).queue().count(x) == (if exists|d: int|
                    0 <= d < 16 && x == #[trigger] queue_key(estimate, start * 16 + d) {
                    1nat
                } else {
                    0nat
                }),
    {
        let n: usize = g.blocked.len();
        self.start = start;
        let mut d: usize = 0;
        assert forall|x: u128| #[trigger] self.open@.count(x) == 0 by {
            if self.open@.count(x) > 0 {
                assert(self.open@.contains(x));
                assert(self.open@.len() > 0);
            }
        }
        while d < 16
            invariant
                g.wf(),
                n == g.m * g.m,
                start < n,
                d <= 16,
                self.start == start,
                self.cost@.len() == g.m * g.m * 16,
                self.tidy(),
                self.from@ == old(self).from@,
                old(self).wf(*g),
                old(self).blank(),
                forall|s: int|
                    0 <= s < self.cost@.len() ==> #[trigger] self.cost@[s] == (if s / 16 == start && s
                        % 16 < d {
                        0
                    } else {
                        ieee::INFINITY64
                    }),
                forall|x: u128|
                    #[trigger] self.open@.count(x) == (if exists|e: int|
                        0 <= e < d && x == #[trigger] queue_key(estimate, start * 16 + e) {
                        1nat
                    } else {
                        0nat
                    }),
            decreases 16 - d,
        {
            let s: usize = start * 16 + d;
            let ghost before = *self;
            self.cost.set(s, 0);
            self.touched.push(s as u32);
            let k: u128 = key_of(estimate, s);
            self.open.push(k);
            proof {
                assert(s as int / 16 == start && s as int % 16 == d);
                assert forall|t: int|
                    0 <= t < self.cost@.len() && #[trigger] self.cost@[t] < ieee::INFINITY64
                    implies self.touched@.contains(t as u32) by {
                    if t == s {
                        assert(self.touched@[self.touched@.len() - 1] == t as u32);
                    } else {
                        assert(before.cost@[t] < ieee::INFINITY64);
                        let a = choose|a: int|
                            0 <= a < before.touched@.len() && before.touched@[a] == t as u32;
                        assert(self.touched@[a] == t as u32);
                    }
                }
                assert forall|x: u128| #[trigger] self.open@.count(x) > 0 implies {
                    let t = x as int % 0x1_0000_0000;
                    &&& t < self.cost@.len()
                    &&& self.cost@[t] < ieee::INFINITY64
                    &&& x < 0x1_0000_0000_0000_0000_0000_0000
                } by {
                    if x == k {
                        assert(x as int % 0x1_0000_0000 == s);
                    } else {
                        assert(before.open@.count(x) > 0);
                    }
                }
                assert(!(exists|e: int|
                    0 <= e < d && k == #[trigger] queue_key(estimate, start * 16 + e)));
                assert forall|x: u128| #[trigger] self.open@.count(x) == (if exists|e: int|
                    0 <= e < d + 1 && x == #[trigger] queue_key(estimate, start * 16 + e) {
                    1nat
                } else {
                    0nat
                }) by {
                    assert(before.open@.count(x) == (if exists|e: int|
                        0 <= e < d && x == #[trigger] queue_key(estimate, start * 16 + e) {
                        1nat
                    } else {
                        0nat
                    }));
                    if x == k {
                        assert(x == queue_key(estimate, start * 16 + d as int));
                    } else {
                        if exists|e: int|
                            0 <= e < d + 1 && x == #[trigger] queue_key(estimate, start * 16 + e) {
                            let e = choose|e: int|
                                0 <= e < d + 1 && x == #[trigger] queue_key(
                                    estimate,
                                    start * 16 + e,
                                );
                            assert(e != d);
                        }
                    }
                }
            }
            d += 1;
        }
        proof {
            assert forall|s: int| 0 <= s < self.costs().len() implies #[trigger] self.origins()[s]
                == NONE by {
                assert(old(self).costs()[s] == ieee::INFINITY64);
                assert(!old(self).reached(s));
            }
        }
    }

    /// The least cost found so far to state `s`.
    pub fn cost(&self, s: usize) -> (c: u64)
        requires
            s < self.costs().len(),
        ensures
            c == self.costs()[s as int],
    {
        self.cost[s]
    }

    /// Takes the state with the least estimate out of the queue, of those the least state.
    pub fn pop(&mut self, g: &RouteGrid) -> (r: Option<(u64, usize)>)
        requires
            old(self).wf(*g),
        ensures
            final(self).wf(*g),
            final(self).costs() == old(self).costs(),
            final(self).origins() == old(self).origins(),
            final(self).start() == old(self).start(),
            r is None <==> old(self).queue().len() == 0,
            r is None ==> final(self).queue() == old(self).queue(),
            r matches Some(e) ==> {
                let k = queue_key(e.0, e.1 as int) as u128;
                &&& old(self).reached(e.1 as int)
                &&& old(self).queue().count(k) > 0
                &&& final(self).queue() == old(self).queue().remove(k)
                &&& forall|x: u128| #[trigger] old(self).queue().count(x) > 0 ==> k <= x
            },
    {
        let ghost before = *self;
        match self.open.pop() {
            Some(k) => {
                assert(before.open@.count(k) > 0);
                let s: usize = (k % 0x1_0000_0000) as usize;
                let f: u64 = ieee::from_ordered64((k / 0x1_0000_0000) as u64);
                proof {
                    assert(queue_key(f, s as int) == k);
                    assert forall|x: u128| #[trigger] self.open@.count(x) > 0 implies before.open@.count(
                        x,
                    ) > 0 by {
                    }
                }
                Some((f, s))
            },
            None => None,
        }
    }

    /// Puts a reached state into the queue with an estimate of the whole cost through it.
    pub fn push(&mut self, g: &RouteGrid, s: usize, estimate: u64)
        requires
            old(self).wf(*g),
            old(self).reached(s as int),
        ensures
            final(self).wf(*g),
            final(self).costs() == old(self).costs(),
            final(self).origins() == old(self).origins(),
            final(self).start() == old(self).start(),
            final(self).queue() == old(self).queue().insert(queue_key(estimate, s as int) as u128),
    {
        let ghost before = *self;
        let k: u128 = key_of(estimate, s);
        self.open.push(k);
        proof {
            assert(k as int % 0x1_0000_0000 == s);
            assert forall|x: u128| #[trigger] self.open@.count(x) > 0 implies {
                let t = x as int % 0x1_0000_0000;
                &&& t < self.cost@.len()
                &&& self.cost@[t] < ieee::INFINITY64
                &&& x < 0x1_0000_0000_0000_0000_0000_0000
            } by {
                if x != k {
                    assert(before.open@.count(x) > 0);
                }
            }
        }
    }

    /// Offers a way to state `t` through state `s` at the given cost; keeps it if it is cheaper
    /// than the ways found so far, and tells whether it is.
    pub fn offer(&mut self, g: &RouteGrid, s: usize, t: usize, cost: u64) -> (better: bool)
        requires
            old(self).wf(*g),
            old(self).reached(s as int),
            t < old(self).costs().len(),
            routing::follows(*g, s as int, t as int),
            old(self).costs()[s as int] < cost <= ieee::INFINITY64,
        ensures
            final(self).wf(*g),
            better == (cost < old(self).costs()[t as int]),
            final(self).start() == old(self).start(),
            final(self).queue() == old(self).queue(),
            better ==> final(self).costs() == old(self).costs().update(t as int, cost)
                && final(self).origins() == old(self).origins().update(t as int, s as u32),
            !better ==> final(self).costs() == old(self).costs() && final(self).origins()
                == old(self).origins(),
    {
        let ghost before = *self;
        if cost < self.cost[t] {
            if self.cost[t] == ieee::INFINITY64 {
                self.touched.push(t as u32);
            }
            self.cost.set(t, cost);
            self.from.set(t, s as u32);
            proof {
                assert(s != t);
                assert forall|x: int| 0 <= x < self.cost@.len() && #[trigger] self.cost@[x]
                    < ieee::INFINITY64 implies self.touched@.contains(x as u32) by {
                    if before.cost@[x] < ieee::INFINITY64 {
                        let a = choose|a: int|
                            0 <= a < before.touched@.len() && before.touched@[a] == x as u32;
                        assert(self.touched@[a] == x as u32);
                    } else {
                        assert(before.costs()[x] <= ieee::INFINITY64);
                        assert(x == t);
                        assert(self.touched@[self.touched@.len() - 1] == t as u32);
                    }
                }
                assert forall|x: u128| #[trigger] self.open@.count(x) > 0 implies {
                    let y = x as int % 0x1_0000_0000;
                    &&& y < self.cost@.len()
                    &&& self.cost@[y] < ieee::INFINITY64
                    &&& x < 0x1_0000_0000_0000_0000_0000_0000
                } by {
                    assert(before.open@.count(x) > 0);
                }
                assert(self.tidy());
                assert(s as u32 != NONE);
                assert forall|x: int| 0 <= x < self.costs().len() && #[trigger] self.origins()[x] != NONE
                    implies {
                    let o = self.origins()[x] as int;
                    &&& o < self.costs().len()
                    &&& self.costs()[o] < self.costs()[x]
                    &&& routing::follows(*g, o, x)
                } by {
                    if x != t {
                        assert(before.origins()[x] != NONE);
                    }
                }
                assert forall|x: int| self.reached(x) && #[trigger] self.origins()[x] == NONE implies x
                    / 16 == self.start() && self.costs()[x] == 0 by {
                    assert(x != t);
                    assert(before.reached(x));
                    assert(before.origins()[x] == NONE);
                }
                assert forall|x: int| 0 <= x < self.costs().len() && !self.reached(x) implies #[trigger] self.origins()[x]
                    == NONE by {
                    assert(x != t);
                    assert(!before.reached(x));
                    assert(before.origins()[x] == NONE);
                }
            }
            true
        } else {
            false
        }
    }

    /// The vertices of the way found to state `s`, from the start.
    pub fn path(&self, g: &RouteGrid, s: usize) -> (p: Vec<usize>)
        requires
            self.wf(*g),
            self.reached(s as int),
        ensures
            p@ == trail(self.costs(), self.origins(), s as int).map_values(
                |t: int| (t / 16) as usize,
            ),
    {
        let ghost whole = trail(self.costs(), self.origins(), s as int);
        let mut rev: Vec<usize> = Vec::new();
        let mut k: usize = s;
        rev.push(s / 16);
        proof {
            assert(whole.skip(whole.len() - 1) =~= seq![s as int]) by {
                lemma_trail_ends(*self, *g, s as int);
            }
            lemma_trail_ends(*self, *g, s as int);
        }
        while self.from[k] != NONE
            invariant
                self.wf(*g),
                self.reached(k as int),
                whole == trail(self.costs(), self.origins(), s as int),
                1 <= rev@.len() <= whole.len(),
                trail(self.costs(), self.origins(), k as int) == whole.take(
                    whole.len() - rev@.len() + 1,
                ),
                forall|a: int|
                    0 <= a < rev@.len() ==> #[trigger] rev@[a] == whole[whole.len() - 1 - a] / 16,
            decreases self.costs()[k as int],
        {
            let ghost part = trail(self.costs(), self.origins(), k as int);
            assert(self.origins()[k as int] != NONE);
            k = self.from[k] as usize;
            rev.push(k / 16);
            proof {
                lemma_trail_ends(*self, *g, k as int);
                let rest = trail(self.costs(), self.origins(), k as int);
                assert(part == rest.push(part.last()));
                assert(rest =~= whole.take(whole.len() - rev@.len() + 1));
                assert(rest.last() == k);
                assert(whole[whole.len() - rev@.len()] == k) by {
                    assert(whole.take(whole.len() - rev@.len() + 1).last() == k);
                }
            }
        }
        proof {
            let part = trail(self.costs(), self.origins(), k as int);
            assert(part =~= seq![k as int]);
            assert(rev@.len() == whole.len());
        }
        let n: usize = rev.len();
        let mut p: Vec<usize> = Vec::with_capacity(n);
        let mut i: usize = n;
        while i > 0
            invariant
                i <= n == rev@.len() == whole.len(),
                p@.len() == n - i,
                forall|a: int| 0 <= a < n ==> #[trigger] rev@[a] == whole[whole.len() - 1 - a] / 16,
                forall|a: int| 0 <= a < p@.len() ==> #[trigger] p@[a] == whole[a] / 16,
            decreases i,
        {
            i -= 1;
            p.push(rev[i]);
        }
        assert(p@ =~= whole.map_values(|t: int| (t / 16) as usize));
        p
    }
}

/// The queue key of a state.
fn key_of(estimate: u64, s: usize) -> (k: u128)
    requires
        s <= u32::MAX,
    ensures
        k == queue_key(estimate, s as int),
        k < 0x1_0000_0000_0000_0000_0000_0000,
{
    ieee::ordered64(estimate) as u128 * 0x1_0000_0000 + s as u128
}

proof fn lemma_trail_ends(r: Search, g: RouteGrid, s: int)
    requires
        r.consistent(g),
        r.reached(s),
    ensures
        trail(r.costs(), r.origins(), s).len() > 0,
        trail(r.costs(), r.origins(), s).last() == s,
        0 <= trail(r.costs(), r.origins(), s)[0],
        trail(r.costs(), r.origins(), s)[0] / 16 == r.start(),
    decreases r.costs()[s],
{
    assert(r.origins()[s] == NONE || r.origins()[s] != NONE);
    if r.origins()[s] != NONE {
        let o = r.origins()[s] as int;
        assert(r.reached(o));
        lemma_trail_ends(r, g, o);
    }
}

/// A way that a search found is a legal road: it starts at the start, ends at the state, and every
/// state on it follows the one before, so that no move is blocked and no turn is too sharp.
pub proof fn lemma_trail_is_legal(r: Search, g: RouteGrid, s: int)
    requires
        r.consistent(g),
        r.reached(s),
    ensures
        ({
            let t = trail(r.costs(), r.origins(), s);
            &&& t.len() > 0
            &&& t[0] / 16 == r.start()
            &&& t.last() == s
            &&& forall|k: int| 0 < k < t.len() ==> #[trigger] routing::follows(g, t[k - 1], t[k])
        }),
    decreases r.costs()[s],
{
    lemma_trail_ends(r, g, s);
    if r.origins()[s] != NONE {
        let o = r.origins()[s] as int;
        assert(r.reached(o));
        lemma_trail_is_legal(r, g, o);
        lemma_trail_ends(r, g, o);
        let u = trail(r.costs(), r.origins(), o);
        let t = trail(r.costs(), r.origins(), s);
        assert(t == u.push(s));
        assert forall|k: int| 0 < k < t.len() implies #[trigger] routing::follows(g, t[k - 1], t[k]) by {
            if k < u.len() {
                assert(routing::follows(g, u[k - 1], u[k]));
            } else {
                assert(t[k - 1] == u.last());
            }
        }
    }
}

/// Along a way that a search found, costs rise: it never visits a state twice.
pub proof fn lemma_costs_rise(r: Search, g: RouteGrid, s: int, a: int, b: int)
    requires
        r.consistent(g),
        r.reached(s),
        0 <= a < b < trail(r.costs(), r.origins(), s).len(),
    ensures
        ({
            let t = trail(r.costs(), r.origins(), s);
            r.costs()[t[a]] < r.costs()[t[b]]
        }),
    decreases r.costs()[s],
{
    let t = trail(r.costs(), r.origins(), s);
    assert(r.origins()[s] == NONE || r.origins()[s] != NONE);
    if r.origins()[s] != NONE {
        let o = r.origins()[s] as int;
        assert(r.reached(o));
        let u = trail(r.costs(), r.origins(), o);
        assert(t == u.push(s));
        lemma_trail_ends(r, g, o);
        if b < u.len() {
            lemma_costs_rise(r, g, o, a, b);
        } else if a < u.len() - 1 {
            lemma_costs_rise(r, g, o, a, u.len() - 1);
        }
    }
}

/// States with a smaller estimate come first, whatever they are; those with the same come in their order,
/// and no two states share a key.
pub proof fn lemma_smaller_estimates_come_first(a: u64, s: int, b: u64, t: int)
    requires
        0 <= s < 0x1_0000_0000,
        0 <= t < 0x1_0000_0000,
    ensures
        ieee::lt64(a, b) ==> queue_key(a, s) < queue_key(b, t),
        a == b && s < t ==> queue_key(a, s) < queue_key(b, t),
        queue_key(a, s) == queue_key(b, t) ==> a == b && s == t,
{
    ieee::lemma_total_refines_rank64(a, b);
}

} // verus!
