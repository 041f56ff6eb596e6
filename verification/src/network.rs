//! Building a road network: a main road, then roads that each join the network built so far.

use vstd::prelude::*;

use crate::roads;
use crate::roads::{NodeKind, Plan, RoadClass, RoutedPath};

verus! {

/// A road network under construction.
pub struct Network {
    pub plan: Plan,
    pub paths: Vec<RoutedPath>,
    /// Whether a road passes each vertex.
    pub on_road: Vec<bool>,
    /// The connected farms: place and node.
    pub farms: Vec<(usize, u32)>,
}

/// Whether path `i` passes vertex `v`.
pub open spec fn passes(paths: Seq<RoutedPath>, i: int, v: int) -> bool {
    exists|k: int| 0 <= k < paths[i].vertices@.len() && #[trigger] paths[i].vertices@[k] == v
}

/// Whether one of the first `n` paths passes vertex `v`.
pub open spec fn reached_by(paths: Seq<RoutedPath>, n: int, v: int) -> bool {
    exists|i: int| 0 <= i < n && #[trigger] passes(paths, i, v)
}

impl Network {
    /// Whether path `i` leads from node to node.
    pub open spec fn anchored(&self, i: int) -> bool {
        let vs = self.paths@[i].vertices@;
        &&& vs.len() > 0
        &&& forall|k: int| 0 <= k < vs.len() ==> #[trigger] vs[k] < self.on_road@.len()
        &&& self.plan.nodes()[vs[0] as int] is Some
        &&& self.plan.nodes()[vs.last() as int] is Some
    }

    /// Whether path `i` is a gravel road that starts at a node.
    pub open spec fn serves(&self, i: int, node: u32) -> bool {
        &&& 0 <= i < self.paths@.len()
        &&& self.paths@[i].class == RoadClass::Gravel
        &&& self.plan.nodes()[self.paths@[i].vertices@[0] as int] == Some(node)
    }

    /// Whether a gravel road starts at a node.
    pub open spec fn served(&self, node: u32) -> bool {
        exists|i: int| #[trigger] self.serves(i, node)
    }

    /// Paths lead from node to node, each joins one built before, and a road starts at every farm.
    pub open spec fn wf(&self) -> bool {
        &&& self.plan.wf()
        &&& self.on_road@.len() == self.plan.nodes().len()
        &&& forall|i: int| 0 <= i < self.paths@.len() ==> #[trigger] self.anchored(i)
        &&& forall|v: int|
            0 <= v < self.on_road@.len() ==> (#[trigger] self.on_road@[v] <==> reached_by(
                self.paths@,
                self.paths@.len() as int,
                v,
            ))
        &&& forall|i: int|
            0 < i < self.paths@.len() ==> reached_by(
                self.paths@,
                i,
                (#[trigger] self.paths@[i]).vertices@.last() as int,
            )
        &&& forall|f: int|
            0 <= f < self.farms@.len() ==> self.served((#[trigger] self.farms@[f]).1)
    }

    /// No roads yet on `n` vertices.
    pub fn new(n: usize) -> (r: Network)
        requires
            n < u32::MAX,
        ensures
            r.wf(),
            r.paths@.len() == 0,
            r.farms@.len() == 0,
            r.on_road@.len() == n,
            r.plan.nodes() == Seq::new(n as nat, |v: int| None::<u32>),
            r.plan.kind_of().len() == 0,
    {
        let r = Network {
            plan: Plan::new(n),
            paths: Vec::new(),
            on_road: vec![false; n],
            farms: Vec::new(),
        };
        assert forall|v: int| 0 <= v < n implies (#[trigger] r.on_road@[v] <==> reached_by(
            r.paths@,
            0,
            v,
        )) by {
        }
        r
    }

    fn mark(&mut self, path: &Vec<usize>)
        requires
            forall|k: int|
                0 <= k < path@.len() ==> #[trigger] path@[k] < old(self).on_road@.len(),
        ensures
            final(self).plan == old(self).plan,
            final(self).paths == old(self).paths,
            final(self).farms == old(self).farms,
            final(self).on_road@.len() == old(self).on_road@.len(),
            forall|v: int|
                0 <= v < old(self).on_road@.len() ==> (#[trigger] final(self).on_road@[v]
                    <==> old(self).on_road@[v] || path@.contains(v as usize)),
    {
        let n: usize = path.len();
        let total: usize = self.on_road.len();
        let mut k: usize = 0;
        while k < n
            invariant
                k <= n == path@.len(),
                total == self.on_road@.len(),
                self.plan == old(self).plan,
                self.paths == old(self).paths,
                self.farms == old(self).farms,
                self.on_road@.len() == old(self).on_road@.len(),
                forall|j: int| 0 <= j < n ==> #[trigger] path@[j] < self.on_road@.len(),
                forall|v: int|
                    0 <= v < self.on_road@.len() ==> (#[trigger] self.on_road@[v]
                        <==> old(self).on_road@[v] || path@.take(k as int).contains(v as usize)),
            decreases n - k,
        {
            let p: usize = path[k];
            self.on_road.set(p, true);
            proof {
                let (a, b) = (path@.take(k as int), path@.take(k + 1));
                assert(b =~= a.push(p));
                assert forall|v: int| 0 <= v < self.on_road@.len() implies (#[trigger] b.contains(
                    v as usize,
                ) <==> a.contains(v as usize) || v == p) by {
                    if a.contains(v as usize) {
                        let j = choose|j: int| 0 <= j < a.len() && a[j] == v as usize;
                        assert(b[j] == v as usize);
                    }
                    assert(b[k as int] == p);
                }
            }
            k += 1;
        }
        assert(path@.take(n as int) =~= path@);
    }

    /// Adds the main road, from one end of the map to another.
    pub fn add_main(&mut self, path: Vec<usize>)
        requires
            old(self).wf(),
            old(self).paths@.len() == 0,
            path@.len() > 0,
            forall|k: int|
                0 <= k < path@.len() ==> #[trigger] path@[k] < old(self).on_road@.len(),
        ensures
            final(self).wf(),
            final(self).paths@.len() == 1,
            final(self).paths@[0].class == RoadClass::Paved,
            final(self).paths@[0].vertices@ == path@,
            final(self).farms == old(self).farms,
            final(self).on_road@.len() == old(self).on_road@.len(),
            final(self).plan@ == roads::with_node(
                roads::with_node(old(self).plan@, path@[0], NodeKind::End),
                path@.last(),
                NodeKind::End,
            ),
    {
        let ghost before = *self;
        let last: usize = path[path.len() - 1];
        let first: usize = path[0];
        let _ = self.plan.node(first, NodeKind::End);
        let _ = self.plan.node(last, NodeKind::End);
        self.mark(&path);
        self.paths.push(RoutedPath { class: RoadClass::Paved, vertices: path });
        proof {
            lemma_added(before, *self);
        }
    }

    /// Adds a road from place `k` to the network: it starts at a node of the place and ends at a
    /// junction with a road built before. A gravel road connects a farm.
    pub fn connect(&mut self, k: usize, class: RoadClass, path: Vec<usize>)
        requires
            old(self).wf(),
            old(self).paths@.len() > 0,
            class != RoadClass::Paved,
            path@.len() > 0,
            forall|j: int|
                0 <= j < path@.len() ==> #[trigger] path@[j] < old(self).on_road@.len(),
            old(self).on_road@[path@.last() as int],
        ensures
            final(self).wf(),
            final(self).paths@ == old(self).paths@.push(final(self).paths@.last()),
            final(self).paths@.last().class == class,
            final(self).paths@.last().vertices@ == path@,
            final(self).on_road@.len() == old(self).on_road@.len(),
            final(self).plan@ == roads::with_node(
                roads::with_node(
                    old(self).plan@,
                    path@[0],
                    if class == RoadClass::Gravel {
                        NodeKind::Yard
                    } else {
                        NodeKind::Gate
                    },
                ),
                path@.last(),
                NodeKind::Junction,
            ),
            class == RoadClass::Gravel ==> exists|node: u32|
                final(self).farms@ == #[trigger] old(self).farms@.push((k, node))
                    && final(self).plan.nodes()[path@[0] as int] == Some(node),
            class != RoadClass::Gravel ==> final(self).farms@ == old(self).farms@,
    {
        let ghost before = *self;
        let (first, last): (usize, usize) = (path[0], path[path.len() - 1]);
        let gravel: bool = class == RoadClass::Gravel;
        let node: u32 = self.plan.node(
            first,
            if gravel {
                NodeKind::Yard
            } else {
                NodeKind::Gate
            },
        );
        let _ = self.plan.node(last, NodeKind::Junction);
        self.mark(&path);
        self.paths.push(RoutedPath { class, vertices: path });
        if gravel {
            self.farms.push((k, node));
        }
        proof {
            lemma_added(before, *self);
            if gravel {
                assert(self.farms@ == before.farms@.push((k, node)));
            }
        }
    }
}

proof fn lemma_passes_prefix(a: Seq<RoutedPath>, p: RoutedPath, n: int, v: int)
    requires
        0 <= n <= a.len(),
    ensures
        reached_by(a.push(p), n, v) == reached_by(a, n, v),
{
    let b = a.push(p);
    if reached_by(a, n, v) {
        let i = choose|i: int| 0 <= i < n && #[trigger] passes(a, i, v);
        let k = choose|k: int| 0 <= k < a[i].vertices@.len() && #[trigger] a[i].vertices@[k] == v;
        assert(b[i].vertices@[k] == v);
        assert(passes(b, i, v));
    }
    if reached_by(b, n, v) {
        let i = choose|i: int| 0 <= i < n && #[trigger] passes(b, i, v);
        let k = choose|k: int| 0 <= k < b[i].vertices@.len() && #[trigger] b[i].vertices@[k] == v;
        assert(a[i].vertices@[k] == v);
        assert(passes(a, i, v));
    }
}

/// A path that ends on the network, or is its first, extends it.
proof fn lemma_added(before: Network, now: Network)
    requires
        before.wf(),
        now.plan.wf(),
        now.plan.nodes().len() == before.plan.nodes().len(),
        forall|v: int|
            0 <= v < before.plan.nodes().len() && before.plan.nodes()[v] is Some ==> (
            #[trigger] now.plan.nodes()[v]) == before.plan.nodes()[v],
        before.farms@.len() <= now.farms@.len() <= before.farms@.len() + 1,
        forall|f: int| 0 <= f < before.farms@.len() ==> #[trigger] now.farms@[f] == before.farms@[f],
        now.farms@.len() > before.farms@.len() ==> now.serves(before.paths@.len() as int, now.farms@.last().1),
        now.paths@.len() == before.paths@.len() + 1,
        now.paths@ == before.paths@.push(now.paths@.last()),
        now.paths@.last().vertices@.len() > 0,
        forall|k: int|
            0 <= k < now.paths@.last().vertices@.len() ==> #[trigger] now.paths@.last().vertices@[k]
                < before.on_road@.len(),
        now.plan.nodes()[now.paths@.last().vertices@[0] as int] is Some,
        now.plan.nodes()[now.paths@.last().vertices@.last() as int] is Some,
        now.on_road@.len() == before.on_road@.len(),
        forall|v: int|
            0 <= v < before.on_road@.len() ==> (#[trigger] now.on_road@[v] <==> before.on_road@[v]
                || now.paths@.last().vertices@.contains(v as usize)),
        before.paths@.len() > 0 ==> before.on_road@[now.paths@.last().vertices@.last() as int],
    ensures
        now.wf(),
{
    let (a, p) = (before.paths@, now.paths@.last());
    let n = a.len() as int;
    let b = now.paths@;
    assert forall|i: int| 0 <= i < b.len() implies #[trigger] now.anchored(i) by {
        if i < n {
            assert(before.anchored(i));
            assert(b[i] == a[i]);
            let vs = a[i].vertices@;
            assert(vs[0] < before.on_road@.len());
            assert(vs[vs.len() - 1] < before.on_road@.len());
            assert(now.plan.nodes()[vs[0] as int] is Some);
            assert(now.plan.nodes()[vs.last() as int] is Some);
        }
    }
    assert forall|v: int| 0 <= v < now.on_road@.len() implies (#[trigger] now.on_road@[v]
        <==> reached_by(b, n + 1, v)) by {
        lemma_passes_prefix(a, p, n, v);
        assert(before.on_road@[v] <==> reached_by(a, n, v));
        if p.vertices@.contains(v as usize) {
            let k = choose|k: int| 0 <= k < p.vertices@.len() && p.vertices@[k] == v as usize;
            assert(b[n].vertices@[k] == v);
            assert(passes(b, n, v));
        }
        if reached_by(b, n, v) {
            let i = choose|i: int| 0 <= i < n && #[trigger] passes(b, i, v);
            assert(passes(b, i, v));
        }
        if reached_by(b, n + 1, v) {
            let i = choose|i: int| 0 <= i < n + 1 && #[trigger] passes(b, i, v);
            if i < n {
                assert(reached_by(b, n, v));
            } else {
                let k = choose|k: int| 0 <= k < b[i].vertices@.len() && #[trigger] b[i].vertices@[k] == v;
                assert(p.vertices@[k] == v as usize);
            }
        }
    }
    assert forall|i: int| 0 < i < b.len() implies reached_by(
        b,
        i,
        (#[trigger] b[i]).vertices@.last() as int,
    ) by {
        if i < n {
            assert(b[i] == a[i]);
            lemma_passes_prefix(a, p, i, a[i].vertices@.last() as int);
        } else {
            let v = p.vertices@.last() as int;
            assert(p.vertices@[p.vertices@.len() - 1] < before.on_road@.len());
            assert(before.on_road@[v]);
            lemma_passes_prefix(a, p, n, v);
        }
    }
    assert forall|f: int| 0 <= f < now.farms@.len() implies now.served((#[trigger] now.farms@[f]).1) by {
        if f < before.farms@.len() {
            lemma_still_served(before, now, before.farms@[f].1);
        } else {
            assert(now.serves(n, now.farms@[f].1));
        }
    }
}

proof fn lemma_still_served(before: Network, now: Network, node: u32)
    requires
        before.wf(),
        before.served(node),
        now.paths@.len() == before.paths@.len() + 1,
        now.paths@ == before.paths@.push(now.paths@.last()),
        forall|v: int|
            0 <= v < before.plan.nodes().len() && before.plan.nodes()[v] is Some ==> (
            #[trigger] now.plan.nodes()[v]) == before.plan.nodes()[v],
    ensures
        now.served(node),
{
    let i = choose|i: int| #[trigger] before.serves(i, node);
    assert(before.anchored(i));
    assert(now.paths@[i] == before.paths@[i]);
    assert(before.paths@[i].vertices@[0] < before.on_road@.len());
    assert(now.serves(i, node));
}

/// Whether some path passes `u` and `v` one after the other, in either order.
pub open spec fn adjacent(paths: Seq<RoutedPath>, u: int, v: int) -> bool {
    exists|i: int, k: int| #[trigger] passes_both(paths, i, k, u, v)
}

pub open spec fn passes_both(paths: Seq<RoutedPath>, i: int, k: int, u: int, v: int) -> bool {
    &&& 0 <= i < paths.len()
    &&& 0 <= k < paths[i].vertices@.len() - 1
    &&& (paths[i].vertices@[k] == u && paths[i].vertices@[k + 1] == v || paths[i].vertices@[k] == v
        && paths[i].vertices@[k + 1] == u)
}

/// Whether a walk follows the paths.
pub open spec fn follows(paths: Seq<RoutedPath>, walk: Seq<int>) -> bool {
    walk.len() > 0 && forall|k: int| 0 <= k < walk.len() - 1 ==> #[trigger] adjacent(paths, walk[k], walk[k + 1])
}

/// Whether one can get from vertex `u` to vertex `v` along the paths.
pub open spec fn connected(paths: Seq<RoutedPath>, u: int, v: int) -> bool {
    exists|walk: Seq<int>| #[trigger] follows(paths, walk) && walk[0] == u && walk.last() == v
}

proof fn lemma_connected_through(paths: Seq<RoutedPath>, u: int, v: int, w: int)
    requires
        connected(paths, u, v),
        connected(paths, v, w),
    ensures
        connected(paths, u, w),
{
    let a = choose|a: Seq<int>| #[trigger] follows(paths, a) && a[0] == u && a.last() == v;
    let b = choose|b: Seq<int>| #[trigger] follows(paths, b) && b[0] == v && b.last() == w;
    let c = a + b.skip(1);
    assert forall|k: int| 0 <= k < c.len() - 1 implies #[trigger] adjacent(paths, c[k], c[k + 1]) by {
        if k < a.len() - 1 {
            assert(adjacent(paths, a[k], a[k + 1]));
        } else {
            let j = k - (a.len() - 1);
            assert(c[k] == b[j]);
            assert(c[k + 1] == b[j + 1]);
            assert(adjacent(paths, b[j], b[j + 1]));
        }
    }
    assert(follows(paths, c));
    assert(c.last() == w) by {
        if b.len() == 1 {
            assert(c =~= a);
        }
    }
}

/// Along one path every place can be reached from every other.
proof fn lemma_along(paths: Seq<RoutedPath>, i: int, from: int, to: int)
    requires
        0 <= i < paths.len(),
        0 <= from < paths[i].vertices@.len(),
        0 <= to < paths[i].vertices@.len(),
    ensures
        connected(paths, paths[i].vertices@[from] as int, paths[i].vertices@[to] as int),
    decreases
            if from < to {
                to - from
            } else {
                from - to
            },
{
    let vs = paths[i].vertices@;
    if from == to {
        let walk = seq![vs[from] as int];
        assert(follows(paths, walk));
        assert(walk[0] == vs[from] && walk.last() == vs[to]);
    } else {
        let next = if from < to {
            from + 1
        } else {
            from - 1
        };
        let k = if from < to {
            from
        } else {
            from - 1
        };
        assert(passes_both(paths, i, k, vs[from] as int, vs[next] as int));
        let walk = seq![vs[from] as int, vs[next] as int];
        assert(adjacent(paths, walk[0], walk[1]));
        assert(follows(paths, walk));
        assert(walk[0] == vs[from] && walk.last() == vs[next]);
        lemma_along(paths, i, next, to);
        lemma_connected_through(paths, vs[from] as int, vs[next] as int, vs[to] as int);
    }
}

/// From everywhere on the roads one can get to both ends of the main road.
pub proof fn lemma_roads_lead_to_the_main_road(net: Network, i: int, k: int)
    requires
        net.wf(),
        0 <= i < net.paths@.len(),
        0 <= k < net.paths@[i].vertices@.len(),
    ensures
        connected(net.paths@, net.paths@[i].vertices@[k] as int, net.paths@[0].vertices@[0] as int),
        connected(net.paths@, net.paths@[i].vertices@[k] as int, net.paths@[0].vertices@.last() as int),
    decreases i,
{
    let (paths, vs) = (net.paths@, net.paths@[i].vertices@);
    assert(net.anchored(i));
    assert(net.anchored(0));
    let last = vs.len() - 1;
    if i == 0 {
        lemma_along(paths, 0, k, 0);
        lemma_along(paths, 0, k, last);
    } else {
        let v = vs.last() as int;
        assert(reached_by(paths, i, v));
        let j = choose|j: int| 0 <= j < i && #[trigger] passes(paths, j, v);
        let m = choose|m: int| 0 <= m < paths[j].vertices@.len() && #[trigger] paths[j].vertices@[m] == v;
        lemma_along(paths, i, k, last);
        lemma_roads_lead_to_the_main_road(net, j, m);
        lemma_connected_through(paths, vs[k] as int, v, paths[0].vertices@[0] as int);
        lemma_connected_through(paths, vs[k] as int, v, paths[0].vertices@.last() as int);
    }
}

/// Every farm can be reached from both ends of the main road: a road starts at its node, and leads there.
pub proof fn lemma_farms_are_reachable(net: Network, f: int)
    requires
        net.wf(),
        0 <= f < net.farms@.len(),
    ensures
        net.served(net.farms@[f].1),
        connected(
            net.paths@,
            net.plan.vertex_of()[net.farms@[f].1 as int] as int,
            net.paths@[0].vertices@[0] as int,
        ),
        connected(
            net.paths@,
            net.plan.vertex_of()[net.farms@[f].1 as int] as int,
            net.paths@[0].vertices@.last() as int,
        ),
{
    let node = net.farms@[f].1;
    let i = choose|i: int| #[trigger] net.serves(i, node);
    assert(net.anchored(i));
    let v = net.paths@[i].vertices@[0];
    assert(v < net.on_road@.len());
    assert(net.plan.nodes()[v as int] == Some(node));
    lemma_roads_lead_to_the_main_road(net, i, 0);
}

} // verus!
