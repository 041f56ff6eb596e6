//! The road plan: which routed paths there are, which vertices are nodes of the network, and the
//! pieces between nodes.

use vstd::prelude::*;

use crate::heap::MinHeap;
use crate::ieee;

verus! {

/// The kind of a road.
#[derive(Clone, Copy, Debug, PartialEq, Eq, Structural)]
pub enum RoadClass {
    Paved,
    Gravel,
    Track,
}

/// What a node of the road network is.
#[derive(Clone, Copy, Debug, PartialEq, Eq, Structural)]
pub enum NodeKind {
    /// Where the main road leaves the map.
    End,
    /// Where a road joins another.
    Junction,
    /// A farm yard.
    Yard,
    /// A field entrance.
    Gate,
}

/// The kind of place that a road of a class leads to, and the pad of place `k` where it may cross one.
pub open spec fn leg(class: RoadClass, k: u16) -> (NodeKind, u16) {
    if class == RoadClass::Gravel {
        (NodeKind::Yard, (k + 1) as u16)
    } else {
        (NodeKind::Gate, 0u16)
    }
}

/// What a road of a class leads to, and the farm pad it may cross when it starts at place `k`.
pub fn leg_of(class: RoadClass, k: u16) -> (r: (NodeKind, u16))
    requires
        k < u16::MAX,
    ensures
        r == leg(class, k),
{
    match class {
        RoadClass::Gravel => (NodeKind::Yard, k + 1),
        _ => (NodeKind::Gate, 0),
    }
}

/// Whether a road to a place is wanted.
pub open spec fn wanted(blocked: bool, on_road: bool, distance: u64, min_distance: u64) -> bool {
    !blocked && !on_road && !ieee::lt64(distance, min_distance)
}

/// Whether a place gets a road: it is free, not on a road yet, and not closer to one than
/// `min_distance`.
pub fn wants_road(blocked: bool, on_road: bool, distance: u64, min_distance: u64) -> (r: bool)
    ensures
        r == wanted(blocked, on_road, distance, min_distance),
{
    !(blocked || on_road || ieee::is_lt64(distance, min_distance))
}

/// Whether an attempt at a main road runs along x.
pub open spec fn eastward(draw: u64, attempt: u32) -> bool {
    (draw == 0) != (attempt % 2 == 1)
}

/// Whether the main road runs along x in an attempt: every other attempt crosses the draw.
pub fn along_x(draw: u64, attempt: u32) -> (r: bool)
    ensures
        r == eastward(draw, attempt),
{
    (draw == 0) != (attempt % 2 == 1)
}

/// Order of places: distance, then index.
pub open spec fn place_key(dist: Seq<u64>, k: int) -> int {
    ieee::total64(dist[k]) * 0x1_0000_0000 + k
}

/// The places with the given distances, nearest first; ties in the order of their indices.
pub fn nearest_first(dist: &Vec<u64>) -> (order: Vec<usize>)
    requires
        dist@.len() <= u32::MAX,
    ensures
        order@.len() == dist@.len(),
        forall|a: int| 0 <= a < order@.len() ==> #[trigger] order@[a] < dist@.len(),
        forall|a: int, b: int|
            0 <= a < b < order@.len() ==> place_key(dist@, #[trigger] order@[a] as int) < place_key(
                dist@,
                #[trigger] order@[b] as int,
            ),
        forall|k: int| 0 <= k < dist@.len() ==> #[trigger] order@.contains(k as usize),
{
    let n: usize = dist.len();
    let mut open = MinHeap::new();
    let mut i: usize = 0;
    while i < n
        invariant
            i <= n == dist@.len() <= u32::MAX,
            open.wf(),
            open@.len() == i,
            forall|x: u128|
                #![trigger open@.count(x)]
                open@.count(x) <= 1 && (open@.count(x) > 0 ==> {
                    let k = x as int % 0x1_0000_0000;
                    k < i && x == place_key(dist@, k)
                }),
            forall|k: int|
                0 <= k < i ==> open@.count(#[trigger] place_key(dist@, k) as u128) > 0,
        decreases n - i,
    {
        let x: u128 = ieee::ordered64(dist[i]) as u128 * 0x1_0000_0000 + i as u128;
        assert(x as int % 0x1_0000_0000 == i);
        assert(x == place_key(dist@, i as int));
        assert(open@.count(x) == 0);
        open.push(x);
        i += 1;
    }
    let mut order: Vec<usize> = Vec::with_capacity(n);
    loop
        invariant
            n == dist@.len() <= u32::MAX,
            open.wf(),
            open@.len() + order@.len() == n,
            forall|x: u128|
                #![trigger open@.count(x)]
                open@.count(x) <= 1 && (open@.count(x) > 0 ==> {
                    let k = x as int % 0x1_0000_0000;
                    k < n && x == place_key(dist@, k)
                }),
            forall|k: int|
                0 <= k < n ==> open@.count(#[trigger] place_key(dist@, k) as u128) > 0
                    || order@.contains(k as usize),
            forall|a: int| 0 <= a < order@.len() ==> #[trigger] order@[a] < n,
            forall|a: int, b: int|
                0 <= a < b < order@.len() ==> place_key(dist@, #[trigger] order@[a] as int)
                    < place_key(dist@, #[trigger] order@[b] as int),
            forall|a: int, x: u128|
                0 <= a < order@.len() && #[trigger] open@.count(x) > 0 ==> place_key(
                    dist@,
                    #[trigger] order@[a] as int,
                ) < x,
        ensures
            open@.len() == 0,
        decreases open@.len(),
    {
        let ghost (left, before) = (open@, order@);
        match open.pop() {
            Some(x) => {
                let k: usize = (x % 0x1_0000_0000) as usize;
                order.push(k);
                proof {
                    assert(left.count(x) > 0);
                    assert(x == place_key(dist@, k as int));
                    assert forall|a: int, y: u128|
                        0 <= a < order@.len() && #[trigger] open@.count(y) > 0 implies place_key(
                        dist@,
                        #[trigger] order@[a] as int,
                    ) < y by {
                        assert(left.count(y) > 0);
                        assert(left.count(x) <= 1);
                        assert(y != x);
                    }
                    assert forall|j: int| 0 <= j < n implies open@.count(
                        #[trigger] place_key(dist@, j) as u128,
                    ) > 0 || order@.contains(j as usize) by {
                        if before.contains(j as usize) {
                            let a = choose|a: int| 0 <= a < before.len() && before[a] == j as usize;
                            assert(order@[a] == j as usize);
                        } else {
                            assert(left.count(place_key(dist@, j) as u128) > 0);
                            assert(order@[order@.len() - 1] == k);
                            assert(place_key(dist@, j) >= 0);
                        }
                    }
                }
            },
            None => {
                break;
            },
        }
    }
    proof {
        assert forall|k: int| 0 <= k < dist@.len() implies #[trigger] order@.contains(k as usize) by {
            let x = place_key(dist@, k) as u128;
            if open@.count(x) > 0 {
                assert(open@.contains(x));
            }
        }
    }
    order
}

/// A routed path: its class and the vertices it passes.
pub struct RoutedPath {
    pub class: RoadClass,
    pub vertices: Vec<usize>,
}

/// A road between two nodes.
pub struct Piece {
    pub class: RoadClass,
    pub start: u32,
    pub end: u32,
    pub vertices: Vec<usize>,
}

/// The nodes of a road network on a grid of vertices.
pub struct Plan {
    node_at: Vec<Option<u32>>,
    /// The kind and the vertex of each node.
    kinds: Vec<NodeKind>,
    vertices: Vec<usize>,
}

/// The nodes of a road network: the node at each vertex, if it is one, and the kind and the vertex of
/// each node.
#[verifier::ext_equal]
pub ghost struct Nodes {
    pub at: Seq<Option<u32>>,
    pub kinds: Seq<NodeKind>,
    pub vertices: Seq<usize>,
}

/// The nodes with one at vertex `v`: the one that is there, or a new one of the given kind.
pub open spec fn with_node(n: Nodes, v: usize, kind: NodeKind) -> Nodes {
    if n.at[v as int] is Some {
        n
    } else {
        Nodes {
            at: n.at.update(v as int, Some(n.kinds.len() as u32)),
            kinds: n.kinds.push(kind),
            vertices: n.vertices.push(v),
        }
    }
}

impl View for Plan {
    type V = Nodes;

    open spec fn view(&self) -> Nodes {
        Nodes { at: self.nodes(), kinds: self.kind_of(), vertices: self.vertex_of() }
    }
}

impl Plan {
    /// The node at each vertex, if it is one.
    pub closed spec fn nodes(&self) -> Seq<Option<u32>> {
        self.node_at@
    }

    /// The kind of each node.
    pub closed spec fn kind_of(&self) -> Seq<NodeKind> {
        self.kinds@
    }

    /// The vertex of each node.
    pub closed spec fn vertex_of(&self) -> Seq<usize> {
        self.vertices@
    }

    /// Nodes and the vertices they stand at determine each other.
    pub open spec fn wf(&self) -> bool {
        &&& self.kind_of().len() == self.vertex_of().len()
        &&& self.nodes().len() < u32::MAX
        &&& self.vertex_of().len() <= self.nodes().len()
        &&& forall|v: int|
            0 <= v < self.nodes().len() ==> ((#[trigger] self.nodes()[v]) matches Some(k) ==> k
                < self.vertex_of().len() && self.vertex_of()[k as int] == v)
        &&& forall|k: int|
            0 <= k < self.vertex_of().len() ==> (#[trigger] self.vertex_of()[k]) < self.nodes().len()
                && self.nodes()[self.vertex_of()[k] as int] == Some(k as u32)
    }

    /// A plan without nodes on `n` vertices.
    pub fn new(n: usize) -> (p: Plan)
        requires
            n < u32::MAX,
        ensures
            p.wf(),
            p.nodes() == Seq::new(n as nat, |v: int| None::<u32>),
            p.kind_of().len() == 0,
    {
        let mut node_at: Vec<Option<u32>> = Vec::with_capacity(n);
        let mut i: usize = 0;
        while i < n
            invariant
                i <= n,
                node_at@ == Seq::new(i as nat, |v: int| None::<u32>),
            decreases n - i,
        {
            node_at.push(None);
            i += 1;
            assert(node_at@ =~= Seq::new(i as nat, |v: int| None::<u32>));
        }
        Plan { node_at, kinds: Vec::new(), vertices: Vec::new() }
    }

    /// How many nodes there are.
    pub fn len(&self) -> (n: usize)
        ensures
            n == self.kind_of().len(),
    {
        self.kinds.len()
    }

    /// The kind of node `k`.
    pub fn kind(&self, k: usize) -> (r: NodeKind)
        requires
            k < self.kind_of().len(),
        ensures
            r == self.kind_of()[k as int],
    {
        self.kinds[k]
    }

    /// How many nodes are of a kind.
    pub fn count(&self, kind: NodeKind) -> (n: usize)
        ensures
            n == self.kind_of().filter(|k: NodeKind| k == kind).len(),
    {
        let mut n: usize = 0;
        let mut i: usize = 0;
        proof {
            reveal(Seq::filter);
            assert(self.kinds@.take(0).filter(|k: NodeKind| k == kind).len() == 0);
        }
        while i < self.kinds.len()
            invariant
                n <= i <= self.kinds@.len(),
                n == self.kinds@.take(i as int).filter(|k: NodeKind| k == kind).len(),
            decreases self.kinds@.len() - i,
        {
            proof {
                broadcast use Seq::lemma_filter_len_push;

                assert(self.kinds@.take(i + 1) =~= self.kinds@.take(i as int).push(
                    self.kinds@[i as int],
                ));
            }
            if self.kinds[i] == kind {
                n += 1;
            }
            i += 1;
        }
        assert(self.kinds@.take(self.kinds@.len() as int) =~= self.kinds@);
        n
    }

    /// The node at vertex `v`; a new one of the given kind if there is none.
    pub fn node(&mut self, v: usize, kind: NodeKind) -> (k: u32)
        requires
            old(self).wf(),
            v < old(self).nodes().len(),
        ensures
            final(self).wf(),
            final(self).nodes()[v as int] == Some(k),
            final(self)@ == with_node(old(self)@, v, kind),
    {
        if let Some(k) = self.node_at[v] {
            return k;
        }
        let n: usize = self.kinds.len();
        proof {
            // A vertex without a node is left, so there is room for one more.
            lemma_room(*self, v as int);
        }
        let k: u32 = n as u32;
        let ghost before = *self;
        self.kinds.push(kind);
        self.vertices.push(v);
        self.node_at.set(v, Some(k));
        proof {
            assert forall|u: int| 0 <= u < self.nodes().len() implies ((#[trigger] self.nodes()[u]) matches Some(
                j,
            ) ==> j < self.vertex_of().len() && self.vertex_of()[j as int] == u) by {
                if u != v {
                    assert(before.nodes()[u] == self.nodes()[u]);
                }
            }
            assert forall|j: int| 0 <= j < self.vertex_of().len() implies (#[trigger] self.vertex_of()[j])
                < self.nodes().len() && self.nodes()[self.vertex_of()[j] as int] == Some(j as u32) by {
                if j < before.vertex_of().len() {
                    assert(before.vertex_of()[j] == self.vertex_of()[j]);
                    assert(before.nodes()[before.vertex_of()[j] as int] == Some(j as u32));
                }
            }
        }
        k
    }

    /// A path cut at the nodes that it passes. It must start at a node.
    pub fn split(&self, path: &RoutedPath) -> (pieces: Vec<Piece>)
        requires
            self.wf(),
            forall|i: int|
                0 <= i < path.vertices@.len() ==> #[trigger] path.vertices@[i] < self.nodes().len(),
            path.vertices@.len() > 0 ==> self.nodes()[path.vertices@[0] as int] is Some,
        ensures
            pieces@.len() == cuts(self.nodes(), path.vertices@, path.vertices@.len() as int).len(),
            forall|j: int|
                0 <= j < pieces@.len() ==> {
                    let c = cuts(self.nodes(), path.vertices@, path.vertices@.len() as int)[j];
                    &&& (#[trigger] pieces@[j]).class == path.class
                    &&& pieces@[j].vertices@ == path.vertices@.subrange(c.0, c.1 + 1)
                    &&& self.nodes()[path.vertices@[c.0] as int] == Some(pieces@[j].start)
                    &&& self.nodes()[path.vertices@[c.1] as int] == Some(pieces@[j].end)
                },
    {
        let ghost (at, vs) = (self.nodes(), path.vertices@);
        let n: usize = path.vertices.len();
        let mut pieces: Vec<Piece> = Vec::new();
        if n == 0 {
            return pieces;
        }
        let mut from: usize = 0;
        let mut k: usize = 1;
        while k < n
            invariant
                self.wf(),
                at == self.nodes(),
                vs == path.vertices@,
                1 <= k <= n == vs.len(),
                forall|i: int| 0 <= i < n ==> #[trigger] vs[i] < at.len(),
                from < k,
                at[vs[from as int] as int] is Some,
                from == last_node(at, vs, k as int),
                pieces@.len() == cuts(at, vs, k as int).len(),
                forall|j: int|
                    0 <= j < pieces@.len() ==> {
                        let c = cuts(at, vs, k as int)[j];
                        &&& (#[trigger] pieces@[j]).class == path.class
                        &&& pieces@[j].vertices@ == vs.subrange(c.0, c.1 + 1)
                        &&& at[vs[c.0] as int] == Some(pieces@[j].start)
                        &&& at[vs[c.1] as int] == Some(pieces@[j].end)
                    },
            decreases n - k,
        {
            assert(vs[k as int] < at.len() && vs[from as int] < at.len());
            if let Some(end) = self.node_at[path.vertices[k]] {
                let start: u32 = match self.node_at[path.vertices[from]] {
                    Some(s) => s,
                    None => 0,
                };
                let mut vertices: Vec<usize> = Vec::new();
                let mut i: usize = from;
                while i <= k
                    invariant
                        vs == path.vertices@,
                        from <= i <= k + 1,
                        k < n == vs.len(),
                        vertices@ == vs.subrange(from as int, i as int),
                    decreases k + 1 - i,
                {
                    vertices.push(path.vertices[i]);
                    i += 1;
                    assert(vertices@ =~= vs.subrange(from as int, i as int));
                }
                pieces.push(Piece { class: path.class, start, end, vertices });
                from = k;
            }
            k += 1;
        }
        pieces
    }
}

proof fn lemma_room(p: Plan, v: int)
    requires
        p.wf(),
        0 <= v < p.nodes().len(),
        p.nodes()[v] is None,
    ensures
        p.vertex_of().len() < p.nodes().len(),
{
    let q = p.vertex_of().map_values(|x: usize| x as int).push(v);
    assert(q.no_duplicates()) by {
        assert forall|a: int, b: int| 0 <= a < q.len() && 0 <= b < q.len() && a != b implies q[a] != q[b] by {
            if a < q.len() - 1 {
                assert(p.nodes()[p.vertex_of()[a] as int] == Some(a as u32));
            }
            if b < q.len() - 1 {
                assert(p.nodes()[p.vertex_of()[b] as int] == Some(b as u32));
            }
        }
    }
    assert forall|k: int| 0 <= k < q.len() implies 0 <= #[trigger] q[k] < p.nodes().len() by {
        if k < q.len() - 1 {
            assert(p.vertex_of()[k] < p.nodes().len());
        }
    }
    crate::flood::lemma_pigeonhole(q, p.nodes().len() as int);
}

/// The last place before `k` where a path passes a node, the start counted as one.
pub open spec fn last_node(at: Seq<Option<u32>>, vs: Seq<usize>, k: int) -> int
    decreases k,
{
    if k <= 1 {
        0
    } else if at[vs[k - 1] as int] is Some {
        k - 1
    } else {
        last_node(at, vs, k - 1)
    }
}

/// The places where the pieces of a path's first `k` vertices start and end: from node to node.
pub open spec fn cuts(at: Seq<Option<u32>>, vs: Seq<usize>, k: int) -> Seq<(int, int)>
    decreases k,
{
    if k <= 1 {
        Seq::empty()
    } else if at[vs[k - 1] as int] is Some {
        cuts(at, vs, k - 1).push((last_node(at, vs, k - 1), k - 1))
    } else {
        cuts(at, vs, k - 1)
    }
}

/// Whether piece `j` starts where the one before it ends, or where the path starts, ends at a node
/// and has no node inside.
pub open spec fn joins(
    at: Seq<Option<u32>>,
    vs: Seq<usize>,
    c: Seq<(int, int)>,
    j: int,
    k: int,
) -> bool {
    &&& 0 <= c[j].0 < c[j].1 < k
    &&& c[j].0 == (if j == 0 {
        0
    } else {
        c[j - 1].1
    })
    &&& at[vs[c[j].1] as int] is Some
    &&& forall|i: int| c[j].0 < i < c[j].1 ==> at[#[trigger] vs[i] as int] is None
}

/// The pieces of a path join up: the first starts where the path starts, each starts where the one
/// before ends, the last ends at the last node, and no node lies inside a piece.
pub proof fn lemma_pieces_join(at: Seq<Option<u32>>, vs: Seq<usize>, k: int)
    requires
        1 <= k <= vs.len(),
    ensures
        forall|j: int|
            0 <= j < cuts(at, vs, k).len() ==> #[trigger] joins(at, vs, cuts(at, vs, k), j, k),
        last_node(at, vs, k) == (if cuts(at, vs, k).len() == 0 {
            0
        } else {
            cuts(at, vs, k).last().1
        }),
        forall|i: int| last_node(at, vs, k) < i < k ==> at[#[trigger] vs[i] as int] is None,
        0 <= last_node(at, vs, k) < k,
    decreases k,
{
    if k > 1 {
        lemma_pieces_join(at, vs, k - 1);
        let (b, c) = (cuts(at, vs, k - 1), cuts(at, vs, k));
        if at[vs[k - 1] as int] is Some {
            assert(c == b.push((last_node(at, vs, k - 1), k - 1)));
        } else {
            assert(c == b);
        }
        assert forall|j: int| 0 <= j < c.len() implies #[trigger] joins(at, vs, c, j, k) by {
            if j < b.len() {
                assert(joins(at, vs, b, j, k - 1));
            }
        }
    }
}

/// The part of a road that climbs: it stays level while it crosses the pads at its ends. Given
/// which points lie on the pads of the start and of the end, the climb runs from the last point
/// on the start's pad to the first on the end's; where there is none, over the whole road.
pub open spec fn climb(on_start: Seq<bool>, on_end: Seq<bool>, r: (usize, usize)) -> bool {
    let n = on_start.len() as int;
    if exists|a: int, b: int| off_pads(on_start, on_end, a, b) && a < b {
        let (a, b) = choose|a: int, b: int| off_pads(on_start, on_end, a, b) && a < b;
        &&& r.0 == (if a == 0 {
            0
        } else {
            a - 1
        })
        &&& r.1 == (if b + 1 < n {
            b + 1
        } else {
            n
        })
    } else {
        r == (0usize, n as usize)
    }
}

/// Whether `a` is the first point off the start's pad and `b` the place behind the last point off
/// the end's pad.
pub open spec fn off_pads(on_start: Seq<bool>, on_end: Seq<bool>, a: int, b: int) -> bool {
    &&& 0 <= a < on_start.len()
    &&& 0 < b <= on_end.len()
    &&& !on_start[a]
    &&& forall|i: int| 0 <= i < a ==> #[trigger] on_start[i]
    &&& !on_end[b - 1]
    &&& forall|i: int| b <= i < on_end.len() ==> #[trigger] on_end[i]
}

/// Where a road climbs between the pads at its ends.
pub fn ramp(on_start: &Vec<bool>, on_end: &Vec<bool>) -> (r: (usize, usize))
    requires
        on_start@.len() == on_end@.len(),
    ensures
        climb(on_start@, on_end@, r),
        r.0 <= r.1 <= on_start@.len(),
{
    let n: usize = on_start.len();
    let mut a: usize = 0;
    while a < n && on_start[a]
        invariant
            a <= n == on_start@.len(),
            forall|i: int| 0 <= i < a ==> #[trigger] on_start@[i],
        decreases n - a,
    {
        a += 1;
    }
    let mut b: usize = n;
    while b > 0 && on_end[b - 1]
        invariant
            b <= n == on_end@.len(),
            forall|i: int| b <= i < n ==> #[trigger] on_end@[i],
        decreases b,
    {
        b -= 1;
    }
    proof {
        assert forall|x: int, y: int| off_pads(on_start@, on_end@, x, y) implies x == a && y == b by {
            if x < a {
                assert(on_start@[x]);
            }
            if a < x {
                assert(on_start@[a as int]);
            }
            if y - 1 >= b {
                assert(on_end@[y - 1]);
            }
            if y < b {
                assert(on_end@[b - 1]);
            }
        }
        if a < b {
            assert(off_pads(on_start@, on_end@, a as int, b as int));
        }
    }
    if a < b {
        let lo: usize = if a == 0 {
            0
        } else {
            a - 1
        };
        let hi: usize = if b < n {
            b + 1
        } else {
            n
        };
        (lo, hi)
    } else {
        (0, n)
    }
}

/// Which share of a needed height change each end of a piece takes, in halves: all of it on a free
/// end that faces a fixed one, else one half each; none if both are fixed.
pub fn shares(fixed_start: bool, fixed_end: bool) -> (r: Option<(u8, u8)>)
    ensures
        r is None <==> fixed_start && fixed_end,
        r matches Some(s) ==> {
            &&& s.0 + s.1 == 2
            &&& s.0 == 0 <==> fixed_start
            &&& s.1 == 0 <==> fixed_end
        },
{
    if fixed_start && fixed_end {
        None
    } else if fixed_start {
        Some((0, 2))
    } else if fixed_end {
        Some((2, 0))
    } else {
        Some((1, 1))
    }
}

/// How many of the first `n` pieces are of a class.
pub open spec fn of_class(pieces: Seq<Piece>, class: RoadClass, n: int) -> nat
    decreases n,
{
    if n <= 0 {
        0
    } else {
        of_class(pieces, class, n - 1) + if pieces[n - 1].class == class {
            1nat
        } else {
            0
        }
    }
}

/// How many pieces are of a class.
pub fn count_class(pieces: &Vec<Piece>, class: RoadClass) -> (n: usize)
    ensures
        n == of_class(pieces@, class, pieces@.len() as int),
{
    let mut n: usize = 0;
    let mut i: usize = 0;
    while i < pieces.len()
        invariant
            n <= i <= pieces@.len(),
            n == of_class(pieces@, class, i as int),
        decreases pieces@.len() - i,
    {
        if pieces[i].class == class {
            n += 1;
        }
        i += 1;
    }
    n
}

/// Nearer places come first, whatever their indices; equally near ones come in the order of these.
pub proof fn lemma_nearer_places_come_first(dist: Seq<u64>, a: int, b: int)
    requires
        0 <= a < 0x1_0000_0000,
        0 <= b < 0x1_0000_0000,
    ensures
        ieee::lt64(dist[a], dist[b]) ==> place_key(dist, a) < place_key(dist, b),
        dist[a] == dist[b] && a < b ==> place_key(dist, a) < place_key(dist, b),
{
    ieee::lemma_total_refines_rank64(dist[a], dist[b]);
}

/// A node is added only where there is none, and then behind the others, which stay as they are.
pub proof fn lemma_nodes_are_added_once(n: Nodes, v: usize, kind: NodeKind, other: NodeKind)
    requires
        v < n.at.len(),
        n.kinds.len() == n.vertices.len() < u32::MAX,
    ensures
        ({
            let r = with_node(n, v, kind);
            &&& r.at[v as int] is Some
            &&& r.at.len() == n.at.len()
            &&& n.at[v as int] is Some ==> r == n
            &&& n.at[v as int] is None ==> r.at[v as int] == Some(n.kinds.len() as u32) && r.kinds.last() == kind
                && r.vertices.last() == v && r.kinds.len() == n.kinds.len() + 1 && r.vertices.len() == r.kinds.len()
            &&& forall|u: int| 0 <= u < n.at.len() && u != v ==> #[trigger] r.at[u] == n.at[u]
            &&& forall|k: int|
                0 <= k < n.kinds.len() ==> #[trigger] r.kinds[k] == n.kinds[k] && r.vertices[k] == n.vertices[k]
            &&& with_node(r, v, other) == r
        }),
{
}

/// Every node that a path passes ends a piece.
pub proof fn lemma_every_node_cuts(at: Seq<Option<u32>>, vs: Seq<usize>, k: int, i: int)
    requires
        0 < i < k <= vs.len(),
        at[vs[i] as int] is Some,
    ensures
        exists|j: int| 0 <= j < cuts(at, vs, k).len() && (#[trigger] cuts(at, vs, k)[j]).1 == i,
    decreases k,
{
    let (now, before) = (cuts(at, vs, k), cuts(at, vs, k - 1));
    if i == k - 1 {
        assert(now[before.len() as int].1 == i);
    } else {
        lemma_every_node_cuts(at, vs, k - 1, i);
        let j = choose|j: int| 0 <= j < before.len() && (#[trigger] before[j]).1 == i;
        assert(now[j] == before[j]);
    }
}

/// A road that leaves the pad of its start before it enters that of its end climbs from the last point on
/// the one to the first on the other, and stays level on both; a road that does not climbs all the way.
pub proof fn lemma_roads_are_level_on_pads(on_start: Seq<bool>, on_end: Seq<bool>, r: (usize, usize))
    requires
        on_start.len() == on_end.len() <= usize::MAX,
        climb(on_start, on_end, r),
    ensures
        ({
            let n = on_start.len() as int;
            let apart = exists|a: int, b: int| off_pads(on_start, on_end, a, b) && a < b;
            &&& apart && on_start[0] ==> on_start[r.0 as int] && !on_start[r.0 + 1] && forall|i: int|
                0 <= i <= r.0 ==> #[trigger] on_start[i]
            &&& apart && !on_start[0] ==> r.0 == 0
            &&& apart && on_end[n - 1] && r.1 < n ==> forall|i: int| r.1 <= i < n ==> #[trigger] on_end[i]
            &&& apart && !on_end[n - 1] ==> r.1 == n
            &&& apart && r.1 < n ==> !on_end[r.1 - 2]
            &&& !apart ==> r.0 == 0 && r.1 == n
        }),
{
    if exists|a: int, b: int| off_pads(on_start, on_end, a, b) && a < b {
        let (a, b) = choose|a: int, b: int| off_pads(on_start, on_end, a, b) && a < b;
        assert(off_pads(on_start, on_end, a, b));
    }
}

/// The classes share the pieces out among them.
pub proof fn lemma_every_piece_has_a_class(pieces: Seq<Piece>, n: int)
    requires
        0 <= n <= pieces.len(),
    ensures
        of_class(pieces, RoadClass::Paved, n) + of_class(pieces, RoadClass::Gravel, n) + of_class(
            pieces,
            RoadClass::Track,
            n,
        ) == n,
        forall|class: RoadClass|
            (forall|i: int| 0 <= i < n ==> (#[trigger] pieces[i]).class == class) ==> #[trigger] of_class(
                pieces,
                class,
                n,
            ) == n,
        forall|class: RoadClass|
            (forall|i: int| 0 <= i < n ==> (#[trigger] pieces[i]).class != class) ==> #[trigger] of_class(
                pieces,
                class,
                n,
            ) == 0,
    decreases n,
{
    if n > 0 {
        lemma_every_piece_has_a_class(pieces, n - 1);
    }
}

/// Gravel roads lead to farm yards and may cross their own pad, which counts from 1; other roads lead to
/// gates and cross none. Two farms never share a pad.
pub proof fn lemma_roads_lead_to_their_places(class: RoadClass, k: u16, l: u16)
    requires
        k < u16::MAX,
        l < u16::MAX,
    ensures
        leg(class, k).0 == NodeKind::Yard <==> class == RoadClass::Gravel,
        leg(class, k).0 == NodeKind::Gate <==> class != RoadClass::Gravel,
        leg(class, k).1 == 0 <==> class != RoadClass::Gravel,
        class == RoadClass::Gravel && leg(class, k) == leg(class, l) ==> k == l,
        leg(RoadClass::Gravel, k).1 == k + 1,
{
}

/// A road is wanted to every free place off the roads that is far enough from them, and to no other.
pub proof fn lemma_wanted_roads(blocked: bool, on_road: bool, distance: u64, min_distance: u64)
    ensures
        wanted(blocked, on_road, distance, min_distance) ==> !blocked && !on_road,
        ieee::lt64(distance, min_distance) ==> !wanted(blocked, on_road, distance, min_distance),
        !blocked && !on_road && ieee::le64(min_distance, distance) ==> wanted(blocked, on_road, distance, min_distance),
{
}

/// Every attempt at a main road crosses the one before, and the draw decides the first.
pub proof fn lemma_attempts_cross(draw: u64, attempt: u32)
    requires
        attempt < u32::MAX,
    ensures
        eastward(draw, (attempt + 1) as u32) == !eastward(draw, attempt),
        eastward(draw, 0) <==> draw == 0,
{
}

} // verus!
