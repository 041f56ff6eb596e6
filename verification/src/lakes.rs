//! Lakes in the depressions of a flooded height grid.
//!
//! A depression is a group of neighbouring vertices that the flood raised. It holds water up to
//! its spill level, unless the lake would then cover too large a share of its catchment; in that
//! case the level drops until it does not. A cell is wet if one of its corners is under water.

use vstd::prelude::*;

use crate::flood;
use crate::grid;
use crate::ieee;
use crate::sorting;

verus! {

/// A group of neighbouring vertices that the flood raised.
pub struct Depression {
    /// The vertices, the one with the least index first.
    pub members: Vec<usize>,
    /// The largest upstream area of a member.
    pub catchment: u32,
}

/// Whether vertex `i` starts a depression unless it already belongs to one.
pub open spec fn sinks(h: Seq<u32>, f: Seq<u32>, i: int) -> bool {
    !ieee::le32(f[i], h[i])
}

/// Whether vertex `i` was raised.
pub open spec fn raised(h: Seq<u32>, f: Seq<u32>, i: int) -> bool {
    ieee::lt32(h[i], f[i])
}

/// Whether vertex `i` belongs to one of the first `n` groups.
pub open spec fn grouped(g: Seq<Seq<usize>>, n: int, i: int) -> bool {
    exists|d: int, k: int| 0 <= d < n && 0 <= k < g[d].len() && #[trigger] g[d][k] == i
}

/// Whether `m` is a group of vertices that grows from its first member over raised neighbours.
pub open spec fn grows(h: Seq<u32>, f: Seq<u32>, m: Seq<usize>, w: int, ht: int) -> bool {
    &&& m.len() > 0
    &&& m.no_duplicates()
    &&& forall|k: int| 0 <= k < m.len() ==> 0 <= #[trigger] m[k] < w * ht
    &&& sinks(h, f, m[0] as int)
    &&& forall|k: int|
        0 < k < m.len() ==> raised(h, f, #[trigger] m[k] as int) && touches(m, k, m[k] as int, w, ht)
}

/// Whether `i` is next to one of the first `n` members.
pub open spec fn touches(m: Seq<usize>, n: int, i: int, w: int, ht: int) -> bool {
    exists|k: int| 0 <= k < n && #[trigger] grid::adjacent(m[k] as int, i, w, ht)
}

/// The groups of raised vertices of a grid, in the order of their least indices.
pub open spec fn grouping(h: Seq<u32>, f: Seq<u32>, g: Seq<Seq<usize>>, w: int, ht: int) -> bool {
    &&& forall|d: int| 0 <= d < g.len() ==> grows(h, f, #[trigger] g[d], w, ht)
    &&& forall|d: int, k: int, j: int|
        #![trigger g[d][k], grid::adjacent(g[d][k] as int, j, w, ht)]
        0 <= d < g.len() && 0 <= k < g[d].len() && grid::adjacent(g[d][k] as int, j, w, ht)
            && raised(h, f, j) ==> grouped(g, d + 1, j)
    &&& forall|d: int, k: int| #![trigger g[d][k]]
        0 <= d < g.len() && 0 <= k < g[d].len() ==> !grouped(g, d, g[d][k] as int)
    &&& forall|d: int, i: int| #![trigger grouped(g, d, i)]
        0 <= d < g.len() && 0 <= i < g[d][0] && sinks(h, f, i) ==> grouped(g, d, i)
    &&& forall|d: int, e: int| 0 <= d < e < g.len() ==> #[trigger] g[d][0] < #[trigger] g[e][0]
    &&& forall|i: int| 0 <= i < w * ht && sinks(h, f, i) ==> #[trigger] grouped(g, g.len() as int, i)
}

/// Whether `catchment` is the largest upstream area among the members.
pub open spec fn largest(acc: Seq<u32>, m: Seq<usize>, catchment: u32) -> bool {
    &&& forall|k: int| 0 <= k < m.len() ==> acc[#[trigger] m[k] as int] <= catchment
    &&& exists|k: int| 0 <= k < m.len() && acc[#[trigger] m[k] as int] == catchment
}

/// The members of each depression.
pub open spec fn groups(ds: Seq<Depression>) -> Seq<Seq<usize>> {
    ds.map_values(|d: Depression| d.members@)
}

proof fn lemma_grouped_grows(g: Seq<Seq<usize>>, n: int, m: Seq<usize>, i: int)
    requires
        0 <= n <= g.len(),
    ensures
        grouped(g.push(m), n, i) == grouped(g, n, i),
{
    let t = g.push(m);
    if grouped(t, n, i) {
        let (d, k) = choose|d: int, k: int|
            0 <= d < n && 0 <= k < t[d].len() && #[trigger] t[d][k] == i;
        assert(g[d][k] == i);
    }
    if grouped(g, n, i) {
        let (d, k) = choose|d: int, k: int|
            0 <= d < n && 0 <= k < g[d].len() && #[trigger] g[d][k] == i;
        assert(t[d][k] == i);
    }
}

proof fn lemma_grouped_last(g: Seq<Seq<usize>>, m: Seq<usize>, i: int)
    requires
        i >= 0,
    ensures
        grouped(g.push(m), (g.len() + 1) as int, i) <==> grouped(g, g.len() as int, i) || exists|k: int|
            0 <= k < m.len() && #[trigger] m[k] == i,
{
    let t = g.push(m);
    let n = g.len() as int;
    if grouped(t, n + 1, i) {
        let (d, k) = choose|d: int, k: int|
            0 <= d < n + 1 && 0 <= k < t[d].len() && #[trigger] t[d][k] == i;
        if d < n {
            assert(g[d][k] == i);
        } else {
            assert(m[k] == i);
        }
    }
    if grouped(g, n, i) {
        let (d, k) = choose|d: int, k: int|
            0 <= d < n && 0 <= k < g[d].len() && #[trigger] g[d][k] == i;
        assert(t[d][k] == i);
    }
    if exists|k: int| 0 <= k < m.len() && #[trigger] m[k] == i {
        let k = choose|k: int| 0 <= k < m.len() && #[trigger] m[k] == i;
        assert(t[n][k] == i);
    }
}

/// The groups found before vertex `s`, all of whose members are marked as seen.
spec fn grouping_before(
    h: Seq<u32>,
    f: Seq<u32>,
    g: Seq<Seq<usize>>,
    s: int,
    w: int,
    ht: int,
) -> bool {
    &&& forall|d: int| 0 <= d < g.len() ==> grows(h, f, #[trigger] g[d], w, ht) && g[d][0] < s
    &&& forall|d: int, k: int, j: int|
        #![trigger g[d][k], grid::adjacent(g[d][k] as int, j, w, ht)]
        0 <= d < g.len() && 0 <= k < g[d].len() && grid::adjacent(g[d][k] as int, j, w, ht)
            && raised(h, f, j) ==> grouped(g, d + 1, j)
    &&& forall|d: int, k: int| #![trigger g[d][k]]
        0 <= d < g.len() && 0 <= k < g[d].len() ==> !grouped(g, d, g[d][k] as int)
    &&& forall|d: int, i: int| #![trigger grouped(g, d, i)]
        0 <= d < g.len() && 0 <= i < g[d][0] && sinks(h, f, i) ==> grouped(g, d, i)
    &&& forall|d: int, e: int| 0 <= d < e < g.len() ==> #[trigger] g[d][0] < #[trigger] g[e][0]
    &&& forall|i: int| 0 <= i < s && sinks(h, f, i) ==> #[trigger] grouped(g, g.len() as int, i)
}

/// A finished group joins the groups found before it.
proof fn lemma_add_group(
    h: Seq<u32>,
    f: Seq<u32>,
    g: Seq<Seq<usize>>,
    m: Seq<usize>,
    w: int,
    ht: int,
)
    requires
        grows(h, f, m, w, ht),
        grouping_before(h, f, g, m[0] as int, w, ht),
        forall|k: int| 0 <= k < m.len() ==> !grouped(g, g.len() as int, #[trigger] m[k] as int),
        forall|k: int, j: int|
            0 <= k < m.len() && #[trigger] grid::adjacent(m[k] as int, j, w, ht) && raised(h, f, j)
                ==> grouped(g.push(m), (g.len() + 1) as int, j),
    ensures
        grouping_before(h, f, g.push(m), m[0] + 1, w, ht),
{
    let t = g.push(m);
    let n = g.len() as int;
    assert forall|d: int, k: int, j: int|
        #![trigger t[d][k], grid::adjacent(t[d][k] as int, j, w, ht)]
        0 <= d < t.len() && 0 <= k < t[d].len() && grid::adjacent(t[d][k] as int, j, w, ht)
            && raised(h, f, j) implies grouped(t, d + 1, j) by {
        if d < n {
            assert(grid::adjacent(g[d][k] as int, j, w, ht));
            lemma_grouped_grows(g, d + 1, m, j);
        } else {
            assert(grid::adjacent(m[k] as int, j, w, ht));
        }
    }
    assert forall|d: int, k: int| #![trigger t[d][k]]
        0 <= d < t.len() && 0 <= k < t[d].len() implies !grouped(t, d, t[d][k] as int) by {
        if d < n {
            assert(!grouped(g, d, g[d][k] as int));
            lemma_grouped_grows(g, d, m, g[d][k] as int);
        } else {
            assert(!grouped(g, n, m[k] as int));
            lemma_grouped_grows(g, n, m, m[k] as int);
        }
    }
    assert forall|d: int, i: int| #![trigger grouped(t, d, i)]
        0 <= d < t.len() && 0 <= i < t[d][0] && sinks(h, f, i) implies grouped(t, d, i) by {
        lemma_grouped_grows(g, d, m, i);
        if d < n {
            assert(grouped(g, d, i));
        } else {
            assert(grouped(g, n, i));
        }
    }
    assert forall|i: int| 0 <= i < m[0] + 1 && sinks(h, f, i) implies #[trigger] grouped(
        t,
        t.len() as int,
        i,
    ) by {
        lemma_grouped_last(g, m, i);
        if i == m[0] {
            assert(m[0] == i);
        } else {
            assert(grouped(g, n, i));
        }
    }
    assert forall|d: int, e: int| 0 <= d < e < t.len() implies #[trigger] t[d][0] < #[trigger] t[e][0] by {
        if e < n {
            assert(g[d][0] < g[e][0]);
        } else {
            assert(grows(h, f, g[d], w, ht));
        }
    }
    assert forall|d: int| 0 <= d < t.len() implies grows(h, f, #[trigger] t[d], w, ht) && t[d][0]
        < m[0] + 1 by {
        if d < n {
            assert(grows(h, f, g[d], w, ht));
        }
    }
}

/// The state of gathering a group: `m` holds its members so far, `st` raised vertices next to
/// them, and `seen` marks both beside the vertices of earlier groups, which `before` marks.
spec fn gathering(
    h: Seq<u32>,
    f: Seq<u32>,
    before: Seq<bool>,
    seen: Seq<bool>,
    m: Seq<usize>,
    st: Seq<usize>,
    w: int,
    ht: int,
) -> bool {
    &&& before.len() == w * ht
    &&& seen.len() == w * ht
    &&& m.no_duplicates()
    &&& st.no_duplicates()
    &&& forall|k: int|
        0 <= k < m.len() ==> 0 <= #[trigger] m[k] < w * ht && !before[m[k] as int]
            && seen[m[k] as int] && !st.contains(m[k])
    &&& forall|k: int|
        0 <= k < st.len() ==> 0 <= #[trigger] st[k] < w * ht && !before[st[k] as int]
            && seen[st[k] as int]
    &&& forall|i: int|
        0 <= i < w * ht && #[trigger] seen[i] && !before[i] ==> m.contains(i as usize) || st.contains(
            i as usize,
        )
    &&& forall|i: int| 0 <= i < w * ht && before[i] ==> #[trigger] seen[i]
    &&& forall|k: int|
        0 < k < m.len() ==> raised(h, f, #[trigger] m[k] as int) && touches(m, k, m[k] as int, w, ht)
}

/// Whether the raised vertices in the first `dirs` directions from `c` are marked.
spec fn surrounded(
    h: Seq<u32>,
    f: Seq<u32>,
    seen: Seq<bool>,
    c: int,
    dirs: int,
    w: int,
    ht: int,
) -> bool {
    forall|k: int|
        0 <= k < dirs ==> ((#[trigger] grid::neighbour(c, k, w, ht)) matches Some(j) ==> raised(h, f, j)
            ==> seen[j])
}

proof fn lemma_mark(
    h: Seq<u32>,
    f: Seq<u32>,
    before: Seq<bool>,
    seen: Seq<bool>,
    m: Seq<usize>,
    st: Seq<usize>,
    j: usize,
    w: int,
    ht: int,
)
    requires
        gathering(h, f, before, seen, m, st, w, ht),
        0 <= j < w * ht,
        !seen[j as int],
    ensures
        gathering(h, f, before, seen.update(j as int, true), m, st.push(j), w, ht),
{
    let t = st.push(j);
    let seen2 = seen.update(j as int, true);
    assert forall|i: int| 0 <= i < w * ht && #[trigger] seen2[i] && !before[i] implies m.contains(
        i as usize,
    ) || t.contains(i as usize) by {
        if i == j {
            assert(t[t.len() - 1] == j);
        } else {
            assert(seen[i]);
            if st.contains(i as usize) {
                let k = choose|k: int| 0 <= k < st.len() && st[k] == i as usize;
                assert(t[k] == i as usize);
            }
        }
    }
    assert forall|k: int| 0 <= k < m.len() implies 0 <= #[trigger] m[k] < w * ht && !before[m[k] as int]
        && seen2[m[k] as int] && !t.contains(m[k]) by {
        assert(seen[m[k] as int] && !st.contains(m[k]));
        if t.contains(m[k]) {
            let a = choose|a: int| 0 <= a < t.len() && t[a] == m[k];
            assert(a < st.len());
            assert(st[a] == m[k]);
        }
    }
    assert forall|a: int, b: int| 0 <= a < t.len() && 0 <= b < t.len() && a != b implies t[a] != t[b] by {
        if a < st.len() {
            assert(seen[st[a] as int]);
        }
        if b < st.len() {
            assert(seen[st[b] as int]);
        }
    }
}

proof fn lemma_members_fit(m: Seq<usize>, n: int)
    requires
        m.no_duplicates(),
        forall|k: int| 0 <= k < m.len() ==> #[trigger] m[k] < n,
        0 <= n,
    ensures
        m.len() <= n,
{
    let q = m.map_values(|x: usize| x as int);
    assert(q.no_duplicates()) by {
        assert forall|a: int, b: int| 0 <= a < q.len() && 0 <= b < q.len() && a != b implies q[a]
            != q[b] by {
            assert(m[a] != m[b]);
        }
    }
    assert forall|k: int| 0 <= k < q.len() implies 0 <= #[trigger] q[k] < n by {
        assert(m[k] < n);
    }
    flood::lemma_pigeonhole(q, n);
}

/// Collects the group of vertex `s` and marks its members in `seen`.
fn gather(
    h: &[u32],
    filled: &[u32],
    acc: &[u32],
    w: usize,
    ht: usize,
    s: usize,
    seen: &mut Vec<bool>,
) -> (d: Depression)
    requires
        h@.len() == filled@.len() == acc@.len() == old(seen)@.len() == w * ht <= u32::MAX,
        s < w * ht,
        !old(seen)@[s as int],
        sinks(h@, filled@, s as int),
    ensures
        final(seen)@.len() == w * ht,
        grows(h@, filled@, d.members@, w as int, ht as int),
        d.members@[0] == s,
        largest(acc@, d.members@, d.catchment),
        forall|k: int| 0 <= k < d.members@.len() ==> !old(seen)@[#[trigger] d.members@[k] as int],
        forall|i: int|
            0 <= i < w * ht ==> (#[trigger] final(seen)@[i] <==> old(seen)@[i]
                || d.members@.contains(i as usize)),
        forall|k: int, j: int|
            0 <= k < d.members@.len() && #[trigger] grid::adjacent(
                d.members@[k] as int,
                j,
                w as int,
                ht as int,
            ) && raised(h@, filled@, j) ==> final(seen)@[j],
{
    let ghost before = seen@;
    let ghost (gw, gh) = (w as int, ht as int);
    let mut members: Vec<usize> = Vec::new();
    let mut stack: Vec<usize> = Vec::new();
    let mut catchment: u32 = 0;
    stack.push(s);
    seen[s] = true;
    proof {
        assert(stack@[0] == s);
    }
    while stack.len() > 0
        invariant
            h@.len() == filled@.len() == acc@.len() == w * ht <= u32::MAX,
            gw == w,
            gh == ht,
            sinks(h@, filled@, s as int),
            gathering(h@, filled@, before, seen@, members@, stack@, gw, gh),
            members@.len() == 0 ==> stack@.len() == 1 && stack@[0] == s,
            members@.len() > 0 ==> members@[0] == s,
            members@.len() > 0 ==> forall|k: int|
                0 <= k < stack@.len() ==> raised(h@, filled@, #[trigger] stack@[k] as int) && touches(
                    members@,
                    members@.len() as int,
                    stack@[k] as int,
                    gw,
                    gh,
                ),
            forall|k: int|
                0 <= k < members@.len() ==> surrounded(
                    h@,
                    filled@,
                    seen@,
                    #[trigger] members@[k] as int,
                    8,
                    gw,
                    gh,
                ),
            members@.len() > 0 ==> largest(acc@, members@, catchment),
            members@.len() == 0 ==> catchment == 0,
            members@.len() <= w * ht,
        decreases w * ht - members@.len(),
    {
        let ghost (m0, st0) = (members@, stack@);
        let c: usize = stack[stack.len() - 1];
        stack.pop();
        members.push(c);
        if acc[c] > catchment {
            catchment = acc[c];
        }
        proof {
            assert(stack@ =~= st0.drop_last());
            let m = members@;
            assert forall|k: int| 0 < k < m.len() implies raised(h@, filled@, #[trigger] m[k] as int)
                && touches(m, k, m[k] as int, gw, gh) by {
                if k < m0.len() {
                    assert(touches(m0, k, m0[k] as int, gw, gh));
                    let a = choose|a: int|
                        0 <= a < k && #[trigger] grid::adjacent(m0[a] as int, m0[k] as int, gw, gh);
                    assert(grid::adjacent(m[a] as int, m[k] as int, gw, gh));
                } else {
                    assert(st0[st0.len() - 1] == c);
                    assert(touches(m0, m0.len() as int, c as int, gw, gh));
                    let a = choose|a: int|
                        0 <= a < m0.len() && #[trigger] grid::adjacent(m0[a] as int, c as int, gw, gh);
                    assert(grid::adjacent(m[a] as int, m[k] as int, gw, gh));
                }
            }
            assert(st0[st0.len() - 1] == c);
            assert forall|k: int| 0 <= k < m.len() implies 0 <= #[trigger] m[k] < w * ht
                && !before[m[k] as int] && seen@[m[k] as int] && !stack@.contains(m[k]) by {
                if k < m0.len() {
                    assert(!st0.contains(m0[k]));
                    if stack@.contains(m[k]) {
                        let a = choose|a: int| 0 <= a < stack@.len() && stack@[a] == m[k];
                        assert(st0[a] == m0[k]);
                    }
                } else {
                    if stack@.contains(c) {
                        let a = choose|a: int| 0 <= a < stack@.len() && stack@[a] == c;
                        assert(st0[a] == st0[st0.len() - 1]);
                    }
                }
            }
            assert(m.no_duplicates()) by {
                assert forall|a: int, b: int|
                    0 <= a < m.len() && 0 <= b < m.len() && a != b implies m[a] != m[b] by {
                    assert(st0.contains(c));
                    if a < m0.len() {
                        assert(!st0.contains(m0[a]));
                    }
                    if b < m0.len() {
                        assert(!st0.contains(m0[b]));
                    }
                }
            }
            assert forall|i: int|
                0 <= i < w * ht && #[trigger] seen@[i] && !before[i] implies m.contains(i as usize)
                || stack@.contains(i as usize) by {
                if m0.contains(i as usize) {
                    let a = choose|a: int| 0 <= a < m0.len() && m0[a] == i as usize;
                    assert(m[a] == i as usize);
                } else {
                    let a = choose|a: int| 0 <= a < st0.len() && st0[a] == i as usize;
                    if a == st0.len() - 1 {
                        assert(m[m.len() - 1] == c);
                    } else {
                        assert(stack@[a] == i as usize);
                    }
                }
            }
            assert forall|k: int| 0 <= k < stack@.len() implies 0 <= #[trigger] stack@[k] < w * ht
                && !before[stack@[k] as int] && seen@[stack@[k] as int] by {
                assert(stack@[k] == st0[k]);
            }
            assert(stack@.no_duplicates());
            assert(gathering(h@, filled@, before, seen@, m, stack@, gw, gh));
            lemma_members_fit(m, w * ht);
            assert(largest(acc@, m, catchment)) by {
                assert(m[m.len() - 1] == c);
                if m0.len() > 0 {
                    let a = choose|a: int|
                        0 <= a < m0.len() && acc@[#[trigger] m0[a] as int] <= catchment && (acc@[c as int]
                            <= acc@[m0[a] as int] ==> acc@[m0[a] as int] == catchment);
                    assert(acc@[m[a] as int] == acc@[m0[a] as int]);
                }
                assert forall|k: int| 0 <= k < m.len() implies acc@[#[trigger] m[k] as int]
                    <= catchment by {
                    if k < m0.len() {
                        assert(acc@[m0[k] as int] <= catchment);
                    }
                }
            }
            assert forall|k: int| 0 <= k < stack@.len() implies raised(
                h@,
                filled@,
                #[trigger] stack@[k] as int,
            ) && touches(m, m.len() as int, stack@[k] as int, gw, gh) by {
                assert(stack@[k] == st0[k]);
                let a = choose|a: int|
                    0 <= a < m0.len() && #[trigger] grid::adjacent(
                        m0[a] as int,
                        st0[k] as int,
                        gw,
                        gh,
                    );
                assert(grid::adjacent(m[a] as int, stack@[k] as int, gw, gh));
            }
            assert forall|k: int| 0 <= k < m0.len() implies surrounded(
                h@,
                filled@,
                seen@,
                #[trigger] m[k] as int,
                8,
                gw,
                gh,
            ) by {
                assert(surrounded(h@, filled@, seen@, m0[k] as int, 8, gw, gh));
            }
        }
        let mut k: usize = 0;
        while k < 8
            invariant
                h@.len() == filled@.len() == acc@.len() == w * ht <= u32::MAX,
                gw == w,
                gh == ht,
                k <= 8,
                c < w * ht,
                members@.len() == m0.len() + 1,
                members@[members@.len() - 1] == c,
                gathering(h@, filled@, before, seen@, members@, stack@, gw, gh),
                forall|a: int|
                    0 <= a < stack@.len() ==> raised(h@, filled@, #[trigger] stack@[a] as int)
                        && touches(members@, members@.len() as int, stack@[a] as int, gw, gh),
                forall|a: int|
                    0 <= a < m0.len() ==> surrounded(
                        h@,
                        filled@,
                        seen@,
                        #[trigger] members@[a] as int,
                        8,
                        gw,
                        gh,
                    ),
                surrounded(h@, filled@, seen@, c as int, k as int, gw, gh),
            decreases 8 - k,
        {
            if let Some(j) = grid::neighbour_of(c, k, w, ht) {
                proof {
                    grid::lemma_neighbour(c as int, k as int, gw, gh);
                }
                if !seen[j] && ieee::is_lt32(h[j], filled[j]) {
                    let ghost (seen0, st1) = (seen@, stack@);
                    seen[j] = true;
                    stack.push(j);
                    proof {
                        lemma_mark(h@, filled@, before, seen0, members@, st1, j, gw, gh);
                        assert(grid::adjacent(c as int, j as int, gw, gh));
                        assert(grid::adjacent(
                            members@[members@.len() - 1] as int,
                            j as int,
                            gw,
                            gh,
                        ));
                        assert(touches(members@, members@.len() as int, j as int, gw, gh));
                        assert forall|a: int| 0 <= a < stack@.len() implies raised(
                            h@,
                            filled@,
                            #[trigger] stack@[a] as int,
                        ) && touches(members@, members@.len() as int, stack@[a] as int, gw, gh) by {
                            if a < st1.len() {
                                assert(st1[a] == stack@[a]);
                            }
                        }
                        assert forall|a: int| 0 <= a < m0.len() implies surrounded(
                            h@,
                            filled@,
                            seen@,
                            #[trigger] members@[a] as int,
                            8,
                            gw,
                            gh,
                        ) by {
                            lemma_surrounded_grows(
                                h@,
                                filled@,
                                seen0,
                                members@[a] as int,
                                8,
                                j as int,
                                gw,
                                gh,
                            );
                        }
                        lemma_surrounded_grows(
                            h@,
                            filled@,
                            seen0,
                            c as int,
                            k as int,
                            j as int,
                            gw,
                            gh,
                        );
                    }
                }
            }
            k += 1;
        }
    }
    proof {
        let m = members@;
        assert forall|i: int| 0 <= i < w * ht implies (#[trigger] seen@[i] <==> before[i] || m.contains(
            i as usize,
        )) by {
            if m.contains(i as usize) {
                let a = choose|a: int| 0 <= a < m.len() && m[a] == i as usize;
                assert(seen@[m[a] as int]);
            }
            assert(stack@.len() == 0);
        }
        assert forall|k: int, j: int|
            0 <= k < m.len() && #[trigger] grid::adjacent(m[k] as int, j, gw, gh) && raised(
                h@,
                filled@,
                j,
            ) implies seen@[j] by {
            assert(surrounded(h@, filled@, seen@, m[k] as int, 8, gw, gh));
        }
    }
    Depression { members, catchment }
}

proof fn lemma_surrounded_grows(
    h: Seq<u32>,
    f: Seq<u32>,
    seen: Seq<bool>,
    c: int,
    dirs: int,
    j: int,
    w: int,
    ht: int,
)
    requires
        surrounded(h, f, seen, c, dirs, w, ht),
        0 <= c < w * ht,
        0 <= w,
        0 <= ht,
        0 <= dirs <= 8,
        seen.len() == w * ht,
        0 <= j < w * ht,
    ensures
        surrounded(h, f, seen.update(j, true), c, dirs, w, ht),
{
    assert forall|k: int| 0 <= k < dirs implies ((#[trigger] grid::neighbour(c, k, w, ht)) matches Some(
        i,
    ) ==> raised(h, f, i) ==> seen.update(j, true)[i]) by {
        if grid::neighbour(c, k, w, ht) is Some {
            grid::lemma_neighbour(c, k, w, ht);
        }
    }
}

/// The depressions of a flooded grid.
pub fn depressions(h: &[u32], filled: &[u32], acc: &[u32], w: usize, ht: usize) -> (ds: Vec<
    Depression,
>)
    requires
        h@.len() == filled@.len() == acc@.len() == w * ht <= u32::MAX,
    ensures
        grouping(h@, filled@, groups(ds@), w as int, ht as int),
        forall|d: int|
            0 <= d < ds@.len() ==> largest(
                acc@,
                (#[trigger] ds@[d]).members@,
                ds@[d].catchment,
            ),
{
    let n: usize = h.len();
    let mut seen: Vec<bool> = vec![false; n];
    let mut ds: Vec<Depression> = Vec::new();
    let ghost (gw, gh) = (w as int, ht as int);
    let mut s: usize = 0;
    while s < n
        invariant
            n == h@.len() == filled@.len() == acc@.len() == seen@.len() == w * ht <= u32::MAX,
            gw == w,
            gh == ht,
            s <= n,
            grouping_before(h@, filled@, groups(ds@), s as int, gw, gh),
            forall|i: int|
                0 <= i < n ==> #[trigger] seen@[i] == grouped(groups(ds@), ds@.len() as int, i),
            forall|d: int|
                0 <= d < ds@.len() ==> largest(
                    acc@,
                    (#[trigger] ds@[d]).members@,
                    ds@[d].catchment,
                ),
        decreases n - s,
    {
        let ghost g = groups(ds@);
        if !seen[s] && !ieee::is_le32(filled[s], h[s]) {
            let ghost before = seen@;
            let d = gather(h, filled, acc, w, ht, s, &mut seen);
            let ghost m = d.members@;
            ds.push(d);
            proof {
                assert(groups(ds@) =~= g.push(m));
                assert forall|k: int| 0 <= k < m.len() implies !grouped(
                    g,
                    g.len() as int,
                    #[trigger] m[k] as int,
                ) by {
                    assert(!before[m[k] as int]);
                }
                assert forall|i: int| 0 <= i < n implies #[trigger] seen@[i] == grouped(
                    g.push(m),
                    (g.len() + 1) as int,
                    i,
                ) by {
                    lemma_grouped_last(g, m, i);
                    assert(before[i] == grouped(g, g.len() as int, i));
                    if m.contains(i as usize) {
                        let a = choose|a: int| 0 <= a < m.len() && m[a] == i as usize;
                        assert(m[a] == i);
                    }
                }
                assert forall|k: int, j: int|
                    0 <= k < m.len() && #[trigger] grid::adjacent(m[k] as int, j, gw, gh) && raised(
                        h@,
                        filled@,
                        j,
                    ) implies grouped(g.push(m), (g.len() + 1) as int, j) by {
                    grid::lemma_adjacent_symmetric(m[k] as int, j, gw, gh);
                    assert(seen@[j]);
                }
                lemma_add_group(h@, filled@, g, m, gw, gh);
            }
        } else {
            proof {
                assert forall|i: int|
                    0 <= i < s + 1 && sinks(h@, filled@, i) implies #[trigger] grouped(
                    g,
                    g.len() as int,
                    i,
                ) by {
                    if i == s {
                        assert(seen@[i]);
                    }
                }
            }
        }
        s += 1;
    }
    ds
}

/// The water level that a depression can hold.
pub struct LakeLevel {
    pub level: u32,
    /// How many members the level submerges.
    pub wet: usize,
    /// The lowest height of a member.
    pub lowest: u32,
}

/// The heights of the members, lowest first.
pub open spec fn ground(h: Seq<u32>, m: Seq<usize>) -> Seq<u32> {
    m.map_values(|i: usize| h[i as int]).sort_by(sorting::total_le32())
}

/// The lesser of two numbers; where only one is a number, that one.
pub open spec fn lesser(a: u32, b: u32) -> u32 {
    if ieee::nan32(a) {
        b
    } else if ieee::nan32(b) || ieee::rank32(a) <= ieee::rank32(b) {
        a
    } else {
        b
    }
}

/// The level at which at most `limit` members are under water: the spill level, unless the lake
/// would cover more.
pub open spec fn capped_level(h: Seq<u32>, f: Seq<u32>, m: Seq<usize>, limit: int) -> u32 {
    let spill = f[m[0] as int];
    if limit >= m.len() {
        spill
    } else {
        lesser(ground(h, m)[limit], spill)
    }
}

/// How many members lie below `level`.
pub open spec fn submerged(h: Seq<u32>, m: Seq<usize>, level: u32) -> nat {
    m.filter(|i: usize| ieee::lt32(h[i as int], level)).len()
}

/// The level of a lake in a depression that may cover at most `limit` of its vertices.
pub fn lake_level(h: &[u32], filled: &[u32], members: &Vec<usize>, limit: usize) -> (r: LakeLevel)
    requires
        members@.len() > 0,
        h@.len() == filled@.len(),
        forall|k: int| 0 <= k < members@.len() ==> #[trigger] members@[k] < h@.len(),
    ensures
        r.level == capped_level(h@, filled@, members@, limit as int),
        r.wet == submerged(h@, members@, r.level),
        r.lowest == ground(h@, members@)[0],
{
    let n: usize = members.len();
    let mut heights: Vec<u32> = Vec::with_capacity(n);
    let mut k: usize = 0;
    while k < n
        invariant
            k <= n == members@.len(),
            forall|a: int| 0 <= a < members@.len() ==> #[trigger] members@[a] < h@.len(),
            heights@ == members@.take(k as int).map_values(|i: usize| h@[i as int]),
        decreases n - k,
    {
        heights.push(h[members[k]]);
        k += 1;
        proof {
            assert(heights@ =~= members@.take(k as int).map_values(|i: usize| h@[i as int]));
        }
    }
    let sorted = sorting::sorted32(&heights);
    proof {
        assert(members@.take(n as int) =~= members@);
        sorting::lemma_sorted_len(heights@);
    }
    let spill: u32 = filled[members[0]];
    let level: u32 = if limit >= n {
        spill
    } else {
        let a: u32 = sorted[limit];
        if ieee::is_nan32(a) {
            spill
        } else if ieee::is_nan32(spill) || ieee::is_le32(a, spill) {
            a
        } else {
            spill
        }
    };
    let mut wet: usize = 0;
    let mut j: usize = 0;
    while j < n
        invariant
            j <= n == members@.len(),
            forall|a: int| 0 <= a < members@.len() ==> #[trigger] members@[a] < h@.len(),
            wet == submerged(h@, members@.take(j as int), level),
            wet <= j,
        decreases n - j,
    {
        proof {
            broadcast use Seq::lemma_filter_len_push;

            assert(members@.take(j + 1) =~= members@.take(j as int).push(members@[j as int]));
        }
        if ieee::is_lt32(h[members[j]], level) {
            wet += 1;
        }
        j += 1;
    }
    LakeLevel { level, wet, lowest: sorted[0] }
}

/// Whether water over so many vertices is a lake.
pub open spec fn is_lake(wet: usize, min_vertices: usize, too_shallow: bool) -> bool {
    wet >= min_vertices && wet >= 1 && !too_shallow
}

/// Whether a lake with `wet` vertices under water forms: it needs at least `min_vertices` of them
/// and one in any case, and must not be too shallow.
pub fn forms(wet: usize, min_vertices: usize, too_shallow: bool) -> (r: bool)
    ensures
        r == is_lake(wet, min_vertices, too_shallow),
{
    !(wet < min_vertices || wet < 1 || too_shallow)
}

/// The level of the lake over each vertex, if any.
pub struct LakeLevels {
    pub level: Vec<Option<u32>>,
    /// How many lakes have been filled.
    pub count: usize,
}

impl LakeLevels {
    /// No lakes on `n` vertices.
    pub fn new(n: usize) -> (r: LakeLevels)
        ensures
            r.level@ == Seq::new(n as nat, |i: int| None::<u32>),
            r.count == 0,
    {
        let mut level: Vec<Option<u32>> = Vec::with_capacity(n);
        let mut i: usize = 0;
        while i < n
            invariant
                i <= n,
                level@ == Seq::new(i as nat, |j: int| None::<u32>),
            decreases n - i,
        {
            level.push(None);
            i += 1;
            assert(level@ =~= Seq::new(i as nat, |j: int| None::<u32>));
        }
        LakeLevels { level, count: 0 }
    }

    /// Fills a lake over the members below `lvl`.
    pub fn fill(&mut self, h: &[u32], members: &Vec<usize>, lvl: u32)
        requires
            h@.len() == old(self).level@.len(),
            forall|k: int| 0 <= k < members@.len() ==> #[trigger] members@[k] < h@.len(),
            old(self).count < usize::MAX,
        ensures
            final(self).count == old(self).count + 1,
            final(self).level@.len() == old(self).level@.len(),
            forall|i: int|
                0 <= i < h@.len() ==> #[trigger] final(self).level@[i] == (if members@.contains(
                    i as usize,
                ) && ieee::lt32(h@[i], lvl) {
                    Some(lvl)
                } else {
                    old(self).level@[i]
                }),
    {
        self.count += 1;
        let mut k: usize = 0;
        while k < members.len()
            invariant
                k <= members@.len(),
                self.count == old(self).count + 1,
                h@.len() == self.level@.len() == old(self).level@.len(),
                forall|a: int| 0 <= a < members@.len() ==> #[trigger] members@[a] < h@.len(),
                forall|i: int|
                    0 <= i < h@.len() ==> #[trigger] self.level@[i] == (if members@.take(
                        k as int,
                    ).contains(i as usize) && ieee::lt32(h@[i], lvl) {
                        Some(lvl)
                    } else {
                        old(self).level@[i]
                    }),
            decreases members@.len() - k,
        {
            let m: usize = members[k];
            let ghost before = members@.take(k as int);
            if ieee::is_lt32(h[m], lvl) {
                self.level.set(m, Some(lvl));
            }
            k += 1;
            proof {
                let now = members@.take(k as int);
                assert(now =~= before.push(m));
                assert forall|i: int| 0 <= i < h@.len() implies (#[trigger] now.contains(i as usize) <==> before.contains(
                    i as usize,
                ) || i == m) by {
                    if before.contains(i as usize) {
                        let a = choose|a: int| 0 <= a < before.len() && before[a] == i as usize;
                        assert(now[a] == i as usize);
                    }
                    assert(now[now.len() - 1] == m);
                }
            }
        }
        assert(members@.take(members@.len() as int) =~= members@);
    }

    /// The water surface of every cell: the level at the first of its corners that is under
    /// water, row by row.
    pub fn water(&self, w: usize, ht: usize) -> (r: Lakes)
        requires
            w > 0,
            ht > 0,
            self.level@.len() == w * ht <= u32::MAX,
        ensures
            r.count == self.count,
            r.water@.len() == (w - 1) * (ht - 1),
            forall|x: int, y: int|
                0 <= x < w - 1 && 0 <= y < ht - 1 ==> #[trigger] r.water@[grid::at(x, y, w - 1)]
                    == cell_level(self.level@, x, y, w as int),
            r.cells == wet_cells(r.water@),
    {
        let (cw, ch): (usize, usize) = (w - 1, ht - 1);
        assert(cw * ch <= w * ht) by (nonlinear_arith)
            requires
                cw == w - 1,
                ch == ht - 1,
                w > 0,
                ht > 0,
        ;
        assert(0 <= cw * ch) by (nonlinear_arith);
        let n: usize = cw * ch;
        let mut water: Vec<Option<u32>> = Vec::with_capacity(n);
        let mut cells: usize = 0;
        let mut i: usize = 0;
        while i < n
            invariant
                n == cw * ch <= u32::MAX,
                cw == w - 1,
                ch == ht - 1,
                w > 0,
                ht > 0,
                self.level@.len() == w * ht <= u32::MAX,
                i <= n,
                water@.len() == i,
                cells <= i,
                cells == wet_cells(water@),
                forall|j: int|
                    0 <= j < i ==> #[trigger] water@[j] == cell_level(
                        self.level@,
                        grid::col(j, cw as int),
                        grid::row(j, cw as int),
                        w as int,
                    ),
            decreases n - i,
        {
            proof {
                grid::lemma_col_row(i as int, cw as int, ch as int);
            }
            let (x, y): (usize, usize) = (i % cw, i / cw);
            proof {
                grid::lemma_at(x as int, y as int, w as int, ht as int);
                grid::lemma_at(x + 1, y as int, w as int, ht as int);
                grid::lemma_at(x as int, y + 1, w as int, ht as int);
                grid::lemma_at(x + 1, y + 1, w as int, ht as int);
                assert((y + 1) * w == y * w + w) by (nonlinear_arith);
                assert(0 <= y * w) by (nonlinear_arith);
            }
            let a: usize = y * w + x;
            let level: Option<u32> = if self.level[a].is_some() {
                self.level[a]
            } else if self.level[a + 1].is_some() {
                self.level[a + 1]
            } else if self.level[a + w].is_some() {
                self.level[a + w]
            } else {
                self.level[a + w + 1]
            };
            proof {
                broadcast use Seq::lemma_filter_len_push;

                assert(water@.push(level).filter(|l: Option<u32>| l is Some).len() >= 0);
            }
            if level.is_some() {
                cells += 1;
            }
            water.push(level);
            i += 1;
        }
        proof {
            assert forall|x: int, y: int| 0 <= x < w - 1 && 0 <= y < ht - 1 implies #[trigger] water@[grid::at(
                x,
                y,
                w - 1,
            )] == cell_level(self.level@, x, y, w as int) by {
                grid::lemma_at(x, y, cw as int, ch as int);
            }
        }
        Lakes { water, count: self.count, cells }
    }
}

/// The lakes of a map.
pub struct Lakes {
    /// Water surface of each cell, if it is wet.
    pub water: Vec<Option<u32>>,
    pub count: usize,
    /// How many cells are wet.
    pub cells: usize,
}

/// Whether depression `d` holds a lake, given how many of its vertices each may cover and which would be
/// too shallow.
pub open spec fn holds_lake(
    h: Seq<u32>,
    f: Seq<u32>,
    ds: Seq<Depression>,
    limits: Seq<usize>,
    shallow: Seq<bool>,
    min_vertices: usize,
    d: int,
) -> bool {
    let m = ds[d].members@;
    let wet = submerged(h, m, capped_level(h, f, m, limits[d] as int));
    wet >= min_vertices && wet >= 1 && !shallow[d]
}

/// The level of the lake over vertex `v`, if the first `n` depressions put one there.
pub open spec fn lake_over(
    h: Seq<u32>,
    f: Seq<u32>,
    ds: Seq<Depression>,
    limits: Seq<usize>,
    shallow: Seq<bool>,
    min_vertices: usize,
    v: int,
    n: int,
) -> Option<u32>
    decreases n,
{
    if n <= 0 {
        None
    } else {
        let m = ds[n - 1].members@;
        let lvl = capped_level(h, f, m, limits[n - 1] as int);
        if holds_lake(h, f, ds, limits, shallow, min_vertices, n - 1) && m.contains(v as usize) && ieee::lt32(
            h[v],
            lvl,
        ) {
            Some(lvl)
        } else {
            lake_over(h, f, ds, limits, shallow, min_vertices, v, n - 1)
        }
    }
}

/// How many of the first `n` depressions hold a lake.
pub open spec fn lakes_among(
    h: Seq<u32>,
    f: Seq<u32>,
    ds: Seq<Depression>,
    limits: Seq<usize>,
    shallow: Seq<bool>,
    min_vertices: usize,
    n: int,
) -> nat
    decreases n,
{
    if n <= 0 {
        0
    } else {
        lakes_among(h, f, ds, limits, shallow, min_vertices, n - 1) + if holds_lake(
            h,
            f,
            ds,
            limits,
            shallow,
            min_vertices,
            n - 1,
        ) {
            1nat
        } else {
            0
        }
    }
}

/// The lakes in the depressions of a flooded grid: depression `d` holds one that covers at most
/// `limits[d]` of its vertices, unless it would be too small or `shallow[d]` says that it would be too
/// shallow. A cell is wet if one of its corners is under water.
pub fn lakes(
    h: &[u32],
    filled: &[u32],
    ds: &Vec<Depression>,
    limits: &Vec<usize>,
    shallow: &Vec<bool>,
    min_vertices: usize,
    w: usize,
    ht: usize,
) -> (r: Lakes)
    requires
        w > 0,
        ht > 0,
        h@.len() == filled@.len() == w * ht <= u32::MAX,
        ds@.len() == limits@.len() == shallow@.len(),
        grouping(h@, filled@, groups(ds@), w as int, ht as int),
    ensures
        r.count == lakes_among(h@, filled@, ds@, limits@, shallow@, min_vertices, ds@.len() as int),
        r.water@.len() == (w - 1) * (ht - 1),
        forall|x: int, y: int|
            0 <= x < w - 1 && 0 <= y < ht - 1 ==> #[trigger] r.water@[grid::at(x, y, w - 1)] == cell_level(
                lake_levels(h@, filled@, ds@, limits@, shallow@, min_vertices),
                x,
                y,
                w as int,
            ),
        r.cells == wet_cells(r.water@),
{
    let n: usize = ds.len();
    let mut levels = LakeLevels::new(h.len());
    let mut d: usize = 0;
    while d < n
        invariant
            d <= n == ds@.len() == limits@.len() == shallow@.len(),
            h@.len() == filled@.len() == w * ht,
            grouping(h@, filled@, groups(ds@), w as int, ht as int),
            levels.level@.len() == h@.len(),
            levels.count <= d,
            levels.count == lakes_among(h@, filled@, ds@, limits@, shallow@, min_vertices, d as int),
            forall|v: int|
                0 <= v < h@.len() ==> #[trigger] levels.level@[v] == lake_over(
                    h@,
                    filled@,
                    ds@,
                    limits@,
                    shallow@,
                    min_vertices,
                    v,
                    d as int,
                ),
        decreases n - d,
    {
        proof {
            assert(groups(ds@)[d as int] == ds@[d as int].members@);
            assert(grows(h@, filled@, groups(ds@)[d as int], w as int, ht as int));
        }
        let l = lake_level(h, filled, &ds[d].members, limits[d]);
        if forms(l.wet, min_vertices, shallow[d]) {
            levels.fill(h, &ds[d].members, l.level);
        }
        d += 1;
    }
    proof {
        assert(levels.level@ =~= lake_levels(h@, filled@, ds@, limits@, shallow@, min_vertices));
    }
    levels.water(w, ht)
}

/// The water over a vertex is the lake of its own depression: no lake spills into another.
pub proof fn lemma_lakes_stay_in_their_depressions(
    h: Seq<u32>,
    f: Seq<u32>,
    ds: Seq<Depression>,
    limits: Seq<usize>,
    shallow: Seq<bool>,
    min_vertices: usize,
    w: int,
    ht: int,
    d: int,
    k: int,
)
    requires
        grouping(h, f, groups(ds), w, ht),
        0 <= d < ds.len(),
        0 <= k < ds[d].members@.len(),
    ensures
        ({
            let v = ds[d].members@[k] as int;
            let lvl = capped_level(h, f, ds[d].members@, limits[d] as int);
            lake_over(h, f, ds, limits, shallow, min_vertices, v, ds.len() as int) == if holds_lake(
                h,
                f,
                ds,
                limits,
                shallow,
                min_vertices,
                d,
            ) && ieee::lt32(h[v], lvl) {
                Some(lvl)
            } else {
                None
            }
        }),
{
    lemma_own_lake(h, f, ds, limits, shallow, min_vertices, w, ht, d, k, ds.len() as int);
}

proof fn lemma_own_lake(
    h: Seq<u32>,
    f: Seq<u32>,
    ds: Seq<Depression>,
    limits: Seq<usize>,
    shallow: Seq<bool>,
    min_vertices: usize,
    w: int,
    ht: int,
    d: int,
    k: int,
    n: int,
)
    requires
        grouping(h, f, groups(ds), w, ht),
        0 <= d < ds.len(),
        0 <= k < ds[d].members@.len(),
        0 <= n <= ds.len(),
    ensures
        ({
            let v = ds[d].members@[k] as int;
            let lvl = capped_level(h, f, ds[d].members@, limits[d] as int);
            lake_over(h, f, ds, limits, shallow, min_vertices, v, n) == if d < n && holds_lake(
                h,
                f,
                ds,
                limits,
                shallow,
                min_vertices,
                d,
            ) && ieee::lt32(h[v], lvl) {
                Some(lvl)
            } else {
                None
            }
        }),
    decreases n,
{
    if n > 0 {
        lemma_own_lake(h, f, ds, limits, shallow, min_vertices, w, ht, d, k, n - 1);
        let g = groups(ds);
        let v = ds[d].members@[k];
        let m = ds[n - 1].members@;
        assert(g[d] == ds[d].members@ && g[n - 1] == m);
        if n - 1 != d && m.contains(v) {
            let j = choose|j: int| 0 <= j < m.len() && m[j] == v;
            assert(g[n - 1][j] == v && g[d][k] == v);
            if n - 1 < d {
                assert(grouped(g, d, g[d][k] as int));
            } else {
                assert(grouped(g, n - 1, g[n - 1][j] as int));
            }
        }
        if n - 1 == d {
            assert(m.contains(v));
        }
    }
}

/// The level at the first of the four corners of a cell that is under water.
pub open spec fn cell_level(level: Seq<Option<u32>>, x: int, y: int, w: int) -> Option<u32> {
    if level[grid::at(x, y, w)] is Some {
        level[grid::at(x, y, w)]
    } else if level[grid::at(x + 1, y, w)] is Some {
        level[grid::at(x + 1, y, w)]
    } else if level[grid::at(x, y + 1, w)] is Some {
        level[grid::at(x, y + 1, w)]
    } else {
        level[grid::at(x + 1, y + 1, w)]
    }
}

/// How many cells are wet.
pub open spec fn wet_cells(water: Seq<Option<u32>>) -> nat {
    water.filter(|l: Option<u32>| l is Some).len()
}

proof fn lemma_submerged_heights(h: Seq<u32>, m: Seq<usize>, level: u32)
    ensures
        submerged(h, m, level) == m.map_values(|i: usize| h[i as int]).filter(
            |b: u32| ieee::lt32(b, level),
        ).len(),
    decreases m.len(),
{
    broadcast use Seq::lemma_filter_len_push;

    let get = |i: usize| h[i as int];
    if m.len() == 0 {
        reveal(Seq::filter);
        assert(m.map_values(get) =~= Seq::empty());
        assert(m =~= Seq::empty());
    } else {
        lemma_submerged_heights(h, m.drop_last(), level);
        assert(m =~= m.drop_last().push(m.last()));
        assert(m.map_values(get) =~= m.drop_last().map_values(get).push(h[m.last() as int]));
    }
}

/// A lake never covers more of a depression than it may.
pub proof fn lemma_lake_within_limit(h: Seq<u32>, f: Seq<u32>, m: Seq<usize>, limit: int)
    requires
        m.len() > 0,
        0 <= limit,
        forall|k: int| 0 <= k < m.len() ==> !ieee::nan32(h[#[trigger] m[k] as int]),
    ensures
        submerged(h, m, capped_level(h, f, m, limit)) <= limit,
{
    let level = capped_level(h, f, m, limit);
    let heights = m.map_values(|i: usize| h[i as int]);
    lemma_submerged_heights(h, m, level);
    if limit < m.len() {
        let g = ground(h, m);
        assert(!ieee::nan32(g[limit])) by {
            sorting::lemma_sorted_from(heights, limit);
            let k = choose|k: int| 0 <= k < heights.len() && heights[k] == g[limit];
            assert(heights[k] == h[m[k] as int]);
        }
        sorting::lemma_few_below(heights, limit, level);
    } else {
        heights.lemma_filter_len(|b: u32| ieee::lt32(b, level));
    }
}

/// Where all heights are numbers, neighbours that are both raised belong to one depression.
pub proof fn lemma_neighbours_share_a_depression(
    h: Seq<u32>,
    f: Seq<u32>,
    g: Seq<Seq<usize>>,
    w: int,
    ht: int,
    d: int,
    k: int,
    j: int,
)
    requires
        0 <= w,
        0 <= ht,
        flood::all_numbers(h),
        flood::all_numbers(f),
        h.len() == f.len() == w * ht,
        grouping(h, f, g, w, ht),
        0 <= d < g.len(),
        0 <= k < g[d].len(),
        grid::adjacent(g[d][k] as int, j, w, ht),
        raised(h, f, j),
    ensures
        exists|l: int| 0 <= l < g[d].len() && #[trigger] g[d][l] == j,
{
    let i = g[d][k] as int;
    assert(grows(h, f, g[d], w, ht));
    assert(0 <= g[d][k] < w * ht);
    assert(sinks(h, f, i)) by {
        if k > 0 {
            assert(raised(h, f, g[d][k] as int));
        }
    }
    assert(raised(h, f, i)) by {
        assert(!ieee::nan32(h[i]) && !ieee::nan32(f[i]));
    }
    grid::lemma_adjacent_symmetric(i, j, w, ht);
    assert(grouped(g, d + 1, j));
    let (e, l) = choose|e: int, l: int|
        0 <= e < d + 1 && 0 <= l < g[e].len() && #[trigger] g[e][l] == j;
    if e < d {
        assert(grid::adjacent(g[e][l] as int, i, w, ht));
        assert(grouped(g, e + 1, i));
        let (e2, l2) = choose|e2: int, l2: int|
            0 <= e2 < e + 1 && 0 <= l2 < g[e2].len() && #[trigger] g[e2][l2] == i;
        assert(grouped(g, d, i)) by {
            assert(g[e2][l2] == i);
        }
        assert(!grouped(g, d, g[d][k] as int));
    }
}

/// The lakes over the vertices of a grid.
pub open spec fn lake_levels(
    h: Seq<u32>,
    f: Seq<u32>,
    ds: Seq<Depression>,
    limits: Seq<usize>,
    shallow: Seq<bool>,
    min_vertices: usize,
) -> Seq<Option<u32>> {
    Seq::new(h.len(), |v: int| lake_over(h, f, ds, limits, shallow, min_vertices, v, ds.len() as int))
}

/// Whether vertex `v` is a corner of cell `(x, y)`.
pub open spec fn corner(v: int, x: int, y: int, w: int) -> bool {
    v == grid::at(x, y, w) || v == grid::at(x + 1, y, w) || v == grid::at(x, y + 1, w) || v == grid::at(
        x + 1,
        y + 1,
        w,
    )
}

/// The corners of a cell lie next to each other.
proof fn lemma_corners(a: int, b: int, x: int, y: int, w: int, ht: int)
    requires
        0 <= x < w - 1,
        0 <= y < ht - 1,
        corner(a, x, y, w),
        corner(b, x, y, w),
    ensures
        0 <= a < w * ht,
        a == b || grid::adjacent(a, b, w, ht),
{
    grid::lemma_at(x, y, w, ht);
    grid::lemma_at(x + 1, y, w, ht);
    grid::lemma_at(x, y + 1, w, ht);
    grid::lemma_at(x + 1, y + 1, w, ht);
    if a != b {
        assert(grid::neighbour(a, 0, w, ht) == Some(b) || grid::neighbour(a, 1, w, ht) == Some(b)
            || grid::neighbour(a, 2, w, ht) == Some(b) || grid::neighbour(a, 3, w, ht) == Some(b)
            || grid::neighbour(a, 4, w, ht) == Some(b) || grid::neighbour(a, 5, w, ht) == Some(b)
            || grid::neighbour(a, 6, w, ht) == Some(b) || grid::neighbour(a, 7, w, ht) == Some(b));
    }
}

/// Water over a vertex is the lake of a depression that the vertex belongs to, and lies above it.
proof fn lemma_lake_found(
    h: Seq<u32>,
    f: Seq<u32>,
    ds: Seq<Depression>,
    limits: Seq<usize>,
    shallow: Seq<bool>,
    min_vertices: usize,
    v: int,
    n: int,
) -> (d: int)
    requires
        0 <= n <= ds.len(),
        0 <= v <= usize::MAX,
        lake_over(h, f, ds, limits, shallow, min_vertices, v, n) is Some,
    ensures
        0 <= d < n,
        ds[d].members@.contains(v as usize),
        lake_over(h, f, ds, limits, shallow, min_vertices, v, n) == Some(
            capped_level(h, f, ds[d].members@, limits[d] as int),
        ),
        ieee::lt32(h[v], capped_level(h, f, ds[d].members@, limits[d] as int)),
    decreases n,
{
    let m = ds[n - 1].members@;
    let lvl = capped_level(h, f, m, limits[n - 1] as int);
    if holds_lake(h, f, ds, limits, shallow, min_vertices, n - 1) && m.contains(v as usize) && ieee::lt32(h[v], lvl) {
        n - 1
    } else {
        lemma_lake_found(h, f, ds, limits, shallow, min_vertices, v, n - 1)
    }
}

/// A wet cell has a corner under its water.
pub proof fn lemma_wet_cells_have_a_corner_below(
    h: Seq<u32>,
    f: Seq<u32>,
    ds: Seq<Depression>,
    limits: Seq<usize>,
    shallow: Seq<bool>,
    min_vertices: usize,
    x: int,
    y: int,
    w: int,
    ht: int,
) -> (v: int)
    requires
        h.len() == w * ht <= u32::MAX,
        0 <= x < w - 1,
        0 <= y < ht - 1,
        cell_level(lake_levels(h, f, ds, limits, shallow, min_vertices), x, y, w) is Some,
    ensures
        corner(v, x, y, w),
        0 <= v < h.len(),
        lake_levels(h, f, ds, limits, shallow, min_vertices)[v] == cell_level(
            lake_levels(h, f, ds, limits, shallow, min_vertices),
            x,
            y,
            w,
        ),
        ieee::lt32(h[v], cell_level(lake_levels(h, f, ds, limits, shallow, min_vertices), x, y, w)->0),
{
    let level = lake_levels(h, f, ds, limits, shallow, min_vertices);
    grid::lemma_at(x, y, w, ht);
    grid::lemma_at(x + 1, y, w, ht);
    grid::lemma_at(x, y + 1, w, ht);
    grid::lemma_at(x + 1, y + 1, w, ht);
    let v = if level[grid::at(x, y, w)] is Some {
        grid::at(x, y, w)
    } else if level[grid::at(x + 1, y, w)] is Some {
        grid::at(x + 1, y, w)
    } else if level[grid::at(x, y + 1, w)] is Some {
        grid::at(x, y + 1, w)
    } else {
        grid::at(x + 1, y + 1, w)
    };
    let d = lemma_lake_found(h, f, ds, limits, shallow, min_vertices, v, ds.len() as int);
    v
}

/// The members of a depression are filled to one level.
proof fn lemma_members_are_level(h: Seq<u32>, w: int, ht: int, d: flood::Drainage, m: Seq<usize>, k: int)
    requires
        0 <= w,
        0 <= ht,
        flood::flooded(h, w, ht, d.filled@, d.order@, d.parent@),
        flood::levelled(h, w, ht, d.filled@, d.order@),
        flood::all_numbers(h),
        flood::all_numbers(d.filled@),
        grows(h, d.filled@, m, w, ht),
        0 <= k < m.len(),
    ensures
        raised(h, d.filled@, m[k] as int),
        ieee::rank32(d.filled@[m[k] as int]) == ieee::rank32(d.filled@[m[0] as int]),
    decreases k,
{
    let f = d.filled@;
    assert(0 <= m[k] < w * ht);
    assert(!ieee::nan32(h[m[k] as int]) && !ieee::nan32(f[m[k] as int]));
    if k > 0 {
        assert(raised(h, f, m[k] as int) && touches(m, k, m[k] as int, w, ht));
        let j = choose|j: int| 0 <= j < k && #[trigger] grid::adjacent(m[j] as int, m[k] as int, w, ht);
        assert(0 <= m[j] < w * ht);
        lemma_members_are_level(h, w, ht, d, m, j);
        flood::lemma_depressions_are_level(h, w, ht, d, m[j] as int, m[k] as int);
    }
}

/// Filled heights of numbers are numbers.
proof fn lemma_filled_are_numbers(h: Seq<u32>, w: int, ht: int, d: flood::Drainage)
    requires
        flood::flooded(h, w, ht, d.filled@, d.order@, d.parent@),
        flood::all_numbers(h),
    ensures
        flood::all_numbers(d.filled@),
{
    assert forall|i: int| 0 <= i < d.filled@.len() implies !ieee::nan32(#[trigger] d.filled@[i]) by {
        assert(!ieee::nan32(h[i]));
        let p = d.parent@[i];
        if !grid::on_border(i, w, ht) {
            assert(d.filled@[i] == flood::raised_to(h[i], d.filled@[p as int]));
        }
    }
}

/// A vertex below the water of a cell that it is a corner of lies in the depression of that water.
proof fn lemma_below_water(
    h: Seq<u32>,
    w: int,
    ht: int,
    d: flood::Drainage,
    ds: Seq<Depression>,
    limits: Seq<usize>,
    shallow: Seq<bool>,
    min_vertices: usize,
    s: int,
    x: int,
    y: int,
) -> (e: int)
    requires
        h.len() == w * ht <= u32::MAX,
        flood::flooded(h, w, ht, d.filled@, d.order@, d.parent@),
        flood::levelled(h, w, ht, d.filled@, d.order@),
        flood::all_numbers(h),
        grouping(h, d.filled@, groups(ds), w, ht),
        ds.len() == limits.len(),
        0 <= x < w - 1,
        0 <= y < ht - 1,
        corner(s, x, y, w),
        cell_level(lake_levels(h, d.filled@, ds, limits, shallow, min_vertices), x, y, w) matches Some(l)
            && ieee::lt32(h[s], l),
    ensures
        0 <= e < ds.len(),
        ds[e].members@.contains(s as usize),
        cell_level(lake_levels(h, d.filled@, ds, limits, shallow, min_vertices), x, y, w) == Some(
            capped_level(h, d.filled@, ds[e].members@, limits[e] as int),
        ),
{
    let f = d.filled@;
    lemma_filled_are_numbers(h, w, ht, d);
    let a = lemma_wet_cells_have_a_corner_below(h, f, ds, limits, shallow, min_vertices, x, y, w, ht);
    let e = lemma_lake_found(h, f, ds, limits, shallow, min_vertices, a, ds.len() as int);
    let m = ds[e].members@;
    let k = m.index_of(a as usize);
    assert(m[k] == a as usize);
    assert(groups(ds)[e] == m);
    assert(grows(h, f, groups(ds)[e], w, ht));
    lemma_members_are_level(h, w, ht, d, m, k);
    lemma_corners(a, s, x, y, w, ht);
    lemma_corners(s, a, x, y, w, ht);
    assert(!ieee::nan32(f[m[0] as int])) by {
        assert(0 <= m[0] < w * ht);
    }
    let level = capped_level(h, f, m, limits[e] as int);
    assert(ieee::rank32(level) <= ieee::rank32(f[a]));
    if s != a {
        assert(ieee::rank32(f[a]) <= flood::max(ieee::rank32(h[a]), ieee::rank32(f[s])));
        assert(!ieee::nan32(f[s]) && !ieee::nan32(h[s]));
        assert(raised(h, f, s));
        lemma_neighbours_share_a_depression(h, f, groups(ds), w, ht, e, k, s);
        let l = choose|l: int| 0 <= l < groups(ds)[e].len() && #[trigger] groups(ds)[e][l] == s;
        assert(m[l] == s as usize);
    }
    e
}

/// Wet cells that share a corner below the water of both have one level: the surface of a lake does not
/// jump.
pub proof fn lemma_lakes_are_level(
    h: Seq<u32>,
    w: int,
    ht: int,
    d: flood::Drainage,
    ds: Seq<Depression>,
    limits: Seq<usize>,
    shallow: Seq<bool>,
    min_vertices: usize,
    s: int,
    x: int,
    y: int,
    u: int,
    v: int,
)
    requires
        h.len() == w * ht <= u32::MAX,
        flood::flooded(h, w, ht, d.filled@, d.order@, d.parent@),
        flood::levelled(h, w, ht, d.filled@, d.order@),
        flood::all_numbers(h),
        grouping(h, d.filled@, groups(ds), w, ht),
        ds.len() == limits.len(),
        0 <= x < w - 1,
        0 <= y < ht - 1,
        0 <= u < w - 1,
        0 <= v < ht - 1,
        corner(s, x, y, w),
        corner(s, u, v, w),
        cell_level(lake_levels(h, d.filled@, ds, limits, shallow, min_vertices), x, y, w) matches Some(l)
            && ieee::lt32(h[s], l),
        cell_level(lake_levels(h, d.filled@, ds, limits, shallow, min_vertices), u, v, w) matches Some(l)
            && ieee::lt32(h[s], l),
    ensures
        cell_level(lake_levels(h, d.filled@, ds, limits, shallow, min_vertices), x, y, w) == cell_level(
            lake_levels(h, d.filled@, ds, limits, shallow, min_vertices),
            u,
            v,
            w,
        ),
{
    let a = lemma_below_water(h, w, ht, d, ds, limits, shallow, min_vertices, s, x, y);
    let b = lemma_below_water(h, w, ht, d, ds, limits, shallow, min_vertices, s, u, v);
    let g = groups(ds);
    let (p, q) = (ds[a].members@.index_of(s as usize), ds[b].members@.index_of(s as usize));
    assert(g[a][p] == s as usize && g[b][q] == s as usize);
    if a < b {
        assert(grouped(g, b, g[b][q] as int)) by {
            assert(g[a][p] == g[b][q]);
        }
    } else if b < a {
        assert(grouped(g, a, g[a][p] as int)) by {
            assert(g[b][q] == g[a][p]);
        }
    }
}

/// Where the heights are numbers, a depression is made of the vertices that flooding raised.
pub proof fn lemma_raised_vertices_sink(h: Seq<u32>, f: Seq<u32>, i: int)
    requires
        !ieee::nan32(h[i]),
        !ieee::nan32(f[i]),
    ensures
        sinks(h, f, i) <==> ieee::rank32(h[i]) < ieee::rank32(f[i]),
        raised(h, f, i) <==> ieee::rank32(h[i]) < ieee::rank32(f[i]),
{
}

/// The lesser of two numbers is one of them and no larger than either.
pub proof fn lemma_lesser(a: u32, b: u32)
    ensures
        lesser(a, b) == a || lesser(a, b) == b,
        !ieee::nan32(a) && !ieee::nan32(b) ==> ieee::le32(lesser(a, b), a) && ieee::le32(lesser(a, b), b),
        ieee::nan32(a) ==> lesser(a, b) == b,
        ieee::nan32(b) ==> lesser(a, b) == a || ieee::nan32(a),
{
}

proof fn lemma_first_all_pass(g: Seq<u32>, p: spec_fn(u32) -> bool, n: int)
    requires
        0 <= n <= g.len(),
        forall|j: int| 0 <= j < n ==> p(#[trigger] g[j]),
    ensures
        g.filter(p).len() >= n,
    decreases g.len(),
{
    reveal(Seq::filter);
    if g.len() > 0 {
        let front = g.drop_last();
        if n == g.len() {
            assert forall|j: int| 0 <= j < n - 1 implies p(#[trigger] front[j]) by {
                assert(front[j] == g[j]);
            }
            lemma_first_all_pass(front, p, n - 1);
            assert(p(g[n - 1]));
        } else {
            assert forall|j: int| 0 <= j < n implies p(#[trigger] front[j]) by {
                assert(front[j] == g[j]);
            }
            lemma_first_all_pass(front, p, n);
        }
    }
}

/// A lake that may cover its whole depression fills it to the spill level. Otherwise its level lies no
/// higher than that, and is the highest that it may have: it is the spill level, or with any higher
/// level the lake would cover more of the depression than it may.
pub proof fn lemma_lakes_are_as_high_as_they_may(h: Seq<u32>, f: Seq<u32>, m: Seq<usize>, limit: int)
    requires
        m.len() > 0,
        0 <= limit,
        !ieee::nan32(f[m[0] as int]),
        forall|k: int| 0 <= k < m.len() ==> !ieee::nan32(h[#[trigger] m[k] as int]),
    ensures
        ({
            let level = capped_level(h, f, m, limit);
            let spill = f[m[0] as int];
            &&& ieee::le32(level, spill)
            &&& limit >= m.len() ==> level == spill
            &&& level == spill || m.filter(|i: usize| ieee::le32(h[i as int], level)).len() > limit
        }),
{
    let level = capped_level(h, f, m, limit);
    let heights = m.map_values(|i: usize| h[i as int]);
    if limit < m.len() {
        let g = ground(h, m);
        sorting::lemma_sorted_len(heights);
        sorting::lemma_sorted_from(heights, limit);
        let i = heights.index_of(g[limit]);
        assert(g[limit] == h[m[i] as int]);
        assert(!ieee::nan32(g[limit]));
        if level != f[m[0] as int] {
            assert(level == g[limit]);
            let p = |b: u32| ieee::le32(b, level);
            sorting::lemma_sorted_below(heights, limit);
            assert forall|j: int| 0 <= j < limit + 1 implies p(#[trigger] g[j]) by {
                sorting::lemma_sorted_from(heights, j);
                let q = heights.index_of(g[j]);
                assert(g[j] == h[m[q] as int]);
            }
            lemma_first_all_pass(g, p, limit + 1);
            sorting::lemma_sorting_keeps_counts(heights, p);
            lemma_filter_heights(h, m, level);
        }
    }
}

proof fn lemma_filter_heights(h: Seq<u32>, m: Seq<usize>, level: u32)
    ensures
        m.filter(|i: usize| ieee::le32(h[i as int], level)).len() == m.map_values(|i: usize| h[i as int]).filter(
            |b: u32| ieee::le32(b, level),
        ).len(),
    decreases m.len(),
{
    reveal(Seq::filter);
    if m.len() > 0 {
        lemma_filter_heights(h, m.drop_last(), level);
        assert(m.map_values(|i: usize| h[i as int]).drop_last() =~= m.drop_last().map_values(
            |i: usize| h[i as int],
        ));
    }
}

/// A depression holds a lake exactly if it is not too shallow and the lake covers at least one vertex,
/// and at least as many as it must.
pub proof fn lemma_lakes_are_held(
    h: Seq<u32>,
    f: Seq<u32>,
    ds: Seq<Depression>,
    limits: Seq<usize>,
    shallow: Seq<bool>,
    min_vertices: usize,
    d: int,
)
    ensures
        ({
            let m = ds[d].members@;
            let wet = m.filter(|i: usize| ieee::lt32(h[i as int], capped_level(h, f, m, limits[d] as int))).len();
            &&& holds_lake(h, f, ds, limits, shallow, min_vertices, d) ==> !shallow[d] && wet > 0 && wet >= min_vertices
            &&& !shallow[d] && wet > 0 && wet >= min_vertices ==> holds_lake(h, f, ds, limits, shallow, min_vertices, d)
        }),
{
}

/// Lakes are counted one for each depression that holds one.
pub proof fn lemma_lakes_are_counted(
    h: Seq<u32>,
    f: Seq<u32>,
    ds: Seq<Depression>,
    limits: Seq<usize>,
    shallow: Seq<bool>,
    min_vertices: usize,
    n: int,
)
    requires
        0 <= n,
    ensures
        lakes_among(h, f, ds, limits, shallow, min_vertices, n) <= n,
        (forall|d: int| 0 <= d < n ==> #[trigger] holds_lake(h, f, ds, limits, shallow, min_vertices, d))
            ==> lakes_among(h, f, ds, limits, shallow, min_vertices, n) == n,
        (forall|d: int| 0 <= d < n ==> !#[trigger] holds_lake(h, f, ds, limits, shallow, min_vertices, d))
            ==> lakes_among(h, f, ds, limits, shallow, min_vertices, n) == 0,
        lakes_among(h, f, ds, limits, shallow, min_vertices, n + 1) - lakes_among(
            h,
            f,
            ds,
            limits,
            shallow,
            min_vertices,
            n,
        ) == (if holds_lake(h, f, ds, limits, shallow, min_vertices, n) {
            1int
        } else {
            0
        }),
    decreases n,
{
    if n > 0 {
        lemma_lakes_are_counted(h, f, ds, limits, shallow, min_vertices, n - 1);
    }
}

/// A cell is wet exactly if one of its corners is under water, and then its level is that of such a
/// corner.
pub proof fn lemma_cells_are_wet_at_their_corners(level: Seq<Option<u32>>, x: int, y: int, w: int)
    ensures
        cell_level(level, x, y, w) is Some <==> level[grid::at(x, y, w)] is Some || level[grid::at(x + 1, y, w)] is Some
            || level[grid::at(x, y + 1, w)] is Some || level[grid::at(x + 1, y + 1, w)] is Some,
        cell_level(level, x, y, w) is Some ==> exists|v: int|
            corner(v, x, y, w) && #[trigger] level[v] == cell_level(level, x, y, w),
        level[grid::at(x, y, w)] is Some ==> cell_level(level, x, y, w) == level[grid::at(x, y, w)],
{
    let c = cell_level(level, x, y, w);
    if c is Some {
        let v = if level[grid::at(x, y, w)] is Some {
            grid::at(x, y, w)
        } else if level[grid::at(x + 1, y, w)] is Some {
            grid::at(x + 1, y, w)
        } else if level[grid::at(x, y + 1, w)] is Some {
            grid::at(x, y + 1, w)
        } else {
            grid::at(x + 1, y + 1, w)
        };
        assert(corner(v, x, y, w) && level[v] == c);
    }
}

/// Every vertex that flooding raised belongs to exactly one depression, once, and nothing else does.
pub proof fn lemma_depressions_share_out_the_raised(
    h: Seq<u32>,
    f: Seq<u32>,
    g: Seq<Seq<usize>>,
    w: int,
    ht: int,
    v: int,
)
    requires
        grouping(h, f, g, w, ht),
        0 <= v < w * ht,
        !ieee::nan32(h[v]) && !ieee::nan32(f[v]),
    ensures
        ieee::lt32(h[v], f[v]) <==> exists|d: int, k: int| 0 <= d < g.len() && 0 <= k < g[d].len() && #[trigger] g[d][k] == v,
        forall|d: int, k: int, e: int, l: int|
            0 <= d < g.len() && 0 <= k < g[d].len() && 0 <= e < g.len() && 0 <= l < g[e].len() && #[trigger] g[d][k] == v
                && #[trigger] g[e][l] == v ==> d == e && k == l,
{
    if sinks(h, f, v) {
        assert(grouped(g, g.len() as int, v));
    }
    assert forall|d: int, k: int| 0 <= d < g.len() && 0 <= k < g[d].len() && #[trigger] g[d][k] == v implies ieee::lt32(
        h[v],
        f[v],
    ) by {
        assert(grows(h, f, g[d], w, ht));
    }
    assert forall|d: int, k: int, e: int, l: int|
        0 <= d < g.len() && 0 <= k < g[d].len() && 0 <= e < g.len() && 0 <= l < g[e].len() && #[trigger] g[d][k] == v
            && #[trigger] g[e][l] == v implies d == e && k == l by {
        assert(grows(h, f, g[d], w, ht));
        if d < e {
            assert(!grouped(g, e, g[e][l] as int));
        } else if e < d {
            assert(!grouped(g, d, g[d][k] as int));
        }
    }
}

/// The catchment of a depression is the upstream area of a member, and no member has a larger one.
pub proof fn lemma_catchments_are_largest(acc: Seq<u32>, m: Seq<usize>, a: u32, b: u32)
    requires
        largest(acc, m, a),
    ensures
        forall|k: int| 0 <= k < m.len() ==> acc[(#[trigger] m[k]) as int] <= a,
        exists|k: int| 0 <= k < m.len() && acc[(#[trigger] m[k]) as int] == a,
        largest(acc, m, b) ==> a == b,
{
}

/// Water is a lake exactly if it is neither too shallow nor too small, and there is any.
pub proof fn lemma_small_or_shallow_water_is_no_lake(wet: usize, min_vertices: usize, too_shallow: bool)
    ensures
        !is_lake(wet, min_vertices, true),
        !is_lake(0, min_vertices, too_shallow),
        wet < min_vertices ==> !is_lake(wet, min_vertices, too_shallow),
        wet > 0 && wet >= min_vertices ==> is_lake(wet, min_vertices, false),
{
}

} // verus!
