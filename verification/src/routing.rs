//! Road routing on a coarse grid: legal moves, and the bookkeeping of a best-first search.
//!
//! A search state is a vertex and the direction of the last move. Moves go in sixteen directions,
//! knight moves among them, and turn by at most three directions at a time. What a move costs is
//! computed by the caller; the search keeps the least costs found so far, how each state was
//! reached, and the queue of states to look at, ordered by estimated total cost.

use vstd::prelude::*;

use crate::grid;

verus! {

/// No previous state.
pub const NONE: u32 = 0xffff_ffff;

/// The sixteen directions, counter-clockwise from east: columns.
pub open spec fn dir_x(d: int) -> int {
    if d == 0 || d == 2 || d == 3 || d == 13 || d == 14 {
        1
    } else if d == 1 || d == 15 {
        2
    } else if d == 4 || d == 12 {
        0
    } else if d == 7 || d == 9 {
        -2
    } else {
        -1
    }
}

/// The sixteen directions, counter-clockwise from east: rows.
pub open spec fn dir_y(d: int) -> int {
    if d == 1 || d == 2 || d == 4 || d == 6 || d == 7 {
        1
    } else if d == 3 || d == 5 {
        2
    } else if d == 0 || d == 8 {
        0
    } else if d == 11 || d == 13 {
        -2
    } else {
        -1
    }
}

pub open spec fn sign(x: int) -> int {
    if x > 0 {
        1
    } else if x < 0 {
        -1
    } else {
        0
    }
}

/// Whether direction `d` is a knight move.
pub open spec fn knight(d: int) -> bool {
    d % 2 == 1
}

/// The first vertex that a knight move passes: straight along its long side.
pub open spec fn first_passed(i: int, d: int, m: int) -> int {
    let long_x = dir_x(d) == 2 || dir_x(d) == -2;
    grid::at(
        grid::col(i, m) + (if long_x {
            sign(dir_x(d))
        } else {
            0
        }),
        grid::row(i, m) + (if long_x {
            0
        } else {
            sign(dir_y(d))
        }),
        m,
    )
}

/// The second vertex that a knight move passes: diagonally.
pub open spec fn second_passed(i: int, d: int, m: int) -> int {
    grid::at(grid::col(i, m) + sign(dir_x(d)), grid::row(i, m) + sign(dir_y(d)), m)
}

/// The vertex that direction `d` leads to from `i`, if the grid has it.
pub open spec fn target(i: int, d: int, m: int) -> Option<int> {
    let x = grid::col(i, m) + dir_x(d);
    let y = grid::row(i, m) + dir_y(d);
    if 0 <= x < m && 0 <= y < m {
        Some(grid::at(x, y, m))
    } else {
        None
    }
}

/// The vertex that a move leads to, if it is on the grid and free; a knight move also needs the
/// two vertices it passes free.
pub open spec fn stepped(blocked: Seq<bool>, i: int, d: int, m: int) -> Option<int> {
    match target(i, d, m) {
        Some(j) => if blocked[j] || knight(d) && (blocked[first_passed(i, d, m)]
            || blocked[second_passed(i, d, m)]) {
            None
        } else {
            Some(j)
        },
        None => None,
    }
}

/// The direction after turning.
pub open spec fn turned(d: int, turn: int) -> int {
    (d + turn) % 16
}

/// Whether state `t` can follow state `s`: the move is legal and turns by at most three
/// directions.
pub open spec fn follows(g: RouteGrid, s: int, t: int) -> bool {
    &&& exists|turn: int| -3 <= turn <= 3 && t % 16 == #[trigger] turned(s % 16, turn)
    &&& stepped(g.blocked@, s / 16, t % 16, g.m as int) == Some(t / 16)
}

proof fn lemma_target(i: int, d: int, m: int)
    requires
        0 <= i < m * m,
        0 < m,
        0 <= d < 16,
        target(i, d, m) is Some,
    ensures
        0 <= target(i, d, m)->0 < m * m,
        grid::col(target(i, d, m)->0, m) == grid::col(i, m) + dir_x(d),
        grid::row(target(i, d, m)->0, m) == grid::row(i, m) + dir_y(d),
        0 <= first_passed(i, d, m) < m * m,
        0 <= second_passed(i, d, m) < m * m,
{
    grid::lemma_col_row(i, m, m);
    let (x, y) = (grid::col(i, m), grid::row(i, m));
    grid::lemma_at(x + dir_x(d), y + dir_y(d), m, m);
    grid::lemma_at(x + sign(dir_x(d)), y + sign(dir_y(d)), m, m);
    if dir_x(d) == 2 || dir_x(d) == -2 {
        grid::lemma_at(x + sign(dir_x(d)), y, m, m);
    } else {
        grid::lemma_at(x, y + sign(dir_y(d)), m, m);
    }
}

/// Free moves can be taken back: from a free vertex, every move has a reverse.
pub proof fn lemma_moves_reverse(blocked: Seq<bool>, i: int, d: int, m: int)
    requires
        0 <= i < m * m,
        0 < m,
        0 <= d < 16,
        blocked.len() == m * m,
        !blocked[i],
        stepped(blocked, i, d, m) is Some,
    ensures
        stepped(blocked, stepped(blocked, i, d, m)->0, turned(d, 8), m) == Some(i),
{
    let j = target(i, d, m)->0;
    let e = turned(d, 8);
    lemma_target(i, d, m);
    grid::lemma_col_row(i, m, m);
    assert(dir_x(e) == -dir_x(d) && dir_y(e) == -dir_y(d));
    assert(target(j, e, m) == Some(i));
    if knight(d) {
        assert(first_passed(j, e, m) == second_passed(i, d, m));
        assert(second_passed(j, e, m) == first_passed(i, d, m));
    }
}

fn dir_x_of(d: usize) -> (x: i64)
    requires
        d < 16,
    ensures
        x == dir_x(d as int),
{
    if d == 0 || d == 2 || d == 3 || d == 13 || d == 14 {
        1
    } else if d == 1 || d == 15 {
        2
    } else if d == 4 || d == 12 {
        0
    } else if d == 7 || d == 9 {
        -2
    } else {
        -1
    }
}

fn dir_y_of(d: usize) -> (y: i64)
    requires
        d < 16,
    ensures
        y == dir_y(d as int),
{
    if d == 1 || d == 2 || d == 4 || d == 6 || d == 7 {
        1
    } else if d == 3 || d == 5 {
        2
    } else if d == 0 || d == 8 {
        0
    } else if d == 11 || d == 13 {
        -2
    } else {
        -1
    }
}

fn sign_of(x: i64) -> (s: i64)
    ensures
        s == sign(x as int),
{
    if x > 0 {
        1
    } else if x < 0 {
        -1
    } else {
        0
    }
}

/// A move to a search state.
#[derive(Clone, Copy, Debug, PartialEq, Eq, Structural)]
pub struct Move {
    /// How many directions the move turns, to the left if positive.
    pub turn: i64,
    pub state: usize,
}

/// The grid that roads are routed on: `m` by `m` vertices, some of them blocked.
pub struct RouteGrid {
    pub m: usize,
    pub blocked: Vec<bool>,
    /// The farm whose pad each vertex lies on, counted from 1; 0 for none.
    pub pad: Vec<u16>,
}

/// Whether a pad, counted from 1 with 0 for none, belongs to another farm than `own`.
pub open spec fn foreign(pad: u16, own: u16) -> bool {
    pad != 0 && pad != own
}

impl RouteGrid {
    pub open spec fn wf(&self) -> bool {
        &&& 0 < self.m
        &&& self.m * self.m * 16 <= u32::MAX
        &&& self.blocked@.len() == self.m * self.m
        &&& self.pad@.len() == self.m * self.m
    }

    /// A grid with the given blocked vertices and no pads.
    pub fn new(m: usize, blocked: Vec<bool>) -> (g: RouteGrid)
        requires
            0 < m,
            m * m * 16 <= u32::MAX,
            blocked@.len() == m * m,
        ensures
            g.wf(),
            g.m == m,
            g.blocked@ == blocked@,
            g.pad@ == Seq::new((m * m) as nat, |i: int| 0u16),
    {
        let n: usize = blocked.len();
        let pad: Vec<u16> = vec![0u16; n];
        assert(pad@ =~= Seq::new((m * m) as nat, |i: int| 0u16));
        RouteGrid { m, blocked, pad }
    }

    /// Marks the vertices flagged in `within` as the pad of farm `k`, unless another farm has
    /// them.
    pub fn mark_pad(&mut self, k: u16, within: &Vec<bool>)
        requires
            old(self).wf(),
            k < u16::MAX,
            within@.len() == old(self).m * old(self).m,
        ensures
            final(self).wf(),
            final(self).m == old(self).m,
            final(self).blocked == old(self).blocked,
            forall|i: int|
                0 <= i < within@.len() ==> #[trigger] final(self).pad@[i] == (if old(self).pad@[i] == 0
                    && within@[i] {
                    (k + 1) as u16
                } else {
                    old(self).pad@[i]
                }),
    {
        let n: usize = within.len();
        let mut i: usize = 0;
        while i < n
            invariant
                i <= n == within@.len() == self.pad@.len() == old(self).pad@.len(),
                k < u16::MAX,
                self.m == old(self).m,
                self.blocked == old(self).blocked,
                forall|j: int|
                    0 <= j < n ==> #[trigger] self.pad@[j] == (if j < i && old(self).pad@[j] == 0
                        && within@[j] {
                        (k + 1) as u16
                    } else {
                        old(self).pad@[j]
                    }),
            decreases n - i,
        {
            if self.pad[i] == 0 && within[i] {
                self.pad.set(i, k + 1);
            }
            i += 1;
        }
    }

    /// Whether a road that may cross the pad `own` should avoid vertex `j`: it lies on another
    /// farm's pad.
    pub fn avoids(&self, j: usize, own: u16) -> (r: bool)
        requires
            j < self.pad@.len(),
        ensures
            r == foreign(self.pad@[j as int], own),
    {
        self.pad[j] != 0 && self.pad[j] != own
    }

    /// The vertex that move `d` leads to from vertex `i`, if it is on the grid and free; a knight
    /// move also needs the two vertices it passes free.
    pub fn step(&self, i: usize, d: usize) -> (r: Option<usize>)
        requires
            self.wf(),
            i < self.m * self.m,
            d < 16,
        ensures
            r is Some <==> stepped(self.blocked@, i as int, d as int, self.m as int) is Some,
            r matches Some(j) ==> stepped(self.blocked@, i as int, d as int, self.m as int) == Some(
                j as int,
            ) && j < self.m * self.m,
    {
        let m: usize = self.m;
        let n: usize = self.blocked.len();
        proof {
            grid::lemma_col_row(i as int, m as int, m as int);
            assert(m <= m * m) by (nonlinear_arith)
                requires
                    m > 0,
            ;
        }
        let (cx, cy): (i64, i64) = ((i % m) as i64, (i / m) as i64);
        let (dx, dy): (i64, i64) = (dir_x_of(d), dir_y_of(d));
        let (x, y): (i64, i64) = (cx + dx, cy + dy);
        if x < 0 || y < 0 || x >= m as i64 || y >= m as i64 {
            return None;
        }
        proof {
            lemma_target(i as int, d as int, m as int);
            assert(target(i as int, d as int, m as int) is Some);
        }
        let j: usize = self.vertex(x, y);
        if self.blocked[j] {
            return None;
        }
        if d % 2 == 1 {
            let (sx, sy): (i64, i64) = (sign_of(dx), sign_of(dy));
            let long_x: bool = dx == 2 || dx == -2;
            let a: usize = if long_x {
                self.vertex(cx + sx, cy)
            } else {
                self.vertex(cx, cy + sy)
            };
            let b: usize = self.vertex(cx + sx, cy + sy);
            if self.blocked[a] || self.blocked[b] {
                return None;
            }
        }
        Some(j)
    }

    fn vertex(&self, x: i64, y: i64) -> (j: usize)
        requires
            self.wf(),
            0 <= x < self.m,
            0 <= y < self.m,
        ensures
            j == grid::at(x as int, y as int, self.m as int),
            j < self.m * self.m,
    {
        let n: usize = self.blocked.len();
        proof {
            grid::lemma_at(x as int, y as int, self.m as int, self.m as int);
            assert(0 <= y * self.m) by (nonlinear_arith)
                requires
                    0 <= y,
            ;
            assert(y * self.m + x < n);
        }
        y as usize * self.m + x as usize
    }

    /// The moves out of a search state, from the sharpest right turn to the sharpest left turn.
    #[verifier::spinoff_prover]
    #[verifier::rlimit(60)]
    pub fn successors(&self, s: usize) -> (moves: Vec<Move>)
        requires
            self.wf(),
            s < self.m * self.m * 16,
        ensures
            forall|k: int|
                0 <= k < moves@.len() ==> {
                    let mv = #[trigger] moves@[k];
                    &&& -3 <= mv.turn <= 3
                    &&& mv.state < self.m * self.m * 16
                    &&& mv.state as int % 16 == turned(s as int % 16, mv.turn as int)
                    &&& follows(*self, s as int, mv.state as int)
                },
            forall|a: int, b: int|
                0 <= a < b < moves@.len() ==> (#[trigger] moves@[a]).turn < (#[trigger] moves@[b]).turn,
            forall|turn: int|
                -3 <= turn <= 3 && stepped(
                    self.blocked@,
                    s as int / 16,
                    #[trigger] turned(s as int % 16, turn),
                    self.m as int,
                ) is Some ==> exists|k: int|
                    0 <= k < moves@.len() && (#[trigger] moves@[k]).turn == turn,
    {
        let n: usize = self.blocked.len();
        let (v, d): (usize, usize) = (s / 16, s % 16);
        let mut moves: Vec<Move> = Vec::new();
        let mut turn: i64 = -3;
        while turn <= 3
            invariant
                self.wf(),
                n == self.m * self.m,
                v == s as int / 16,
                d == s as int % 16,
                v < n,
                -3 <= turn <= 4,
                forall|k: int|
                    0 <= k < moves@.len() ==> {
                        let mv = #[trigger] moves@[k];
                        &&& -3 <= mv.turn < turn
                        &&& mv.state < self.m * self.m * 16
                        &&& mv.state as int % 16 == turned(s as int % 16, mv.turn as int)
                        &&& follows(*self, s as int, mv.state as int)
                    },
                forall|a: int, b: int|
                    0 <= a < b < moves@.len() ==> (#[trigger] moves@[a]).turn < (
                    #[trigger] moves@[b]).turn,
                forall|t: int|
                    -3 <= t < turn && stepped(
                        self.blocked@,
                        s as int / 16,
                        #[trigger] turned(s as int % 16, t),
                        self.m as int,
                    ) is Some ==> exists|k: int|
                        0 <= k < moves@.len() && (#[trigger] moves@[k]).turn == t,
            decreases 4 - turn,
        {
            let nd: usize = ((d as i64 + turn + 16) % 16) as usize;
            assert(nd == turned(d as int, turn as int));
            let ghost before = moves@;
            if let Some(w) = self.step(v, nd) {
                let state: usize = w * 16 + nd;
                proof {
                    assert(state as int / 16 == w);
                    assert(state as int % 16 == nd);
                    assert(follows(*self, s as int, state as int));
                }
                moves.push(Move { turn, state });
                assert(moves@[moves@.len() - 1].turn == turn);
            }
            proof {
                assert forall|t: int|
                    -3 <= t < turn + 1 && stepped(
                        self.blocked@,
                        s as int / 16,
                        #[trigger] turned(s as int % 16, t),
                        self.m as int,
                    ) is Some implies exists|k: int|
                    0 <= k < moves@.len() && (#[trigger] moves@[k]).turn == t by {
                    if t < turn {
                        let k = choose|k: int|
                            0 <= k < before.len() && (#[trigger] before[k]).turn == t;
                        assert(moves@[k].turn == t);
                    } else {
                        assert(moves@[moves@.len() - 1].turn == t);
                    }
                }
            }
            turn += 1;
        }
        moves
    }
}

/// The sixteen directions go round counter-clockwise: four make a quarter turn, eight turn back, and from
/// east the first are a step, a knight move, a diagonal and another knight move.
pub proof fn lemma_directions_go_round(d: int)
    requires
        0 <= d < 16,
    ensures
        dir_x(turned(d, 4)) == -dir_y(d) && dir_y(turned(d, 4)) == dir_x(d),
        dir_x(turned(d, 8)) == -dir_x(d) && dir_y(turned(d, 8)) == -dir_y(d),
        (dir_x(0), dir_y(0)) == (1int, 0int),
        (dir_x(1), dir_y(1)) == (2int, 1int),
        (dir_x(2), dir_y(2)) == (1int, 1int),
        (dir_x(3), dir_y(3)) == (1int, 2int),
        knight(d) <==> dir_x(d) == 2 || dir_x(d) == -2 || dir_y(d) == 2 || dir_y(d) == -2,
        turned(turned(d, 3), -3) == d && turned(d, 0) == d,
{
}

/// A knight move passes between two vertices next to its start: together they lie as far from it as its
/// end does.
pub proof fn lemma_knight_moves_pass_between(x: int, y: int, d: int, m: int)
    requires
        0 <= x < m,
        0 <= y < m,
        0 <= d < 16,
        knight(d),
        0 <= x + dir_x(d) < m,
        0 <= y + dir_y(d) < m,
    ensures
        ({
            let i = grid::at(x, y, m);
            let (f, s) = (first_passed(i, d, m), second_passed(i, d, m));
            &&& f != s
            &&& -1 <= grid::col(f, m) - x <= 1 && -1 <= grid::row(f, m) - y <= 1
            &&& -1 <= grid::col(s, m) - x <= 1 && -1 <= grid::row(s, m) - y <= 1
            &&& grid::col(f, m) + grid::col(s, m) == 2 * x + dir_x(d)
            &&& grid::row(f, m) + grid::row(s, m) == 2 * y + dir_y(d)
        }),
{
    let i = grid::at(x, y, m);
    grid::lemma_at(x, y, m, m);
    let long_x = dir_x(d) == 2 || dir_x(d) == -2;
    let fx = x + (if long_x {
        sign(dir_x(d))
    } else {
        0
    });
    let fy = y + (if long_x {
        0
    } else {
        sign(dir_y(d))
    });
    grid::lemma_at(fx, fy, m, m);
    grid::lemma_at(x + sign(dir_x(d)), y + sign(dir_y(d)), m, m);
}

/// A move leads to the vertex in its direction exactly if that is on the grid and free, and for a knight
/// move those it passes between are free too; nothing else stands in its way.
pub proof fn lemma_moves_need_free_vertices(blocked: Seq<bool>, x: int, y: int, d: int, m: int)
    requires
        0 <= x < m,
        0 <= y < m,
        0 <= d < 16,
    ensures
        ({
            let i = grid::at(x, y, m);
            let (u, v) = (x + dir_x(d), y + dir_y(d));
            let j = grid::at(u, v, m);
            &&& stepped(blocked, i, d, m) is Some ==> stepped(blocked, i, d, m) == Some(j)
            &&& !(0 <= u < m && 0 <= v < m) ==> stepped(blocked, i, d, m) is None
            &&& 0 <= u < m && 0 <= v < m && d % 2 == 0 ==> (stepped(blocked, i, d, m) is Some <==> !blocked[j])
            &&& 0 <= u < m && 0 <= v < m && d % 2 == 1 ==> (stepped(blocked, i, d, m) is Some <==> !blocked[j]
                && !blocked[first_passed(i, d, m)] && !blocked[second_passed(i, d, m)])
        }),
{
    grid::lemma_at(x, y, m, m);
}

/// A state follows another exactly if the move in its direction leads from the one vertex to the other, and
/// the direction is at most three of sixteen to either side of the last one.
pub proof fn lemma_roads_turn_gently(g: RouteGrid, s: int, t: int)
    requires
        0 <= s,
        0 <= t,
    ensures
        follows(g, s, t) <==> {
            &&& stepped(g.blocked@, s / 16, t % 16, g.m as int) == Some(t / 16)
            &&& (t % 16 - s % 16 + 19) % 16 <= 6
        },
{
    let (a, b) = (s % 16, t % 16);
    if (b - a + 19) % 16 <= 6 {
        let turn = (b - a + 19) % 16 - 3;
        assert(b == turned(a, turn));
    }
    if exists|turn: int| -3 <= turn <= 3 && b == #[trigger] turned(a, turn) {
        let turn = choose|turn: int| -3 <= turn <= 3 && b == #[trigger] turned(a, turn);
        assert((b - a + 19) % 16 == turn + 3);
    }
}

/// Open ground and a road's own pad are never avoided, and the pads of others always are.
pub proof fn lemma_foreign_pads_are_avoided(pad: u16, own: u16)
    ensures
        !foreign(0, own),
        !foreign(own, own),
        pad > 0 && pad != own ==> foreign(pad, own),
        pad > 0 ==> foreign(pad, 0),
{
}

} // verus!
