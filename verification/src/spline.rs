//! Tables that can be interpolated: what makes one valid, and where an abscissa falls in it.
//!
//! Abscissae and values are the bits of 64-bit numbers.

use vstd::prelude::*;
use vstd::string::StringExecFns;

use crate::ieee;
use crate::text;

verus! {

/// A table that cannot be interpolated.
#[derive(Clone, Debug, PartialEq, Eq)]
pub struct TableError(pub String);

impl TableError {
    /// The error as a sentence.
    pub fn message(&self) -> (r: String)
        ensures
            r@ == "invalid table: "@ + self.0@,
    {
        let mut s = "invalid table: ".to_owned();
        s.append(self.0.as_str());
        s
    }
}

pub open spec fn all_finite(s: Seq<u64>) -> bool {
    forall|i: int| 0 <= i < s.len() ==> ieee::finite64(#[trigger] s[i])
}

pub open spec fn increasing(s: Seq<u64>) -> bool {
    forall|i: int, j: int|
        0 <= i < j < s.len() ==> ieee::rank64(#[trigger] s[i]) < ieee::rank64(#[trigger] s[j])
}

/// What is wrong with a table, if anything.
pub open spec fn fault(x: Seq<u64>, y: Seq<u64>) -> Option<Seq<char>> {
    if x.len() < 2 || y.len() != x.len() {
        Some(
            text::decimal_of(x.len()) + " abscissae and "@ + text::decimal_of(y.len())
                + " values; at least 2 of each needed"@,
        )
    } else if !(all_finite(x) && all_finite(y) && increasing(x)) {
        Some("abscissae must be finite and strictly increasing, values finite"@)
    } else {
        None
    }
}

fn check_finite(s: &Vec<u64>) -> (r: bool)
    ensures
        r == all_finite(s@),
{
    let mut i: usize = 0;
    while i < s.len()
        invariant
            i <= s@.len(),
            forall|j: int| 0 <= j < i ==> ieee::finite64(#[trigger] s@[j]),
        decreases s@.len() - i,
    {
        if !ieee::is_finite64(s[i]) {
            return false;
        }
        i += 1;
    }
    true
}

fn check_increasing(s: &Vec<u64>) -> (r: bool)
    requires
        all_finite(s@),
    ensures
        r == increasing(s@),
{
    let n: usize = s.len();
    let mut i: usize = 1;
    while i < n
        invariant
            n == s@.len(),
            1 <= i,
            i <= n || n == 0,
            all_finite(s@),
            forall|a: int, b: int|
                0 <= a < b < i && b < n ==> ieee::rank64(#[trigger] s@[a]) < ieee::rank64(
                    #[trigger] s@[b],
                ),
        decreases n - i,
    {
        assert(ieee::finite64(s@[i as int]) && ieee::finite64(s@[i - 1]));
        if ieee::is_le64(s[i], s[i - 1]) {
            assert(!(ieee::rank64(s@[i - 1]) < ieee::rank64(s@[i as int])));
            return false;
        }
        i += 1;
    }
    true
}

/// Checks that a table has at least two points with finite, strictly increasing abscissae and
/// finite values.
pub fn check_table(x: &Vec<u64>, y: &Vec<u64>) -> (r: Result<(), TableError>)
    ensures
        r is Ok <==> fault(x@, y@) is None,
        r matches Err(e) ==> fault(x@, y@) == Some(e.0@),
{
    let (n, m): (usize, usize) = (x.len(), y.len());
    if n < 2 || m != n {
        let mut s = text::decimal(n as u64);
        s.append(" abscissae and ");
        s.append(text::decimal(m as u64).as_str());
        s.append(" values; at least 2 of each needed");
        return Err(TableError(s));
    }
    if !check_finite(x) || !check_finite(y) || !check_increasing(x) {
        return Err(
            TableError(
                "abscissae must be finite and strictly increasing, values finite".to_owned(),
            ),
        );
    }
    Ok(())
}

/// Where an abscissa falls in a table.
#[derive(Clone, Copy, Debug, PartialEq, Eq, Structural)]
pub enum Interval {
    /// At the first knot or before it: continue with the slope there.
    Before,
    /// At the last knot or behind it: continue with the slope there.
    Behind,
    /// From knot `i` up to knot `i + 1`.
    Inside(usize),
}

/// Where `t` falls among the knots `x`. What is not a number falls into the first interval.
pub open spec fn falls(x: Seq<u64>, t: u64, at: Interval) -> bool {
    if ieee::nan64(t) {
        at == Interval::Inside(0)
    } else {
        match at {
            Interval::Before => ieee::rank64(t) <= ieee::rank64(x[0]),
            Interval::Behind => ieee::rank64(x[0]) < ieee::rank64(t) && ieee::rank64(x.last())
                <= ieee::rank64(t),
            Interval::Inside(i) => {
                &&& 0 <= i < x.len() - 1
                &&& ieee::rank64(x[0]) < ieee::rank64(t) < ieee::rank64(x.last())
                &&& ieee::rank64(x[i as int]) <= ieee::rank64(t) < ieee::rank64(x[i + 1])
            },
        }
    }
}

/// Finds the interval of `t` by bisection.
pub fn interval(x: &Vec<u64>, t: u64) -> (r: Interval)
    requires
        x@.len() >= 2,
        all_finite(x@),
        increasing(x@),
    ensures
        falls(x@, t, r),
{
    let n: usize = x.len();
    assert(ieee::finite64(x@[0]) && ieee::finite64(x@[n - 1]));
    if ieee::is_nan64(t) {
        return Interval::Inside(0);
    }
    if ieee::is_le64(t, x[0]) {
        return Interval::Before;
    }
    if ieee::is_le64(x[n - 1], t) {
        return Interval::Behind;
    }
    let mut lo: usize = 0;
    let mut hi: usize = n - 1;
    while hi - lo > 1
        invariant
            0 <= lo < hi < n == x@.len(),
            all_finite(x@),
            !ieee::nan64(t),
            ieee::rank64(x@[lo as int]) <= ieee::rank64(t) < ieee::rank64(x@[hi as int]),
        decreases hi - lo,
    {
        let mid: usize = lo + (hi - lo) / 2;
        assert(ieee::finite64(x@[mid as int]));
        if ieee::is_le64(x[mid], t) {
            lo = mid;
        } else {
            hi = mid;
        }
    }
    Interval::Inside(lo)
}

/// Every abscissa falls into exactly one interval of a valid table.
pub proof fn lemma_intervals_are_disjoint(x: Seq<u64>, t: u64, a: Interval, b: Interval)
    requires
        x.len() >= 2,
        increasing(x),
        falls(x, t, a),
        falls(x, t, b),
    ensures
        a == b,
{
    if let (Interval::Inside(i), Interval::Inside(j)) = (a, b) {
        if i < j {
            assert(ieee::rank64(x[i + 1]) <= ieee::rank64(x[j as int]));
        } else if j < i {
            assert(ieee::rank64(x[j + 1]) <= ieee::rank64(x[i as int]));
        }
    }
}

/// The tabulated curves of a suspension over its travel. An empty curve is zero, except `z`,
/// which is the travel itself.
#[derive(Clone, Debug, PartialEq)]
pub struct KcTableSpec {
    /// Travel knots.
    pub travel: Vec<u64>,
    pub x: Vec<u64>,
    pub y: Vec<u64>,
    pub z: Vec<u64>,
    pub toe: Vec<u64>,
    pub camber: Vec<u64>,
}

impl Default for KcTableSpec {
    /// No curves.
    fn default() -> (r: KcTableSpec)
        ensures
            r.travel@.len() == 0,
            r.x@.len() == 0,
            r.y@.len() == 0,
            r.z@.len() == 0,
            r.toe@.len() == 0,
            r.camber@.len() == 0,
    {
        KcTableSpec {
            travel: Vec::new(),
            x: Vec::new(),
            y: Vec::new(),
            z: Vec::new(),
            toe: Vec::new(),
            camber: Vec::new(),
        }
    }
}

/// What is wrong with a curve over the travel: an empty one stands for values that are valid
/// wherever the travel is.
pub open spec fn curve_fault(travel: Seq<u64>, values: Seq<u64>) -> Option<Seq<char>> {
    if values.len() == 0 {
        fault(travel, travel)
    } else {
        fault(travel, values)
    }
}

/// The first of the faults of the curves.
pub open spec fn kc_fault(s: KcTableSpec) -> Option<Seq<char>> {
    let t = s.travel@;
    if curve_fault(t, s.x@) is Some {
        curve_fault(t, s.x@)
    } else if curve_fault(t, s.y@) is Some {
        curve_fault(t, s.y@)
    } else if curve_fault(t, s.z@) is Some {
        curve_fault(t, s.z@)
    } else if curve_fault(t, s.toe@) is Some {
        curve_fault(t, s.toe@)
    } else {
        curve_fault(t, s.camber@)
    }
}

impl KcTableSpec {
    fn check_curve(&self, values: &Vec<u64>) -> (r: Result<(), TableError>)
        ensures
            r is Ok <==> curve_fault(self.travel@, values@) is None,
            r matches Err(e) ==> curve_fault(self.travel@, values@) == Some(e.0@),
    {
        if values.len() == 0 {
            check_table(&self.travel, &self.travel)
        } else {
            check_table(&self.travel, values)
        }
    }

    /// Checks all curves; the first invalid one is reported.
    pub fn check(&self) -> (r: Result<(), TableError>)
        ensures
            r is Ok <==> kc_fault(*self) is None,
            r matches Err(e) ==> kc_fault(*self) == Some(e.0@),
    {
        if let Err(e) = self.check_curve(&self.x) {
            return Err(e);
        }
        if let Err(e) = self.check_curve(&self.y) {
            return Err(e);
        }
        if let Err(e) = self.check_curve(&self.z) {
            return Err(e);
        }
        if let Err(e) = self.check_curve(&self.toe) {
            return Err(e);
        }
        self.check_curve(&self.camber)
    }
}

/// A table is accepted exactly if it has at least two points, as many values as abscissae, all of them
/// finite, and each abscissa above the one before.
pub proof fn lemma_accepted_tables(x: Seq<u64>, y: Seq<u64>)
    ensures
        fault(x, y) is None <==> {
            &&& x.len() >= 2
            &&& y.len() == x.len()
            &&& forall|i: int|
                0 <= i < x.len() ==> -ieee::INFINITY64 < ieee::rank64(#[trigger] x[i]) < ieee::INFINITY64
            &&& forall|i: int|
                0 <= i < y.len() ==> -ieee::INFINITY64 < ieee::rank64(#[trigger] y[i]) < ieee::INFINITY64
            &&& forall|i: int, j: int|
                0 <= i < j < x.len() ==> ieee::rank64(#[trigger] x[i]) < ieee::rank64(#[trigger] x[j])
        },
{
}

/// The curves of a suspension are accepted exactly if the travel is one that can be tabulated and every
/// curve that is given can be tabulated over it.
pub proof fn lemma_accepted_curves(s: KcTableSpec)
    ensures
        kc_fault(s) is None <==> {
            &&& s.x@.len() == 0 && fault(s.travel@, s.travel@) is None || fault(s.travel@, s.x@) is None
            &&& s.y@.len() == 0 || fault(s.travel@, s.y@) is None
            &&& s.z@.len() == 0 || fault(s.travel@, s.z@) is None
            &&& s.toe@.len() == 0 || fault(s.travel@, s.toe@) is None
            &&& s.camber@.len() == 0 || fault(s.travel@, s.camber@) is None
        },
        kc_fault(s) is None ==> fault(s.travel@, s.travel@) is None,
{
    let t = s.travel@;
    lemma_accepted_tables(t, t);
    lemma_accepted_tables(t, s.x@);
    lemma_accepted_tables(t, s.y@);
    lemma_accepted_tables(t, s.z@);
    lemma_accepted_tables(t, s.toe@);
    lemma_accepted_tables(t, s.camber@);
}

/// A number falls before the first knot exactly if it does not lie behind it, behind the last one exactly
/// if it does not lie before that, and into an interval exactly if it lies between its knots.
pub proof fn lemma_numbers_fall_between_knots(x: Seq<u64>, t: u64, i: usize)
    requires
        x.len() >= 2,
        increasing(x),
        all_finite(x),
        !ieee::nan64(t),
        i < x.len() - 1,
    ensures
        falls(x, t, Interval::Before) <==> ieee::le64(t, x[0]),
        falls(x, t, Interval::Behind) <==> ieee::le64(x[x.len() - 1], t),
        falls(x, t, Interval::Inside(i)) <==> ieee::le64(x[i as int], t) && ieee::lt64(t, x[i + 1]) && ieee::lt64(
            x[0],
            t,
        ),
{
    assert(ieee::rank64(x[0]) < ieee::rank64(x[x.len() - 1]));
    assert(ieee::finite64(x[0]) && ieee::finite64(x[x.len() - 1]) && ieee::finite64(x[i as int]) && ieee::finite64(
        x[i + 1],
    ));
    assert(ieee::rank64(x[i + 1]) <= ieee::rank64(x[x.len() - 1]));
}

} // verus!
