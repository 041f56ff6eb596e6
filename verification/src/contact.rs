//! Persistent friction states of penalty contacts.
//!
//! A contact is known by the collider and the world feature that it touches. Its tangential
//! spring deflection lives as long as the contact is touched in every physics step.

use vstd::prelude::*;

use crate::geometry::HitKind;
use crate::ieee;

verus! {

/// Which constants a contact uses.
#[derive(Clone, Copy, Debug, PartialEq, Eq, Structural)]
pub enum ContactClass {
    /// Terrain, solid obstacles, water and agents.
    Solid,
    /// Canopies and bushes: soft and heavily damped.
    Foliage,
}

/// The class of a contact with a world feature.
pub fn contact_class(kind: HitKind) -> (r: ContactClass)
    ensures
        r == ContactClass::Foliage <==> kind is Foliage,
{
    match kind {
        HitKind::Foliage(_) => ContactClass::Foliage,
        _ => ContactClass::Solid,
    }
}

/// Whether anything is near a vehicle.
pub open spec fn anything_near(near_terrain: bool, candidates: usize) -> bool {
    near_terrain || candidates > 0
}

/// Whether contacts need evaluating: the colliders are near the terrain, or an obstacle is near
/// them.
pub fn needs_evaluation(near_terrain: bool, candidates: usize) -> (r: bool)
    ensures
        r == anything_near(near_terrain, candidates),
{
    near_terrain || candidates > 0
}

/// A contact that carries force: its feature and the bits of its normal force.
#[derive(Clone, Copy, Debug, PartialEq, Eq, Structural)]
pub struct Support {
    pub kind: HitKind,
    pub normal_force: u64,
}

/// Whether a contact holds a vehicle: it pushes, and it is with terrain, a solid obstacle or
/// another agent.
pub open spec fn holds(s: Support) -> bool {
    ieee::lt64(0, s.normal_force) && (s.kind is Terrain || s.kind is Solid || s.kind is Agent)
}

/// Whether any contact holds the vehicle.
pub fn rests(contacts: &Vec<Support>) -> (r: bool)
    ensures
        r <==> exists|i: int| 0 <= i < contacts@.len() && holds(#[trigger] contacts@[i]),
{
    let mut i: usize = 0;
    while i < contacts.len()
        invariant
            i <= contacts@.len(),
            forall|j: int| 0 <= j < i ==> !holds(#[trigger] contacts@[j]),
        decreases contacts@.len() - i,
    {
        let c = contacts[i];
        let solid: bool = match c.kind {
            HitKind::Terrain => true,
            HitKind::Solid(_) => true,
            HitKind::Agent(_) => true,
            _ => false,
        };
        if solid && ieee::is_lt64(0, c.normal_force) {
            assert(holds(contacts@[i as int]));
            return true;
        }
        i += 1;
    }
    false
}

/// The tangential spring of a contact.
#[derive(Clone, Copy, Debug)]
pub struct Bristle {
    pub collider: u16,
    pub kind: HitKind,
    /// Spring deflection in the world frame, as the bits of its coordinates.
    pub deflection: [u64; 3],
    /// Whether the contact was touched in this step.
    pub seen: bool,
}

impl Bristle {
    pub open spec fn is_for(self, collider: u16, kind: HitKind) -> bool {
        self.collider == collider && self.kind == kind
    }
}

/// Whether no contact occurs twice.
pub open spec fn distinct(s: Seq<Bristle>) -> bool {
    forall|i: int, j: int|
        0 <= i < j < s.len() ==> !(#[trigger] s[i]).is_for(
            (#[trigger] s[j]).collider,
            s[j].kind,
        )
}

/// The deflection of a contact, if it is known.
pub open spec fn known(s: Seq<Bristle>, collider: u16, kind: HitKind) -> Option<Seq<u64>> {
    if exists|i: int| 0 <= i < s.len() && (#[trigger] s[i]).is_for(collider, kind) {
        let i = choose|i: int| 0 <= i < s.len() && (#[trigger] s[i]).is_for(collider, kind);
        Some(s[i].deflection@)
    } else {
        None
    }
}

/// The contacts touched in this step.
pub open spec fn touched(s: Seq<Bristle>, collider: u16, kind: HitKind) -> bool {
    exists|i: int| 0 <= i < s.len() && (#[trigger] s[i]).is_for(collider, kind) && s[i].seen
}

/// The deflection of a contact that is touched now: the one it had, or none if it is new.
pub open spec fn since(s: Seq<Bristle>, collider: u16, kind: HitKind) -> Seq<u64> {
    match known(s, collider, kind) {
        Some(d) => d,
        None => seq![0u64, 0, 0],
    }
}

/// A collider and a surface near it, with the bits of the collider's depth in the surface.
#[derive(Clone, Copy, Debug, PartialEq, Eq, Structural)]
pub struct Meeting {
    pub collider: u16,
    pub kind: HitKind,
    pub depth: u64,
}

/// Whether a collider reaches into the surface. A depth that is no number counts as one.
pub open spec fn penetrates(m: Meeting) -> bool {
    !ieee::le64(m.depth, 0)
}

/// Whether one of the first `n` meetings presses the collider into the feature.
pub open spec fn meets(met: Seq<Meeting>, n: int, collider: u16, kind: HitKind) -> bool {
    exists|i: int|
        0 <= i < n && penetrates(#[trigger] met[i]) && met[i].collider == collider && met[i].kind
            == kind
}

/// Whether a trial force exceeds its limit, both squared.
pub open spec fn gives_way(trial_squared: u64, limit_squared: u64) -> bool {
    ieee::lt64(limit_squared, trial_squared)
}

/// Whether friction gives way: the trial force is larger than the Coulomb limit (both squared).
pub fn slides(trial_squared: u64, limit_squared: u64) -> (r: bool)
    ensures
        r == gives_way(trial_squared, limit_squared),
{
    ieee::is_lt64(limit_squared, trial_squared)
}

/// The friction states of one vehicle.
#[derive(Clone, Debug)]
pub struct ContactCache {
    bristles: Vec<Bristle>,
}

impl View for ContactCache {
    type V = Seq<Bristle>;

    closed spec fn view(&self) -> Seq<Bristle> {
        self.bristles@
    }
}

impl Default for ContactCache {
    /// No contacts.
    fn default() -> (c: ContactCache)
        ensures
            c.wf(),
            c@.len() == 0,
    {
        ContactCache::new()
    }
}

impl ContactCache {
    pub open spec fn wf(&self) -> bool {
        distinct(self@)
    }

    pub fn new() -> (c: ContactCache)
        ensures
            c.wf(),
            c@.len() == 0,
    {
        ContactCache { bristles: Vec::new() }
    }

    pub fn clear(&mut self)
        ensures
            final(self).wf(),
            final(self)@.len() == 0,
    {
        self.bristles.clear();
    }

    /// Number of persistent contacts.
    pub fn len(&self) -> (n: usize)
        ensures
            n == self@.len(),
    {
        self.bristles.len()
    }

    pub fn is_empty(&self) -> (r: bool)
        ensures
            r == (self@.len() == 0),
    {
        self.bristles.len() == 0
    }

    /// Starts a step for a vehicle with this many colliders: no contact is touched yet. Without
    /// colliders all contacts are forgotten.
    pub fn begin(&mut self, colliders: usize)
        requires
            old(self).wf(),
        ensures
            final(self).wf(),
            colliders == 0 ==> final(self)@.len() == 0,
            colliders > 0 ==> final(self)@ == old(self)@.map_values(
                |b: Bristle| Bristle { seen: false, ..b },
            ),
            forall|c: u16, k: HitKind| !touched(final(self)@, c, k),
    {
        if colliders == 0 {
            self.bristles.clear();
            return;
        }
        let n: usize = self.bristles.len();
        let mut i: usize = 0;
        while i < n
            invariant
                i <= n == self.bristles@.len() == old(self).bristles@.len(),
                forall|j: int|
                    0 <= j < n ==> #[trigger] self.bristles@[j] == (if j < i {
                        (Bristle { seen: false, ..old(self).bristles@[j] })
                    } else {
                        old(self).bristles@[j]
                    }),
            decreases n - i,
        {
            let b = self.bristles[i];
            self.bristles[i] = Bristle { seen: false, ..b };
            i += 1;
        }
        proof {
            let unseen = |b: Bristle| Bristle { seen: false, ..b };
            assert(self@ =~= old(self)@.map_values(unseen));
            assert forall|a: int, b: int| 0 <= a < b < n implies !(#[trigger] self@[a]).is_for(
                (#[trigger] self@[b]).collider,
                self@[b].kind,
            ) by {
                assert(!old(self)@[a].is_for(old(self)@[b].collider, old(self)@[b].kind));
            }
        }
    }

    /// Touches a contact and returns its place; an unknown one starts without deflection.
    pub fn touch(&mut self, collider: u16, kind: HitKind) -> (i: usize)
        requires
            old(self).wf(),
            old(self)@.len() < usize::MAX,
        ensures
            final(self).wf(),
            i < final(self)@.len(),
            final(self)@[i as int].is_for(collider, kind),
            i < old(self)@.len() ==> old(self)@[i as int].is_for(collider, kind),
            final(self)@[i as int].seen,
            final(self)@[i as int].deflection@ == since(old(self)@, collider, kind),
            known(old(self)@, collider, kind) is Some ==> final(self)@.len() == old(self)@.len(),
            known(old(self)@, collider, kind) is None ==> final(self)@.len() == old(self)@.len() + 1
                && i == old(self)@.len(),
            forall|j: int|
                0 <= j < old(self)@.len() && j != i ==> #[trigger] final(self)@[j]
                    == old(self)@[j],
            forall|c: u16, k: HitKind|
                touched(final(self)@, c, k) <==> touched(old(self)@, c, k) || c == collider && k
                    == kind,
            forall|c: u16, k: HitKind|
                known(final(self)@, c, k) == (if c == collider && k == kind {
                    Some(since(old(self)@, c, k))
                } else {
                    known(old(self)@, c, k)
                }),
    {
        let n: usize = self.bristles.len();
        let mut i: usize = 0;
        while i < n && !(self.bristles[i].collider == collider && self.bristles[i].kind == kind)
            invariant
                i <= n == self.bristles@.len(),
                self.bristles@ == old(self).bristles@,
                forall|j: int| 0 <= j < i ==> !(#[trigger] self.bristles@[j]).is_for(collider, kind),
            decreases n - i,
        {
            i += 1;
        }
        if i < n {
            proof {
                assert(old(self)@[i as int].is_for(collider, kind));
                let a = choose|a: int|
                    0 <= a < n && (#[trigger] old(self)@[a]).is_for(collider, kind);
                assert(a == i) by {
                    if a < i {
                        assert(!self.bristles@[a].is_for(collider, kind));
                    } else if i < a {
                        assert(!old(self)@[i as int].is_for(
                            old(self)@[a].collider,
                            old(self)@[a].kind,
                        ));
                    }
                }
            }
            let b = self.bristles[i];
            self.bristles[i] = Bristle { seen: true, ..b };
        } else {
            let deflection: [u64; 3] = [0, 0, 0];
            self.bristles.push(Bristle { collider, kind, deflection, seen: true });
            assert(deflection@ =~= seq![0u64, 0, 0]);
        }
        proof {
            let (s, t) = (old(self)@, self@);
            assert forall|a: int, b: int| 0 <= a < b < t.len() implies !(#[trigger] t[a]).is_for(
                (#[trigger] t[b]).collider,
                t[b].kind,
            ) by {
                if b < s.len() {
                    assert(!s[a].is_for(s[b].collider, s[b].kind));
                } else {
                    assert(!s[a].is_for(collider, kind));
                }
            }
            assert forall|c: u16, k: HitKind|
                touched(t, c, k) <==> touched(s, c, k) || c == collider && k == kind by {
                if touched(s, c, k) {
                    let a = choose|a: int|
                        0 <= a < s.len() && (#[trigger] s[a]).is_for(c, k) && s[a].seen;
                    assert(t[a].is_for(c, k) && t[a].seen);
                }
                if c == collider && k == kind {
                    assert(t[i as int].is_for(c, k) && t[i as int].seen);
                }
                if touched(t, c, k) {
                    let a = choose|a: int|
                        0 <= a < t.len() && (#[trigger] t[a]).is_for(c, k) && t[a].seen;
                    if a != i {
                        assert(s[a].is_for(c, k) && s[a].seen);
                    }
                }
            }
            assert forall|c: u16, k: HitKind|
                known(t, c, k) == (if c == collider && k == kind {
                    Some(since(s, c, k))
                } else {
                    known(s, c, k)
                }) by {
                if c == collider && k == kind {
                    lemma_known_at(t, i as int, c, k);
                } else if exists|a: int| 0 <= a < s.len() && (#[trigger] s[a]).is_for(c, k) {
                    let a = choose|a: int| 0 <= a < s.len() && (#[trigger] s[a]).is_for(c, k);
                    assert(t[a].is_for(c, k));
                    lemma_known_at(t, a, c, k);
                } else {
                    assert forall|a: int| 0 <= a < t.len() implies !(#[trigger] t[a]).is_for(c, k) by {
                        if a != i {
                            assert(!s[a].is_for(c, k));
                        }
                    }
                }
            }
        }
        i
    }

    /// Takes a step's meetings into account: touches a contact for every collider that penetrates
    /// a surface, and returns its place. To be followed by [`ContactCache::finish`].
    pub fn evaluate(&mut self, colliders: usize, met: &Vec<Meeting>) -> (places: Vec<
        Option<usize>,
    >)
        requires
            old(self).wf(),
            old(self)@.len() + met@.len() <= usize::MAX,
        ensures
            final(self).wf(),
            places@.len() == met@.len(),
            forall|i: int|
                0 <= i < met@.len() ==> ((#[trigger] places@[i]) is Some <==> penetrates(met@[i])),
            forall|i: int|
                0 <= i < met@.len() ==> ((#[trigger] places@[i]) matches Some(p) ==> p
                    < final(self)@.len() && final(self)@[p as int].is_for(
                    met@[i].collider,
                    met@[i].kind,
                )),
            forall|c: u16, k: HitKind|
                touched(final(self)@, c, k) <==> meets(met@, met@.len() as int, c, k),
            forall|c: u16, k: HitKind|
                meets(met@, met@.len() as int, c, k) ==> known(final(self)@, c, k) == Some(
                    if colliders == 0 {
                        seq![0u64, 0, 0]
                    } else {
                        since(old(self)@, c, k)
                    },
                ),
    {
        self.begin(colliders);
        let ghost begun = self@;
        proof {
            assert forall|c: u16, k: HitKind|
                colliders > 0 implies known(begun, c, k) == known(old(self)@, c, k) by {
                lemma_known_unseen(old(self)@, c, k);
            }
        }
        let n: usize = met.len();
        let mut places: Vec<Option<usize>> = Vec::new();
        let mut i: usize = 0;
        while i < n
            invariant
                i <= n == met@.len(),
                self.wf(),
                begun.len() + n <= usize::MAX,
                self@.len() <= begun.len() + i,
                places@.len() == i,
                forall|j: int|
                    0 <= j < i ==> ((#[trigger] places@[j]) is Some <==> penetrates(met@[j])),
                forall|j: int|
                    0 <= j < i ==> ((#[trigger] places@[j]) matches Some(p) ==> p < self@.len()
                        && self@[p as int].is_for(met@[j].collider, met@[j].kind)),
                forall|c: u16, k: HitKind|
                    touched(self@, c, k) <==> meets(met@, i as int, c, k),
                forall|c: u16, k: HitKind|
                    known(self@, c, k) == (if meets(met@, i as int, c, k) {
                        Some(since(begun, c, k))
                    } else {
                        known(begun, c, k)
                    }),
            decreases n - i,
        {
            let m = met[i];
            let ghost before = self@;
            if !ieee::is_le64(m.depth, 0) {
                let place: usize = self.touch(m.collider, m.kind);
                places.push(Some(place));
            } else {
                places.push(None);
            }
            proof {
                assert forall|c: u16, k: HitKind|
                    meets(met@, i + 1, c, k) <==> meets(met@, i as int, c, k) || penetrates(m)
                        && c == m.collider && k == m.kind by {
                    lemma_meets_next(met@, i as int, c, k);
                }
                assert forall|j: int| 0 <= j < i + 1 implies ((#[trigger] places@[j]) matches Some(p)
                    ==> p < self@.len() && self@[p as int].is_for(
                    met@[j].collider,
                    met@[j].kind,
                )) by {
                    if j < i && places@[j] is Some {
                        let p = places@[j]->0;
                        assert(before[p as int].is_for(met@[j].collider, met@[j].kind));
                    }
                }
            }
            i += 1;
        }
        places
    }

    /// The spring deflection of the contact in place `i`.
    pub fn deflection(&self, i: usize) -> (d: [u64; 3])
        requires
            i < self@.len(),
        ensures
            d == self@[i as int].deflection,
    {
        self.bristles[i].deflection
    }

    /// Stores the spring deflection of the contact in place `i`.
    pub fn set_deflection(&mut self, i: usize, deflection: [u64; 3])
        requires
            old(self).wf(),
            i < old(self)@.len(),
        ensures
            final(self).wf(),
            final(self)@ == old(self)@.update(
                i as int,
                (Bristle { deflection, ..old(self)@[i as int] }),
            ),
            forall|c: u16, k: HitKind| touched(final(self)@, c, k) == touched(old(self)@, c, k),
    {
        let b = self.bristles[i];
        self.bristles[i] = Bristle { deflection, ..b };
        proof {
            let (s, t) = (old(self)@, self@);
            assert forall|a: int, b: int| 0 <= a < b < t.len() implies !(#[trigger] t[a]).is_for(
                (#[trigger] t[b]).collider,
                t[b].kind,
            ) by {
                assert(!s[a].is_for(s[b].collider, s[b].kind));
            }
            assert forall|c: u16, k: HitKind| touched(t, c, k) == touched(s, c, k) by {
                if touched(s, c, k) {
                    let a = choose|a: int|
                        0 <= a < s.len() && (#[trigger] s[a]).is_for(c, k) && s[a].seen;
                    assert(t[a].is_for(c, k) && t[a].seen);
                }
                if touched(t, c, k) {
                    let a = choose|a: int|
                        0 <= a < t.len() && (#[trigger] t[a]).is_for(c, k) && t[a].seen;
                    assert(s[a].is_for(c, k) && s[a].seen);
                }
            }
        }
    }

    /// Ends the step: contacts that were not touched are forgotten.
    pub fn finish(&mut self)
        requires
            old(self).wf(),
        ensures
            final(self).wf(),
            final(self)@ == old(self)@.filter(|b: Bristle| b.seen),
            forall|c: u16, k: HitKind|
                (known(final(self)@, c, k) is Some) <==> touched(old(self)@, c, k),
            forall|c: u16, k: HitKind|
                touched(old(self)@, c, k) ==> known(final(self)@, c, k) == known(old(self)@, c, k),
    {
        let ghost s = self@;
        let mut kept: Vec<Bristle> = Vec::new();
        let n: usize = self.bristles.len();
        let mut i: usize = 0;
        proof {
            reveal(Seq::filter);
            assert(s.take(0).filter(|b: Bristle| b.seen) =~= kept@);
        }
        while i < n
            invariant
                i <= n == self.bristles@.len(),
                self.bristles@ == s,
                kept@ == s.take(i as int).filter(|b: Bristle| b.seen),
            decreases n - i,
        {
            let b = self.bristles[i];
            proof {
                broadcast use Seq::lemma_filter_push;

                assert(s.take(i + 1) =~= s.take(i as int).push(b));
            }
            if b.seen {
                kept.push(b);
            }
            i += 1;
        }
        assert(s.take(n as int) =~= s);
        self.bristles = kept;
        proof {
            lemma_kept(s);
        }
    }
}

/// A contact's deflection is found wherever the contact is.
proof fn lemma_known_at(s: Seq<Bristle>, i: int, c: u16, k: HitKind)
    requires
        distinct(s),
        0 <= i < s.len(),
        s[i].is_for(c, k),
    ensures
        known(s, c, k) == Some(s[i].deflection@),
{
    let j = choose|j: int| 0 <= j < s.len() && (#[trigger] s[j]).is_for(c, k);
    if i < j {
        assert(!s[i].is_for(s[j].collider, s[j].kind));
    } else if j < i {
        assert(!s[j].is_for(s[i].collider, s[i].kind));
    }
}

/// Marking all contacts as not touched keeps their deflections.
proof fn lemma_known_unseen(s: Seq<Bristle>, c: u16, k: HitKind)
    requires
        distinct(s),
    ensures
        known(s.map_values(|b: Bristle| Bristle { seen: false, ..b }), c, k) == known(s, c, k),
{
    let t = s.map_values(|b: Bristle| Bristle { seen: false, ..b });
    if exists|i: int| 0 <= i < s.len() && (#[trigger] s[i]).is_for(c, k) {
        let i = choose|i: int| 0 <= i < s.len() && (#[trigger] s[i]).is_for(c, k);
        assert(t[i].is_for(c, k));
        assert(distinct(t)) by {
            assert forall|a: int, b: int| 0 <= a < b < t.len() implies !(#[trigger] t[a]).is_for(
                (#[trigger] t[b]).collider,
                t[b].kind,
            ) by {
                assert(!s[a].is_for(s[b].collider, s[b].kind));
            }
        }
        lemma_known_at(t, i, c, k);
        lemma_known_at(s, i, c, k);
    } else {
        assert forall|i: int| 0 <= i < t.len() implies !(#[trigger] t[i]).is_for(c, k) by {
            assert(!s[i].is_for(c, k));
        }
    }
}

proof fn lemma_meets_next(met: Seq<Meeting>, n: int, c: u16, k: HitKind)
    requires
        0 <= n < met.len(),
    ensures
        meets(met, n + 1, c, k) <==> meets(met, n, c, k) || penetrates(met[n]) && met[n].collider
            == c && met[n].kind == k,
{
    if meets(met, n, c, k) {
        let i = choose|i: int|
            0 <= i < n && penetrates(#[trigger] met[i]) && met[i].collider == c && met[i].kind == k;
        assert(penetrates(met[i]));
    }
    if penetrates(met[n]) && met[n].collider == c && met[n].kind == k {
        assert(meets(met, n + 1, c, k));
    }
}

/// Friction states live exactly as long as their contacts: after a step there is one for each contact
/// that was met in it and no other, none where nothing touches, and a contact that lasts keeps its
/// deflection. `before` is what was known before the
/// step, `during` what the step's meetings left of it, `after` what remains when the step ends.
pub proof fn lemma_contacts_last_while_met(
    before: Seq<Bristle>,
    met: Seq<Meeting>,
    during: Seq<Bristle>,
    after: Seq<Bristle>,
)
    requires
        distinct(during),
        forall|c: u16, k: HitKind| touched(during, c, k) <==> meets(met, met.len() as int, c, k),
        forall|c: u16, k: HitKind|
            meets(met, met.len() as int, c, k) ==> known(during, c, k) == Some(since(before, c, k)),
        after == during.filter(|b: Bristle| b.seen),
    ensures
        distinct(after),
        (forall|i: int| 0 <= i < met.len() ==> !penetrates(#[trigger] met[i])) ==> after.len() == 0,
        forall|c: u16, k: HitKind|
            known(after, c, k) == (if meets(met, met.len() as int, c, k) {
                Some(since(before, c, k))
            } else {
                None
            }),
{
    lemma_kept(during);
    assert forall|c: u16, k: HitKind|
        known(after, c, k) == (if meets(met, met.len() as int, c, k) {
            Some(since(before, c, k))
        } else {
            None
        }) by {
        assert(touched(during, c, k) <==> meets(met, met.len() as int, c, k));
        assert((known(after, c, k) is Some) <==> touched(during, c, k));
    }
    if after.len() > 0 {
        let (c, k) = (after[0].collider, after[0].kind);
        lemma_known_at(after, 0, c, k);
        assert(meets(met, met.len() as int, c, k));
    }
}

/// What remains of contacts when the untouched ones are dropped.
proof fn lemma_kept(s: Seq<Bristle>)
    requires
        distinct(s),
    ensures
        distinct(s.filter(|b: Bristle| b.seen)),
        forall|c: u16, k: HitKind|
            (known(s.filter(|b: Bristle| b.seen), c, k) is Some) <==> touched(s, c, k),
        forall|c: u16, k: HitKind|
            touched(s, c, k) ==> known(s.filter(|b: Bristle| b.seen), c, k) == known(s, c, k),
    decreases s.len(),
{
    broadcast use Seq::lemma_filter_push;

    let seen = |b: Bristle| b.seen;
    if s.len() == 0 {
        reveal(Seq::filter);
        assert(s.filter(seen) =~= s);
    } else {
        let (t, x) = (s.drop_last(), s.last());
        assert(s =~= t.push(x));
        assert(distinct(t)) by {
            assert forall|a: int, b: int| 0 <= a < b < t.len() implies !(#[trigger] t[a]).is_for(
                (#[trigger] t[b]).collider,
                t[b].kind,
            ) by {
                assert(!s[a].is_for(s[b].collider, s[b].kind));
            }
        }
        lemma_kept(t);
        let (f, g) = (t.filter(seen), s.filter(seen));
        assert(g == if x.seen {
            f.push(x)
        } else {
            f
        });
        assert forall|a: int| 0 <= a < t.len() implies !(#[trigger] t[a]).is_for(x.collider, x.kind) by {
            assert(!s[a].is_for(s[s.len() - 1].collider, s[s.len() - 1].kind));
        }
        assert forall|a: int| 0 <= a < f.len() implies !(#[trigger] f[a]).is_for(x.collider, x.kind) by {
            t.lemma_filter_contains_rev(seen, f[a]);
            let b = choose|b: int| 0 <= b < t.len() && t[b] == f[a];
            assert(!t[b].is_for(x.collider, x.kind));
        }
        assert(distinct(g));
        assert forall|c: u16, k: HitKind|
            ((known(g, c, k) is Some) <==> touched(s, c, k)) && (touched(s, c, k) ==> known(g, c, k)
                == known(s, c, k)) by {
            assert((known(f, c, k) is Some) <==> touched(t, c, k));
            lemma_known_push(t, x, c, k);
            lemma_known_push(f, x, c, k);
            lemma_touched_push(t, x, c, k);
        }
    }
}

proof fn lemma_known_push(t: Seq<Bristle>, x: Bristle, c: u16, k: HitKind)
    requires
        distinct(t),
        distinct(t.push(x)),
    ensures
        known(t.push(x), c, k) == (if x.is_for(c, k) {
            Some(x.deflection@)
        } else {
            known(t, c, k)
        }),
{
    let s = t.push(x);
    if exists|i: int| 0 <= i < s.len() && (#[trigger] s[i]).is_for(c, k) {
        let i = choose|i: int| 0 <= i < s.len() && (#[trigger] s[i]).is_for(c, k);
        if x.is_for(c, k) {
            if i < t.len() {
                assert(!s[i].is_for(s[s.len() - 1].collider, s[s.len() - 1].kind));
            }
        } else {
            assert(t[i].is_for(c, k));
            let j = choose|j: int| 0 <= j < t.len() && (#[trigger] t[j]).is_for(c, k);
            if i < j {
                assert(!t[i].is_for(t[j].collider, t[j].kind));
            } else if j < i {
                assert(!t[j].is_for(t[i].collider, t[i].kind));
            }
        }
    } else {
        assert(!s[s.len() - 1].is_for(c, k));
        assert forall|i: int| 0 <= i < t.len() implies !(#[trigger] t[i]).is_for(c, k) by {
            assert(!s[i].is_for(c, k));
        }
    }
}

proof fn lemma_touched_push(t: Seq<Bristle>, x: Bristle, c: u16, k: HitKind)
    ensures
        touched(t.push(x), c, k) <==> touched(t, c, k) || x.is_for(c, k) && x.seen,
{
    let s = t.push(x);
    if touched(t, c, k) {
        let a = choose|a: int| 0 <= a < t.len() && (#[trigger] t[a]).is_for(c, k) && t[a].seen;
        assert(s[a].is_for(c, k) && s[a].seen);
    }
    assert(s[s.len() - 1] == x);
    if touched(s, c, k) {
        let a = choose|a: int| 0 <= a < s.len() && (#[trigger] s[a]).is_for(c, k) && s[a].seen;
        if a < t.len() {
            assert(t[a].is_for(c, k) && t[a].seen);
        }
    }
}

/// A vehicle is held by anything that pushes it and does not give way: by terrain, solid obstacles and
/// other agents, but neither by water nor by foliage.
pub proof fn lemma_solid_things_hold(s: Support)
    ensures
        holds(s) ==> 0 < ieee::rank64(s.normal_force),
        s.kind is Water || s.kind is Foliage ==> !holds(s),
        ieee::lt64(0, s.normal_force) && s.kind !is Water && s.kind !is Foliage ==> holds(s),
        ieee::le64(s.normal_force, 0) ==> !holds(s),
{
}

/// A collider touches a surface exactly if it reaches into it, or if it cannot be told.
pub proof fn lemma_reaching_in_is_touching(m: Meeting)
    ensures
        ieee::lt64(0, m.depth) ==> penetrates(m),
        ieee::nan64(m.depth) ==> penetrates(m),
        ieee::le64(m.depth, 0) ==> !penetrates(m),
{
}

/// Where no contact occurs twice, what is known of one is the deflection it was given, and nothing is
/// known of any other; a new contact starts without deflection.
pub proof fn lemma_known_is_what_was_stored(s: Seq<Bristle>, collider: u16, kind: HitKind)
    requires
        distinct(s),
    ensures
        forall|i: int|
            0 <= i < s.len() && (#[trigger] s[i]).collider == collider && s[i].kind == kind ==> known(s, collider, kind)
                == Some(s[i].deflection@) && since(s, collider, kind) == s[i].deflection@,
        (forall|i: int| 0 <= i < s.len() ==> (#[trigger] s[i]).collider != collider || s[i].kind != kind)
            ==> known(s, collider, kind) is None && since(s, collider, kind) == seq![0u64, 0, 0],
{
    assert forall|i: int| 0 <= i < s.len() && (#[trigger] s[i]).collider == collider && s[i].kind == kind implies known(
        s,
        collider,
        kind,
    ) == Some(s[i].deflection@) by {
        lemma_known_at(s, i, collider, kind);
    }
}

/// A meeting counts for its own collider and feature, whenever it comes, and for no other.
pub proof fn lemma_meetings_count(met: Seq<Meeting>, n: int, collider: u16, kind: HitKind)
    requires
        0 <= n <= met.len(),
    ensures
        forall|i: int|
            0 <= i < n && penetrates(#[trigger] met[i]) ==> meets(met, n, met[i].collider, met[i].kind),
        (forall|i: int|
            0 <= i < n ==> !penetrates(#[trigger] met[i]) || met[i].collider != collider || met[i].kind != kind)
            ==> !meets(met, n, collider, kind),
{
}

/// Friction holds up to the Coulomb limit and gives way beyond it.
pub proof fn lemma_friction_holds_up_to_its_limit(trial_squared: u64, limit_squared: u64)
    requires
        !ieee::nan64(trial_squared) && !ieee::nan64(limit_squared),
    ensures
        gives_way(trial_squared, limit_squared) <==> ieee::rank64(limit_squared) < ieee::rank64(trial_squared),
        !gives_way(limit_squared, limit_squared),
{
}

/// Contacts are evaluated near terrain, whatever the obstacles, and near any obstacle, whatever the
/// terrain; away from both they are not.
pub proof fn lemma_contacts_are_evaluated_near_things(near_terrain: bool, candidates: usize)
    ensures
        anything_near(true, candidates),
        candidates > 0 ==> anything_near(near_terrain, candidates),
        !anything_near(false, 0),
{
}

} // verus!
