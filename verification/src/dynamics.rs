//! Kinematic trees: links, joints and the layout of their coordinates.

use vstd::prelude::*;
use vstd::string::StringExecFns;

use crate::ieee;
use crate::linalg;
use crate::linalg::NotPositiveDefinite;
use crate::text;

verus! {

/// Time integration scheme.
#[derive(Clone, Copy, Debug, PartialEq, Eq, Structural)]
pub enum Integrator {
    /// Symplectic Euler with one force evaluation in a step.
    SemiImplicitEuler,
    /// Classical Runge–Kutta of fourth order.
    Rk4,
}

impl Default for Integrator {
    fn default() -> (r: Integrator)
        ensures
            r == Integrator::SemiImplicitEuler,
    {
        Integrator::SemiImplicitEuler
    }
}

/// How many stages a scheme has.
pub open spec fn stages_of(i: Integrator) -> int {
    if i == Integrator::Rk4 {
        4int
    } else {
        1
    }
}

impl Integrator {
    /// How often a step evaluates the forces.
    pub fn evaluations(self) -> (n: usize)
        ensures
            n == stages_of(self),
    {
        match self {
            Integrator::SemiImplicitEuler => 1,
            Integrator::Rk4 => 4,
        }
    }
}

/// A failure of the forward dynamics.
#[derive(Clone, Copy, Debug, PartialEq, Eq, Structural)]
pub enum DynamicsError {
    /// The joint-space inertia at a link is singular.
    Singular(usize),
}

impl DynamicsError {
    /// The error as a sentence.
    pub fn message(&self) -> (r: String)
        ensures
            r@ == "singular joint-space inertia at link "@ + text::decimal_of(self->0 as nat)
                + " (massless subtree or bad parameters)"@,
    {
        let DynamicsError::Singular(i) = *self;
        let mut s = "singular joint-space inertia at link ".to_owned();
        s.append(text::decimal(i as u64).as_str());
        s.append(" (massless subtree or bad parameters)");
        s
    }
}

/// Kinematic joint type.
#[derive(Clone, Copy, Debug, PartialEq, Eq, Structural)]
pub enum JointType {
    /// Floating: position and orientation quaternion; angular and linear velocity.
    Free,
    /// Rotation about an axis.
    Revolute,
    /// Translation along an axis.
    Prismatic,
    /// Ball joint: orientation quaternion; angular velocity.
    Spherical,
    /// Rigid attachment.
    Fixed,
    /// Suspension travel along tabulated curves.
    KcTravel,
}

/// Number of position coordinates.
pub open spec fn nq_of(j: JointType) -> nat {
    match j {
        JointType::Free => 7,
        JointType::Revolute => 1,
        JointType::Prismatic => 1,
        JointType::Spherical => 4,
        JointType::Fixed => 0,
        JointType::KcTravel => 1,
    }
}

/// Number of velocity coordinates.
pub open spec fn nv_of(j: JointType) -> nat {
    match j {
        JointType::Free => 6,
        JointType::Revolute => 1,
        JointType::Prismatic => 1,
        JointType::Spherical => 3,
        JointType::Fixed => 0,
        JointType::KcTravel => 1,
    }
}

/// Coordinates of no displacement and identity rotation.
pub open spec fn neutral_of(j: JointType) -> Seq<i8> {
    match j {
        JointType::Free => seq![0i8, 0, 0, 0, 0, 0, 1],
        JointType::Revolute => seq![0i8],
        JointType::Prismatic => seq![0i8],
        JointType::Spherical => seq![0i8, 0, 0, 1],
        JointType::Fixed => Seq::empty(),
        JointType::KcTravel => seq![0i8],
    }
}

impl JointType {
    /// Number of position coordinates.
    pub fn nq(&self) -> (n: usize)
        ensures
            n == nq_of(*self),
    {
        match *self {
            JointType::Free => 7,
            JointType::Revolute | JointType::Prismatic | JointType::KcTravel => 1,
            JointType::Spherical => 4,
            JointType::Fixed => 0,
        }
    }

    /// Number of velocity coordinates (degrees of freedom).
    pub fn nv(&self) -> (n: usize)
        ensures
            n == nv_of(*self),
    {
        match *self {
            JointType::Free => 6,
            JointType::Revolute | JointType::Prismatic | JointType::KcTravel => 1,
            JointType::Spherical => 3,
            JointType::Fixed => 0,
        }
    }

    /// Neutral configuration: no displacement, identity rotation.
    pub fn neutral_q(&self) -> (q: Vec<i8>)
        ensures
            q@ == neutral_of(*self),
            q@.len() == nq_of(*self),
    {
        match *self {
            JointType::Free => vec![0i8, 0, 0, 0, 0, 0, 1],
            JointType::Spherical => vec![0i8, 0, 0, 1],
            JointType::Revolute | JointType::Prismatic | JointType::KcTravel => vec![0i8],
            JointType::Fixed => Vec::new(),
        }
    }

    /// Whether the motion subspace depends on the configuration.
    pub fn configuration_dependent(&self) -> (r: bool)
        ensures
            r == (*self == JointType::KcTravel),
    {
        *self == JointType::KcTravel
    }
}

/// One rigid link and the joint that connects it to its parent.
#[derive(Clone, Debug, PartialEq)]
pub struct Link {
    pub name: String,
    /// Parent link, or `None` for the world.
    pub parent: Option<usize>,
    pub joint: JointType,
    /// Whether the joint's acceleration is given instead of its force.
    pub prescribed: bool,
}

/// Whether a link is an unprescribed free joint at the root, which one solve of its six equations
/// handles.
pub open spec fn free_root(l: Link) -> bool {
    l.parent is None && !l.prescribed && l.joint == JointType::Free
}

/// Whether a link is an unprescribed free joint at the root.
pub fn is_free_root(link: &Link) -> (r: bool)
    ensures
        r == free_root(*link),
{
    link.parent.is_none() && !link.prescribed && link.joint == JointType::Free
}

/// How the articulated-body recursion treats a link.
#[derive(Clone, Copy, Debug, PartialEq, Eq, Structural)]
pub enum LinkPass {
    /// Solved on its own in the last pass.
    FreeRoot,
    /// Rigidly attached: inertia and bias force pass on unchanged.
    Rigid,
    /// Moves as given: inertia passes on unchanged, the joint force is an output.
    Prescribed,
    /// Gives way along its joint.
    Articulated,
}

pub open spec fn pass_of(l: Link) -> LinkPass {
    if free_root(l) {
        LinkPass::FreeRoot
    } else if nv_of(l.joint) == 0 {
        LinkPass::Rigid
    } else if l.prescribed {
        LinkPass::Prescribed
    } else {
        LinkPass::Articulated
    }
}

impl Link {
    /// How the articulated-body recursion treats this link.
    pub fn pass(&self) -> (r: LinkPass)
        ensures
            r == pass_of(*self),
    {
        if is_free_root(self) {
            LinkPass::FreeRoot
        } else if self.joint.nv() == 0 {
            LinkPass::Rigid
        } else if self.prescribed {
            LinkPass::Prescribed
        } else {
            LinkPass::Articulated
        }
    }
}

/// Whether the recursion can divide by the inertia `d` seen by the single degree of freedom of
/// link `i`.
pub fn joint_pivot(i: usize, d: u64) -> (r: Result<(), DynamicsError>)
    ensures
        r is Ok <==> ieee::finite64(d) && ieee::rank64(d) > 0,
        r matches Err(e) ==> e == DynamicsError::Singular(i),
{
    match linalg::spd_pivot(d) {
        Ok(_) => Ok(()),
        Err(e) => Err(singular(i, e)),
    }
}

/// The failure of the forward dynamics at a link whose inertia cannot be factorised.
pub fn singular(i: usize, e: NotPositiveDefinite) -> (r: DynamicsError)
    ensures
        r == DynamicsError::Singular(i),
{
    DynamicsError::Singular(i)
}

/// The number of position coordinates of the first `n` links.
pub open spec fn total_nq(links: Seq<Link>, n: int) -> nat
    decreases n,
{
    if n <= 0 {
        0
    } else {
        total_nq(links, n - 1) + nq_of(links[n - 1].joint)
    }
}

/// The number of velocity coordinates of the first `n` links.
pub open spec fn total_nv(links: Seq<Link>, n: int) -> nat
    decreases n,
{
    if n <= 0 {
        0
    } else {
        total_nv(links, n - 1) + nv_of(links[n - 1].joint)
    }
}

/// A kinematic tree; every link comes after its parent.
#[derive(Clone, Debug, PartialEq)]
pub struct MultibodyModel {
    links: Vec<Link>,
    q_off: Vec<usize>,
    v_off: Vec<usize>,
    nq: usize,
    nv: usize,
}

impl View for MultibodyModel {
    type V = Seq<Link>;

    closed spec fn view(&self) -> Seq<Link> {
        self.links@
    }
}

/// Whether links are a single free-floating body.
pub open spec fn single_free_body(links: Seq<Link>) -> bool {
    links.len() == 1 && links[0].joint == JointType::Free
}

/// Whether every link comes after its parent.
pub open spec fn parents_first(links: Seq<Link>) -> bool {
    forall|i: int|
        0 <= i < links.len() ==> ((#[trigger] links[i]).parent matches Some(p) ==> p < i)
}

proof fn lemma_totals_push(links: Seq<Link>, l: Link, n: int)
    requires
        0 <= n <= links.len(),
    ensures
        total_nq(links.push(l), n) == total_nq(links, n),
        total_nv(links.push(l), n) == total_nv(links, n),
    decreases n,
{
    if n > 0 {
        lemma_totals_push(links, l, n - 1);
    }
}

/// A link that is added behind the others counts for none of them, and comes after its parent.
proof fn lemma_added(links: Seq<Link>, l: Link)
    requires
        parents_first(links),
        l.parent matches Some(p) ==> p < links.len(),
    ensures
        parents_first(links.push(l)),
        forall|i: int|
            0 <= i <= links.len() ==> #[trigger] total_nq(links.push(l), i) == total_nq(links, i)
                && total_nv(links.push(l), i) == total_nv(links, i),
{
    assert forall|i: int| 0 <= i <= links.len() implies #[trigger] total_nq(links.push(l), i) == total_nq(
        links,
        i,
    ) && total_nv(links.push(l), i) == total_nv(links, i) by {
        lemma_totals_push(links, l, i);
    }
    assert forall|i: int| 0 <= i < links.push(l).len() implies ((
    #[trigger] links.push(l)[i]).parent matches Some(p) ==> p < i) by {
        if i < links.len() {
            assert(links[i].parent == links.push(l)[i].parent);
        }
    }
}

/// An added link keeps the coordinates of the others where they are and takes the next ones, and
/// parents still come first.
pub proof fn lemma_added_links_keep_the_others(links: Seq<Link>, l: Link, i: int)
    requires
        parents_first(links),
        l.parent matches Some(p) ==> p < links.len(),
        0 <= i <= links.len(),
    ensures
        total_nq(links.push(l), i) == total_nq(links, i),
        total_nv(links.push(l), i) == total_nv(links, i),
        total_nq(links.push(l), links.len() as int + 1) == total_nq(links, links.len() as int) + nq_of(l.joint),
        total_nv(links.push(l), links.len() as int + 1) == total_nv(links, links.len() as int) + nv_of(l.joint),
        parents_first(links.push(l)),
{
    lemma_totals_push(links, l, i);
    lemma_totals_push(links, l, links.len() as int);
    assert forall|k: int| 0 <= k < links.push(l).len() implies ((#[trigger] links.push(l)[k]).parent matches Some(p)
        ==> p < k) by {
        if k < links.len() {
            assert(links[k].parent == links.push(l)[k].parent);
        }
    }
}

proof fn lemma_totals_agree(a: Seq<Link>, b: Seq<Link>, n: int)
    requires
        0 <= n <= a.len() == b.len(),
        forall|i: int| 0 <= i < a.len() ==> (#[trigger] a[i]).joint == b[i].joint,
    ensures
        total_nq(a, n) == total_nq(b, n),
        total_nv(a, n) == total_nv(b, n),
    decreases n,
{
    if n > 0 {
        lemma_totals_agree(a, b, n - 1);
    }
}

impl Default for MultibodyModel {
    /// A model without links.
    fn default() -> (m: MultibodyModel)
        ensures
            m.wf(),
            m@.len() == 0,
    {
        MultibodyModel::new()
    }
}

impl MultibodyModel {
    /// Parents come first, and the coordinates of the links lie one behind the other.
    pub closed spec fn wf(&self) -> bool {
        &&& parents_first(self.links@)
        &&& self.q_off@.len() == self.links@.len()
        &&& self.v_off@.len() == self.links@.len()
        &&& forall|i: int|
            0 <= i < self.links@.len() ==> #[trigger] self.q_off@[i] == total_nq(self.links@, i)
        &&& forall|i: int|
            0 <= i < self.links@.len() ==> #[trigger] self.v_off@[i] == total_nv(self.links@, i)
        &&& self.nq == total_nq(self.links@, self.links@.len() as int)
        &&& self.nv == total_nv(self.links@, self.links@.len() as int)
    }

    /// Parents come first in every tree.
    pub proof fn lemma_parents_first(&self)
        requires
            self.wf(),
        ensures
            parents_first(self@),
    {
    }

    /// A tree without links.
    pub fn new() -> (m: MultibodyModel)
        ensures
            m.wf(),
            m@.len() == 0,
    {
        MultibodyModel { links: Vec::new(), q_off: Vec::new(), v_off: Vec::new(), nq: 0, nv: 0 }
    }

    /// Appends a link and returns its index. The parent must have been added before.
    pub fn add_link(&mut self, name: &str, parent: Option<usize>, joint: JointType) -> (idx: usize)
        requires
            old(self).wf(),
            parent matches Some(p) ==> p < old(self)@.len(),
            total_nq(old(self)@, old(self)@.len() as int) + 7 <= usize::MAX,
            total_nv(old(self)@, old(self)@.len() as int) + 6 <= usize::MAX,
        ensures
            final(self).wf(),
            idx == old(self)@.len(),
            final(self)@.len() == old(self)@.len() + 1,
            final(self)@.take(idx as int) == old(self)@,
            final(self)@[idx as int].name@ == name@,
            final(self)@[idx as int].parent == parent,
            final(self)@[idx as int].joint == joint,
            !final(self)@[idx as int].prescribed,
            forall|i: int|
                0 <= i <= idx ==> #[trigger] total_nq(final(self)@, i) == total_nq(old(self)@, i)
                    && total_nv(final(self)@, i) == total_nv(old(self)@, i),
            total_nq(final(self)@, idx + 1) == total_nq(old(self)@, idx as int) + nq_of(joint),
            total_nv(final(self)@, idx + 1) == total_nv(old(self)@, idx as int) + nv_of(joint),
            parents_first(final(self)@),
    {
        let idx: usize = self.links.len();
        let ghost before = self.links@;
        let ghost (q_off, v_off) = (self.q_off@, self.v_off@);
        let link = Link { name: name.to_owned(), parent, joint, prescribed: false };
        self.q_off.push(self.nq);
        self.v_off.push(self.nv);
        self.nq = self.nq + joint.nq();
        self.nv = self.nv + joint.nv();
        self.links.push(link);
        proof {
            let after = self.links@;
            assert(after == before.push(link));
            lemma_added(before, link);
            assert forall|i: int| 0 <= i < after.len() implies #[trigger] self.q_off@[i] == total_nq(
                after,
                i,
            ) && self.v_off@[i] == total_nv(after, i) by {
                assert(total_nq(after, i) == total_nq(before, i));
                if i < before.len() {
                    assert(q_off[i] == total_nq(before, i) && v_off[i] == total_nv(before, i));
                }
            }
            assert forall|i: int| 0 <= i < after.len() implies #[trigger] self.v_off@[i] == total_nv(
                after,
                i,
            ) by {
                assert(self.q_off@[i] == total_nq(after, i));
            }
            assert(self@.take(idx as int) =~= before);
            assert(total_nq(after, idx as int) == total_nq(before, idx as int));
        }
        idx
    }

    /// Marks a joint as prescribed or not.
    pub fn set_prescribed(&mut self, link: usize, prescribed: bool)
        requires
            old(self).wf(),
            link < old(self)@.len(),
        ensures
            final(self).wf(),
            final(self)@ == old(self)@.update(
                link as int,
                (Link { prescribed, ..old(self)@[link as int] }),
            ),
    {
        let ghost before = self.links@;
        self.links[link].prescribed = prescribed;
        proof {
            assert(self.links@ =~= before.update(
                link as int,
                Link { prescribed, ..before[link as int] },
            ));
            assert forall|i: int| 0 <= i <= before.len() implies total_nq(self.links@, i) == #[trigger] total_nq(
                before,
                i,
            ) && total_nv(self.links@, i) == total_nv(before, i) by {
                lemma_totals_agree(self.links@, before, i);
            }
            assert(total_nq(before, before.len() as int) >= 0);
            assert forall|i: int| 0 <= i < self.links@.len() implies #[trigger] self.q_off@[i] == total_nq(
                self.links@,
                i,
            ) && self.v_off@[i] == total_nv(self.links@, i) by {
                assert(total_nq(before, i) >= 0);
                assert(self.v_off@[i] == total_nv(before, i));
            }
            assert forall|i: int| 0 <= i < self.links@.len() implies #[trigger] self.v_off@[i]
                == total_nv(self.links@, i) by {
                assert(total_nq(before, i) >= 0);
            }
            assert forall|i: int| 0 <= i < self.links@.len() implies ((
            #[trigger] self.links@[i]).parent matches Some(p) ==> p < i) by {
                assert(before[i].parent == self.links@[i].parent);
            }
        }
    }

    pub fn link(&self, i: usize) -> (l: &Link)
        requires
            i < self@.len(),
        ensures
            *l == self@[i as int],
    {
        &self.links[i]
    }

    pub fn num_links(&self) -> (n: usize)
        ensures
            n == self@.len(),
    {
        self.links.len()
    }

    /// Number of position coordinates.
    pub fn nq(&self) -> (n: usize)
        requires
            self.wf(),
        ensures
            n == total_nq(self@, self@.len() as int),
    {
        self.nq
    }

    /// Number of velocity coordinates.
    pub fn nv(&self) -> (n: usize)
        requires
            self.wf(),
        ensures
            n == total_nv(self@, self@.len() as int),
    {
        self.nv
    }

    /// Where the position coordinates of a link start.
    pub fn q_offset(&self, link: usize) -> (o: usize)
        requires
            self.wf(),
            link < self@.len(),
        ensures
            o == total_nq(self@, link as int),
    {
        self.q_off[link]
    }

    /// Where the velocity coordinates of a link start.
    pub fn v_offset(&self, link: usize) -> (o: usize)
        requires
            self.wf(),
            link < self@.len(),
        ensures
            o == total_nv(self@, link as int),
    {
        self.v_off[link]
    }

    /// Where the position coordinates of a link start and end.
    pub fn q_slice(&self, link: usize) -> (r: (usize, usize))
        requires
            self.wf(),
            link < self@.len(),
        ensures
            r.0 == total_nq(self@, link as int),
            r.1 == total_nq(self@, link + 1),
            r.1 <= total_nq(self@, self@.len() as int),
    {
        proof {
            lemma_totals_grow(self@, link + 1, self@.len() as int);
        }
        let o: usize = self.q_off[link];
        (o, o + self.links[link].joint.nq())
    }

    /// Where the velocity coordinates of a link start and end.
    pub fn v_slice(&self, link: usize) -> (r: (usize, usize))
        requires
            self.wf(),
            link < self@.len(),
        ensures
            r.0 == total_nv(self@, link as int),
            r.1 == total_nv(self@, link + 1),
            r.1 <= total_nv(self@, self@.len() as int),
    {
        proof {
            lemma_totals_grow(self@, link + 1, self@.len() as int);
        }
        let o: usize = self.v_off[link];
        (o, o + self.links[link].joint.nv())
    }

    /// The first link with a name.
    pub fn find_link(&self, name: &str) -> (r: Option<usize>)
        ensures
            r is None <==> forall|i: int| 0 <= i < self@.len() ==> (#[trigger] self@[i]).name@ != name@,
            r matches Some(k) ==> {
                &&& k < self@.len()
                &&& self@[k as int].name@ == name@
                &&& forall|i: int| 0 <= i < k ==> (#[trigger] self@[i]).name@ != name@
            },
    {
        let mut i: usize = 0;
        while i < self.links.len()
            invariant
                i <= self.links@.len(),
                forall|j: int| 0 <= j < i ==> (#[trigger] self.links@[j]).name@ != name@,
            decreases self.links@.len() - i,
        {
            if text::same(self.links[i].name.as_str(), name) {
                return Some(i);
            }
            i += 1;
        }
        None
    }

    /// Whether the tree is a single free-floating body.
    pub fn is_single_free_body(&self) -> (r: bool)
        ensures
            r == single_free_body(self@),
    {
        self.links.len() == 1 && self.links[0].joint == JointType::Free
    }

    /// The position coordinates at the neutral configuration.
    pub fn neutral_state(&self) -> (q: Vec<i8>)
        requires
            self.wf(),
        ensures
            q@ == neutral_all(self@, self@.len() as int),
            q@.len() == total_nq(self@, self@.len() as int),
    {
        let mut q: Vec<i8> = Vec::new();
        let mut i: usize = 0;
        while i < self.links.len()
            invariant
                i <= self.links@.len(),
                q@ == neutral_all(self.links@, i as int),
                q@.len() == total_nq(self.links@, i as int),
            decreases self.links@.len() - i,
        {
            let mut part = self.links[i].joint.neutral_q();
            q.append(&mut part);
            i += 1;
        }
        q
    }

    /// The links on the way from a link to its root, without the link itself: its parent, the
    /// parent's parent and so on.
    pub fn ancestors(&self, link: usize) -> (chain: Vec<usize>)
        requires
            self.wf(),
            link < self@.len(),
        ensures
            chain@ == lineage(self@, link as int),
    {
        let ghost links = self@;
        let mut chain: Vec<usize> = Vec::new();
        let mut j: usize = link;
        proof {
            assert(chain@ + lineage(links, j as int) =~= lineage(links, link as int));
        }
        loop
            invariant
                self.links@ == links,
                parents_first(links),
                j < links.len(),
                chain@ + lineage(links, j as int) == lineage(links, link as int),
            ensures
                chain@ == lineage(links, link as int),
            decreases j,
        {
            assert(links[j as int].parent matches Some(p) ==> p < j);
            match self.links[j].parent {
                Some(p) => {
                    proof {
                        assert(chain@.push(p) + lineage(links, p as int) =~= chain@ + lineage(
                            links,
                            j as int,
                        ));
                    }
                    chain.push(p);
                    j = p;
                },
                None => {
                    assert(chain@ =~= chain@ + lineage(links, j as int));
                    break;
                },
            }
        }
        chain
    }

    /// How the articulated-body recursion treats each link, in tree order.
    pub fn passes(&self) -> (r: Vec<LinkPass>)
        ensures
            r@ == self@.map_values(|l: Link| pass_of(l)),
    {
        let mut r: Vec<LinkPass> = Vec::new();
        let mut i: usize = 0;
        while i < self.links.len()
            invariant
                i <= self.links@.len(),
                r@ == self.links@.take(i as int).map_values(|l: Link| pass_of(l)),
            decreases self.links@.len() - i,
        {
            r.push(self.links[i].pass());
            i += 1;
            assert(r@ =~= self.links@.take(i as int).map_values(|l: Link| pass_of(l)));
        }
        assert(self.links@.take(self.links@.len() as int) =~= self.links@);
        r
    }
}

/// The neutral coordinates of the first `n` links, one link behind the other.
pub open spec fn neutral_all(links: Seq<Link>, n: int) -> Seq<i8>
    decreases n,
{
    if n <= 0 {
        Seq::empty()
    } else {
        neutral_all(links, n - 1) + neutral_of(links[n - 1].joint)
    }
}

/// The ancestors of a link, from its parent to the root.
pub open spec fn lineage(links: Seq<Link>, i: int) -> Seq<usize>
    decreases i,
{
    match links[i].parent {
        Some(p) => if p < i {
            seq![p] + lineage(links, p as int)
        } else {
            Seq::empty()
        },
        None => Seq::empty(),
    }
}

/// The coordinates of earlier links end before those of later links start: no coordinate belongs
/// to two links, and together the links use all of them.
pub proof fn lemma_totals_grow(links: Seq<Link>, a: int, b: int)
    requires
        0 <= a <= b,
    ensures
        total_nq(links, a) <= total_nq(links, b),
        total_nv(links, a) <= total_nv(links, b),
    decreases b - a,
{
    if a < b {
        lemma_totals_grow(links, a, b - 1);
    }
}

/// Every position coordinate belongs to exactly one link.
pub proof fn lemma_coordinates_have_one_link(links: Seq<Link>, n: int, x: int) -> (i: int)
    requires
        0 <= n <= links.len(),
        0 <= x < total_nq(links, n),
    ensures
        0 <= i < n,
        total_nq(links, i) <= x < total_nq(links, i + 1),
        forall|j: int|
            0 <= j < n && total_nq(links, j) <= x && x < #[trigger] total_nq(links, j + 1) ==> j == i,
    decreases n,
{
    let i = if x >= total_nq(links, n - 1) {
        n - 1
    } else {
        lemma_coordinates_have_one_link(links, n - 1, x)
    };
    assert forall|j: int|
        0 <= j < n && total_nq(links, j) <= x && x < #[trigger] total_nq(links, j + 1) implies j == i by {
        if j < i {
            lemma_totals_grow(links, j + 1, i);
        } else if i < j {
            lemma_totals_grow(links, i + 1, j);
        }
    }
    i
}

/// Ancestors come earlier and earlier in the tree.
pub proof fn lemma_lineage_descends(links: Seq<Link>, i: int, a: int, b: int)
    requires
        parents_first(links),
        0 <= i < links.len(),
        0 <= a < b < lineage(links, i).len(),
    ensures
        lineage(links, i)[b] < lineage(links, i)[a] < i,
    decreases i,
{
    let p = links[i].parent->0 as int;
    let up = lineage(links, p);
    assert(links[i].parent is Some);
    assert(p < i);
    if a > 0 {
        lemma_lineage_descends(links, p, a - 1, b - 1);
    } else {
        lemma_lineage_below(links, p, b - 1);
    }
}

proof fn lemma_lineage_below(links: Seq<Link>, i: int, a: int)
    requires
        parents_first(links),
        0 <= i < links.len(),
        0 <= a < lineage(links, i).len(),
    ensures
        lineage(links, i)[a] < i,
    decreases i,
{
    let p = links[i].parent->0 as int;
    assert(links[i].parent is Some);
    assert(p < i);
    if a > 0 {
        lemma_lineage_below(links, p, a - 1);
    }
}

/// A joint has no degree of freedom exactly if it is fixed, three if it only turns freely, six if it
/// also moves freely, and else one; an orientation takes one position coordinate more than it has
/// degrees of freedom.
pub proof fn lemma_degrees_of_freedom(j: JointType)
    ensures
        nv_of(j) == 0 <==> j == JointType::Fixed,
        nv_of(j) == 6 <==> j == JointType::Free,
        nv_of(j) == 3 <==> j == JointType::Spherical,
        nv_of(j) == 1 <==> j == JointType::Revolute || j == JointType::Prismatic || j == JointType::KcTravel,
        nq_of(j) == if j == JointType::Free || j == JointType::Spherical {
            nv_of(j) + 1
        } else {
            nv_of(j)
        },
{
}

/// In the neutral configuration every position coordinate is 0, but for the real part of an
/// orientation, which comes last and is 1.
pub proof fn lemma_neutral_is_no_displacement(j: JointType, k: int)
    requires
        0 <= k < nq_of(j),
    ensures
        neutral_of(j).len() == nq_of(j),
        neutral_of(j)[k] == if (j == JointType::Free || j == JointType::Spherical) && k == nq_of(j) - 1 {
            1i8
        } else {
            0i8
        },
{
}

/// A link is welded to its parent exactly if its joint has no degree of freedom: every velocity
/// coordinate belongs to a link that is solved for, or moves as given. A joint that moves as given is
/// solved for by nothing, and only a free one at the root is solved on its own.
pub proof fn lemma_every_coordinate_is_treated(l: Link)
    ensures
        pass_of(l) == LinkPass::Rigid <==> nv_of(l.joint) == 0,
        pass_of(l) == LinkPass::Rigid <==> l.joint == JointType::Fixed,
        pass_of(l) == LinkPass::Prescribed <==> l.prescribed && l.joint != JointType::Fixed,
        pass_of(l) == LinkPass::FreeRoot <==> !l.prescribed && l.parent is None && l.joint == JointType::Free,
        pass_of(l) == LinkPass::Articulated <==> !l.prescribed && l.joint != JointType::Fixed && !(l.parent is None
            && l.joint == JointType::Free),
{
}

/// How a link is treated does not depend on its name, nor on which link its parent is.
pub proof fn lemma_pass_reads_the_joint(a: Link, b: Link)
    requires
        a.joint == b.joint,
        a.prescribed == b.prescribed,
        a.parent is None == b.parent is None,
    ensures
        pass_of(a) == pass_of(b),
{
}

/// Each link takes as many coordinates as its joint has, behind those of the links before it.
pub proof fn lemma_links_take_their_coordinates(links: Seq<Link>, i: int)
    requires
        0 <= i < links.len(),
    ensures
        total_nq(links, 0) == 0 && total_nv(links, 0) == 0,
        total_nq(links, i + 1) - total_nq(links, i) == nq_of(links[i].joint),
        total_nv(links, i + 1) - total_nv(links, i) == nv_of(links[i].joint),
{
}

/// In the neutral configuration every link has the neutral coordinates of its joint, in its own place.
pub proof fn lemma_neutral_coordinates_of_links(links: Seq<Link>, n: int, i: int)
    requires
        0 <= i < n <= links.len(),
    ensures
        neutral_all(links, n).len() == total_nq(links, n),
        total_nq(links, i) <= total_nq(links, i + 1) <= total_nq(links, n),
        neutral_all(links, n).subrange(total_nq(links, i) as int, total_nq(links, i + 1) as int) == neutral_of(
            links[i].joint,
        ),
    decreases n,
{
    lemma_neutral_len(links, n);
    lemma_neutral_len(links, n - 1);
    lemma_totals_grow(links, i + 1, n);
    let all = neutral_all(links, n);
    let (a, b) = (total_nq(links, i) as int, total_nq(links, i + 1) as int);
    if i < n - 1 {
        lemma_neutral_coordinates_of_links(links, n - 1, i);
        lemma_totals_grow(links, i + 1, n - 1);
        assert(all.subrange(a, b) =~= neutral_all(links, n - 1).subrange(a, b));
    } else {
        assert(all.subrange(a, b) =~= neutral_of(links[i].joint));
    }
}

proof fn lemma_neutral_len(links: Seq<Link>, n: int)
    ensures
        neutral_all(links, n).len() == total_nq(links, n),
    decreases n,
{
    if n > 0 {
        lemma_neutral_len(links, n - 1);
    }
}

/// Whether place `k` of a list holds the parent of the link in the place before.
pub open spec fn steps_up(links: Seq<Link>, l: Seq<usize>, k: int) -> bool {
    links[l[k - 1] as int].parent == Some(l[k])
}

/// The ancestors of a link are its parent, then the parent of each, up to a link at the root; a link at
/// the root has none.
pub proof fn lemma_ancestors_lead_to_the_root(links: Seq<Link>, i: int)
    requires
        parents_first(links),
        0 <= i < links.len(),
    ensures
        ({
            let l = lineage(links, i);
            &&& l.len() == 0 <==> links[i].parent is None
            &&& l.len() > 0 ==> links[i].parent == Some(l[0]) && links[l.last() as int].parent is None
            &&& forall|k: int| 0 < k < l.len() ==> #[trigger] steps_up(links, l, k)
        }),
    decreases i,
{
    assert(links[i].parent matches Some(p) ==> p < i);
    if let Some(p) = links[i].parent {
        lemma_ancestors_lead_to_the_root(links, p as int);
        let (l, rest) = (lineage(links, i), lineage(links, p as int));
        assert(l[0] == p);
        assert forall|k: int| 0 < k < l.len() implies #[trigger] steps_up(links, l, k) by {
            assert(l[k] == rest[k - 1]);
            if k > 1 {
                assert(l[k - 1] == rest[k - 2]);
                assert(steps_up(links, rest, k - 1));
            }
        }
        if rest.len() > 0 {
            assert(l.last() == rest.last());
        } else {
            assert(l.last() == p);
        }
    }
}

/// A scheme evaluates the forces once for each order of accuracy, at least once.
pub proof fn lemma_stages(i: Integrator)
    ensures
        stages_of(Integrator::SemiImplicitEuler) == 1,
        stages_of(Integrator::Rk4) == 4,
        stages_of(i) >= 1,
{
}

/// A single free body has the coordinates of a free joint and no others; nothing else of one link has.
pub proof fn lemma_single_free_bodies(links: Seq<Link>)
    ensures
        single_free_body(links) ==> total_nq(links, links.len() as int) == 7 && total_nv(links, links.len() as int) == 6,
        links.len() == 1 && links[0].joint == JointType::Free ==> single_free_body(links),
        links.len() != 1 ==> !single_free_body(links),
        links.len() == 1 && total_nv(links, 1) != 6 ==> !single_free_body(links),
{
    if links.len() == 1 {
        assert(total_nq(links, 1) == total_nq(links, 0) + nq_of(links[0].joint));
        assert(total_nv(links, 1) == total_nv(links, 0) + nv_of(links[0].joint));
    }
}

} // verus!
