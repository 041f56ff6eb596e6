//! What a batch of simulated worlds accepts: groups and worlds by index, and arrays by shape.

use vstd::prelude::*;
use vstd::string::StringExecFns;

use crate::text;

verus! {

/// What was wrong with a request.
#[derive(Debug)]
pub enum BatchError {
    /// An index out of range.
    Index(String),
    /// A name that does not exist.
    Key(String),
    /// A wrong shape or value.
    Value(String),
    /// A wrong kind of argument.
    Type(String),
}

/// A group given by index or name.
pub enum GroupRef {
    Index(usize),
    Name(String),
}

/// One group of agents.
pub struct Group {
    pub name: String,
    /// Agents per world, and the length of an agent's action.
    pub count: usize,
    pub act_dim: usize,
}

/// A number of worlds with the same groups.
pub struct Layout {
    pub num_envs: usize,
    pub groups: Vec<Group>,
}

/// A shape in words.
pub open spec fn shape_text(shape: Seq<usize>) -> Seq<char> {
    "["@ + text::joined(shape.map_values(|n: usize| text::decimal_of(n as nat)), ", "@) + "]"@
}

fn shape_string(shape: &Vec<usize>) -> (r: String)
    ensures
        r@ == shape_text(shape@),
{
    let ghost all = shape@.map_values(|n: usize| text::decimal_of(n as nat));
    let mut parts: Vec<String> = Vec::new();
    let mut i: usize = 0;
    while i < shape.len()
        invariant
            i <= shape@.len(),
            all == shape@.map_values(|n: usize| text::decimal_of(n as nat)),
            text::views(parts@) == all.take(i as int),
        decreases shape@.len() - i,
    {
        let ghost before = parts@;
        let s = text::decimal(shape[i] as u64);
        parts.push(s);
        i += 1;
        assert(text::views(parts@) =~= text::views(before).push(s@));
        assert(all.take(i as int) =~= all.take(i - 1).push(s@));
    }
    assert(all.take(i as int) =~= all);
    let mut r = "[".to_owned();
    r.append(text::join(&parts, ", ").as_str());
    r.append("]");
    r
}

/// Whether an array holds `len` values in `rows` rows.
pub open spec fn fits(shape: Seq<usize>, held: usize, len: usize, rows: usize) -> bool {
    held == len && shape.len() > 0 && shape[0] == rows
}

fn is_fit(shape: &Vec<usize>, held: usize, len: usize, rows: usize) -> (r: bool)
    ensures
        r == fits(shape@, held, len, rows),
{
    held == len && shape.len() > 0 && shape[0] == rows
}

/// What is said of a group that is out of range, or does not exist.
pub open spec fn no_such_group(g: GroupRef, n: nat) -> Seq<char> {
    match g {
        GroupRef::Index(i) => "group "@ + text::decimal_of(i as nat) + " out of range ("@ + text::decimal_of(n)
            + " groups)"@,
        GroupRef::Name(s) => "no group named "@ + text::quoted(s@),
    }
}

/// Whether so many arrays, in a list or one alone, are what so many groups take.
pub open spec fn arrays_match(listed: bool, arrays: usize, groups: nat) -> bool {
    if listed {
        arrays == groups
    } else {
        groups == 1
    }
}

/// Whether values that may be given for each of so many worlds are as many.
pub open spec fn one_per_world(given: Option<usize>, worlds: usize) -> bool {
    given matches Some(n) ==> n == worlds
}

impl Layout {
    /// Whether group `i` is the first with a name.
    pub open spec fn first_named(&self, name: Seq<char>, i: int) -> bool {
        &&& 0 <= i < self.groups@.len()
        &&& self.groups@[i].name@ == name
        &&& forall|j: int| 0 <= j < i ==> (#[trigger] self.groups@[j]).name@ != name
    }

    /// Whether there is such a group.
    pub open spec fn has(&self, g: GroupRef) -> bool {
        match g {
            GroupRef::Index(i) => i < self.groups@.len(),
            GroupRef::Name(s) => self.named(s@),
        }
    }

    /// Whether some group has a name.
    pub open spec fn named(&self, name: Seq<char>) -> bool {
        exists|i: int| self.first_named(name, i)
    }

    /// The index of a group.
    pub fn group(&self, g: &GroupRef) -> (r: Result<usize, BatchError>)
        ensures
            r is Ok <==> self.has(*g),
            match r {
                Ok(i) => match *g {
                    GroupRef::Index(k) => i == k,
                    GroupRef::Name(s) => self.first_named(s@, i as int),
                },
                Err(e) => match *g {
                    GroupRef::Index(_) => e is Index && (e->Index_0)@ == no_such_group(
                        *g,
                        self.groups@.len(),
                    ),
                    GroupRef::Name(_) => e is Key && (e->Key_0)@ == no_such_group(*g, self.groups@.len()),
                },
            },
    {
        let n: usize = self.groups.len();
        match g {
            GroupRef::Index(i) => {
                if *i < n {
                    return Ok(*i);
                }
                let mut m = "group ".to_owned();
                m.append(text::decimal(*i as u64).as_str());
                m.append(" out of range (");
                m.append(text::decimal(n as u64).as_str());
                m.append(" groups)");
                Err(BatchError::Index(m))
            },
            GroupRef::Name(s) => {
                let mut i: usize = 0;
                while i < n
                    invariant
                        i <= n == self.groups@.len(),
                        forall|j: int| 0 <= j < i ==> (#[trigger] self.groups@[j]).name@ != s@,
                        *g == GroupRef::Name(*s),
                    decreases n - i,
                {
                    if text::same(self.groups[i].name.as_str(), s.as_str()) {
                        assert(self.first_named(s@, i as int));
                        assert(self.named(s@));
                        return Ok(i);
                    }
                    i += 1;
                }
                let mut m = "no group named ".to_owned();
                m.append(text::quote(s.as_str()).as_str());
                Err(BatchError::Key(m))
            },
        }
    }

    /// Checks the index of a world.
    pub fn env(&self, i: usize) -> (r: Result<usize, BatchError>)
        ensures
            match r {
                Ok(k) => k == i && i < self.num_envs,
                Err(e) => i >= self.num_envs && e is Index && (e->Index_0)@ == "env "@ + text::decimal_of(
                    i as nat,
                ) + " out of range ("@ + text::decimal_of(self.num_envs as nat) + " envs)"@,
            },
    {
        if i < self.num_envs {
            return Ok(i);
        }
        let mut m = "env ".to_owned();
        m.append(text::decimal(i as u64).as_str());
        m.append(" out of range (");
        m.append(text::decimal(self.num_envs as u64).as_str());
        m.append(" envs)");
        Err(BatchError::Index(m))
    }

    /// How many action values group `g` takes.
    pub open spec fn action_len(&self, g: int) -> int {
        self.num_envs * self.groups@[g].count * self.groups@[g].act_dim
    }

    /// What is said of an action array of the wrong shape.
    pub open spec fn bad_actions(&self, g: int, shape: Seq<usize>) -> Seq<char> {
        "actions of group "@ + text::quoted(self.groups@[g].name@) + ": expected "@ + text::decimal_of(
            self.action_len(g) as nat,
        ) + " values as [num_envs = "@ + text::decimal_of(self.num_envs as nat) + ", ...], got shape "@
            + shape_text(shape)
    }

    /// Checks the array of actions of group `g`, which holds `held` values: any shape will do that has a
    /// row per world and as many values as the group takes.
    pub fn check_actions(&self, g: usize, shape: &Vec<usize>, held: usize) -> (r: Result<(), BatchError>)
        requires
            g < self.groups@.len(),
            self.action_len(g as int) <= usize::MAX,
            self.num_envs * self.groups@[g as int].count <= usize::MAX,
        ensures
            r is Ok <==> fits(shape@, held, self.action_len(g as int) as usize, self.num_envs),
            r matches Err(e) ==> e is Value && (e->Value_0)@ == self.bad_actions(g as int, shape@),
    {
        let group = &self.groups[g];
        let len: usize = self.num_envs * group.count * group.act_dim;
        if is_fit(shape, held, len, self.num_envs) {
            return Ok(());
        }
        let mut m = "actions of group ".to_owned();
        m.append(text::quote(group.name.as_str()).as_str());
        m.append(": expected ");
        m.append(text::decimal(len as u64).as_str());
        m.append(" values as [num_envs = ");
        m.append(text::decimal(self.num_envs as u64).as_str());
        m.append(", ...], got shape ");
        m.append(shape_string(shape).as_str());
        Err(BatchError::Value(m))
    }

    /// Checks the number of action arrays: one per group in a list, or a single array for a single
    /// group.
    pub fn check_arrays(&self, listed: bool, arrays: usize) -> (r: Result<(), BatchError>)
        ensures
            r is Ok <==> arrays_match(listed, arrays, self.groups@.len()),
            r matches Err(e) ==> if listed {
                e is Value && (e->Value_0)@ == "expected "@ + text::decimal_of(self.groups@.len())
                    + " action arrays (one per group), got "@ + text::decimal_of(arrays as nat)
            } else {
                e is Type && (e->Type_0)@ == "pass a list with one action array per group"@
            },
    {
        let n: usize = self.groups.len();
        if listed {
            if arrays == n {
                return Ok(());
            }
            let mut m = "expected ".to_owned();
            m.append(text::decimal(n as u64).as_str());
            m.append(" action arrays (one per group), got ");
            m.append(text::decimal(arrays as u64).as_str());
            Err(BatchError::Value(m))
        } else if n == 1 {
            Ok(())
        } else {
            Err(BatchError::Type("pass a list with one action array per group".to_owned()))
        }
    }

    /// Checks that a mask and seeds, where they are given, have one value per world.
    pub fn check_reset(&self, mask: Option<usize>, seeds: Option<usize>) -> (r: Result<(), BatchError>)
        ensures
            r is Ok <==> one_per_world(mask, self.num_envs) && one_per_world(seeds, self.num_envs),
            r matches Err(e) ==> e is Value && (e->Value_0)@ == "mask and seeds need one value per world ("@
                + text::decimal_of(self.num_envs as nat) + ")"@,
    {
        let good_mask: bool = match mask {
            Some(n) => n == self.num_envs,
            None => true,
        };
        let good_seeds: bool = match seeds {
            Some(n) => n == self.num_envs,
            None => true,
        };
        if good_mask && good_seeds {
            return Ok(());
        }
        let mut m = "mask and seeds need one value per world (".to_owned();
        m.append(text::decimal(self.num_envs as u64).as_str());
        m.append(")");
        Err(BatchError::Value(m))
    }

    /// Checks the mask of agents of group `g` to stop, which holds `held` values.
    pub fn check_disable(&self, g: usize, shape: &Vec<usize>, held: usize) -> (r: Result<(), BatchError>)
        requires
            g < self.groups@.len(),
            self.num_envs * self.groups@[g as int].count <= usize::MAX,
        ensures
            r is Ok <==> fits(
                shape@,
                held,
                (self.num_envs * self.groups@[g as int].count) as usize,
                self.num_envs,
            ),
            r matches Err(e) ==> e is Value && (e->Value_0)@ == "disable mask: expected [num_envs = "@
                + text::decimal_of(self.num_envs as nat) + ", count = "@ + text::decimal_of(
                self.groups@[g as int].count as nat,
            ) + "], got shape "@ + shape_text(shape@),
    {
        let count: usize = self.groups[g].count;
        if is_fit(shape, held, self.num_envs * count, self.num_envs) {
            return Ok(());
        }
        let mut m = "disable mask: expected [num_envs = ".to_owned();
        m.append(text::decimal(self.num_envs as u64).as_str());
        m.append(", count = ");
        m.append(text::decimal(count as u64).as_str());
        m.append("], got shape ");
        m.append(shape_string(shape).as_str());
        Err(BatchError::Value(m))
    }
}

/// Seeds from signed integers.
pub fn seeds(given: &Vec<i64>) -> (r: Result<Vec<u64>, BatchError>)
    ensures
        match r {
            Ok(v) => v@.len() == given@.len() && forall|i: int|
                0 <= i < given@.len() ==> #[trigger] v@[i] == given@[i],
            Err(e) => (exists|i: int| 0 <= i < given@.len() && #[trigger] given@[i] < 0) && e is Value
                && (e->Value_0)@ == "seeds must be non-negative"@,
        },
{
    let mut v: Vec<u64> = Vec::new();
    let mut i: usize = 0;
    while i < given.len()
        invariant
            i == v@.len(),
            i <= given@.len(),
            forall|j: int| 0 <= j < i ==> #[trigger] v@[j] == given@[j],
        decreases given@.len() - i,
    {
        if given[i] < 0 {
            return Err(BatchError::Value("seeds must be non-negative".to_owned()));
        }
        v.push(given[i] as u64);
        i += 1;
    }
    Ok(v)
}

/// Any array with a row for each world and as many values as are taken fits, whatever its other
/// dimensions, and none with too few, too many or other rows does.
pub proof fn lemma_arrays_fit(shape: Seq<usize>, held: usize, len: usize, rows: usize)
    ensures
        shape.len() > 0 && shape[0] == rows && held == len ==> fits(shape, held, len, rows),
        held != len ==> !fits(shape, held, len, rows),
        shape.len() == 0 ==> !fits(shape, held, len, rows),
        shape.len() > 0 && shape[0] != rows ==> !fits(shape, held, len, rows),
{
}

/// A group takes an action from each of its agents in each world, as many values as an agent's action
/// has; none, if there are no worlds, agents or components.
pub proof fn lemma_actions_of_all_agents(l: Layout, g: int)
    ensures
        l.action_len(g) == l.groups@[g].act_dim * (l.groups@[g].count * l.num_envs),
        l.num_envs == 1 && l.groups@[g].count == 1 ==> l.action_len(g) == l.groups@[g].act_dim,
{
    let (n, c, d) = (l.num_envs as int, l.groups@[g].count as int, l.groups@[g].act_dim as int);
    assert(n * c * d == d * (c * n)) by (nonlinear_arith);
    assert(1 * 1 * d == d) by (nonlinear_arith);
}

/// A name finds the first group that has it, and it finds one exactly if some group has it.
pub proof fn lemma_names_find_groups(l: Layout, name: Seq<char>, a: int, b: int)
    ensures
        l.first_named(name, a) && l.first_named(name, b) ==> a == b,
        l.named(name) <==> exists|i: int| 0 <= i < l.groups@.len() && (#[trigger] l.groups@[i]).name@ == name,
{
    if l.named(name) {
        let i = choose|i: int| l.first_named(name, i);
        assert(l.groups@[i].name@ == name);
    }
    if exists|i: int| 0 <= i < l.groups@.len() && (#[trigger] l.groups@[i]).name@ == name {
        let i = choose|i: int| 0 <= i < l.groups@.len() && (#[trigger] l.groups@[i]).name@ == name;
        lemma_first_named(l, name, i);
    }
}

proof fn lemma_first_named(l: Layout, name: Seq<char>, i: int)
    requires
        0 <= i < l.groups@.len(),
        l.groups@[i].name@ == name,
    ensures
        l.named(name),
    decreases i,
{
    if exists|j: int| 0 <= j < i && (#[trigger] l.groups@[j]).name@ == name {
        let j = choose|j: int| 0 <= j < i && (#[trigger] l.groups@[j]).name@ == name;
        lemma_first_named(l, name, j);
    } else {
        assert(l.first_named(name, i));
    }
}

/// A list has an array for each group, and an array alone is for a single group.
pub proof fn lemma_arrays_are_for_groups(arrays: usize, groups: nat)
    ensures
        arrays_match(true, arrays, groups) <==> arrays == groups,
        arrays_match(false, arrays, groups) <==> groups == 1,
{
}

/// What is not given fits, and what is given fits exactly if there is one for each world.
pub proof fn lemma_one_for_each_world(n: usize, worlds: usize)
    ensures
        one_per_world(None, worlds),
        one_per_world(Some(worlds), worlds),
        one_per_world(Some(n), worlds) ==> n == worlds,
{
}

/// A shape reads as its dimensions in brackets, separated by commas.
pub proof fn lemma_shapes_in_words(n: usize)
    ensures
        shape_text(seq![n]) == "["@ + text::decimal_of(n as nat) + "]"@,
        shape_text(Seq::empty()) == "["@ + "]"@,
{
    let one = seq![n].map_values(|n: usize| text::decimal_of(n as nat));
    assert(one.len() == 1);
    assert(text::joined(one, ", "@) == one[0]);
    let none = Seq::<usize>::empty().map_values(|n: usize| text::decimal_of(n as nat));
    assert(none.len() == 0);
    assert(shape_text(Seq::empty()) =~= "["@ + "]"@);
}

/// An index finds a group exactly if there are more groups, and a name exactly if some group has it.
pub proof fn lemma_groups_are_found(l: Layout, i: usize, name: String)
    ensures
        l.has(GroupRef::Index(i)) <==> i < l.groups@.len(),
        l.has(GroupRef::Name(name)) <==> exists|k: int|
            0 <= k < l.groups@.len() && (#[trigger] l.groups@[k]).name@ == name@,
{
    lemma_names_find_groups(l, name@, 0, 0);
}

} // verus!
