//! How maps and their contents are described in words.

use vstd::prelude::*;
use vstd::string::StringExecFns;

use crate::preview::Tag;
use crate::text;

verus! {

impl Tag {
    pub open spec fn label_of(self) -> Seq<char> {
        match self {
            Tag::Trunk => "trunks"@,
            Tag::Canopy => "conifer crowns"@,
            Tag::CanopyBroadleaf => "broadleaf crowns"@,
            Tag::Rock => "rocks"@,
            Tag::Pillar => "pillars"@,
            Tag::Wall => "walls"@,
            Tag::Hedge => "hedge pieces"@,
            Tag::Fence => "fence pieces"@,
            Tag::Building => "buildings"@,
            Tag::Silo => "silos"@,
            Tag::Other(t) => "tag "@ + text::decimal_of(t as nat),
        }
    }

    /// What obstacles with this tag are called.
    pub fn label(self) -> (r: String)
        ensures
            r@ == self.label_of(),
    {
        match self {
            Tag::Trunk => "trunks".to_owned(),
            Tag::Canopy => "conifer crowns".to_owned(),
            Tag::CanopyBroadleaf => "broadleaf crowns".to_owned(),
            Tag::Rock => "rocks".to_owned(),
            Tag::Pillar => "pillars".to_owned(),
            Tag::Wall => "walls".to_owned(),
            Tag::Hedge => "hedge pieces".to_owned(),
            Tag::Fence => "fence pieces".to_owned(),
            Tag::Building => "buildings".to_owned(),
            Tag::Silo => "silos".to_owned(),
            Tag::Other(t) => {
                let mut s = "tag ".to_owned();
                s.append(text::decimal(t as u64).as_str());
                s
            },
        }
    }
}

/// How often a number occurs.
pub open spec fn occurrences(tags: Seq<u16>, t: u16) -> nat
    decreases tags.len(),
{
    if tags.len() == 0 {
        0
    } else {
        occurrences(tags.drop_last(), t) + if tags.last() == t {
            1nat
        } else {
            0
        }
    }
}

proof fn lemma_occurrences_bounded(tags: Seq<u16>, t: u16)
    ensures
        occurrences(tags, t) <= tags.len(),
    decreases tags.len(),
{
    if tags.len() > 0 {
        lemma_occurrences_bounded(tags.drop_last(), t);
    }
}

/// The numbers below `n` that occur, in ascending order, with how often they do.
pub open spec fn counted(tags: Seq<u16>, n: int) -> Seq<(u16, nat)>
    decreases n,
{
    if n <= 0 {
        Seq::empty()
    } else if occurrences(tags, (n - 1) as u16) > 0 {
        counted(tags, n - 1).push(((n - 1) as u16, occurrences(tags, (n - 1) as u16)))
    } else {
        counted(tags, n - 1)
    }
}

/// The tags that occur, in ascending order, with the number of their obstacles.
pub fn count_tags(tags: &Vec<u16>) -> (r: Vec<(u16, usize)>)
    ensures
        r@.map_values(|e: (u16, usize)| (e.0, e.1 as nat)) == counted(tags@, 0x1_0000),
{
    let n: usize = tags.len();
    let mut counts: Vec<usize> = vec![0; 0x1_0000];
    let mut i: usize = 0;
    while i < n
        invariant
            i <= n == tags@.len(),
            counts@.len() == 0x1_0000,
            forall|t: u16| #[trigger] counts@[t as int] == occurrences(tags@.take(i as int), t),
        decreases n - i,
    {
        let t: u16 = tags[i];
        proof {
            lemma_occurrences_bounded(tags@.take(i as int), t);
            assert(counts@[t as int] == occurrences(tags@.take(i as int), t));
            assert(tags@.take(i + 1).drop_last() =~= tags@.take(i as int));
        }
        let c: usize = counts[t as usize];
        counts.set(t as usize, c + 1);
        i += 1;
    }
    assert(tags@.take(n as int) =~= tags@);
    let mut r: Vec<(u16, usize)> = Vec::new();
    let mut t: usize = 0;
    assert(r@.map_values(|e: (u16, usize)| (e.0, e.1 as nat)) =~= counted(tags@, 0));
    while t < 0x1_0000
        invariant
            t <= 0x1_0000,
            counts@.len() == 0x1_0000,
            forall|k: u16| #[trigger] counts@[k as int] == occurrences(tags@, k),
            r@.map_values(|e: (u16, usize)| (e.0, e.1 as nat)) == counted(tags@, t as int),
        decreases 0x1_0000 - t,
    {
        let c: usize = counts[t];
        assert(counts@[(t as u16) as int] == occurrences(tags@, t as u16));
        if c > 0 {
            let ghost before = r@;
            r.push((t as u16, c));
            assert(r@.map_values(|e: (u16, usize)| (e.0, e.1 as nat)) =~= before.map_values(
                |e: (u16, usize)| (e.0, e.1 as nat),
            ).push((t as u16, c as nat)));
        }
        t += 1;
    }
    r
}

/// A number of things, in words.
pub open spec fn amount(n: nat, label: Seq<char>) -> Seq<char> {
    text::decimal_of(n) + " "@ + label
}

/// Obstacles in words: how many there are of each kind.
pub open spec fn listing(counts: Seq<(Tag, usize)>) -> Seq<char> {
    if counts.len() == 0 {
        "none"@
    } else {
        text::joined(counts.map_values(|e: (Tag, usize)| amount(e.1 as nat, e.0.label_of())), ", "@)
    }
}

/// Obstacles in words: how many there are of each kind, or that there are none.
pub fn obstacle_list(counts: &Vec<(Tag, usize)>) -> (r: String)
    ensures
        r@ == listing(counts@),
{
    if counts.len() == 0 {
        return "none".to_owned();
    }
    let ghost all = counts@.map_values(|e: (Tag, usize)| amount(e.1 as nat, e.0.label_of()));
    let mut parts: Vec<String> = Vec::new();
    let mut i: usize = 0;
    while i < counts.len()
        invariant
            i <= counts@.len(),
            all == counts@.map_values(|e: (Tag, usize)| amount(e.1 as nat, e.0.label_of())),
            text::views(parts@) == all.take(i as int),
        decreases counts@.len() - i,
    {
        let ghost before = parts@;
        let mut s = text::decimal(counts[i].1 as u64);
        s.append(" ");
        s.append(counts[i].0.label().as_str());
        parts.push(s);
        i += 1;
        assert(text::views(parts@) =~= text::views(before).push(s@));
        assert(all.take(i as int) =~= all.take(i - 1).push(s@));
    }
    assert(all.take(i as int) =~= all);
    text::join(&parts, ", ")
}

/// One class of roads in words, with its length as text.
pub open spec fn class_part(n: nat, name: Seq<char>, km: Seq<char>) -> Seq<char> {
    text::decimal_of(n) + " "@ + name + " ("@ + km + " km)"@
}

/// The classes with roads, in words.
pub open spec fn class_parts(
    paved: usize,
    gravel: usize,
    track: usize,
    km: (Seq<char>, Seq<char>, Seq<char>),
) -> Seq<Seq<char>> {
    let a = if paved > 0 {
        seq![class_part(paved as nat, "paved"@, km.0)]
    } else {
        Seq::empty()
    };
    let b = if gravel > 0 {
        seq![class_part(gravel as nat, "gravel"@, km.1)]
    } else {
        Seq::empty()
    };
    let c = if track > 0 {
        seq![class_part(track as nat, "track"@, km.2)]
    } else {
        Seq::empty()
    };
    a + b + c
}

fn push_class(parts: &mut Vec<String>, n: usize, name: &str, km: &str)
    ensures
        text::views(final(parts)@) == text::views(old(parts)@) + if n > 0 {
            seq![class_part(n as nat, name@, km@)]
        } else {
            Seq::empty()
        },
{
    let ghost before = parts@;
    if n > 0 {
        let mut s = text::decimal(n as u64);
        s.append(" ");
        s.append(name);
        s.append(" (");
        s.append(km);
        s.append(" km)");
        parts.push(s);
        assert(text::views(parts@) =~= text::views(before) + seq![class_part(n as nat, name@, km@)]);
    } else {
        assert(text::views(parts@) =~= text::views(before) + Seq::<Seq<char>>::empty());
    }
}

/// A road network in words: how many roads of each class there are and how long they are, in
/// kilometres given as text, and how many nodes.
pub fn road_list(
    empty: bool,
    paved: usize,
    gravel: usize,
    track: usize,
    km_paved: &str,
    km_gravel: &str,
    km_track: &str,
    nodes: usize,
) -> (r: String)
    ensures
        r@ == if empty {
            "none"@
        } else {
            text::joined(class_parts(paved, gravel, track, (km_paved@, km_gravel@, km_track@)), ", "@) + ", "@
                + text::decimal_of(nodes as nat) + " nodes"@
        },
{
    if empty {
        return "none".to_owned();
    }
    let mut parts: Vec<String> = Vec::new();
    assert(text::views(parts@) =~= Seq::<Seq<char>>::empty());
    push_class(&mut parts, paved, "paved", km_paved);
    push_class(&mut parts, gravel, "gravel", km_gravel);
    push_class(&mut parts, track, "track", km_track);
    assert(text::views(parts@) =~= class_parts(paved, gravel, track, (km_paved@, km_gravel@, km_track@)));
    let mut s = text::join(&parts, ", ");
    s.append(", ");
    s.append(text::decimal(nodes as u64).as_str());
    s.append(" nodes");
    s
}

/// How many cells are wet, before cell `n`.
pub open spec fn wet_before(water: Seq<Option<u32>>, n: int) -> nat
    decreases n,
{
    if n <= 0 {
        0
    } else {
        wet_before(water, n - 1) + if water[n - 1] is Some {
            1nat
        } else {
            0
        }
    }
}

/// How many cells are wet.
pub fn wet_cells(water: &Vec<Option<u32>>) -> (n: usize)
    ensures
        n == wet_before(water@, water@.len() as int),
{
    let mut n: usize = 0;
    let mut i: usize = 0;
    while i < water.len()
        invariant
            n <= i <= water@.len(),
            n == wet_before(water@, i as int),
        decreases water@.len() - i,
    {
        if water[i].is_some() {
            n += 1;
        }
        i += 1;
    }
    n
}

/// Obstacles are counted one by one: those of two parts of a map add up, and each counts for its own
/// number.
pub proof fn lemma_occurrences_add_up(a: Seq<u16>, b: Seq<u16>, t: u16)
    ensures
        occurrences(a + b, t) == occurrences(a, t) + occurrences(b, t),
        forall|x: u16| #[trigger] occurrences(seq![x], t) == (if x == t {
            1int
        } else {
            0
        }),
    decreases b.len(),
{
    assert forall|x: u16| #[trigger] occurrences(seq![x], t) == (if x == t {
        1int
    } else {
        0
    }) by {
        assert(seq![x].drop_last() =~= Seq::<u16>::empty());
        assert(occurrences(Seq::<u16>::empty(), t) == 0);
    }
    if b.len() == 0 {
        assert(a + b =~= a);
    } else {
        lemma_occurrences_add_up(a, b.drop_last(), t);
        assert((a + b).drop_last() =~= a + b.drop_last());
    }
}

/// Every number that occurs is listed once with how often it does, in ascending order, and no other is.
pub proof fn lemma_counts_list_what_occurs(tags: Seq<u16>, n: int)
    requires
        0 <= n <= 0x1_0000,
    ensures
        forall|i: int|
            0 <= i < counted(tags, n).len() ==> {
                let e = #[trigger] counted(tags, n)[i];
                e.0 < n && e.1 > 0 && e.1 == occurrences(tags, e.0)
            },
        forall|i: int, j: int|
            0 <= i < j < counted(tags, n).len() ==> (#[trigger] counted(tags, n)[i]).0 < (#[trigger] counted(tags, n)[j]).0,
        forall|t: u16|
            t < n && #[trigger] occurrences(tags, t) > 0 ==> counted(tags, n).contains((t, occurrences(tags, t))),
    decreases n,
{
    if n > 0 {
        lemma_counts_list_what_occurs(tags, n - 1);
        let (before, now) = (counted(tags, n - 1), counted(tags, n));
        assert forall|t: u16| t < n && #[trigger] occurrences(tags, t) > 0 implies now.contains(
            (t, occurrences(tags, t)),
        ) by {
            let e = (t, occurrences(tags, t));
            if t == n - 1 {
                assert(now[before.len() as int] == e);
            } else {
                assert(before.contains(e));
                assert(now[before.index_of(e)] == e);
            }
        }
    }
}

/// Wet cells are counted one by one: all, if all are wet, none, if none is, and those of a longer part
/// of the map include those of a shorter.
pub proof fn lemma_wet_cells_are_counted(water: Seq<Option<u32>>, n: int)
    requires
        0 <= n <= water.len(),
    ensures
        wet_before(water, n) <= n,
        (forall|i: int| 0 <= i < n ==> (#[trigger] water[i]) is Some) ==> wet_before(water, n) == n,
        (forall|i: int| 0 <= i < n ==> (#[trigger] water[i]) is None) ==> wet_before(water, n) == 0,
        n < water.len() ==> wet_before(water, n + 1) - wet_before(water, n) == (if water[n] is Some {
            1int
        } else {
            0
        }),
    decreases n,
{
    if n > 0 {
        lemma_wet_cells_are_counted(water, n - 1);
    }
}

/// Each class that has roads is named, in the order of the classes, and no other.
pub proof fn lemma_classes_with_roads_are_named(
    paved: usize,
    gravel: usize,
    track: usize,
    km: (Seq<char>, Seq<char>, Seq<char>),
)
    ensures
        ({
            let p = class_parts(paved, gravel, track, km);
            let (a, b, c) = (
                if paved > 0 {
                    1int
                } else {
                    0
                },
                if gravel > 0 {
                    1int
                } else {
                    0
                },
                if track > 0 {
                    1int
                } else {
                    0
                },
            );
            &&& p.len() == a + b + c
            &&& paved > 0 ==> p[0] == class_part(paved as nat, "paved"@, km.0)
            &&& gravel > 0 ==> p[a] == class_part(gravel as nat, "gravel"@, km.1)
            &&& track > 0 ==> p[a + b] == class_part(track as nat, "track"@, km.2)
        }),
{
}

/// No two kinds of obstacles are called the same.
pub proof fn lemma_labels_differ(a: Tag, b: Tag)
    requires
        a.label_of() == b.label_of(),
    ensures
        a == b,
{
    reveal_strlit("trunks");
    reveal_strlit("conifer crowns");
    reveal_strlit("broadleaf crowns");
    reveal_strlit("rocks");
    reveal_strlit("pillars");
    reveal_strlit("walls");
    reveal_strlit("hedge pieces");
    reveal_strlit("fence pieces");
    reveal_strlit("buildings");
    reveal_strlit("silos");
    reveal_strlit("tag ");
    let (x, y) = (a.label_of(), b.label_of());
    assert(x.len() == y.len() && x[0] == y[0] && x[1] == y[1]);
    if let (Tag::Other(s), Tag::Other(t)) = (a, b) {
        assert(x.skip(4) =~= text::decimal_of(s as nat));
        assert(y.skip(4) =~= text::decimal_of(t as nat));
        text::lemma_decimals_differ(s as nat, t as nat);
    }
}

/// Obstacles are listed with their number first and then what they are called; nothing is said to be none.
pub proof fn lemma_obstacles_are_listed(tag: Tag, n: usize)
    ensures
        listing(Seq::empty()) == "none"@,
        listing(seq![(tag, n)]) == text::decimal_of(n as nat) + " "@ + tag.label_of(),
{
    let one = seq![(tag, n)];
    let parts = one.map_values(|e: (Tag, usize)| amount(e.1 as nat, e.0.label_of()));
    assert(parts.len() == 1);
    assert(text::joined(parts, ", "@) == parts[0]);
}

} // verus!
