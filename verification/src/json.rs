//! Overlaying one JSON document on another, which may be written in TOML.

use vstd::prelude::*;

use crate::text;

verus! {

/// A JSON value; numbers are kept as they are written.
pub enum Json {
    Null,
    Bool(bool),
    Number(String),
    Text(String),
    List(Vec<Json>),
    Object(Vec<(String, Json)>),
}

/// A JSON value as a mathematical one.
pub ghost enum Doc {
    Null,
    Bool(bool),
    Number(Seq<char>),
    Text(Seq<char>),
    List(Seq<Doc>),
    Object(Seq<(Seq<char>, Doc)>),
}

/// A JSON value by its views.
pub open spec fn doc(v: Json) -> Doc
    decreases v,
{
    match v {
        Json::Null => Doc::Null,
        Json::Bool(b) => Doc::Bool(b),
        Json::Number(s) => Doc::Number(s@),
        Json::Text(s) => Doc::Text(s@),
        Json::List(l) => Doc::List(
            Seq::new(
                l@.len(),
                |i: int|
                    if 0 <= i < l@.len() {
                        doc(l@[i])
                    } else {
                        Doc::Null
                    },
            ),
        ),
        Json::Object(o) => Doc::Object(
            Seq::new(
                o@.len(),
                |i: int|
                    if 0 <= i < o@.len() {
                        (o@[i].0@, doc(o@[i].1))
                    } else {
                        (Seq::empty(), Doc::Null)
                    },
            ),
        ),
    }
}

/// The JSON value of `serde_json`, an opaque value.
#[verifier::external_type_specification]
#[verifier::external_body]
pub struct ExValue(serde_json::Value);

/// What a value of `serde_json` holds: numbers as they are printed, objects in the order of their map.
pub uninterp spec fn held(v: serde_json::Value) -> Doc;

/// What `toml` reads of a text as a JSON value, or what it says of a text that it cannot read.
pub uninterp spec fn toml_read(text: Seq<char>) -> Result<Doc, Seq<char>>;

/// A value of `serde_json` with its outermost layer opened.
enum Opened {
    Null,
    Bool(bool),
    Number(String),
    Text(String),
    List(Vec<serde_json::Value>),
    Object(Vec<(String, serde_json::Value)>),
}

/// Whether no two entries have the same key.
spec fn keys_differ(o: Seq<(String, serde_json::Value)>) -> bool {
    forall|i: int, j: int| 0 <= i < j < o.len() ==> (#[trigger] o[i]).0@ != (#[trigger] o[j]).0@
}

/// The variants of `serde_json::Value`, one by one: each holds what its fields hold, a number by its
/// printed form, and the map of an object has every key once.
#[verifier::external_body]
fn opened(v: serde_json::Value) -> (r: Opened)
    ensures
        match r {
            Opened::Null => held(v) == Doc::Null,
            Opened::Bool(b) => held(v) == Doc::Bool(b),
            Opened::Number(s) => held(v) == Doc::Number(s@),
            Opened::Text(s) => held(v) == Doc::Text(s@),
            Opened::List(l) => held(v) == Doc::List(l@.map_values(|x: serde_json::Value| held(x))),
            Opened::Object(o) => keys_differ(o@) && held(v) == Doc::Object(
                o@.map_values(|e: (String, serde_json::Value)| (e.0@, held(e.1))),
            ),
        },
{
    match v {
        serde_json::Value::Null => Opened::Null,
        serde_json::Value::Bool(b) => Opened::Bool(b),
        serde_json::Value::Number(n) => Opened::Number(n.to_string()),
        serde_json::Value::String(s) => Opened::Text(s),
        serde_json::Value::Array(l) => Opened::List(l),
        serde_json::Value::Object(o) => Opened::Object(o.into_iter().collect()),
    }
}

/// `toml::from_str` into a `serde_json::Value`: the value, or the error as it is printed, is a function of
/// the text.
#[verifier::external_body]
fn read_toml(text: &str) -> (r: Result<serde_json::Value, String>)
    ensures
        match r {
            Ok(v) => toml_read(text@) == Ok::<Doc, Seq<char>>(held(v)),
            Err(e) => toml_read(text@) == Err::<Doc, Seq<char>>(e@),
        },
{
    toml::from_str::<serde_json::Value>(text).map_err(|e| e.to_string())
}

/// Whether no key occurs twice.
pub open spec fn distinct(o: Seq<(String, Json)>) -> bool {
    forall|i: int, j: int| 0 <= i < j < o.len() ==> (#[trigger] o[i]).0@ != (#[trigger] o[j]).0@
}

/// Whether entry `i` has this key.
pub open spec fn keyed(o: Seq<(String, Json)>, i: int, key: Seq<char>) -> bool {
    0 <= i < o.len() && o[i].0@ == key
}

/// The value of a key, if there is one.
pub open spec fn value_of(o: Seq<(String, Json)>, key: Seq<char>) -> Option<Json> {
    if exists|i: int| keyed(o, i, key) {
        Some(o[choose|i: int| keyed(o, i, key)].1)
    } else {
        None
    }
}

/// Whether no object within a value has a key twice.
pub open spec fn wf(v: Json) -> bool
    decreases v,
{
    match v {
        Json::List(l) => forall|i: int| 0 <= i < l@.len() ==> wf(#[trigger] l@[i]),
        Json::Object(o) => distinct(o@) && forall|i: int| 0 <= i < o@.len() ==> wf((#[trigger] o@[i]).1),
        _ => true,
    }
}

/// Whether `r` is `top` laid over `base`: objects merge key by key, anything else is replaced.
pub open spec fn overlaid(base: Json, top: Json, r: Json) -> bool
    decreases top,
{
    match (base, top) {
        (Json::Object(b), Json::Object(t)) => {
            &&& r is Object
            &&& forall|k: Seq<char>|
                value_of(t@, k) is None ==> #[trigger] value_of((r->Object_0)@, k) == value_of(b@, k)
            &&& forall|i: int|
                0 <= i < t@.len() ==> {
                    let found = value_of((r->Object_0)@, (#[trigger] t@[i]).0@);
                    match value_of(b@, t@[i].0@) {
                        None => found == Some(t@[i].1),
                        Some(x) => found is Some && overlaid(x, t@[i].1, found->0),
                    }
                }
        },
        _ => r == top,
    }
}

proof fn lemma_value_of(o: Seq<(String, Json)>, i: int)
    requires
        distinct(o),
        0 <= i < o.len(),
    ensures
        value_of(o, o[i].0@) == Some(o[i].1),
{
    let key = o[i].0@;
    assert(keyed(o, i, key));
    let j = choose|j: int| keyed(o, j, key);
    assert(keyed(o, j, key));
    assert(i == j);
}

proof fn lemma_value_found(o: Seq<(String, Json)>, key: Seq<char>) -> (i: int)
    requires
        value_of(o, key) is Some,
    ensures
        keyed(o, i, key),
        value_of(o, key) == Some(o[i].1),
{
    choose|i: int| keyed(o, i, key)
}

/// Objects with the same entries, but for the value of one key.
proof fn lemma_replaced(o: Seq<(String, Json)>, i: int, e: (String, Json))
    requires
        distinct(o),
        0 <= i < o.len(),
        e.0@ == o[i].0@,
    ensures
        distinct(o.update(i, e)),
        value_of(o.update(i, e), e.0@) == Some(e.1),
        forall|k: Seq<char>| k != e.0@ ==> #[trigger] value_of(o.update(i, e), k) == value_of(o, k),
{
    let n = o.update(i, e);
    lemma_value_of(n, i);
    assert forall|k: Seq<char>| k != e.0@ implies #[trigger] value_of(n, k) == value_of(o, k) by {
        if value_of(o, k) is Some {
            let j = lemma_value_found(o, k);
            assert(n[j] == o[j]);
            lemma_value_of(n, j);
        }
        if value_of(n, k) is Some {
            let j = lemma_value_found(n, k);
            assert(n[j] == o[j]);
            lemma_value_of(o, j);
        }
    }
}

proof fn lemma_added(o: Seq<(String, Json)>, e: (String, Json))
    requires
        distinct(o),
        value_of(o, e.0@) is None,
    ensures
        distinct(o.push(e)),
        value_of(o.push(e), e.0@) == Some(e.1),
        forall|k: Seq<char>| k != e.0@ ==> #[trigger] value_of(o.push(e), k) == value_of(o, k),
{
    let n = o.push(e);
    assert forall|i: int, j: int| 0 <= i < j < n.len() implies (#[trigger] n[i]).0@ != (#[trigger] n[j]).0@ by {
        if j == o.len() {
            assert(!keyed(o, i, e.0@));
        }
    }
    lemma_value_of(n, o.len() as int);
    assert forall|k: Seq<char>| k != e.0@ implies #[trigger] value_of(n, k) == value_of(o, k) by {
        if value_of(o, k) is Some {
            let j = lemma_value_found(o, k);
            assert(n[j] == o[j]);
            lemma_value_of(n, j);
        }
        if value_of(n, k) is Some {
            let j = lemma_value_found(n, k);
            assert(n[j] == o[j]);
            lemma_value_of(o, j);
        }
    }
}

/// The place of a key.
fn find(o: &Vec<(String, Json)>, key: &str) -> (r: Option<usize>)
    ensures
        match r {
            Some(i) => keyed(o@, i as int, key@),
            None => value_of(o@, key@) is None,
        },
{
    let mut i: usize = 0;
    while i < o.len()
        invariant
            i <= o@.len(),
            forall|j: int| 0 <= j < i ==> (#[trigger] o@[j]).0@ != key@,
        decreases o@.len() - i,
    {
        if text::same(o[i].0.as_str(), key) {
            return Some(i);
        }
        i += 1;
    }
    proof {
        if value_of(o@, key@) is Some {
            let j = lemma_value_found(o@, key@);
            assert(o@[j].0@ == key@);
        }
    }
    None
}

/// Whether the entries of `t` from `n` on have been laid over `b`, with `o` as the outcome so far.
spec fn laid(b: Seq<(String, Json)>, t: Seq<(String, Json)>, n: int, o: Seq<(String, Json)>) -> bool {
    &&& distinct(o)
    &&& forall|i: int| 0 <= i < o.len() ==> wf((#[trigger] o[i]).1)
    &&& forall|k: Seq<char>|
        (forall|i: int| n <= i < t.len() ==> (#[trigger] t[i]).0@ != k) ==> #[trigger] value_of(o, k) == value_of(b, k)
    &&& forall|i: int|
        n <= i < t.len() ==> {
            let found = value_of(o, (#[trigger] t[i]).0@);
            match value_of(b, t[i].0@) {
                None => found == Some(t[i].1),
                Some(x) => found is Some && overlaid(x, t[i].1, found->0),
            }
        }
}

proof fn lemma_laid_one_more(
    b: Seq<(String, Json)>,
    t: Seq<(String, Json)>,
    n: int,
    o: Seq<(String, Json)>,
    now: Seq<(String, Json)>,
)
    requires
        distinct(t),
        0 < n <= t.len(),
        laid(b, t, n, o),
        distinct(now),
        forall|i: int| 0 <= i < now.len() ==> wf((#[trigger] now[i]).1),
        forall|k: Seq<char>| k != t[n - 1].0@ ==> #[trigger] value_of(now, k) == value_of(o, k),
        match value_of(b, t[n - 1].0@) {
            None => value_of(now, t[n - 1].0@) == Some(t[n - 1].1),
            Some(x) => value_of(now, t[n - 1].0@) is Some && overlaid(
                x,
                t[n - 1].1,
                value_of(now, t[n - 1].0@)->0,
            ),
        },
    ensures
        laid(b, t, n - 1, now),
{
    assert forall|k: Seq<char>|
        (forall|i: int| n - 1 <= i < t.len() ==> (#[trigger] t[i]).0@ != k) implies #[trigger] value_of(
        now,
        k,
    ) == value_of(b, k) by {
        assert(t[n - 1].0@ != k);
        assert(value_of(o, k) == value_of(b, k));
    }
    assert forall|i: int| n - 1 <= i < t.len() implies {
        let found = value_of(now, (#[trigger] t[i]).0@);
        match value_of(b, t[i].0@) {
            None => found == Some(t[i].1),
            Some(x) => found is Some && overlaid(x, t[i].1, found->0),
        }
    } by {
        if i >= n {
            assert(t[i].0@ != t[n - 1].0@);
            assert(value_of(now, t[i].0@) == value_of(o, t[i].0@));
        }
    }
}

/// Lays `top` over `base`: objects merge key by key, anything else is replaced.
pub fn merge(base: Json, top: Json) -> (r: Json)
    requires
        wf(base),
        wf(top),
    ensures
        overlaid(base, top, r),
        wf(r),
    decreases top,
{
    let ghost whole = top;
    match (base, top) {
        (Json::Object(mut o), Json::Object(mut rest)) => {
            let ghost (b, t) = (o@, rest@);
            let mut n: usize = rest.len();
            while n > 0
                invariant
                    whole == top,
                    whole is Object,
                    (whole->Object_0)@ == t,
                    wf(whole),
                    distinct(b),
                    forall|i: int| 0 <= i < b.len() ==> wf((#[trigger] b[i]).1),
                    rest@ == t.take(n as int),
                    n <= t.len(),
                    laid(b, t, n as int, o@),
                decreases n,
            {
                let ghost before = o@;
                let e = rest.pop().unwrap();
                proof {
                    assert(e == t[n - 1]);
                    assert(rest@ =~= t.take(n - 1));
                    assert(decreases_to!(whole => whole->Object_0));
                    assert(decreases_to!(whole->Object_0 => whole->Object_0@));
                    assert(decreases_to!(whole->Object_0@ => whole->Object_0@[n - 1]));
                    assert(decreases_to!(whole->Object_0@[n - 1] => whole->Object_0@[n - 1].1));
                    assert(wf(t[n - 1].1));
                    assert forall|i: int| n <= i < t.len() implies (#[trigger] t[i]).0@ != t[n - 1].0@ by {
                    }
                    assert(value_of(before, t[n - 1].0@) == value_of(b, t[n - 1].0@));
                }
                let (key, value) = e;
                match find(&o, key.as_str()) {
                    Some(i) => {
                        proof {
                            lemma_value_of(before, i as int);
                        }
                        let (name, slot) = o.remove(i);
                        let merged = merge(slot, value);
                        o.insert(i, (name, merged));
                        proof {
                            assert(o@ =~= before.update(i as int, (name, merged)));
                            lemma_replaced(before, i as int, (name, merged));
                        }
                    },
                    None => {
                        o.push((key, value));
                        proof {
                            lemma_added(before, (key, value));
                        }
                    },
                }
                proof {
                    lemma_laid_one_more(b, t, n as int, before, o@);
                }
                n -= 1;
            }
            let r = Json::Object(o);
            proof {
                assert forall|k: Seq<char>| value_of(t, k) is None implies #[trigger] value_of(o@, k) == value_of(
                    b,
                    k,
                ) by {
                    assert forall|i: int| 0 <= i < t.len() implies (#[trigger] t[i]).0@ != k by {
                        if t[i].0@ == k {
                            assert(keyed(t, i, k));
                        }
                    }
                }
            }
            r
        },
        (_, top) => top,
    }
}

/// A value of `serde_json` as a JSON value.
pub fn plain(v: serde_json::Value) -> (r: Json)
    ensures
        doc(r) == held(v),
        wf(r),
    decreases held(v),
{
    match opened(v) {
        Opened::Null => Json::Null,
        Opened::Bool(b) => Json::Bool(b),
        Opened::Number(s) => Json::Number(s),
        Opened::Text(s) => Json::Text(s),
        Opened::List(mut rest) => {
            let ghost all = rest@;
            let ghost whole = held(v);
            let mut l: Vec<Json> = Vec::new();
            let mut n: usize = rest.len();
            while n > 0
                invariant
                    whole == held(v),
                    whole == Doc::List(all.map_values(|x: serde_json::Value| held(x))),
                    n <= all.len(),
                    rest@ == all.take(n as int),
                    l@.len() == all.len() - n,
                    forall|i: int| 0 <= i < l@.len() ==> doc(#[trigger] l@[i]) == held(all[n + i]) && wf(l@[i]),
                decreases n,
            {
                let ghost before = l@;
                let x = rest.pop().unwrap();
                proof {
                    assert(x == all[n - 1]);
                    assert(rest@ =~= all.take(n - 1));
                    let inner = whole->List_0;
                    assert(inner[n - 1] == held(x));
                    assert(decreases_to!(whole => whole->List_0));
                    assert(decreases_to!(whole->List_0 => whole->List_0[n - 1]));
                }
                l.insert(0, plain(x));
                n -= 1;
                assert forall|i: int| 0 <= i < l@.len() implies doc(#[trigger] l@[i]) == held(all[n + i]) && wf(l@[i]) by {
                    if i > 0 {
                        assert(l@[i] == before[i - 1]);
                    }
                }
            }
            let r = Json::List(l);
            assert(doc(r)->List_0 =~= whole->List_0);
            r
        },
        Opened::Object(mut rest) => {
            let ghost all = rest@;
            let ghost whole = held(v);
            let mut o: Vec<(String, Json)> = Vec::new();
            let mut n: usize = rest.len();
            while n > 0
                invariant
                    whole == held(v),
                    keys_differ(all),
                    whole == Doc::Object(all.map_values(|e: (String, serde_json::Value)| (e.0@, held(e.1)))),
                    n <= all.len(),
                    rest@ == all.take(n as int),
                    o@.len() == all.len() - n,
                    forall|i: int|
                        0 <= i < o@.len() ==> (#[trigger] o@[i]).0@ == all[n + i].0@ && doc(o@[i].1) == held(
                            all[n + i].1,
                        ) && wf(o@[i].1),
                decreases n,
            {
                let ghost before = o@;
                let e = rest.pop().unwrap();
                proof {
                    assert(e == all[n - 1]);
                    assert(rest@ =~= all.take(n - 1));
                    let inner = whole->Object_0;
                    assert(inner[n - 1] == (e.0@, held(e.1)));
                    assert(decreases_to!(whole => whole->Object_0));
                    assert(decreases_to!(whole->Object_0 => whole->Object_0[n - 1]));
                    assert(decreases_to!(whole->Object_0[n - 1] => whole->Object_0[n - 1].1));
                }
                let (key, x) = e;
                o.insert(0, (key, plain(x)));
                n -= 1;
                assert forall|i: int| 0 <= i < o@.len() implies (#[trigger] o@[i]).0@ == all[n + i].0@ && doc(
                    o@[i].1,
                ) == held(all[n + i].1) && wf(o@[i].1) by {
                    if i > 0 {
                        assert(o@[i] == before[i - 1]);
                    }
                }
            }
            let r = Json::Object(o);
            assert(doc(r)->Object_0 =~= whole->Object_0);
            assert(distinct(o@));
            r
        },
    }
}

/// Lays a document written in TOML over `base`: the outcome, or what is said of a text that cannot be
/// read.
pub fn overlay_toml(base: Json, text: &str) -> (r: Result<Json, String>)
    requires
        wf(base),
    ensures
        match r {
            Ok(v) => wf(v) && exists|top: Json|
                toml_read(text@) == Ok::<Doc, Seq<char>>(#[trigger] doc(top)) && wf(top) && overlaid(base, top, v),
            Err(e) => toml_read(text@) == Err::<Doc, Seq<char>>(e@),
        },
{
    match read_toml(text) {
        Ok(v) => {
            let top = plain(v);
            assert(toml_read(text@) == Ok::<Doc, Seq<char>>(doc(top)));
            let r = merge(base, top);
            Ok(r)
        },
        Err(e) => Err(e),
    }
}

/// An overlay without keys changes no value of an object, and one that is no object replaces
/// everything.
pub proof fn lemma_overlay_bounds(base: Json, top: Json, r: Json)
    requires
        overlaid(base, top, r),
        base is Object,
    ensures
        top is Object && (top->Object_0)@.len() == 0 ==> r is Object && forall|k: Seq<char>|
            #[trigger] value_of((r->Object_0)@, k) == value_of((base->Object_0)@, k),
        top !is Object ==> r == top,
{
    if top is Object && (top->Object_0)@.len() == 0 {
        assert forall|k: Seq<char>| #[trigger] value_of((r->Object_0)@, k) == value_of((base->Object_0)@, k) by {
            assert(value_of((top->Object_0)@, k) is None);
        }
    }
}

/// An overlay keeps every key of the base, adds those that only it has with their values, and replaces the
/// values of those that both have, except that objects are laid over objects in turn.
pub proof fn lemma_overlays_go_key_by_key(base: Json, top: Json, r: Json, key: Seq<char>)
    requires
        overlaid(base, top, r),
        wf(top),
        base is Object,
        top is Object,
    ensures
        ({
            let (b, t) = (value_of((base->Object_0)@, key), value_of((top->Object_0)@, key));
            let found = value_of((r->Object_0)@, key);
            &&& r is Object
            &&& found is Some <==> b is Some || t is Some
            &&& t is None ==> found == b
            &&& b is None ==> found == t
            &&& t is Some && t->0 !is Object ==> found == t
            &&& b is Some && t is Some && b->0 !is Object ==> found == t
            &&& b is Some && t is Some ==> overlaid(b->0, t->0, found->0)
        }),
{
    reveal_with_fuel(overlaid, 2);
    let t = (top->Object_0)@;
    if value_of(t, key) is Some {
        let i = lemma_value_found(t, key);
        lemma_value_of(t, i);
        assert(t[i].0@ == key);
    }
}

} // verus!
