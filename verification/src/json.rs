//! A JSON document as the configuration logic reads and edits it, with the
//! member access of a JSON object: reading a member yields `null` when the
//! member is absent or the value is no object, and writing a member turns a
//! `null` into an empty object first.

use vstd::prelude::*;
use crate::collections::reversed;
use crate::text::same_text;

verus! {

/// A JSON value.
#[derive(Debug)]
pub enum Json {
    Null,
    Bool(bool),
    /// A number, in the text it is written as.
    Number(String),
    Str(String),
    Array(Vec<Json>),
    /// The members of an object, in order.
    Object(Vec<(String, Json)>),
}

/// `i` is the first position in `es` whose member is named `k`.
pub open spec fn first_key_at(es: Seq<(String, Json)>, k: Seq<char>, i: int) -> bool {
    &&& 0 <= i < es.len()
    &&& es[i].0@ == k
    &&& forall|j: int| 0 <= j < i ==> es[j].0@ != k
}

/// Some member of `es` is named `k`.
pub open spec fn has_key(es: Seq<(String, Json)>, k: Seq<char>) -> bool {
    exists|i: int| 0 <= i < es.len() && es[i].0@ == k
}

/// The value of the member named `k` in the members `es`.
pub open spec fn entries_lookup(es: Seq<(String, Json)>, k: Seq<char>) -> Option<Json> {
    if has_key(es, k) {
        Some(es[choose|i: int| first_key_at(es, k, i)].1)
    } else {
        None
    }
}

/// No two members of `es` share a name.
pub open spec fn unique_keys(es: Seq<(String, Json)>) -> bool {
    forall|i: int, j: int| 0 <= i < es.len() && 0 <= j < es.len() && i != j ==> es[i].0@ != es[j].0@
}

/// The value of member `k` of `j`, when `j` is an object that has one.
pub open spec fn json_lookup(j: Json, k: Seq<char>) -> Option<Json> {
    match j {
        Json::Object(es) => entries_lookup(es@, k),
        _ => None,
    }
}

/// Member `k` of `j` as a read gives it: `null` when there is none.
pub open spec fn member(j: Json, k: Seq<char>) -> Json {
    match json_lookup(j, k) {
        Some(v) => v,
        None => Json::Null,
    }
}

/// A member can be written into `j`: it is `null` or an object.
pub open spec fn settable(j: Json) -> bool {
    j is Null || j is Object
}

/// The names of `j` are pairwise distinct, where `j` is an object.
pub open spec fn well_keyed(j: Json) -> bool {
    match j {
        Json::Object(es) => unique_keys(es@),
        _ => true,
    }
}

/// The string items of an array, in order; other items are passed over.
pub open spec fn str_items(items: Seq<Json>) -> Seq<Seq<char>>
    decreases items.len(),
{
    if items.len() == 0 {
        Seq::empty()
    } else {
        let rest = str_items(items.drop_last());
        match items.last() {
            Json::Str(s) => rest.push(s@),
            _ => rest,
        }
    }
}

/// `items` are strings, whose texts are `texts`.
pub open spec fn are_strs(items: Seq<Json>, texts: Seq<Seq<char>>) -> bool {
    &&& items.len() == texts.len()
    &&& forall|i: int| 0 <= i < items.len() ==> (#[trigger] items[i] matches Json::Str(s) && s@ == texts[i])
}

proof fn lemma_first_exists(es: Seq<(String, Json)>, k: Seq<char>, i: int)
    requires
        0 <= i < es.len(),
        es[i].0@ == k,
    ensures
        exists|f: int| first_key_at(es, k, f),
    decreases i,
{
    if exists|j: int| 0 <= j < i && es[j].0@ == k {
        let j = choose|j: int| 0 <= j < i && es[j].0@ == k;
        lemma_first_exists(es, k, j);
    } else {
        assert(first_key_at(es, k, i));
    }
}

proof fn lemma_lookup_at(es: Seq<(String, Json)>, k: Seq<char>, i: int)
    requires
        first_key_at(es, k, i),
    ensures
        entries_lookup(es, k) == Some(es[i].1),
{
    assert(has_key(es, k));
    let f = choose|f: int| first_key_at(es, k, f);
    assert(first_key_at(es, k, f));
    if f < i {
        assert(es[f].0@ != k);
    } else if i < f {
        assert(es[i].0@ != k);
    }
}

/// Members that change only where they are named `k` (keeping that name),
/// with more members named `k` after them, give the same value to every
/// other name.
proof fn lemma_lookup_elsewhere(a: Seq<(String, Json)>, b: Seq<(String, Json)>, k: Seq<char>)
    requires
        a.len() <= b.len(),
        forall|j: int| 0 <= j < a.len() && a[j].0@ != k ==> b[j] == a[j],
        forall|j: int| 0 <= j < a.len() && a[j].0@ == k ==> b[j].0@ == k,
        forall|j: int| a.len() <= j < b.len() ==> b[j].0@ == k,
    ensures
        forall|key: Seq<char>| key != k ==> #[trigger] entries_lookup(b, key) == entries_lookup(a, key),
{
    assert forall|key: Seq<char>| key != k implies #[trigger] entries_lookup(b, key) == entries_lookup(
        a,
        key,
    ) by {
        if has_key(a, key) {
            let f = choose|f: int| 0 <= f < a.len() && a[f].0@ == key;
            lemma_first_exists(a, key, f);
            let g = choose|g: int| first_key_at(a, key, g);
            assert forall|j: int| 0 <= j < g implies b[j].0@ != key by {
                if a[j].0@ != k {
                    assert(b[j] == a[j]);
                }
            }
            assert(first_key_at(b, key, g));
            lemma_lookup_at(a, key, g);
            lemma_lookup_at(b, key, g);
        } else {
            assert forall|j: int| 0 <= j < b.len() implies b[j].0@ != key by {
                if j < a.len() && a[j].0@ != k {
                    assert(b[j] == a[j]);
                }
            }
        }
    }
}

/// Where the first member named `k` stands in `es`, if any.
fn position_of(es: &Vec<(String, Json)>, k: &str) -> (r: Option<usize>)
    ensures
        match r {
            Some(i) => first_key_at(es@, k@, i as int),
            None => !has_key(es@, k@),
        },
{
    let mut i: usize = 0;
    while i < es.len()
        invariant
            i <= es.len(),
            forall|j: int| 0 <= j < i ==> es@[j].0@ != k@,
        decreases es.len() - i,
    {
        if same_text(es[i].0.as_str(), k) {
            return Some(i);
        }
        i = i + 1;
    }
    None
}

/// The value of member `k` of `j`, if `j` is an object that has one.
pub fn get<'a>(j: &'a Json, k: &str) -> (r: Option<&'a Json>)
    ensures
        match r {
            Some(v) => json_lookup(*j, k@) == Some(*v),
            None => json_lookup(*j, k@) is None,
        },
{
    match j {
        Json::Object(es) => {
            match position_of(es, k) {
                Some(i) => {
                    proof {
                        lemma_lookup_at(es@, k@, i as int);
                    }
                    Some(&es[i].1)
                },
                None => None,
            }
        },
        _ => None,
    }
}

/// Whether member `k` of `j` is an object.
pub fn member_is_object(j: &Json, k: &str) -> (r: bool)
    ensures
        r == (member(*j, k@) is Object),
{
    match get(j, k) {
        Some(v) => match v {
            Json::Object(_) => true,
            _ => false,
        },
        None => false,
    }
}

/// `j` with member `k` set to `v`: a `null` becomes an object first, an
/// existing member keeps its place, a new one goes last.
pub fn set_member(j: Json, k: &str, v: Json) -> (r: Json)
    requires
        settable(j),
    ensures
        r is Object,
        forall|key: Seq<char>| #[trigger] json_lookup(r, key) == if key == k@ {
            Some(v)
        } else {
            json_lookup(j, key)
        },
        well_keyed(j) ==> well_keyed(r),
{
    let mut es: Vec<(String, Json)> = match j {
        Json::Object(es) => es,
        _ => Vec::new(),
    };
    let ghost old_es = es@;
    let name = String::from_str(k);
    match position_of(&es, k) {
        Some(i) => {
            let _ = es.remove(i);
            es.insert(i, (name, v));
            assert(es@ == old_es.update(i as int, es@[i as int]));
            proof {
                lemma_lookup_at(es@, k@, i as int);
                lemma_lookup_elsewhere(old_es, es@, k@);
            }
        },
        None => {
            es.push((name, v));
            proof {
                assert(first_key_at(es@, k@, old_es.len() as int));
                lemma_lookup_at(es@, k@, old_es.len() as int);
                lemma_lookup_elsewhere(old_es, es@, k@);
            }
        },
    }
    Json::Object(es)
}

/// Moves member `k` out of `j`, leaving `null` in its place, as a write
/// through member `k` does before it writes: a `null` `j` becomes an object
/// and an absent member is added as `null`. Returns the object and the member
/// (`null` where there was none).
pub fn take_member(j: Json, k: &str) -> (r: (Json, Json))
    requires
        settable(j),
    ensures
        r.0 is Object,
        r.1 == member(j, k@),
        forall|key: Seq<char>| #[trigger] json_lookup(r.0, key) == if key == k@ {
            Some(Json::Null)
        } else {
            json_lookup(j, key)
        },
        well_keyed(j) ==> well_keyed(r.0),
{
    let mut es: Vec<(String, Json)> = match j {
        Json::Object(es) => es,
        _ => Vec::new(),
    };
    let ghost old_es = es@;
    let child = match position_of(&es, k) {
        Some(i) => {
            proof {
                lemma_lookup_at(old_es, k@, i as int);
            }
            let (name, value) = es.remove(i);
            es.insert(i, (name, Json::Null));
            value
        },
        None => Json::Null,
    };
    let ghost mid = Json::Object(es);
    let r = set_member(Json::Object(es), k, Json::Null);
    proof {
        lemma_lookup_elsewhere(old_es, es@, k@);
        assert(well_keyed(j) ==> well_keyed(mid));
    }
    (r, child)
}

/// `j` without its members named `k`.
pub fn remove_member(j: Json, k: &str) -> (r: Json)
    requires
        j is Object,
    ensures
        r is Object,
        forall|key: Seq<char>| #[trigger] json_lookup(r, key) == if key == k@ {
            None
        } else {
            json_lookup(j, key)
        },
        well_keyed(j) ==> well_keyed(r),
{
    let es: Vec<(String, Json)> = match j {
        Json::Object(es) => es,
        _ => Vec::new(),
    };
    let ghost old_es = es@;
    let mut kept: Vec<(String, Json)> = Vec::new();
    // the position in `old_es` of each member kept
    let ghost mut from: Seq<int> = Seq::empty();
    let n = es.len();
    // reversed, so that each `pop` yields the next member
    let mut back = reversed(es);
    let mut i: usize = 0;
    while back.len() > 0
        invariant
            n == old_es.len(),
            i + back@.len() == n,
            forall|t: int| 0 <= t < back@.len() ==> back@[t] == old_es[n - 1 - t],
            from.len() == kept@.len(),
            forall|t: int| 0 <= t < kept@.len() ==> 0 <= #[trigger] from[t] < i && kept@[t] == old_es[from[t]]
                && old_es[from[t]].0@ != k@,
            forall|t: int, u: int| 0 <= t < u < kept@.len() ==> from[t] < from[u],
            forall|p: int| 0 <= p < i && old_es[p].0@ != k@ ==> exists|t: int| 0 <= t < kept@.len() && from[t] == p,
        decreases back.len(),
    {
        let e = back.pop().unwrap();
        assert(e == old_es[i as int]);
        let ghost from0 = from;
        let ghost kept0 = kept@;
        if !same_text(e.0.as_str(), k) {
            proof {
                from = from.push(i as int);
            }
            kept.push(e);
        }
        proof {
            assert forall|p: int| 0 <= p < i + 1 && old_es[p].0@ != k@ implies exists|t: int|
                0 <= t < kept@.len() && from[t] == p by {
                if p == i {
                    assert(from[kept0.len() as int] == p);
                } else {
                    let t = choose|t: int| 0 <= t < kept0.len() && from0[t] == p;
                    assert(from[t] == from0[t]);
                }
            }
        }
        i = i + 1;
    }
    proof {
        assert forall|key: Seq<char>| key != k@ implies entries_lookup(kept@, key)
            == entries_lookup(old_es, key) by {
            if has_key(old_es, key) {
                let f = choose|f: int| 0 <= f < old_es.len() && old_es[f].0@ == key;
                lemma_first_exists(old_es, key, f);
                let g = choose|g: int| first_key_at(old_es, key, g);
                let t = choose|t: int| 0 <= t < kept@.len() && from[t] == g;
                assert forall|u: int| 0 <= u < t implies kept@[u].0@ != key by {
                    assert(from[u] < from[t]);
                }
                assert(first_key_at(kept@, key, t));
                lemma_lookup_at(old_es, key, g);
                lemma_lookup_at(kept@, key, t);
            } else {
                assert forall|t: int| 0 <= t < kept@.len() implies kept@[t].0@ != key by {
                    assert(kept@[t] == old_es[from[t]]);
                }
            }
        }
        assert forall|t: int| 0 <= t < kept@.len() implies kept@[t].0@ != k@ by {
            assert(kept@[t] == old_es[from[t]]);
        }
        assert(!has_key(kept@, k@));
        assert(unique_keys(old_es) ==> unique_keys(kept@)) by {
            if unique_keys(old_es) {
                assert forall|t: int, u: int| 0 <= t < kept@.len() && 0 <= u < kept@.len() && t != u
                    implies kept@[t].0@ != kept@[u].0@ by {
                    if t < u {
                        assert(from[t] < from[u]);
                    } else {
                        assert(from[u] < from[t]);
                    }
                }
            }
        }
    }
    Json::Object(kept)
}

/// The strings among `items`, in order.
pub fn string_items(items: &Vec<Json>) -> (r: Vec<String>)
    ensures
        r@.map_values(|s: String| s@) == str_items(items@),
{
    let mut r: Vec<String> = Vec::new();
    let mut i: usize = 0;
    while i < items.len()
        invariant
            i <= items.len(),
            r@.map_values(|s: String| s@) == str_items(items@.subrange(0, i as int)),
        decreases items.len() - i,
    {
        assert(items@.subrange(0, i + 1).drop_last() == items@.subrange(0, i as int));
        match &items[i] {
            Json::Str(s) => {
                r.push(s.clone());
            },
            _ => {},
        }
        assert(r@.map_values(|s: String| s@) == str_items(items@.subrange(0, i + 1)));
        i = i + 1;
    }
    assert(items@.subrange(0, items.len() as int) == items@);
    r
}


#[verifier::external_type_specification]
#[verifier::external_body]
pub struct ExJsonValue(serde_json::Value);

/// What `serde_json::from_str` makes of the text `text`, taken as a `Json`:
/// the document, or the `Display` text of the syntax error.
pub uninterp spec fn json_parse(text: Seq<char>) -> Result<Json, Seq<char>>;

/// serde_json's `Value` as a `Json`, variant by variant (a number by its
/// text, an object's members in the order that serde_json's map holds them).
#[verifier::external_body]
fn json_of_value(v: serde_json::Value) -> Json {
    match v {
        serde_json::Value::Null => Json::Null,
        serde_json::Value::Bool(b) => Json::Bool(b),
        serde_json::Value::Number(n) => Json::Number(n.to_string()),
        serde_json::Value::String(s) => Json::Str(s),
        serde_json::Value::Array(items) => Json::Array(items.into_iter().map(json_of_value).collect()),
        serde_json::Value::Object(map) => Json::Object(
            map.into_iter().map(|(k, v)| (k, json_of_value(v))).collect(),
        ),
    }
}

/// `serde_json::from_str::<serde_json::Value>` on `text`, the value taken as a
/// `Json`; on failure the error together with its `Display` text. The
/// outcome is named `json_parse` of the text. An object that serde_json
/// builds is a map, so its member names, and those of the objects it holds
/// directly, are distinct. What text is valid JSON is not spelled out.
#[verifier::external_body]
pub(crate) fn parse_json_text(text: &str) -> (r: Result<Json, (serde_json::Error, String)>)
    ensures
        match r {
            Ok(j) => json_parse(text@) == Ok::<Json, Seq<char>>(j) && well_keyed(j)
                && forall|k: Seq<char>| well_keyed(#[trigger] member(j, k)),
            Err((_, m)) => json_parse(text@) == Err::<Json, Seq<char>>(m@),
        },
{
    match serde_json::from_str::<serde_json::Value>(text) {
        Ok(v) => Ok(json_of_value(v)),
        Err(e) => {
            let m = format!("{e}");
            Err((e, m))
        },
    }
}

} // verus!
