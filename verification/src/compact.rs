//! Compact JSON format: fields that cost tokens without informing an agent
//! are stripped from recognised tool results.
use vstd::prelude::*;
use crate::emit::{clone_value, lemma_find_key_absent, lemma_find_key_first, lemma_find_key_found};
use crate::json::{
    find_key, find_member, has_key, items_view, json_get, lemma_items_view, lemma_members_view, member,
    members_view, opt_array, opt_object, Json, JsonValue,
};

verus! {

// ------------------------------------------------------------------
// Specifications
// ------------------------------------------------------------------

/// Map removal: the first member with the key is dropped.
pub open spec fn obj_remove(m: Seq<(Seq<char>, Json)>, k: Seq<char>) -> Seq<(Seq<char>, Json)> {
    let i = find_key(m, k, 0);
    if i >= 0 {
        m.remove(i)
    } else {
        m
    }
}

/// An object without the given keys; other values unchanged.
pub open spec fn drop_keys(v: Json, keys: Seq<Seq<char>>) -> Json
    decreases keys.len(),
{
    if keys.len() == 0 {
        v
    } else {
        match drop_keys(v, keys.drop_last()) {
            Json::Object(m) => Json::Object(obj_remove(m, keys.last())),
            w => w,
        }
    }
}

/// Every item with [`drop_keys`] applied.
pub open spec fn items_drop_keys(a: Seq<Json>, keys: Seq<Seq<char>>) -> Seq<Json> {
    a.map_values(|x: Json| drop_keys(x, keys))
}

/// The object with the array member `key` (if it is an array) replaced by
/// its items with `keys` dropped.
pub open spec fn strip_member_items(
    m: Seq<(Seq<char>, Json)>,
    key: Seq<char>,
    keys: Seq<Seq<char>>,
) -> Seq<(Seq<char>, Json)> {
    let i = find_key(m, key, 0);
    if i >= 0 {
        match m[i].1 {
            Json::Array(a) => m.update(i, (m[i].0, Json::Array(items_drop_keys(a, keys)))),
            _ => m,
        }
    } else {
        m
    }
}

/// Context lines of a match.
pub open spec fn context_keys() -> Seq<Seq<char>> {
    seq!["context_before"@, "context_after"@]
}

/// A file group of matches without the context of its matches.
pub open spec fn group_stripped(g: Json) -> Json {
    match g {
        Json::Object(m) => Json::Object(strip_member_items(m, "matches"@, context_keys())),
        _ => g,
    }
}

/// A flat match without context and without empty captures.
pub open spec fn legacy_match_stripped(x: Json) -> Json {
    match drop_keys(x, context_keys()) {
        Json::Object(o) => match opt_object(member(o, "captures"@)) {
            Some(c) => if c.len() == 0 {
                Json::Object(obj_remove(o, "captures"@))
            } else {
                Json::Object(o)
            },
            None => Json::Object(o),
        },
        y => y,
    }
}

/// The object with the array member `key` (if it is an array) mapped by `f`.
pub open spec fn map_member_items(
    m: Seq<(Seq<char>, Json)>,
    key: Seq<char>,
    f: spec_fn(Json) -> Json,
) -> Seq<(Seq<char>, Json)> {
    let i = find_key(m, key, 0);
    if i >= 0 {
        match m[i].1 {
            Json::Array(a) => m.update(i, (m[i].0, Json::Array(a.map_values(f)))),
            _ => m,
        }
    } else {
        m
    }
}

/// A value that looks like a symbol: it has `kind` and `line_start`.
pub open spec fn is_symbol(v: Json) -> bool {
    json_get(v, "kind"@) is Some && json_get(v, "line_start"@) is Some
}

/// A tree listing: `root`, `entries`, `total_files`.
pub open spec fn is_tree(m: Seq<(Seq<char>, Json)>) -> bool {
    has_key(m, "root"@) && has_key(m, "entries"@) && has_key(m, "total_files"@)
}

/// A search result: `query`, `results`, `total_results`.
pub open spec fn is_search(m: Seq<(Seq<char>, Json)>) -> bool {
    has_key(m, "query"@) && has_key(m, "results"@) && has_key(m, "total_results"@)
}

/// The compact form of a tool result:
/// - tree listings lose `depth` on each entry;
/// - grep results lose the context of each match; with `file_matches` the
///   flat `matches` field goes too, without it flat matches also lose empty
///   `captures`;
/// - search results lose `score` and `source` on each result;
/// - symbol arrays lose `byte_start` and `byte_end`;
/// - anything else is unchanged.
pub open spec fn compact_value(v: Json) -> Json {
    match v {
        Json::Object(m) => if is_tree(m) {
            Json::Object(strip_member_items(m, "entries"@, seq!["depth"@]))
        } else if has_key(m, "pattern"@) && has_key(m, "matches"@) && has_key(
            m,
            "total_matches"@,
        ) {
            if opt_array(member(m, "file_matches"@)) is Some {
                Json::Object(
                    obj_remove(map_member_items(m, "file_matches"@, |g: Json| group_stripped(g)), "matches"@),
                )
            } else {
                Json::Object(map_member_items(m, "matches"@, |x: Json| legacy_match_stripped(x)))
            }
        } else if is_search(m) {
            Json::Object(strip_member_items(m, "results"@, seq!["score"@, "source"@]))
        } else {
            v
        },
        Json::Array(a) => if a.len() > 0 && is_symbol(a[0]) {
            Json::Array(items_drop_keys(a, seq!["byte_start"@, "byte_end"@]))
        } else {
            v
        },
        _ => v,
    }
}

// ------------------------------------------------------------------
// Laws
// ------------------------------------------------------------------

/// No key occurs twice among the members (as in a JSON map).
pub open spec fn distinct_keys(m: Seq<(Seq<char>, Json)>) -> bool {
    forall|i: int, j: int| 0 <= i < j < m.len() ==> m[i].0 != m[j].0
}

proof fn lemma_find_key_none(m: Seq<(Seq<char>, Json)>, k: Seq<char>, i: int)
    requires
        0 <= i,
        forall|j: int| i <= j < m.len() ==> #[trigger] m[j].0 != k,
    ensures
        find_key(m, k, i) == -1,
    decreases m.len() - i,
{
    if i < m.len() {
        lemma_find_key_none(m, k, i + 1);
    }
}

/// Removing a key leaves the members of other keys as they were.
proof fn lemma_remove_keeps_others(m: Seq<(Seq<char>, Json)>, k: Seq<char>, k2: Seq<char>)
    requires
        k != k2,
    ensures
        member(obj_remove(m, k), k2) == member(m, k2),
{
    let i = find_key(m, k, 0);
    if i >= 0 {
        lemma_find_key_found(m, k, 0);
        let r = m.remove(i);
        let f = find_key(m, k2, 0);
        if f >= 0 {
            lemma_find_key_found(m, k2, 0);
            if f < i {
                assert forall|j: int| 0 <= j < f implies #[trigger] r[j].0 != k2 by {
                    assert(r[j] == m[j]);
                }
                assert(r[f] == m[f]);
                lemma_find_key_first(r, k2, 0, f);
            } else {
                assert(f != i);
                assert forall|j: int| 0 <= j < f - 1 implies #[trigger] r[j].0 != k2 by {
                    if j < i {
                        assert(r[j] == m[j]);
                    } else {
                        assert(r[j] == m[j + 1]);
                    }
                }
                assert(r[f - 1] == m[f]);
                lemma_find_key_first(r, k2, 0, f - 1);
            }
        } else {
            lemma_find_key_absent(m, k2, 0);
            assert forall|j: int| 0 <= j < r.len() implies #[trigger] r[j].0 != k2 by {
                if j < i {
                    assert(r[j] == m[j]);
                } else {
                    assert(r[j] == m[j + 1]);
                }
            }
            lemma_find_key_none(r, k2, 0);
        }
    }
}

/// Removing a key from members with distinct keys leaves no member with it,
/// and the keys stay distinct.
proof fn lemma_remove_drops_key(m: Seq<(Seq<char>, Json)>, k: Seq<char>)
    requires
        distinct_keys(m),
    ensures
        member(obj_remove(m, k), k) is None,
        distinct_keys(obj_remove(m, k)),
{
    let i = find_key(m, k, 0);
    if i >= 0 {
        lemma_find_key_found(m, k, 0);
        let r = m.remove(i);
        assert forall|j: int| 0 <= j < r.len() implies #[trigger] r[j].0 != k by {
            if j < i {
                assert(r[j] == m[j]);
            } else {
                assert(r[j] == m[j + 1]);
            }
        }
        lemma_find_key_none(r, k, 0);
        assert forall|a: int, b: int| 0 <= a < b < r.len() implies r[a].0 != r[b].0 by {
            let a2 = if a < i { a } else { a + 1 };
            let b2 = if b < i { b } else { b + 1 };
            assert(r[a] == m[a2]);
            assert(r[b] == m[b2]);
        }
    } else {
        lemma_find_key_absent(m, k, 0);
        lemma_find_key_none(m, k, 0);
    }
}

/// What compacting a search result does to one of its results: an object
/// loses `score` and `source` and keeps every other member; anything else is
/// kept as it is.
pub open spec fn result_compacted(orig: Json, got: Json) -> bool {
    match orig {
        Json::Object(o) => match got {
            Json::Object(p) => {
                &&& member(p, "score"@) is None
                &&& member(p, "source"@) is None
                &&& forall|k: Seq<char>|
                    k != "score"@ && k != "source"@ ==> #[trigger] member(p, k) == member(o, k)
            },
            _ => false,
        },
        _ => got == orig,
    }
}

proof fn lemma_drop_score_source(x: Json)
    requires
        x matches Json::Object(o) ==> distinct_keys(o),
    ensures
        result_compacted(x, drop_keys(x, seq!["score"@, "source"@])),
{
    let keys = seq!["score"@, "source"@];
    let first = seq!["score"@];
    assert(keys.drop_last() =~= first);
    assert(first.drop_last() =~= Seq::<Seq<char>>::empty());
    assert(drop_keys(x, first.drop_last()) == x);
    assert(first.last() == "score"@);
    assert(keys.last() == "source"@);
    reveal_strlit("score");
    reveal_strlit("source");
    match x {
        Json::Object(o) => {
            let o1 = obj_remove(o, "score"@);
            let o2 = obj_remove(o1, "source"@);
            assert(drop_keys(x, first) == Json::Object(o1));
            assert(drop_keys(x, keys) == Json::Object(o2));
            lemma_remove_drops_key(o, "score"@);
            lemma_remove_drops_key(o1, "source"@);
            lemma_remove_keeps_others(o1, "source"@, "score"@);
            assert forall|k: Seq<char>| k != "score"@ && k != "source"@ implies #[trigger] member(o2, k)
                == member(o, k) by {
                lemma_remove_keeps_others(o, "score"@, k);
                lemma_remove_keeps_others(o1, "source"@, k);
            }
        },
        _ => {
            assert(drop_keys(x, first) == x);
        },
    }
}

/// Compacting a search result (an object with `query`, `results` and
/// `total_results` that is no tree listing or grep result) strips `score`
/// and `source` from each object among its results and changes nothing
/// else: the members keep their keys and order, and every member other than
/// `results` keeps its value.
pub proof fn compact_search_strips_score_and_source(m: Seq<(Seq<char>, Json)>)
    requires
        is_search(m),
        !is_tree(m),
        !(has_key(m, "pattern"@) && has_key(m, "matches"@) && has_key(m, "total_matches"@)),
        forall|j: int|
            0 <= j < crate::raw::array_items(member(m, "results"@)).len() ==> (
            #[trigger] crate::raw::array_items(member(m, "results"@))[j] matches Json::Object(o)
                ==> distinct_keys(o)),
    ensures
        compact_value(Json::Object(m)) matches Json::Object(c) && {
            &&& c.len() == m.len()
            &&& forall|i: int| 0 <= i < m.len() ==> #[trigger] c[i].0 == m[i].0
            &&& forall|k: Seq<char>| k != "results"@ ==> #[trigger] member(c, k) == member(m, k)
            &&& match member(m, "results"@) {
                Some(Json::Array(a)) => member(c, "results"@) matches Some(Json::Array(b)) && b.len()
                    == a.len() && forall|j: int|
                    0 <= j < a.len() ==> result_compacted(a[j], #[trigger] b[j]),
                other => member(c, "results"@) == other,
            }
        },
{
    let keys = seq!["score"@, "source"@];
    let c = strip_member_items(m, "results"@, keys);
    assert(compact_value(Json::Object(m)) == Json::Object(c));
    let i = find_key(m, "results"@, 0);
    lemma_find_key_found(m, "results"@, 0);
    match m[i].1 {
        Json::Array(a) => {
            let b = items_drop_keys(a, keys);
            assert(c == m.update(i, (m[i].0, Json::Array(b))));
            assert forall|k: Seq<char>| k != "results"@ implies #[trigger] member(c, k) == member(m, k) by {
                let f = find_key(m, k, 0);
                if f >= 0 {
                    lemma_find_key_found(m, k, 0);
                    assert forall|j: int| 0 <= j < f implies #[trigger] c[j].0 != k by {
                        assert(c[j].0 == m[j].0);
                    }
                    lemma_find_key_first(c, k, 0, f);
                } else {
                    lemma_find_key_absent(m, k, 0);
                    assert forall|j: int| 0 <= j < c.len() implies #[trigger] c[j].0 != k by {
                        assert(c[j].0 == m[j].0);
                    }
                    lemma_find_key_none(c, k, 0);
                }
            }
            assert forall|j: int| 0 <= j < i implies #[trigger] c[j].0 != "results"@ by {
                assert(c[j].0 == m[j].0);
            }
            lemma_find_key_first(c, "results"@, 0, i);
            assert forall|j: int| 0 <= j < a.len() implies result_compacted(a[j], #[trigger] b[j]) by {
                assert(crate::raw::array_items(member(m, "results"@))[j] == a[j]);
                lemma_drop_score_source(a[j]);
            }
        },
        _ => {
            assert(c == m);
        },
    }
}

// ------------------------------------------------------------------
// Executable code
// ------------------------------------------------------------------

/// The views of a slice of keys.
pub open spec fn keys_view(keys: Seq<&str>) -> Seq<Seq<char>> {
    keys.map_values(|k: &str| k@)
}

/// Removes the first member with the key.
fn remove_member(m: &mut Vec<(String, JsonValue)>, key: &str)
    ensures
        members_view(*final(m)) == obj_remove(members_view(*old(m)), key@),
{
    let ghost mv = members_view(*m);
    proof {
        lemma_members_view(*m, m@.len());
    }
    match find_member(m, key) {
        Some(i) => {
            let _ = m.remove(i);
            proof {
                lemma_members_view(*m, m@.len());
                assert(members_view(*m) =~= mv.remove(i as int));
            }
        },
        None => {},
    }
}

/// A copy of a value with the given keys dropped (see [`drop_keys`]).
fn without_keys(v: &JsonValue, keys: &[&str]) -> (r: JsonValue)
    ensures
        r@ == drop_keys(v@, keys_view(keys@)),
{
    let mut r = clone_value(v);
    let mut i: usize = 0;
    while i < keys.len()
        invariant
            i <= keys@.len(),
            r@ == drop_keys(v@, keys_view(keys@).take(i as int)),
        decreases keys.len() - i,
    {
        assert(keys_view(keys@).take(i + 1).drop_last() =~= keys_view(keys@).take(i as int));
        match &mut r {
            JsonValue::Object(m) => {
                remove_member(m, keys[i]);
            },
            _ => {},
        }
        i += 1;
    }
    assert(keys_view(keys@).take(keys@.len() as int) =~= keys_view(keys@));
    r
}

/// Items with the given keys dropped.
fn items_without_keys(a: &Vec<JsonValue>, keys: &[&str]) -> (r: Vec<JsonValue>)
    ensures
        items_view(r) == items_drop_keys(items_view(*a), keys_view(keys@)),
{
    proof {
        lemma_items_view(*a, a@.len());
    }
    let mut r: Vec<JsonValue> = Vec::new();
    let mut i: usize = 0;
    while i < a.len()
        invariant
            i <= a@.len(),
            r@.len() == i,
            forall|k: int| 0 <= k < i ==> #[trigger] r@[k]@ == drop_keys(a@[k]@, keys_view(keys@)),
        decreases a.len() - i,
    {
        r.push(without_keys(&a[i], keys));
        i += 1;
    }
    proof {
        lemma_items_view(r, r@.len());
        lemma_items_view(*a, a@.len());
        assert(items_view(r) =~= items_drop_keys(items_view(*a), keys_view(keys@)));
    }
    r
}

/// The members with the array member `key` stripped of `keys` per item.
fn strip_items_of_member(m: &Vec<(String, JsonValue)>, key: &str, keys: &[&str]) -> (r: Vec<
    (String, JsonValue),
>)
    ensures
        members_view(r) == strip_member_items(members_view(*m), key@, keys_view(keys@)),
{
    let ghost mv = members_view(*m);
    proof {
        lemma_members_view(*m, m@.len());
    }
    let mut out = clone_members(m);
    match find_member(m, key) {
        Some(i) => {
            match &m[i].1 {
                JsonValue::Array(a) => {
                    let items = items_without_keys(a, keys);
                    out.set(i, (m[i].0.clone(), JsonValue::Array(items)));
                    proof {
                        lemma_members_view(out, out@.len());
                        assert(mv[i as int] == (m@[i as int].0@, m@[i as int].1@));
                        assert(members_view(out) =~= strip_member_items(mv, key@, keys_view(keys@)));
                    }
                },
                _ => {
                    assert(mv[i as int] == (m@[i as int].0@, m@[i as int].1@));
                },
            }
        },
        None => {},
    }
    out
}

/// A copy of object members.
fn clone_members(m: &Vec<(String, JsonValue)>) -> (r: Vec<(String, JsonValue)>)
    ensures
        members_view(r) == members_view(*m),
        r@.len() == m@.len(),
        forall|k: int| 0 <= k < m@.len() ==> #[trigger] r@[k].0@ == m@[k].0@ && r@[k].1@ == m@[k].1@,
{
    let mut r: Vec<(String, JsonValue)> = Vec::new();
    let mut i: usize = 0;
    while i < m.len()
        invariant
            i <= m@.len(),
            r@.len() == i,
            forall|k: int| 0 <= k < i ==> #[trigger] r@[k].0@ == m@[k].0@ && r@[k].1@ == m@[k].1@,
        decreases m.len() - i,
    {
        r.push((m[i].0.clone(), clone_value(&m[i].1)));
        i += 1;
    }
    proof {
        lemma_members_view(r, r@.len());
        lemma_members_view(*m, m@.len());
        assert(members_view(r) =~= members_view(*m));
    }
    r
}

/// A file group with the context of its matches dropped.
fn strip_group(g: &JsonValue) -> (r: JsonValue)
    ensures
        r@ == group_stripped(g@),
{
    match g {
        JsonValue::Object(m) => {
            let keys: [&str; 2] = ["context_before", "context_after"];
            assert(keys_view(keys@) =~= context_keys());
            JsonValue::Object(strip_items_of_member(m, "matches", &keys))
        },
        _ => clone_value(g),
    }
}

/// A flat match with context and empty captures dropped.
fn strip_legacy_match(x: &JsonValue) -> (r: JsonValue)
    ensures
        r@ == legacy_match_stripped(x@),
{
    let keys: [&str; 2] = ["context_before", "context_after"];
    assert(keys_view(keys@) =~= context_keys());
    let y = without_keys(x, &keys);
    match y {
        JsonValue::Object(mut o) => {
            let empty_caps = match crate::json::member_of(&o, "captures") {
                Some(c) => match c.as_object() {
                    Some(cm) => {
                        proof {
                            lemma_members_view(*cm, cm@.len());
                        }
                        cm.len() == 0
                    },
                    None => false,
                },
                None => false,
            };
            if empty_caps {
                remove_member(&mut o, "captures");
            }
            JsonValue::Object(o)
        },
        other => other,
    }
}

/// The members with each item of the array member `key` mapped: file
/// groups when `groups`, flat matches otherwise.
fn map_matches_of_member(m: &Vec<(String, JsonValue)>, key: &str, groups: bool) -> (r: Vec<
    (String, JsonValue),
>)
    ensures
        members_view(r) == map_member_items(
            members_view(*m),
            key@,
            if groups {
                |g: Json| group_stripped(g)
            } else {
                |x: Json| legacy_match_stripped(x)
            },
        ),
{
    let ghost f: spec_fn(Json) -> Json = if groups {
        |g: Json| group_stripped(g)
    } else {
        |x: Json| legacy_match_stripped(x)
    };
    let ghost mv = members_view(*m);
    proof {
        lemma_members_view(*m, m@.len());
    }
    let mut out = clone_members(m);
    match find_member(m, key) {
        Some(i) => {
            assert(mv[i as int] == (m@[i as int].0@, m@[i as int].1@));
            match &m[i].1 {
                JsonValue::Array(a) => {
                    proof {
                        lemma_items_view(*a, a@.len());
                    }
                    let mut items: Vec<JsonValue> = Vec::new();
                    let mut j: usize = 0;
                    while j < a.len()
                        invariant
                            j <= a@.len(),
                            items@.len() == j,
                            f == (if groups {
                                |g: Json| group_stripped(g)
                            } else {
                                |x: Json| legacy_match_stripped(x)
                            }),
                            forall|k: int| 0 <= k < j ==> #[trigger] items@[k]@ == f(a@[k]@),
                        decreases a.len() - j,
                    {
                        let x = if groups {
                            strip_group(&a[j])
                        } else {
                            strip_legacy_match(&a[j])
                        };
                        items.push(x);
                        j += 1;
                    }
                    proof {
                        lemma_items_view(items, items@.len());
                        lemma_items_view(*a, a@.len());
                        assert(items_view(items) =~= items_view(*a).map_values(f));
                    }
                    out.set(i, (m[i].0.clone(), JsonValue::Array(items)));
                    proof {
                        lemma_members_view(out, out@.len());
                        assert(members_view(out) =~= map_member_items(mv, key@, f));
                    }
                },
                _ => {},
            }
        },
        None => {},
    }
    out
}

/// Strip non-essential fields from a tool result for the compact format
/// (see [`compact_value`]).
pub fn compact_json_value(value: &JsonValue) -> (r: JsonValue)
    ensures
        r@ == compact_value(value@),
{
    match value {
        JsonValue::Object(m) => {
            if crate::json::has_member(m, "root") && crate::json::has_member(m, "entries")
                && crate::json::has_member(m, "total_files") {
                let keys: [&str; 1] = ["depth"];
                assert(keys_view(keys@) =~= seq!["depth"@]);
                return JsonValue::Object(strip_items_of_member(m, "entries", &keys));
            }
            if crate::json::has_member(m, "pattern") && crate::json::has_member(m, "matches")
                && crate::json::has_member(m, "total_matches") {
                if crate::json::array_field(m, "file_matches").is_some() {
                    let mut out = map_matches_of_member(m, "file_matches", true);
                    remove_member(&mut out, "matches");
                    return JsonValue::Object(out);
                } else {
                    return JsonValue::Object(map_matches_of_member(m, "matches", false));
                }
            }
            if crate::json::has_member(m, "query") && crate::json::has_member(m, "results")
                && crate::json::has_member(m, "total_results") {
                let keys: [&str; 2] = ["score", "source"];
                assert(keys_view(keys@) =~= seq!["score"@, "source"@]);
                return JsonValue::Object(strip_items_of_member(m, "results", &keys));
            }
            clone_value(value)
        },
        JsonValue::Array(a) => {
            proof {
                lemma_items_view(*a, a@.len());
            }
            if a.len() > 0 && a[0].get("kind").is_some() && a[0].get("line_start").is_some() {
                let keys: [&str; 2] = ["byte_start", "byte_end"];
                assert(keys_view(keys@) =~= seq!["byte_start"@, "byte_end"@]);
                return JsonValue::Array(items_without_keys(a, &keys));
            }
            clone_value(value)
        },
        _ => clone_value(value),
    }
}

} // verus!
