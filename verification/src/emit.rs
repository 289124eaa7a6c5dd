//! JSON output under a hard token budget: structural reduction of values
//! (string shortening, array truncation, skeletons) until the text fits.
use vstd::prelude::*;
use vstd::string::StringExecFns;
use crate::budget::{count_tokens, token_count, BudgetedOutput};
use crate::json::{compact, find_key, find_member, json_get, member, items_view, json_text, lemma_items_view, lemma_members_view, members_view, pretty, to_json_string, to_json_string_pretty, Json, JsonNumber, JsonValue, Num};
use crate::text::{byte_len, char_width, char_width_of, chars_of, owned, push_chars};

verus! {

// ------------------------------------------------------------------
// Specifications
// ------------------------------------------------------------------

/// How many leading characters fit in `max` bytes of UTF-8.
pub open spec fn prefix_chars(s: Seq<char>, max: nat) -> nat
    decreases s.len(),
{
    if s.len() == 0 || char_width(s[0]) > max {
        0
    } else {
        1 + prefix_chars(s.drop_first(), (max - char_width(s[0])) as nat)
    }
}

/// A string longer than `max` bytes cut at the last character boundary
/// within `max` bytes and marked `...[truncated]`.
pub open spec fn reduce_str(s: Seq<char>, max: nat) -> Seq<char> {
    if byte_len(s) > max {
        s.take(prefix_chars(s, max) as int) + "...[truncated]"@
    } else {
        s
    }
}

/// The marker that replaces dropped array items.
pub open spec fn sentinel(remaining: nat) -> Json {
    Json::Object(
        seq![
            ("_truncated"@, Json::Bool(true)),
            ("remaining"@, Json::Number(Num::PosInt(remaining as u64))),
        ],
    )
}

/// A value with every string shortened to `ms` bytes and every array cut to
/// `ma` items followed by a marker counting the dropped items.
pub open spec fn reduce(v: Json, ms: nat, ma: nat) -> Json
    decreases v, 0nat,
{
    match v {
        Json::Str(s) => Json::Str(reduce_str(s, ms)),
        Json::Array(a) => Json::Array(
            reduce_items(a, if a.len() < ma { a.len() } else { ma }, ms, ma) + if a.len() > ma {
                seq![sentinel((a.len() - ma) as nat)]
            } else {
                seq![]
            },
        ),
        Json::Object(m) => Json::Object(reduce_members(m, m.len(), ms, ma)),
        _ => v,
    }
}

pub open spec fn reduce_items(a: Seq<Json>, n: nat, ms: nat, ma: nat) -> Seq<Json>
    decreases a, n,
{
    if n == 0 || n > a.len() {
        seq![]
    } else {
        reduce_items(a, (n - 1) as nat, ms, ma).push(reduce(a[n - 1], ms, ma))
    }
}

pub open spec fn reduce_members(m: Seq<(Seq<char>, Json)>, n: nat, ms: nat, ma: nat) -> Seq<
    (Seq<char>, Json),
>
    decreases m, n,
{
    if n == 0 || n > m.len() {
        seq![]
    } else {
        reduce_members(m, (n - 1) as nat, ms, ma).push((m[n - 1].0, reduce(m[n - 1].1, ms, ma)))
    }
}

/// Lexicographic order of keys by character code (the order of their UTF-8 bytes).
pub open spec fn key_lt(a: Seq<char>, b: Seq<char>) -> bool
    decreases a.len(),
{
    if a.len() == 0 {
        b.len() > 0
    } else if b.len() == 0 {
        false
    } else if a[0] != b[0] {
        (a[0] as u32) < (b[0] as u32)
    } else {
        key_lt(a.drop_first(), b.drop_first())
    }
}

/// Position at which a new key goes into an ordered map: before the first
/// greater key at or after `i`.
pub open spec fn insert_pos(m: Seq<(Seq<char>, Json)>, k: Seq<char>, i: int) -> int
    decreases m.len() - i,
{
    if i < 0 || i >= m.len() {
        m.len() as int
    } else if key_lt(k, m[i].0) {
        i
    } else {
        insert_pos(m, k, i + 1)
    }
}

/// Map insertion: replaces the value of an existing key, or adds the key at
/// its place in key order.
pub open spec fn obj_insert(m: Seq<(Seq<char>, Json)>, k: Seq<char>, v: Json) -> Seq<
    (Seq<char>, Json),
> {
    let i = find_key(m, k, 0);
    if i >= 0 {
        m.update(i, (k, v))
    } else {
        m.insert(insert_pos(m, k, 0), (k, v))
    }
}

/// Whether a member survives in a skeleton: numbers, booleans, and strings
/// of at most 50 bytes.
pub open spec fn keeps_in_skeleton(v: Json) -> bool {
    match v {
        Json::Number(_) => true,
        Json::Bool(_) => true,
        Json::Str(s) => byte_len(s) <= 50,
        _ => false,
    }
}

pub open spec fn skeleton_members(m: Seq<(Seq<char>, Json)>) -> Seq<(Seq<char>, Json)>
    decreases m.len(),
{
    if m.len() == 0 {
        seq![]
    } else {
        let rest = skeleton_members(m.drop_last());
        if keeps_in_skeleton(m.last().1) {
            rest.push(m.last())
        } else {
            rest
        }
    }
}

/// The top-level scalars of an object with `"truncated": true` set; any
/// other value becomes `{"truncated": true}`.
pub open spec fn skeleton(v: Json) -> Json {
    match v {
        Json::Object(m) => Json::Object(
            obj_insert(skeleton_members(m), "truncated"@, Json::Bool(true)),
        ),
        _ => Json::Object(seq![("truncated"@, Json::Bool(true))]),
    }
}

/// Shape statistics of a value.
pub struct Stats {
    pub arrays: nat,
    pub strings: nat,
    pub max_array_len: nat,
    pub max_string_len: nat,
}

pub open spec fn max_nat(a: nat, b: nat) -> nat {
    if a >= b {
        a
    } else {
        b
    }
}

pub open spec fn stats_plus(x: Stats, y: Stats) -> Stats {
    Stats {
        arrays: x.arrays + y.arrays,
        strings: x.strings + y.strings,
        max_array_len: max_nat(x.max_array_len, y.max_array_len),
        max_string_len: max_nat(x.max_string_len, y.max_string_len),
    }
}

pub open spec fn stats_zero() -> Stats {
    Stats { arrays: 0, strings: 0, max_array_len: 0, max_string_len: 0 }
}

/// Number of arrays and strings, and the longest array and string (in
/// bytes), anywhere in a value.
pub open spec fn stats_of(v: Json) -> Stats
    decreases v, 0nat,
{
    match v {
        Json::Str(s) => Stats { arrays: 0, strings: 1, max_array_len: 0, max_string_len: byte_len(s) },
        Json::Array(a) => stats_plus(
            Stats { arrays: 1, strings: 0, max_array_len: a.len(), max_string_len: 0 },
            stats_items(a, a.len()),
        ),
        Json::Object(m) => stats_members(m, m.len()),
        _ => stats_zero(),
    }
}

pub open spec fn stats_items(a: Seq<Json>, n: nat) -> Stats
    decreases a, n,
{
    if n == 0 || n > a.len() {
        stats_zero()
    } else {
        stats_plus(stats_items(a, (n - 1) as nat), stats_of(a[n - 1]))
    }
}

pub open spec fn stats_members(m: Seq<(Seq<char>, Json)>, n: nat) -> Stats
    decreases m, n,
{
    if n == 0 || n > m.len() {
        stats_zero()
    } else {
        stats_plus(stats_members(m, (n - 1) as nat), stats_of(m[n - 1].1))
    }
}

/// A count held in a `usize`, saturating at its maximum.
pub open spec fn sat(n: nat) -> nat {
    if n <= usize::MAX {
        n
    } else {
        usize::MAX as nat
    }
}

/// Statistics with every field saturated.
pub open spec fn sat_stats(s: Stats) -> Stats {
    Stats {
        arrays: sat(s.arrays),
        strings: sat(s.strings),
        max_array_len: sat(s.max_array_len),
        max_string_len: sat(s.max_string_len),
    }
}

/// Reduction steps for array-heavy values, least to most aggressive, as
/// (string bytes, array items).
pub open spec fn array_heavy_plan() -> Seq<(nat, nat)> {
    seq![
        (2000nat, 30nat),
        (1200, 20),
        (800, 15),
        (500, 10),
        (300, 7),
        (200, 5),
        (150, 3),
        (100, 2),
        (80, 1),
        (50, 1),
        (30, 1),
    ]
}

/// Reduction steps for string-heavy values.
pub open spec fn string_heavy_plan() -> Seq<(nat, nat)> {
    seq![
        (1200nat, 50nat),
        (800, 30),
        (500, 20),
        (300, 15),
        (220, 10),
        (180, 7),
        (140, 5),
        (100, 3),
        (80, 2),
        (50, 1),
        (30, 1),
        (20, 1),
    ]
}

/// Reduction steps for other values.
pub open spec fn balanced_plan() -> Seq<(nat, nat)> {
    seq![
        (1500nat, 30nat),
        (900, 20),
        (600, 15),
        (400, 10),
        (280, 7),
        (220, 5),
        (170, 3),
        (120, 2),
        (90, 1),
        (60, 1),
        (40, 1),
        (30, 1),
    ]
}

/// The reduction plan for a shape: array-heavy when some array has 100 or
/// more items or arrays outnumber twice the strings; else string-heavy when
/// some string has 2000 or more bytes or strings outnumber twice the arrays;
/// else balanced.
pub open spec fn plan_for(s: Stats) -> Seq<(nat, nat)> {
    if s.max_array_len >= 100 || s.arrays > sat(2 * s.strings) {
        array_heavy_plan()
    } else if s.max_string_len >= 2000 || s.strings > sat(2 * s.arrays) {
        string_heavy_plan()
    } else {
        balanced_plan()
    }
}

/// The first reduction from step `i` on whose compact text fits the budget.
pub open spec fn first_fit(v: Json, plan: Seq<(nat, nat)>, i: int, budget: nat) -> Option<
    Seq<char>,
>
    decreases plan.len() - i,
{
    if i < 0 || i >= plan.len() {
        None
    } else {
        let t = compact(reduce(v, plan[i].0, plan[i].1));
        if token_count(t) <= budget {
            Some(t)
        } else {
            first_fit(v, plan, i + 1, budget)
        }
    }
}

/// The text reported when nothing fits the budget.
pub open spec fn budget_exhausted_text() -> Seq<char> {
    "{\"budget_exhausted\":true}"@
}

/// A value as serde_json's map holds it: object keys in key order, a key
/// that occurs twice keeping its first place and its last value, at every
/// depth.
pub open spec fn normalized(v: Json) -> Json
    decreases v, 0nat,
{
    match v {
        Json::Array(a) => Json::Array(normalized_items(a, a.len())),
        Json::Object(m) => Json::Object(normalized_members(m, m.len())),
        _ => v,
    }
}

pub open spec fn normalized_items(a: Seq<Json>, n: nat) -> Seq<Json>
    decreases a, n,
{
    if n == 0 || n > a.len() {
        seq![]
    } else {
        normalized_items(a, (n - 1) as nat).push(normalized(a[n - 1]))
    }
}

pub open spec fn normalized_members(m: Seq<(Seq<char>, Json)>, n: nat) -> Seq<(Seq<char>, Json)>
    decreases m, n,
{
    if n == 0 || n > m.len() {
        seq![]
    } else {
        obj_insert(normalized_members(m, (n - 1) as nat), m[n - 1].0, normalized(m[n - 1].1))
    }
}

/// A value reduced until its compact JSON text fits the budget. The value is
/// first put in map order (see [`normalized`]); then the first step of the
/// plan for its shape that fits is taken; else the most aggressive reduction
/// (20 bytes, 1 item) if it fits; else its skeleton if that fits; else
/// `{"budget_exhausted":true}`.
pub open spec fn truncated_json(v: Json, budget: nat) -> Seq<char> {
    let n = normalized(v);
    match first_fit(n, plan_for(sat_stats(stats_of(n))), 0, budget) {
        Some(t) => t,
        None => {
            let last = reduce(n, 20, 1);
            let t = compact(last);
            if token_count(t) > budget {
                let sk = compact(skeleton(last));
                if token_count(sk) <= budget {
                    sk
                } else {
                    budget_exhausted_text()
                }
            } else {
                t
            }
        },
    }
}

/// What `emit_json` returns for a value and a budget: without a budget, the
/// pretty text; with one, the pretty text when it fits, else the compact
/// text when it fits, else the reduced text (reported as truncated).
pub open spec fn emitted(
    content: Seq<char>,
    tokens: nat,
    truncated: bool,
    original_tokens: nat,
    v: Json,
    max_tokens: Option<usize>,
) -> bool {
    match max_tokens {
        None => {
            &&& content == pretty(v, 0)
            &&& tokens == token_count(content)
            &&& !truncated
            &&& original_tokens == tokens
        },
        Some(b) => {
            let c = compact(v);
            let ct = token_count(c);
            if ct > b {
                &&& content == truncated_json(v, b as nat)
                &&& tokens == token_count(content)
                &&& truncated
                &&& original_tokens == ct
            } else {
                let p = pretty(v, 0);
                let pt = token_count(p);
                if pt <= b {
                    &&& content == p
                    &&& tokens == pt
                    &&& !truncated
                    &&& original_tokens == pt
                } else {
                    &&& content == c
                    &&& tokens == ct
                    &&& !truncated
                    &&& original_tokens == pt
                }
            }
        },
    }
}

// ------------------------------------------------------------------
// Lemmas
// ------------------------------------------------------------------

proof fn lemma_byte_len_front(s: Seq<char>)
    requires
        s.len() > 0,
    ensures
        byte_len(s) == char_width(s[0]) + byte_len(s.drop_first()),
    decreases s.len(),
{
    if s.len() > 1 {
        lemma_byte_len_front(s.drop_last());
        assert(s.drop_last().drop_first() =~= s.drop_first().drop_last());
        assert(s.drop_last()[0] == s[0]);
    } else {
        assert(s.drop_first() =~= Seq::<char>::empty());
        assert(s.drop_last() =~= Seq::<char>::empty());
    }
}

proof fn lemma_prefix_chars(s: Seq<char>, max: nat)
    ensures
        prefix_chars(s, max) <= s.len(),
        (prefix_chars(s, max) == s.len()) == (byte_len(s) <= max),
    decreases s.len(),
{
    if s.len() > 0 {
        lemma_byte_len_front(s);
        if char_width(s[0]) <= max {
            lemma_prefix_chars(s.drop_first(), (max - char_width(s[0])) as nat);
        }
    }
}

proof fn lemma_normalized_items_len(a: Seq<Json>, n: nat)
    requires
        n <= a.len(),
    ensures
        normalized_items(a, n).len() == n,
        forall|i: int| 0 <= i < n ==> #[trigger] normalized_items(a, n)[i] == normalized(a[i]),
    decreases n,
{
    if n > 0 {
        lemma_normalized_items_len(a, (n - 1) as nat);
    }
}

proof fn lemma_reduce_items_len(a: Seq<Json>, n: nat, ms: nat, ma: nat)
    requires
        n <= a.len(),
    ensures
        reduce_items(a, n, ms, ma).len() == n,
        forall|i: int| 0 <= i < n ==> #[trigger] reduce_items(a, n, ms, ma)[i] == reduce(a[i], ms, ma),
    decreases n,
{
    if n > 0 {
        lemma_reduce_items_len(a, (n - 1) as nat, ms, ma);
    }
}

proof fn lemma_reduce_members_len(m: Seq<(Seq<char>, Json)>, n: nat, ms: nat, ma: nat)
    requires
        n <= m.len(),
    ensures
        reduce_members(m, n, ms, ma).len() == n,
        forall|i: int|
            0 <= i < n ==> #[trigger] reduce_members(m, n, ms, ma)[i] == (m[i].0, reduce(m[i].1, ms, ma)),
    decreases n,
{
    if n > 0 {
        lemma_reduce_members_len(m, (n - 1) as nat, ms, ma);
    }
}

// ------------------------------------------------------------------
// Executable code
// ------------------------------------------------------------------

/// A deep copy of a value.
pub fn clone_value(v: &JsonValue) -> (r: JsonValue)
    ensures
        r@ == v@,
    decreases v,
{
    match v {
        JsonValue::Null => JsonValue::Null,
        JsonValue::Bool(b) => JsonValue::Bool(*b),
        JsonValue::Number(JsonNumber::PosInt(u)) => JsonValue::Number(JsonNumber::PosInt(*u)),
        JsonValue::Number(JsonNumber::NegInt(i)) => JsonValue::Number(JsonNumber::NegInt(*i)),
        JsonValue::Number(JsonNumber::Float(t)) => JsonValue::Number(JsonNumber::Float(t.clone())),
        JsonValue::String(s) => JsonValue::String(s.clone()),
        JsonValue::Array(a) => {
            proof {
                lemma_items_view(*a, a@.len());
            }
            let mut out: Vec<JsonValue> = Vec::new();
            let mut i: usize = 0;
            while i < a.len()
                invariant
                    *v == JsonValue::Array(*a),
                    i <= a@.len(),
                    out@.len() == i,
                    forall|k: int| 0 <= k < i ==> #[trigger] out@[k]@ == a@[k]@,
                decreases a.len() - i,
            {
                proof {
                    assert(decreases_to!(*v => (*v)->Array_0));
                    assert(decreases_to!((*v)->Array_0 => (*v)->Array_0@));
                    assert(decreases_to!((*v)->Array_0@ => a@[i as int]));
                }
                let c = clone_value(&a[i]);
                out.push(c);
                i += 1;
            }
            proof {
                lemma_items_view(out, out@.len());
                assert(items_view(out) =~= items_view(*a));
            }
            JsonValue::Array(out)
        },
        JsonValue::Object(m) => {
            proof {
                lemma_members_view(*m, m@.len());
            }
            let mut out: Vec<(String, JsonValue)> = Vec::new();
            let mut i: usize = 0;
            while i < m.len()
                invariant
                    *v == JsonValue::Object(*m),
                    i <= m@.len(),
                    out@.len() == i,
                    forall|k: int| 0 <= k < i ==> #[trigger] out@[k].0@ == m@[k].0@ && out@[k].1@ == m@[k].1@,
                decreases m.len() - i,
            {
                proof {
                    assert(decreases_to!(*v => (*v)->Object_0));
                    assert(decreases_to!((*v)->Object_0 => (*v)->Object_0@));
                    assert(decreases_to!((*v)->Object_0@ => m@[i as int]));
                    assert(decreases_to!(m@[i as int] => m@[i as int].1));
                }
                let c = clone_value(&m[i].1);
                out.push((m[i].0.clone(), c));
                i += 1;
            }
            proof {
                lemma_members_view(out, out@.len());
                assert(members_view(out) =~= members_view(*m));
            }
            JsonValue::Object(out)
        },
    }
}

/// The characters of `s` within `max` bytes, and whether `s` is longer.
fn byte_prefix(cs: &Vec<char>, max: usize) -> (r: (usize, bool))
    ensures
        r.0 == prefix_chars(cs@, max as nat),
        r.1 == (byte_len(cs@) > max),
{
    proof {
        lemma_prefix_chars(cs@, max as nat);
    }
    let mut i: usize = 0;
    let mut used: usize = 0;
    assert(cs@.subrange(0, cs@.len() as int) =~= cs@);
    while i < cs.len()
        invariant
            i <= cs@.len(),
            used <= max,
            (prefix_chars(cs@, max as nat) == cs@.len()) == (byte_len(cs@) <= max),
            prefix_chars(cs@, max as nat) == i + prefix_chars(cs@.subrange(i as int, cs@.len() as int), (max - used) as nat),
        decreases cs.len() - i,
    {
        let ghost rest = cs@.subrange(i as int, cs@.len() as int);
        assert(rest[0] == cs@[i as int]);
        let w = char_width_of(cs[i]);
        if w > max - used {
            return (i, true);
        }
        assert(rest.drop_first() =~= cs@.subrange(i + 1, cs@.len() as int));
        used = used + w;
        i += 1;
    }
    (i, false)
}

fn sentinel_value(remaining: usize) -> (r: JsonValue)
    ensures
        r@ == sentinel(remaining as nat),
{
    let m: Vec<(String, JsonValue)> = vec![
        (owned("_truncated"), JsonValue::Bool(true)),
        (owned("remaining"), JsonValue::Number(JsonNumber::PosInt(remaining as u64))),
    ];
    proof {
        lemma_members_view(m, 2);
        assert(members_view(m) =~= seq![
            ("_truncated"@, Json::Bool(true)),
            ("remaining"@, Json::Number(Num::PosInt(remaining as u64))),
        ]);
    }
    JsonValue::Object(m)
}

/// Recursively reduce a JSON value by shortening strings and truncating arrays.
pub fn reduce_value(v: &JsonValue, max_string_len: usize, max_array_len: usize) -> (r: JsonValue)
    ensures
        r@ == reduce(v@, max_string_len as nat, max_array_len as nat),
    decreases v,
{
    match v {
        JsonValue::String(s) => {
            let cs = chars_of(s.as_str());
            let (k, longer) = byte_prefix(&cs, max_string_len);
            if longer {
                proof {
                    lemma_prefix_chars(cs@, max_string_len as nat);
                }
                let mut t = String::new();
                push_chars(&mut t, &cs, 0, k);
                t.append("...[truncated]");
                assert(t@ =~= reduce_str(s@, max_string_len as nat));
                JsonValue::String(t)
            } else {
                clone_value(v)
            }
        },
        JsonValue::Array(a) => {
            proof {
                lemma_items_view(*a, a@.len());
            }
            let keep = if a.len() < max_array_len { a.len() } else { max_array_len };
            let ghost av = items_view(*a);
            let mut out: Vec<JsonValue> = Vec::new();
            let mut i: usize = 0;
            while i < keep
                invariant
                    *v == JsonValue::Array(*a),
                    av == items_view(*a),
                    keep <= a@.len(),
                    i <= keep,
                    out@.len() == i,
                    forall|k: int| 0 <= k < a@.len() ==> #[trigger] av[k] == a@[k]@,
                    forall|k: int| 0 <= k < i ==> #[trigger] out@[k]@ == reduce(av[k], max_string_len as nat, max_array_len as nat),
                decreases keep - i,
            {
                proof {
                    assert(decreases_to!(*v => (*v)->Array_0));
                    assert(decreases_to!((*v)->Array_0 => (*v)->Array_0@));
                    assert(decreases_to!((*v)->Array_0@ => a@[i as int]));
                }
                let r = reduce_value(&a[i], max_string_len, max_array_len);
                out.push(r);
                i += 1;
            }
            if a.len() > max_array_len {
                out.push(sentinel_value(a.len() - max_array_len));
            }
            proof {
                lemma_items_view(out, out@.len());
                lemma_reduce_items_len(av, keep as nat, max_string_len as nat, max_array_len as nat);
                assert(items_view(out) =~= reduce_items(av, keep as nat, max_string_len as nat, max_array_len as nat) + if a@.len() > max_array_len {
                    seq![sentinel((a@.len() - max_array_len) as nat)]
                } else {
                    seq![]
                });
            }
            JsonValue::Array(out)
        },
        JsonValue::Object(m) => {
            proof {
                lemma_members_view(*m, m@.len());
            }
            let ghost mv = members_view(*m);
            let mut out: Vec<(String, JsonValue)> = Vec::new();
            let mut i: usize = 0;
            while i < m.len()
                invariant
                    *v == JsonValue::Object(*m),
                    mv == members_view(*m),
                    i <= m@.len(),
                    out@.len() == i,
                    forall|k: int| 0 <= k < m@.len() ==> #[trigger] mv[k] == (m@[k].0@, m@[k].1@),
                    forall|k: int| 0 <= k < i ==> #[trigger] out@[k].0@ == mv[k].0 && out@[k].1@ == reduce(mv[k].1, max_string_len as nat, max_array_len as nat),
                decreases m.len() - i,
            {
                proof {
                    assert(decreases_to!(*v => (*v)->Object_0));
                    assert(decreases_to!((*v)->Object_0 => (*v)->Object_0@));
                    assert(decreases_to!((*v)->Object_0@ => m@[i as int]));
                    assert(decreases_to!(m@[i as int] => m@[i as int].1));
                }
                let r = reduce_value(&m[i].1, max_string_len, max_array_len);
                out.push((m[i].0.clone(), r));
                i += 1;
            }
            proof {
                lemma_members_view(out, out@.len());
                lemma_reduce_members_len(mv, mv.len(), max_string_len as nat, max_array_len as nat);
                assert(members_view(out) =~= reduce_members(mv, mv.len(), max_string_len as nat, max_array_len as nat));
            }
            JsonValue::Object(out)
        },
        _ => clone_value(v),
    }
}

/// A value in map order (see [`normalized`]).
pub fn normalize_value(v: &JsonValue) -> (r: JsonValue)
    ensures
        r@ == normalized(v@),
    decreases v,
{
    match v {
        JsonValue::Array(a) => {
            proof {
                lemma_items_view(*a, a@.len());
            }
            let ghost av = items_view(*a);
            let mut out: Vec<JsonValue> = Vec::new();
            let mut i: usize = 0;
            while i < a.len()
                invariant
                    *v == JsonValue::Array(*a),
                    av == items_view(*a),
                    av.len() == a@.len(),
                    i <= a@.len(),
                    out@.len() == i,
                    forall|k: int| 0 <= k < a@.len() ==> #[trigger] av[k] == a@[k]@,
                    forall|k: int| 0 <= k < i ==> #[trigger] out@[k]@ == normalized(av[k]),
                decreases a.len() - i,
            {
                proof {
                    assert(decreases_to!(*v => (*v)->Array_0));
                    assert(decreases_to!((*v)->Array_0 => (*v)->Array_0@));
                    assert(decreases_to!((*v)->Array_0@ => a@[i as int]));
                }
                let r = normalize_value(&a[i]);
                out.push(r);
                i += 1;
            }
            proof {
                lemma_items_view(out, out@.len());
                lemma_normalized_items_len(av, av.len());
                assert(items_view(out) =~= normalized_items(av, av.len()));
            }
            JsonValue::Array(out)
        },
        JsonValue::Object(m) => {
            proof {
                lemma_members_view(*m, m@.len());
            }
            let ghost mv = members_view(*m);
            let mut out: Vec<(String, JsonValue)> = Vec::new();
            let mut i: usize = 0;
            proof {
                lemma_members_view(out, 0);
                assert(members_view(out) =~= Seq::<(Seq<char>, Json)>::empty());
            }
            while i < m.len()
                invariant
                    *v == JsonValue::Object(*m),
                    mv == members_view(*m),
                    mv.len() == m@.len(),
                    i <= m@.len(),
                    forall|k: int| 0 <= k < m@.len() ==> #[trigger] mv[k] == (m@[k].0@, m@[k].1@),
                    members_view(out) == normalized_members(mv, i as nat),
                decreases m.len() - i,
            {
                proof {
                    assert(decreases_to!(*v => (*v)->Object_0));
                    assert(decreases_to!((*v)->Object_0 => (*v)->Object_0@));
                    assert(decreases_to!((*v)->Object_0@ => m@[i as int]));
                    assert(decreases_to!(m@[i as int] => m@[i as int].1));
                }
                let r = normalize_value(&m[i].1);
                assert(mv[i as int] == (m@[i as int].0@, m@[i as int].1@));
                insert_member(&mut out, m[i].0.as_str(), r);
                i += 1;
            }
            JsonValue::Object(out)
        },
        _ => clone_value(v),
    }
}

/// Whether key `a` sorts before key `b`.
fn key_less(a: &str, b: &str) -> (r: bool)
    ensures
        r == key_lt(a@, b@),
{
    let x = chars_of(a);
    let y = chars_of(b);
    let mut i: usize = 0;
    assert(x@.skip(0) =~= x@);
    assert(y@.skip(0) =~= y@);
    while i < x.len() && i < y.len() && x[i] == y[i]
        invariant
            i <= x@.len(),
            i <= y@.len(),
            key_lt(a@, b@) == key_lt(x@.skip(i as int), y@.skip(i as int)),
            x@ == a@,
            y@ == b@,
        decreases x.len() - i,
    {
        assert(x@.skip(i as int).drop_first() =~= x@.skip(i + 1));
        assert(y@.skip(i as int).drop_first() =~= y@.skip(i + 1));
        i += 1;
    }
    if i == x.len() {
        i < y.len()
    } else if i == y.len() {
        false
    } else {
        (x[i] as u32) < (y[i] as u32)
    }
}

/// Map insertion into object members (see [`obj_insert`]).
fn insert_member(m: &mut Vec<(String, JsonValue)>, key: &str, v: JsonValue)
    ensures
        members_view(*final(m)) == obj_insert(members_view(*old(m)), key@, v@),
{
    let ghost mv = members_view(*m);
    proof {
        lemma_members_view(*m, m@.len());
    }
    let k = owned(key);
    match find_member(m, key) {
        Some(i) => {
            m.set(i, (k, v));
            proof {
                lemma_members_view(*m, m@.len());
                assert(members_view(*m) =~= mv.update(i as int, (key@, v@)));
            }
        },
        None => {
            let mut p: usize = 0;
            while p < m.len() && !key_less(key, m[p].0.as_str())
                invariant
                    p <= m@.len(),
                    mv == members_view(*m),
                    mv.len() == m@.len(),
                    forall|j: int| 0 <= j < m@.len() ==> #[trigger] mv[j] == (m@[j].0@, m@[j].1@),
                    insert_pos(mv, key@, 0) == insert_pos(mv, key@, p as int),
                decreases m.len() - p,
            {
                assert(mv[p as int] == (m@[p as int].0@, m@[p as int].1@));
                p += 1;
            }
            proof {
                if p < m@.len() {
                    assert(mv[p as int] == (m@[p as int].0@, m@[p as int].1@));
                }
            }
            m.insert(p, (k, v));
            proof {
                lemma_members_view(*m, m@.len());
                assert(members_view(*m) =~= mv.insert(p as int, (key@, v@)));
            }
        },
    }
}

/// Whether a member value survives in a skeleton.
fn keeps_value(v: &JsonValue) -> (r: bool)
    ensures
        r == keeps_in_skeleton(v@),
{
    match v {
        JsonValue::Number(_) => true,
        JsonValue::Bool(_) => true,
        JsonValue::String(s) => {
            let cs = chars_of(s.as_str());
            let (_, longer) = byte_prefix(&cs, 50);
            !longer
        },
        _ => false,
    }
}

/// Extract a skeleton from a JSON value: keep only top-level scalars
/// (numbers, booleans, strings of at most 50 bytes) and add
/// `"truncated": true`.
pub fn extract_skeleton(value: &JsonValue) -> (r: JsonValue)
    ensures
        r@ == skeleton(value@),
{
    match value {
        JsonValue::Object(m) => {
            let ghost mv = members_view(*m);
            proof {
                lemma_members_view(*m, m@.len());
            }
            let mut out: Vec<(String, JsonValue)> = Vec::new();
            let mut i: usize = 0;
            while i < m.len()
                invariant
                    i <= m@.len(),
                    mv == members_view(*m),
                    mv.len() == m@.len(),
                    forall|j: int| 0 <= j < m@.len() ==> #[trigger] mv[j] == (m@[j].0@, m@[j].1@),
                    members_view(out) == skeleton_members(mv.take(i as int)),
                decreases m.len() - i,
            {
                assert(mv.take(i + 1).drop_last() =~= mv.take(i as int));
                assert(mv[i as int] == (m@[i as int].0@, m@[i as int].1@));
                if keeps_value(&m[i].1) {
                    let ghost before = out;
                    let c = clone_value(&m[i].1);
                    out.push((m[i].0.clone(), c));
                    proof {
                        lemma_members_view(out, out@.len());
                        lemma_members_view(before, before@.len());
                        assert(members_view(out) =~= skeleton_members(mv.take(i as int)).push(mv[i as int]));
                    }
                }
                i += 1;
            }
            assert(mv.take(m@.len() as int) =~= mv);
            insert_member(&mut out, "truncated", JsonValue::Bool(true));
            JsonValue::Object(out)
        },
        _ => {
            let mut out: Vec<(String, JsonValue)> = Vec::new();
            out.push((owned("truncated"), JsonValue::Bool(true)));
            proof {
                lemma_members_view(out, 1);
                assert(members_view(out) =~= seq![("truncated"@, Json::Bool(true))]);
            }
            JsonValue::Object(out)
        },
    }
}

/// Shape statistics with counts that saturate at `usize::MAX`.
#[derive(Debug, Clone, Copy)]
pub struct ValueStats {
    pub arrays: usize,
    pub strings: usize,
    pub max_array_len: usize,
    pub max_string_len: usize,
}

pub open spec fn stats_view(s: ValueStats) -> Stats {
    Stats {
        arrays: s.arrays as nat,
        strings: s.strings as nat,
        max_array_len: s.max_array_len as nat,
        max_string_len: s.max_string_len as nat,
    }
}

fn sat_add(a: usize, b: usize) -> (r: usize)
    ensures
        r == sat((a + b) as nat),
{
    if a > usize::MAX - b {
        usize::MAX
    } else {
        a + b
    }
}

fn max_usize(a: usize, b: usize) -> (r: usize)
    ensures
        r == max_nat(a as nat, b as nat),
{
    if a >= b {
        a
    } else {
        b
    }
}

proof fn lemma_sat_plus(x: Stats, y: Stats)
    ensures
        sat_stats(stats_plus(x, y)) == (Stats {
            arrays: sat(sat(x.arrays) + sat(y.arrays)),
            strings: sat(sat(x.strings) + sat(y.strings)),
            max_array_len: max_nat(sat(x.max_array_len), sat(y.max_array_len)),
            max_string_len: max_nat(sat(x.max_string_len), sat(y.max_string_len)),
        }),
{
}

fn stats_add(x: ValueStats, y: ValueStats) -> (r: ValueStats)
    ensures
        stats_view(r) == (Stats {
            arrays: sat((x.arrays + y.arrays) as nat),
            strings: sat((x.strings + y.strings) as nat),
            max_array_len: max_nat(x.max_array_len as nat, y.max_array_len as nat),
            max_string_len: max_nat(x.max_string_len as nat, y.max_string_len as nat),
        }),
{
    ValueStats {
        arrays: sat_add(x.arrays, y.arrays),
        strings: sat_add(x.strings, y.strings),
        max_array_len: max_usize(x.max_array_len, y.max_array_len),
        max_string_len: max_usize(x.max_string_len, y.max_string_len),
    }
}

/// Counts of arrays and strings and the longest array and string (in
/// bytes) anywhere in a value.
pub fn collect_value_stats(v: &JsonValue) -> (r: ValueStats)
    ensures
        stats_view(r) == sat_stats(stats_of(v@)),
    decreases v,
{
    match v {
        JsonValue::String(s) => {
            let n = crate::text::byte_len_sat(s.as_str());
            ValueStats { arrays: 0, strings: 1, max_array_len: 0, max_string_len: n }
        },
        JsonValue::Array(a) => {
            proof {
                lemma_items_view(*a, a@.len());
            }
            let ghost av = items_view(*a);
            let mut acc = ValueStats { arrays: 1, strings: 0, max_array_len: a.len(), max_string_len: 0 };
            let ghost head = Stats { arrays: 1, strings: 0, max_array_len: a@.len(), max_string_len: 0 };
            let mut i: usize = 0;
            while i < a.len()
                invariant
                    *v == JsonValue::Array(*a),
                    av == items_view(*a),
                    av.len() == a@.len(),
                    forall|k: int| 0 <= k < a@.len() ==> #[trigger] av[k] == a@[k]@,
                    i <= a@.len(),
                    head == (Stats { arrays: 1, strings: 0, max_array_len: a@.len(), max_string_len: 0 }),
                    stats_view(acc) == sat_stats(stats_plus(head, stats_items(av, i as nat))),
                decreases a.len() - i,
            {
                proof {
                    assert(decreases_to!(*v => (*v)->Array_0));
                    assert(decreases_to!((*v)->Array_0 => (*v)->Array_0@));
                    assert(decreases_to!((*v)->Array_0@ => a@[i as int]));
                }
                let item = collect_value_stats(&a[i]);
                proof {
                    lemma_sat_plus(stats_plus(head, stats_items(av, i as nat)), stats_of(av[i as int]));
                    assert(stats_plus(head, stats_items(av, (i + 1) as nat)) == stats_plus(stats_plus(head, stats_items(av, i as nat)), stats_of(av[i as int])));
                }
                acc = stats_add(acc, item);
                i += 1;
            }
            acc
        },
        JsonValue::Object(m) => {
            proof {
                lemma_members_view(*m, m@.len());
            }
            let ghost mv = members_view(*m);
            let mut acc = ValueStats { arrays: 0, strings: 0, max_array_len: 0, max_string_len: 0 };
            let mut i: usize = 0;
            while i < m.len()
                invariant
                    *v == JsonValue::Object(*m),
                    mv == members_view(*m),
                    mv.len() == m@.len(),
                    forall|k: int| 0 <= k < m@.len() ==> #[trigger] mv[k] == (m@[k].0@, m@[k].1@),
                    i <= m@.len(),
                    stats_view(acc) == sat_stats(stats_members(mv, i as nat)),
                decreases m.len() - i,
            {
                proof {
                    assert(decreases_to!(*v => (*v)->Object_0));
                    assert(decreases_to!((*v)->Object_0 => (*v)->Object_0@));
                    assert(decreases_to!((*v)->Object_0@ => m@[i as int]));
                    assert(decreases_to!(m@[i as int] => m@[i as int].1));
                }
                let item = collect_value_stats(&m[i].1);
                proof {
                    lemma_sat_plus(stats_members(mv, i as nat), stats_of(mv[i as int].1));
                }
                acc = stats_add(acc, item);
                i += 1;
            }
            acc
        },
        _ => ValueStats { arrays: 0, strings: 0, max_array_len: 0, max_string_len: 0 },
    }
}

/// The steps of a plan as naturals.
pub open spec fn plan_view(v: Seq<(usize, usize)>) -> Seq<(nat, nat)> {
    v.map_values(|p: (usize, usize)| (p.0 as nat, p.1 as nat))
}

fn twice_sat(x: usize) -> (r: usize)
    ensures
        r == sat((2 * x) as nat),
{
    if x > usize::MAX / 2 {
        usize::MAX
    } else {
        x * 2
    }
}

/// The reduction plan for a shape (see [`plan_for`]).
pub fn reduction_plan(stats: ValueStats) -> (r: Vec<(usize, usize)>)
    ensures
        plan_view(r@) == plan_for(stats_view(stats)),
{
    if stats.max_array_len >= 100 || stats.arrays > twice_sat(stats.strings) {
        let v: Vec<(usize, usize)> = vec![
            (2000, 30),
            (1200, 20),
            (800, 15),
            (500, 10),
            (300, 7),
            (200, 5),
            (150, 3),
            (100, 2),
            (80, 1),
            (50, 1),
            (30, 1),
        ];
        assert(plan_view(v@) =~= array_heavy_plan());
        v
    } else if stats.max_string_len >= 2000 || stats.strings > twice_sat(stats.arrays) {
        let v: Vec<(usize, usize)> = vec![
            (1200, 50),
            (800, 30),
            (500, 20),
            (300, 15),
            (220, 10),
            (180, 7),
            (140, 5),
            (100, 3),
            (80, 2),
            (50, 1),
            (30, 1),
            (20, 1),
        ];
        assert(plan_view(v@) =~= string_heavy_plan());
        v
    } else {
        let v: Vec<(usize, usize)> = vec![
            (1500, 30),
            (900, 20),
            (600, 15),
            (400, 10),
            (280, 7),
            (220, 5),
            (170, 3),
            (120, 2),
            (90, 1),
            (60, 1),
            (40, 1),
            (30, 1),
        ];
        assert(plan_view(v@) =~= balanced_plan());
        v
    }
}

/// Structurally truncate a JSON value to fit within a token budget (see
/// [`truncated_json`]).
pub fn truncate_json_value(old_value: &JsonValue, budget: usize) -> (r: String)
    ensures
        r@ == truncated_json(old_value@, budget as nat),
{
    let normal = normalize_value(old_value);
    let value = &normal;
    let stats = collect_value_stats(value);
    let plan = reduction_plan(stats);
    let ghost pv = plan_view(plan@);
    let mut i: usize = 0;
    while i < plan.len()
        invariant
            i <= plan@.len(),
            pv == plan_view(plan@),
            value@ == normalized(old_value@),
            pv == plan_for(sat_stats(stats_of(value@))),
            first_fit(value@, pv, 0, budget as nat) == first_fit(value@, pv, i as int, budget as nat),
        decreases plan.len() - i,
    {
        let (ms, ma) = plan[i];
        assert(pv[i as int] == (ms as nat, ma as nat));
        let reduced = reduce_value(value, ms, ma);
        let serialized = to_json_string(&reduced);
        let tokens = count_tokens(serialized.as_str());
        if tokens <= budget {
            return serialized;
        }
        i += 1;
    }
    let last = reduce_value(value, 20, 1);
    let serialized = to_json_string(&last);
    if count_tokens(serialized.as_str()) > budget {
        let sk = extract_skeleton(&last);
        let skeleton_str = to_json_string(&sk);
        if count_tokens(skeleton_str.as_str()) <= budget {
            return skeleton_str;
        }
        return owned("{\"budget_exhausted\":true}");
    }
    serialized
}

/// Serializes a value to JSON and enforces a token budget on the output.
///
/// Without a budget the pretty text is returned. With one, the pretty text
/// is kept when it fits, else the compact text when it fits; otherwise the
/// value, with its objects in key order, is structurally reduced until its
/// compact text fits. The content is always JSON text (see
/// [`emitted_text_is_json`]).
pub fn emit_json(value: &JsonValue, max_tokens: Option<usize>) -> (r: BudgetedOutput)
    ensures
        emitted(r.content@, r.tokens as nat, r.truncated, r.original_tokens as nat, value@, max_tokens),
{
    match max_tokens {
        None => {
            let pretty_json = to_json_string_pretty(value);
            let original_tokens = count_tokens(pretty_json.as_str());
            BudgetedOutput { content: pretty_json, tokens: original_tokens, truncated: false, original_tokens }
        },
        Some(budget) => {
            let compact_json = to_json_string(value);
            let compact_tokens = count_tokens(compact_json.as_str());
            if compact_tokens > budget {
                let truncated_json = truncate_json_value(value, budget);
                let final_tokens = count_tokens(truncated_json.as_str());
                BudgetedOutput {
                    content: truncated_json,
                    tokens: final_tokens,
                    truncated: true,
                    original_tokens: compact_tokens,
                }
            } else {
                let pretty_json = to_json_string_pretty(value);
                let pretty_tokens = count_tokens(pretty_json.as_str());
                if pretty_tokens <= budget {
                    BudgetedOutput {
                        content: pretty_json,
                        tokens: pretty_tokens,
                        truncated: false,
                        original_tokens: pretty_tokens,
                    }
                } else {
                    BudgetedOutput {
                        content: compact_json,
                        tokens: compact_tokens,
                        truncated: false,
                        original_tokens: pretty_tokens,
                    }
                }
            }
        },
    }
}

// ------------------------------------------------------------------
// The envelope for agents
// ------------------------------------------------------------------

/// Tool output wrapped with its budget metadata, for agents.
#[derive(Debug)]
pub struct OutputEnvelope {
    /// The tool result data.
    pub data: JsonValue,
    /// Actual token count of the returned content.
    pub tokens: usize,
    /// Whether the output was truncated to fit the budget.
    pub truncated: bool,
    /// Original token count before compaction.
    pub original_tokens: usize,
    /// True when truncation was severe (original more than twice what was
    /// returned), suggesting compaction.
    pub flush_recommended: bool,
}

impl OutputEnvelope {
    /// The envelope of budgeted output. `parsed` is the value that the
    /// content reads as, or `None` when the content is not JSON; then the
    /// data is the content itself as a JSON string.
    pub fn from_parsed(budgeted: &BudgetedOutput, parsed: Option<JsonValue>) -> (r: OutputEnvelope)
        ensures
            match parsed {
                Some(v) => r.data@ == v@,
                None => r.data@ == Json::Str(budgeted.content@),
            },
            r.tokens == budgeted.tokens,
            r.truncated == budgeted.truncated,
            r.original_tokens == budgeted.original_tokens,
            r.flush_recommended == (budgeted.truncated && budgeted.original_tokens > 2
                * budgeted.tokens),
    {
        let data = match parsed {
            Some(v) => v,
            None => JsonValue::String(budgeted.content.clone()),
        };
        OutputEnvelope {
            data,
            tokens: budgeted.tokens,
            truncated: budgeted.truncated,
            original_tokens: budgeted.original_tokens,
            flush_recommended: budgeted.flush_recommended(),
        }
    }
}


// ------------------------------------------------------------------
// Laws
// ------------------------------------------------------------------

/// The value `{"budget_exhausted": true}`.
pub open spec fn exhausted_value() -> Json {
    Json::Object(seq![("budget_exhausted"@, Json::Bool(true))])
}

/// A character that JSON writes as it is.
pub open spec fn plain_char(c: char) -> bool {
    c != '"' && c != '\\' && (c as u32) >= 0x20
}

proof fn lemma_escape_plain(s: Seq<char>)
    requires
        forall|i: int| 0 <= i < s.len() ==> plain_char(#[trigger] s[i]),
    ensures
        crate::json::escape(s) == s,
    decreases s.len(),
{
    if s.len() > 0 {
        lemma_escape_plain(s.drop_last());
        assert(crate::json::escape_char(s.last()) =~= seq![s.last()]);
        assert(s.drop_last().push(s.last()) =~= s);
    }
}

proof fn lemma_exhausted_is_json()
    ensures
        budget_exhausted_text() == compact(exhausted_value()),
{
    reveal_strlit("{\"budget_exhausted\":true}");
    reveal_strlit("budget_exhausted");
    reveal_strlit("true");
    let k = "budget_exhausted"@;
    assert forall|i: int| 0 <= i < k.len() implies plain_char(#[trigger] k[i]) by {}
    lemma_escape_plain(k);
    let m = seq![(k, Json::Bool(true))];
    assert(m[0] == (k, Json::Bool(true)));
    assert(compact(Json::Bool(true)) == "true"@);
    assert(crate::json::compact_members(m, 1) == crate::json::quoted(k) + seq![':'] + "true"@);
    assert(budget_exhausted_text() =~= compact(exhausted_value()));
}

proof fn lemma_first_fit(v: Json, plan: Seq<(nat, nat)>, i: int, budget: nat)
    ensures
        first_fit(v, plan, i, budget) matches Some(t) ==> token_count(t) <= budget && exists|w: Json| t == compact(w),
    decreases plan.len() - i,
{
    if 0 <= i < plan.len() {
        let w = reduce(v, plan[i].0, plan[i].1);
        if token_count(compact(w)) > budget {
            lemma_first_fit(v, plan, i + 1, budget);
        }
    }
}

/// The reduced text of a value is the compact JSON text of some value, and
/// it fits the budget unless it is `{"budget_exhausted":true}`.
pub proof fn truncated_json_is_json_within_budget(v: Json, budget: nat)
    ensures
        exists|w: Json| truncated_json(v, budget) == json_text(w),
        token_count(truncated_json(v, budget)) <= budget || truncated_json(v, budget) == budget_exhausted_text(),
{
    let n = normalized(v);
    lemma_first_fit(n, plan_for(sat_stats(stats_of(n))), 0, budget);
    lemma_exhausted_is_json();
    let last = reduce(n, 20, 1);
    let t = truncated_json(v, budget);
    match first_fit(n, plan_for(sat_stats(stats_of(n))), 0, budget) {
        Some(x) => {
            let w = choose|w: Json| x == compact(w);
            assert(t == json_text(w));
        },
        None => {
            if token_count(compact(last)) > budget {
                if token_count(compact(skeleton(last))) <= budget {
                    assert(t == json_text(skeleton(last)));
                } else {
                    assert(t == json_text(exhausted_value()));
                }
            } else {
                assert(t == json_text(last));
            }
        },
    }
}

/// Whatever `emit_json` returns is JSON text: the compact or the pretty text
/// of some JSON value.
pub proof fn emitted_text_is_json(
    content: Seq<char>,
    tokens: nat,
    truncated: bool,
    original_tokens: nat,
    v: Json,
    max_tokens: Option<usize>,
)
    requires
        emitted(content, tokens, truncated, original_tokens, v, max_tokens),
    ensures
        exists|w: Json| content == json_text(w) || content == crate::json::pretty_text(w),
{
    match max_tokens {
        None => {
            assert(content == crate::json::pretty_text(v));
        },
        Some(b) => {
            if token_count(compact(v)) > b {
                truncated_json_is_json_within_budget(v, b as nat);
                let w = choose|w: Json| truncated_json(v, b as nat) == json_text(w);
                assert(content == json_text(w));
            } else if token_count(pretty(v, 0)) <= b {
                assert(content == crate::json::pretty_text(v));
            } else {
                assert(content == json_text(v));
            }
        },
    }
}

/// With a budget, the reported token count of what `emit_json` returns is
/// within the budget, unless nothing could be made to fit and the text is
/// `{"budget_exhausted":true}`.
pub proof fn emitted_text_within_budget(
    content: Seq<char>,
    tokens: nat,
    truncated: bool,
    original_tokens: nat,
    v: Json,
    budget: usize,
)
    requires
        emitted(content, tokens, truncated, original_tokens, v, Some(budget)),
    ensures
        tokens <= budget || content == budget_exhausted_text(),
{
    if token_count(compact(v)) > budget {
        truncated_json_is_json_within_budget(v, budget as nat);
    }
}

/// `emit_json` reports truncation exactly when a budget is given and the
/// compact text exceeds it; the reported original count is then that of the
/// compact text.
pub proof fn emitted_truncated_iff_over_budget(
    content: Seq<char>,
    tokens: nat,
    truncated: bool,
    original_tokens: nat,
    v: Json,
    max_tokens: Option<usize>,
)
    requires
        emitted(content, tokens, truncated, original_tokens, v, max_tokens),
    ensures
        truncated <==> (max_tokens matches Some(b) && token_count(compact(v)) > b),
        truncated ==> original_tokens == token_count(compact(v)),
        !truncated ==> content == compact(v) || content == pretty(v, 0),
{
}

proof fn lemma_byte_len_concat(a: Seq<char>, b: Seq<char>)
    ensures
        byte_len(a + b) == byte_len(a) + byte_len(b),
    decreases b.len(),
{
    if b.len() > 0 {
        lemma_byte_len_concat(a, b.drop_last());
        assert((a + b).drop_last() =~= a + b.drop_last());
    } else {
        assert(a + b =~= a);
    }
}

proof fn lemma_byte_len_ascii(s: Seq<char>)
    requires
        forall|j: int| 0 <= j < s.len() ==> (#[trigger] s[j] as u32) < 0x80,
    ensures
        byte_len(s) == s.len(),
    decreases s.len(),
{
    if s.len() > 0 {
        assert(s.last() == s[s.len() - 1]);
        lemma_byte_len_ascii(s.drop_last());
    }
}

proof fn lemma_prefix_bytes(s: Seq<char>, max: nat)
    ensures
        byte_len(s.take(prefix_chars(s, max) as int)) <= max,
    decreases s.len(),
{
    lemma_prefix_chars(s, max);
    let p = prefix_chars(s, max);
    if s.len() == 0 || char_width(s[0]) > max {
        assert(s.take(0) =~= Seq::<char>::empty());
    } else {
        let rest = s.drop_first();
        let w = char_width(s[0]);
        lemma_prefix_bytes(rest, (max - w) as nat);
        let t = s.take(p as int);
        lemma_byte_len_front(t);
        assert(t.drop_first() =~= rest.take(p - 1));
    }
}

/// A reduced string is the string itself when it fits `max` bytes; else a
/// prefix of it, cut at a character boundary within `max` bytes, followed by
/// the marker, so at most `max + 14` bytes in all.
pub proof fn reduced_string_within_limit(s: Seq<char>, max: nat)
    ensures
        byte_len(s) <= max ==> reduce_str(s, max) == s,
        byte_len(s) > max ==> {
            let k = prefix_chars(s, max) as int;
            &&& k < s.len()
            &&& reduce_str(s, max) == s.take(k) + "...[truncated]"@
            &&& byte_len(s.take(k)) <= max
        },
        byte_len(reduce_str(s, max)) <= max + 14,
{
    lemma_prefix_chars(s, max);
    if byte_len(s) > max {
        let k = prefix_chars(s, max) as int;
        lemma_prefix_bytes(s, max);
        lemma_byte_len_concat(s.take(k), "...[truncated]"@);
        reveal_strlit("...[truncated]");
        let mark = "...[truncated]"@;
        assert forall|j: int| 0 <= j < mark.len() implies (#[trigger] mark[j] as u32) < 0x80 by {}
        lemma_byte_len_ascii(mark);
    }
}

/// A reduced array keeps its first `max` items, each reduced, and when it
/// had more, ends with a marker that counts the items left out.
pub proof fn reduced_array_keeps_first_items(a: Seq<Json>, ms: nat, ma: nat)
    ensures
        reduce(Json::Array(a), ms, ma) matches Json::Array(r) && {
            let kept = if a.len() < ma {
                a.len()
            } else {
                ma
            };
            &&& r.len() == kept + if a.len() > ma {
                1int
            } else {
                0int
            }
            &&& forall|i: int| 0 <= i < kept ==> #[trigger] r[i] == reduce(a[i], ms, ma)
            &&& a.len() > ma ==> r[kept as int] == sentinel((a.len() - ma) as nat)
        },
{
    let kept = if a.len() < ma {
        a.len()
    } else {
        ma
    };
    lemma_reduce_items_len(a, kept, ms, ma);
}

pub proof fn lemma_find_key_absent(m: Seq<(Seq<char>, Json)>, k: Seq<char>, i: int)
    requires
        0 <= i,
        find_key(m, k, i) < 0,
    ensures
        forall|j: int| i <= j < m.len() ==> #[trigger] m[j].0 != k,
    decreases m.len() - i,
{
    if i < m.len() {
        lemma_find_key_absent(m, k, i + 1);
    }
}

pub proof fn lemma_find_key_first(m: Seq<(Seq<char>, Json)>, k: Seq<char>, i: int, p: int)
    requires
        0 <= i <= p < m.len(),
        m[p].0 == k,
        forall|j: int| i <= j < p ==> #[trigger] m[j].0 != k,
    ensures
        find_key(m, k, i) == p,
    decreases p - i,
{
    if i < p {
        lemma_find_key_first(m, k, i + 1, p);
    }
}

pub proof fn lemma_find_key_found(m: Seq<(Seq<char>, Json)>, k: Seq<char>, i: int)
    requires
        0 <= i,
        find_key(m, k, i) >= 0,
    ensures
        i <= find_key(m, k, i) < m.len(),
        m[find_key(m, k, i)].0 == k,
        forall|j: int| i <= j < find_key(m, k, i) ==> #[trigger] m[j].0 != k,
    decreases m.len() - i,
{
    if i < m.len() && m[i].0 != k {
        lemma_find_key_found(m, k, i + 1);
    }
}

proof fn lemma_insert_pos_bounds(m: Seq<(Seq<char>, Json)>, k: Seq<char>, i: int)
    requires
        0 <= i <= m.len(),
    ensures
        i <= insert_pos(m, k, i) <= m.len(),
    decreases m.len() - i,
{
    if i < m.len() && !key_lt(k, m[i].0) {
        lemma_insert_pos_bounds(m, k, i + 1);
    }
}

/// After a map insertion, the key holds the inserted value.
pub proof fn obj_insert_then_member(m: Seq<(Seq<char>, Json)>, k: Seq<char>, v: Json)
    ensures
        member(obj_insert(m, k, v), k) == Some(v),
{
    let i = find_key(m, k, 0);
    let r = obj_insert(m, k, v);
    if i >= 0 {
        lemma_find_key_found(m, k, 0);
        assert forall|j: int| 0 <= j < i implies #[trigger] r[j].0 != k by {
            assert(r[j] == m[j]);
        }
        lemma_find_key_first(r, k, 0, i);
    } else {
        lemma_find_key_absent(m, k, 0);
        let p = insert_pos(m, k, 0);
        lemma_insert_pos_bounds(m, k, 0);
        assert forall|j: int| 0 <= j < p implies #[trigger] r[j].0 != k by {
            assert(r[j] == m[j]);
        }
        lemma_find_key_first(r, k, 0, p);
    }
}

/// A skeleton always says `"truncated": true`.
pub proof fn skeleton_is_marked_truncated(v: Json)
    ensures
        json_get(skeleton(v), "truncated"@) == Some(Json::Bool(true)),
{
    match v {
        Json::Object(m) => {
            obj_insert_then_member(skeleton_members(m), "truncated"@, Json::Bool(true));
        },
        _ => {
            let s = seq![("truncated"@, Json::Bool(true))];
            lemma_find_key_first(s, "truncated"@, 0, 0);
        },
    }
}

/// Whether the value is an object with the member.
pub open spec fn has_member_pair(v: Json, kv: (Seq<char>, Json)) -> bool {
    match v {
        Json::Object(m) => m.contains(kv),
        _ => false,
    }
}

proof fn lemma_skeleton_member_at(m: Seq<(Seq<char>, Json)>, j: int)
    requires
        0 <= j < skeleton_members(m).len(),
    ensures
        keeps_in_skeleton(skeleton_members(m)[j].1),
        m.contains(skeleton_members(m)[j]),
    decreases m.len(),
{
    let rest = m.drop_last();
    let r = skeleton_members(m);
    if j < skeleton_members(rest).len() {
        lemma_skeleton_member_at(rest, j);
        assert(r[j] == skeleton_members(rest)[j]);
        let i = choose|i: int| 0 <= i < rest.len() && rest[i] == r[j];
        assert(m[i] == r[j]);
    } else {
        assert(r[j] == m.last());
        assert(m[m.len() - 1] == r[j]);
    }
}

/// A skeleton holds only the `truncated` marker and members of the object
/// that are numbers, booleans or strings of at most 50 bytes.
#[verifier::spinoff_prover]
pub proof fn skeleton_keeps_only_scalars(v: Json)
    ensures
        skeleton(v) matches Json::Object(sk) && forall|j: int|
            0 <= j < sk.len() ==> (#[trigger] sk[j]).0 == "truncated"@ || (keeps_in_skeleton(sk[j].1)
                && has_member_pair(v, sk[j])),
{
    match v {
        Json::Object(m) => {
            let r = skeleton_members(m);
            let k = "truncated"@;
            let sk = obj_insert(r, k, Json::Bool(true));
            let i = find_key(r, k, 0);
            if i >= 0 {
                lemma_find_key_found(r, k, 0);
                assert(sk == r.update(i, (k, Json::Bool(true))));
                assert forall|j: int| 0 <= j < sk.len() implies (#[trigger] sk[j]).0 == k || (
                keeps_in_skeleton(sk[j].1) && m.contains(sk[j])) by {
                    if j != i {
                        lemma_skeleton_member_at(m, j);
                    }
                }
            } else {
                let p = insert_pos(r, k, 0);
                lemma_insert_pos_bounds(r, k, 0);
                assert(sk == r.insert(p, (k, Json::Bool(true))));
                assert forall|j: int| 0 <= j < sk.len() implies (#[trigger] sk[j]).0 == k || (
                keeps_in_skeleton(sk[j].1) && m.contains(sk[j])) by {
                    if j < p {
                        lemma_skeleton_member_at(m, j);
                        assert(sk[j] == r[j]);
                    } else if j > p {
                        lemma_skeleton_member_at(m, j - 1);
                        assert(sk[j] == r[j - 1]);
                    }
                }
            }
        },
        _ => {},
    }
}

proof fn lemma_first_fit_at(v: Json, plan: Seq<(nat, nat)>, j: int, i: int, budget: nat)
    requires
        0 <= j <= i < plan.len(),
        token_count(compact(reduce(v, plan[i].0, plan[i].1))) <= budget,
        forall|k: int| j <= k < i ==> token_count(#[trigger] compact(reduce(v, plan[k].0, plan[k].1))) > budget,
    ensures
        first_fit(v, plan, j, budget) == Some(compact(reduce(v, plan[i].0, plan[i].1))),
    decreases i - j,
{
    if j < i {
        assert(token_count(compact(reduce(v, plan[j].0, plan[j].1))) > budget);
        lemma_first_fit_at(v, plan, j + 1, i, budget);
    }
}

/// When the compact text is over the budget, `emit_json` reports truncation
/// and, if some step of the reduction plan for the value's shape (its
/// objects in key order) yields a value whose compact text fits, returns the
/// compact text of the reduction by the first such step, the plan being
/// tried from its least to its most aggressive step.
pub proof fn emitted_takes_first_fitting_plan_step(
    content: Seq<char>,
    tokens: nat,
    truncated: bool,
    original_tokens: nat,
    v: Json,
    budget: usize,
    i: int,
)
    requires
        emitted(content, tokens, truncated, original_tokens, v, Some(budget)),
        token_count(compact(v)) > budget,
        0 <= i < plan_for(sat_stats(stats_of(normalized(v)))).len(),
        token_count(
            compact(
                reduce(
                    normalized(v),
                    plan_for(sat_stats(stats_of(normalized(v))))[i].0,
                    plan_for(sat_stats(stats_of(normalized(v))))[i].1,
                ),
            ),
        ) <= budget,
        forall|k: int|
            0 <= k < i ==> token_count(
                #[trigger] compact(
                    reduce(
                        normalized(v),
                        plan_for(sat_stats(stats_of(normalized(v))))[k].0,
                        plan_for(sat_stats(stats_of(normalized(v))))[k].1,
                    ),
                ),
            ) > budget,
    ensures
        truncated,
        original_tokens == token_count(compact(v)),
        content == compact(
            reduce(
                normalized(v),
                plan_for(sat_stats(stats_of(normalized(v))))[i].0,
                plan_for(sat_stats(stats_of(normalized(v))))[i].1,
            ),
        ),
{
    let n = normalized(v);
    let plan = plan_for(sat_stats(stats_of(n)));
    lemma_first_fit_at(n, plan, 0, i, budget as nat);
}

/// Every reduction plan goes from its least to its most aggressive step:
/// neither the string limit nor the array limit grows from one step to the
/// next, and one of them shrinks.
pub proof fn plans_grow_more_aggressive(s: Stats, i: int)
    requires
        0 <= i < plan_for(s).len() - 1,
    ensures
        plan_for(s)[i + 1].0 <= plan_for(s)[i].0,
        plan_for(s)[i + 1].1 <= plan_for(s)[i].1,
        plan_for(s)[i + 1].0 < plan_for(s)[i].0 || plan_for(s)[i + 1].1 < plan_for(s)[i].1,
{
    let p = plan_for(s);
    assert(p.len() == 11 || p.len() == 12);
}

} // verus!
