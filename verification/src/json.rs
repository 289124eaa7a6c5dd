//! JSON values, their lookups, and their compact and pretty JSON text.
use vstd::prelude::*;
use vstd::string::StringExecFns;
use crate::text::{dec, dec_i64, dec_signed, dec_u64, push_char, chars_of, str_eq, repeat};

verus! {

/// A JSON number as it was read: a non-negative integer, a negative integer,
/// or a floating-point number held as the text that JSON writes for it.
#[derive(Debug)]
pub enum JsonNumber {
    PosInt(u64),
    NegInt(i64),
    Float(String),
}

/// A JSON value. Object members keep the order of the map they came from.
#[derive(Debug)]
pub enum JsonValue {
    Null,
    Bool(bool),
    Number(JsonNumber),
    String(String),
    Array(Vec<JsonValue>),
    Object(Vec<(String, JsonValue)>),
}

/// The mathematical view of a JSON number.
pub enum Num {
    PosInt(u64),
    NegInt(i64),
    Float(Seq<char>),
}

/// The mathematical view of a JSON value.
pub enum Json {
    Null,
    Bool(bool),
    Number(Num),
    Str(Seq<char>),
    Array(Seq<Json>),
    Object(Seq<(Seq<char>, Json)>),
}

// ------------------------------------------------------------------
// Views
// ------------------------------------------------------------------

pub open spec fn num_view(n: JsonNumber) -> Num {
    match n {
        JsonNumber::PosInt(u) => Num::PosInt(u),
        JsonNumber::NegInt(i) => Num::NegInt(i),
        JsonNumber::Float(s) => Num::Float(s@),
    }
}

pub open spec fn jv(v: JsonValue) -> Json
    decreases v, 0nat,
{
    match v {
        JsonValue::Null => Json::Null,
        JsonValue::Bool(b) => Json::Bool(b),
        JsonValue::Number(n) => Json::Number(num_view(n)),
        JsonValue::String(s) => Json::Str(s@),
        JsonValue::Array(a) => Json::Array(jv_items(a, a@.len())),
        JsonValue::Object(m) => Json::Object(jv_members(m, m@.len())),
    }
}

pub open spec fn jv_items(a: Vec<JsonValue>, n: nat) -> Seq<Json>
    decreases a, n,
{
    if n == 0 || n > a@.len() {
        seq![]
    } else {
        jv_items(a, (n - 1) as nat).push(jv(a@[n - 1]))
    }
}

pub open spec fn jv_members(m: Vec<(String, JsonValue)>, n: nat) -> Seq<(Seq<char>, Json)>
    decreases m, n,
{
    if n == 0 || n > m@.len() {
        seq![]
    } else {
        jv_members(m, (n - 1) as nat).push((m@[n - 1].0@, jv(m@[n - 1].1)))
    }
}

impl View for JsonNumber {
    type V = Num;

    open spec fn view(&self) -> Num {
        num_view(*self)
    }
}

impl View for JsonValue {
    type V = Json;

    open spec fn view(&self) -> Json {
        jv(*self)
    }
}

/// The views of array items.
pub open spec fn items_view(a: Vec<JsonValue>) -> Seq<Json> {
    jv_items(a, a@.len())
}

/// The views of object members.
pub open spec fn members_view(m: Vec<(String, JsonValue)>) -> Seq<(Seq<char>, Json)> {
    jv_members(m, m@.len())
}

pub proof fn lemma_items_view(a: Vec<JsonValue>, n: nat)
    requires
        n <= a@.len(),
    ensures
        jv_items(a, n).len() == n,
        forall|i: int| 0 <= i < n ==> #[trigger] jv_items(a, n)[i] == a@[i]@,
    decreases n,
{
    if n > 0 {
        lemma_items_view(a, (n - 1) as nat);
    }
}

pub proof fn lemma_members_view(m: Vec<(String, JsonValue)>, n: nat)
    requires
        n <= m@.len(),
    ensures
        jv_members(m, n).len() == n,
        forall|i: int|
            0 <= i < n ==> #[trigger] jv_members(m, n)[i] == (m@[i].0@, m@[i].1@),
    decreases n,
{
    if n > 0 {
        lemma_members_view(m, (n - 1) as nat);
    }
}

// ------------------------------------------------------------------
// Lookups
// ------------------------------------------------------------------

/// Index of the first member with the key, at or after `i` (or -1).
pub open spec fn find_key(m: Seq<(Seq<char>, Json)>, key: Seq<char>, i: int) -> int
    decreases m.len() - i,
{
    if i < 0 || i >= m.len() {
        -1
    } else if m[i].0 == key {
        i
    } else {
        find_key(m, key, i + 1)
    }
}

/// The value of the first member with the key.
pub open spec fn member(m: Seq<(Seq<char>, Json)>, key: Seq<char>) -> Option<Json> {
    let i = find_key(m, key, 0);
    if i >= 0 {
        Some(m[i].1)
    } else {
        None
    }
}

/// `value.get(key)`: the member of an object, `None` for other values.
pub open spec fn json_get(v: Json, key: Seq<char>) -> Option<Json> {
    match v {
        Json::Object(m) => member(m, key),
        _ => None,
    }
}

pub open spec fn opt_str(o: Option<Json>) -> Option<Seq<char>> {
    match o {
        Some(Json::Str(s)) => Some(s),
        _ => None,
    }
}

pub open spec fn opt_u64(o: Option<Json>) -> Option<u64> {
    match o {
        Some(Json::Number(Num::PosInt(u))) => Some(u),
        _ => None,
    }
}

pub open spec fn opt_bool(o: Option<Json>) -> Option<bool> {
    match o {
        Some(Json::Bool(b)) => Some(b),
        _ => None,
    }
}

pub open spec fn opt_array(o: Option<Json>) -> Option<Seq<Json>> {
    match o {
        Some(Json::Array(a)) => Some(a),
        _ => None,
    }
}

pub open spec fn opt_object(o: Option<Json>) -> Option<Seq<(Seq<char>, Json)>> {
    match o {
        Some(Json::Object(m)) => Some(m),
        _ => None,
    }
}

/// The string member, or the default.
pub open spec fn str_or(o: Option<Json>, default: Seq<char>) -> Seq<char> {
    match opt_str(o) {
        Some(s) => s,
        None => default,
    }
}

/// The unsigned member, or the default.
pub open spec fn u64_or(o: Option<Json>, default: u64) -> u64 {
    match opt_u64(o) {
        Some(u) => u,
        None => default,
    }
}

/// The boolean member, or the default.
pub open spec fn bool_or(o: Option<Json>, default: bool) -> bool {
    match opt_bool(o) {
        Some(b) => b,
        None => default,
    }
}

/// Whether the object has a member with the key.
pub open spec fn has_key(m: Seq<(Seq<char>, Json)>, key: Seq<char>) -> bool {
    member(m, key) is Some
}

// ------------------------------------------------------------------
// JSON text
// ------------------------------------------------------------------

/// Lower-case hexadecimal digit.
pub open spec fn hex_digit(d: int) -> char {
    if d < 10 {
        (d + 48) as char
    } else {
        (d + 87) as char
    }
}

/// A character as it appears inside a JSON string literal.
pub open spec fn escape_char(c: char) -> Seq<char> {
    let u = c as u32;
    if c == '"' {
        seq!['\\', '"']
    } else if c == '\\' {
        seq!['\\', '\\']
    } else if u == 8 {
        seq!['\\', 'b']
    } else if u == 12 {
        seq!['\\', 'f']
    } else if c == '\n' {
        seq!['\\', 'n']
    } else if c == '\r' {
        seq!['\\', 'r']
    } else if c == '\t' {
        seq!['\\', 't']
    } else if u < 0x20 {
        seq!['\\', 'u', '0', '0', hex_digit((u / 16) as int), hex_digit((u % 16) as int)]
    } else {
        seq![c]
    }
}

/// The escaped characters of a string.
pub open spec fn escape(s: Seq<char>) -> Seq<char>
    decreases s.len(),
{
    if s.len() == 0 {
        seq![]
    } else {
        escape(s.drop_last()) + escape_char(s.last())
    }
}

/// A JSON string literal.
pub open spec fn quoted(s: Seq<char>) -> Seq<char> {
    seq!['"'] + escape(s) + seq!['"']
}

/// The JSON text of a number.
pub open spec fn num_text(n: Num) -> Seq<char> {
    match n {
        Num::PosInt(u) => dec(u as nat),
        Num::NegInt(i) => dec_signed(i as int),
        Num::Float(t) => t,
    }
}

/// Compact JSON text of a value: no whitespace between tokens.
pub open spec fn compact(v: Json) -> Seq<char>
    decreases v, 0nat,
{
    match v {
        Json::Null => "null"@,
        Json::Bool(b) => if b {
            "true"@
        } else {
            "false"@
        },
        Json::Number(n) => num_text(n),
        Json::Str(s) => quoted(s),
        Json::Array(a) => seq!['['] + compact_items(a, a.len()) + seq![']'],
        Json::Object(m) => seq!['{'] + compact_members(m, m.len()) + seq!['}'],
    }
}

pub open spec fn compact_items(a: Seq<Json>, n: nat) -> Seq<char>
    decreases a, n,
{
    if n == 0 || n > a.len() {
        seq![]
    } else if n == 1 {
        compact(a[0])
    } else {
        compact_items(a, (n - 1) as nat) + seq![','] + compact(a[n - 1])
    }
}

pub open spec fn compact_members(m: Seq<(Seq<char>, Json)>, n: nat) -> Seq<char>
    decreases m, n,
{
    if n == 0 || n > m.len() {
        seq![]
    } else {
        let entry = quoted(m[n - 1].0) + seq![':'] + compact(m[n - 1].1);
        if n == 1 {
            entry
        } else {
            compact_members(m, (n - 1) as nat) + seq![','] + entry
        }
    }
}

/// Indentation for a nesting depth: two spaces per level.
pub open spec fn indent(depth: nat) -> Seq<char> {
    repeat("  "@, depth)
}

/// Pretty JSON text of a value at a nesting depth: one item per line,
/// indented by two spaces per level, `": "` after keys, and `[]`/`{}` for
/// empty containers.
pub open spec fn pretty(v: Json, depth: nat) -> Seq<char>
    decreases v, 0nat,
{
    match v {
        Json::Array(a) => if a.len() == 0 {
            "[]"@
        } else {
            seq!['['] + pretty_items(a, a.len(), depth) + seq!['\n'] + indent(depth) + seq![']']
        },
        Json::Object(m) => if m.len() == 0 {
            "{}"@
        } else {
            seq!['{'] + pretty_members(m, m.len(), depth) + seq!['\n'] + indent(depth) + seq![
                '}',
            ]
        },
        _ => compact(v),
    }
}

pub open spec fn pretty_items(a: Seq<Json>, n: nat, depth: nat) -> Seq<char>
    decreases a, n,
{
    if n == 0 || n > a.len() {
        seq![]
    } else {
        let entry = indent(depth + 1) + pretty(a[n - 1], depth + 1);
        if n == 1 {
            seq!['\n'] + entry
        } else {
            pretty_items(a, (n - 1) as nat, depth) + seq![',', '\n'] + entry
        }
    }
}

pub open spec fn pretty_members(m: Seq<(Seq<char>, Json)>, n: nat, depth: nat) -> Seq<char>
    decreases m, n,
{
    if n == 0 || n > m.len() {
        seq![]
    } else {
        let entry = indent(depth + 1) + quoted(m[n - 1].0) + ": "@ + pretty(m[n - 1].1, depth + 1);
        if n == 1 {
            seq!['\n'] + entry
        } else {
            pretty_members(m, (n - 1) as nat, depth) + seq![',', '\n'] + entry
        }
    }
}

/// Compact JSON text of a value.
pub open spec fn json_text(v: Json) -> Seq<char> {
    compact(v)
}

/// Pretty JSON text of a value at the top level.
pub open spec fn pretty_text(v: Json) -> Seq<char> {
    pretty(v, 0)
}

// ------------------------------------------------------------------
// Executable lookups
// ------------------------------------------------------------------

pub open spec fn opt_ref_view(r: Option<&JsonValue>) -> Option<Json> {
    match r {
        Some(v) => Some(v@),
        None => None,
    }
}

/// The value of the first member with the key.
pub fn member_of<'a>(m: &'a Vec<(String, JsonValue)>, key: &str) -> (r: Option<&'a JsonValue>)
    ensures
        opt_ref_view(r) == member(members_view(*m), key@),
{
    proof {
        lemma_members_view(*m, m@.len());
    }
    match find_member(m, key) {
        Some(i) => Some(&m[i].1),
        None => None,
    }
}

/// Position of the first member with the key.
pub fn find_member(m: &Vec<(String, JsonValue)>, key: &str) -> (r: Option<usize>)
    ensures
        match r {
            Some(i) => find_key(members_view(*m), key@, 0) == i && i < m@.len(),
            None => find_key(members_view(*m), key@, 0) == -1,
        },
{
    let ghost mv = members_view(*m);
    proof {
        lemma_members_view(*m, m@.len());
    }
    let mut i: usize = 0;
    while i < m.len()
        invariant
            i <= m@.len(),
            mv == members_view(*m),
            mv.len() == m@.len(),
            forall|k: int| 0 <= k < m@.len() ==> #[trigger] mv[k] == (m@[k].0@, m@[k].1@),
            find_key(mv, key@, 0) == find_key(mv, key@, i as int),
        decreases m.len() - i,
    {
        assert(mv[i as int] == (m@[i as int].0@, m@[i as int].1@));
        if str_eq(m[i].0.as_str(), key) {
            return Some(i);
        }
        i += 1;
    }
    None
}

impl JsonValue {
    /// `value.get(key)`: the member of an object, `None` for other values.
    pub fn get(&self, key: &str) -> (r: Option<&JsonValue>)
        ensures
            opt_ref_view(r) == json_get(self@, key@),
    {
        match self {
            JsonValue::Object(m) => member_of(m, key),
            _ => None,
        }
    }

    /// The text of a string value.
    pub fn as_str(&self) -> (r: Option<&str>)
        ensures
            match r {
                Some(s) => opt_str(Some(self@)) == Some(s@),
                None => opt_str(Some(self@)) is None,
            },
    {
        match self {
            JsonValue::String(s) => Some(s.as_str()),
            _ => None,
        }
    }

    /// A non-negative integer value.
    pub fn as_u64(&self) -> (r: Option<u64>)
        ensures
            r == opt_u64(Some(self@)),
    {
        match self {
            JsonValue::Number(JsonNumber::PosInt(u)) => Some(*u),
            _ => None,
        }
    }

    /// A boolean value.
    pub fn as_bool(&self) -> (r: Option<bool>)
        ensures
            r == opt_bool(Some(self@)),
    {
        match self {
            JsonValue::Bool(b) => Some(*b),
            _ => None,
        }
    }

    /// The items of an array value.
    pub fn as_array(&self) -> (r: Option<&Vec<JsonValue>>)
        ensures
            match r {
                Some(a) => opt_array(Some(self@)) == Some(items_view(*a)),
                None => opt_array(Some(self@)) is None,
            },
    {
        match self {
            JsonValue::Array(a) => Some(a),
            _ => None,
        }
    }

    /// The members of an object value.
    pub fn as_object(&self) -> (r: Option<&Vec<(String, JsonValue)>>)
        ensures
            match r {
                Some(m) => opt_object(Some(self@)) == Some(members_view(*m)),
                None => opt_object(Some(self@)) is None,
            },
    {
        match self {
            JsonValue::Object(m) => Some(m),
            _ => None,
        }
    }
}

/// The string member `key` of an object, or the default.
pub fn str_field<'a>(m: &'a Vec<(String, JsonValue)>, key: &str, default: &'a str) -> (r: &'a str)
    ensures
        r@ == str_or(member(members_view(*m), key@), default@),
{
    match member_of(m, key) {
        Some(v) => match v.as_str() {
            Some(s) => s,
            None => default,
        },
        None => default,
    }
}

/// The unsigned member `key` of an object, or the default.
pub fn u64_field(m: &Vec<(String, JsonValue)>, key: &str, default: u64) -> (r: u64)
    ensures
        r == u64_or(member(members_view(*m), key@), default),
{
    match member_of(m, key) {
        Some(v) => match v.as_u64() {
            Some(u) => u,
            None => default,
        },
        None => default,
    }
}

/// The boolean member `key` of an object, or the default.
pub fn bool_field(m: &Vec<(String, JsonValue)>, key: &str, default: bool) -> (r: bool)
    ensures
        r == bool_or(member(members_view(*m), key@), default),
{
    match member_of(m, key) {
        Some(v) => match v.as_bool() {
            Some(b) => b,
            None => default,
        },
        None => default,
    }
}

/// The array member `key` of an object, if present.
pub fn array_field<'a>(m: &'a Vec<(String, JsonValue)>, key: &str) -> (r: Option<&'a Vec<JsonValue>>)
    ensures
        match r {
            Some(a) => opt_array(member(members_view(*m), key@)) == Some(items_view(*a)),
            None => opt_array(member(members_view(*m), key@)) is None,
        },
{
    match member_of(m, key) {
        Some(v) => v.as_array(),
        None => None,
    }
}

/// Whether an object has a member with the key.
pub fn has_member(m: &Vec<(String, JsonValue)>, key: &str) -> (r: bool)
    ensures
        r == has_key(members_view(*m), key@),
{
    member_of(m, key).is_some()
}

/// The string member `key` of a value, or the default.
pub fn get_str<'a>(v: &'a JsonValue, key: &str, default: &'a str) -> (r: &'a str)
    ensures
        r@ == str_or(json_get(v@, key@), default@),
{
    match v.get(key) {
        Some(x) => match x.as_str() {
            Some(s) => s,
            None => default,
        },
        None => default,
    }
}

/// The unsigned member `key` of a value, or the default.
pub fn get_u64(v: &JsonValue, key: &str, default: u64) -> (r: u64)
    ensures
        r == u64_or(json_get(v@, key@), default),
{
    match v.get(key) {
        Some(x) => match x.as_u64() {
            Some(u) => u,
            None => default,
        },
        None => default,
    }
}

/// The unsigned member `key` of a value, if present.
pub fn get_u64_opt(v: &JsonValue, key: &str) -> (r: Option<u64>)
    ensures
        r == opt_u64(json_get(v@, key@)),
{
    match v.get(key) {
        Some(x) => x.as_u64(),
        None => None,
    }
}

/// The boolean member `key` of a value, or the default.
pub fn get_bool(v: &JsonValue, key: &str, default: bool) -> (r: bool)
    ensures
        r == bool_or(json_get(v@, key@), default),
{
    match v.get(key) {
        Some(x) => match x.as_bool() {
            Some(b) => b,
            None => default,
        },
        None => default,
    }
}

/// The array member `key` of a value, if present.
pub fn get_array<'a>(v: &'a JsonValue, key: &str) -> (r: Option<&'a Vec<JsonValue>>)
    ensures
        match r {
            Some(a) => opt_array(json_get(v@, key@)) == Some(items_view(*a)),
            None => opt_array(json_get(v@, key@)) is None,
        },
{
    match v.get(key) {
        Some(x) => x.as_array(),
        None => None,
    }
}

/// The object member `key` of a value, if present.
pub fn get_object<'a>(v: &'a JsonValue, key: &str) -> (r: Option<&'a Vec<(String, JsonValue)>>)
    ensures
        match r {
            Some(m) => opt_object(json_get(v@, key@)) == Some(members_view(*m)),
            None => opt_object(json_get(v@, key@)) is None,
        },
{
    match v.get(key) {
        Some(x) => x.as_object(),
        None => None,
    }
}

// ------------------------------------------------------------------
// Executable JSON text
// ------------------------------------------------------------------

fn hex_digit_char(d: u32) -> (c: char)
    requires
        d < 16,
    ensures
        c == hex_digit(d as int),
{
    if d < 10 {
        let b: u8 = d as u8 + 48;
        b as char
    } else {
        let b: u8 = d as u8 + 87;
        b as char
    }
}

fn push_escaped_char(out: &mut String, c: char)
    ensures
        final(out)@ == old(out)@ + escape_char(c),
{
    let u = c as u32;
    if c == '"' {
        out.append("\\\"");
        proof { reveal_strlit("\\\""); }
    } else if c == '\\' {
        out.append("\\\\");
        proof { reveal_strlit("\\\\"); }
    } else if u == 8 {
        out.append("\\b");
        proof { reveal_strlit("\\b"); }
    } else if u == 12 {
        out.append("\\f");
        proof { reveal_strlit("\\f"); }
    } else if c == '\n' {
        out.append("\\n");
        proof { reveal_strlit("\\n"); }
    } else if c == '\r' {
        out.append("\\r");
        proof { reveal_strlit("\\r"); }
    } else if c == '\t' {
        out.append("\\t");
        proof { reveal_strlit("\\t"); }
    } else if u < 0x20 {
        out.append("\\u00");
        proof { reveal_strlit("\\u00"); }
        push_char(out, hex_digit_char(u / 16));
        push_char(out, hex_digit_char(u % 16));
    } else {
        push_char(out, c);
    }
    assert(out@ =~= old(out)@ + escape_char(c));
}

/// Appends a JSON string literal for `s`.
pub fn push_quoted(out: &mut String, s: &str)
    ensures
        final(out)@ == old(out)@ + quoted(s@),
{
    let ghost start = out@;
    let cs = chars_of(s);
    push_char(out, '"');
    let mut i: usize = 0;
    while i < cs.len()
        invariant
            i <= cs@.len(),
            cs@ == s@,
            out@ == start + seq!['"'] + escape(cs@.take(i as int)),
        decreases cs.len() - i,
    {
        assert(cs@.take((i + 1) as int).drop_last() =~= cs@.take(i as int));
        push_escaped_char(out, cs[i]);
        i += 1;
    }
    assert(cs@.take(cs@.len() as int) =~= s@);
    push_char(out, '"');
    assert(out@ =~= start + quoted(s@));
}

fn push_number(out: &mut String, n: &JsonNumber)
    ensures
        final(out)@ == old(out)@ + num_text(n@),
{
    match n {
        JsonNumber::PosInt(u) => {
            let d = dec_u64(*u);
            out.append(d.as_str());
        },
        JsonNumber::NegInt(i) => {
            let d = dec_i64(*i);
            out.append(d.as_str());
        },
        JsonNumber::Float(t) => {
            out.append(t.as_str());
        },
    }
}

/// Appends the compact JSON text of a value.
pub fn write_compact(out: &mut String, v: &JsonValue)
    ensures
        final(out)@ == old(out)@ + compact(v@),
    decreases v,
{
    let ghost start = out@;
    match v {
        JsonValue::Null => {
            out.append("null");
        },
        JsonValue::Bool(b) => {
            if *b {
                out.append("true");
            } else {
                out.append("false");
            }
        },
        JsonValue::Number(n) => {
            push_number(out, n);
        },
        JsonValue::String(s) => {
            push_quoted(out, s.as_str());
        },
        JsonValue::Array(a) => {
            let ghost av = items_view(*a);
            proof {
                lemma_items_view(*a, a@.len());
            }
            push_char(out, '[');
            let mut i: usize = 0;
            while i < a.len()
                invariant
                    *v == JsonValue::Array(*a),
                    i <= a@.len(),
                    av == items_view(*a),
                    av.len() == a@.len(),
                    forall|k: int| 0 <= k < a@.len() ==> #[trigger] av[k] == a@[k]@,
                    out@ == start + seq!['['] + compact_items(av, i as nat),
                decreases a.len() - i,
            {
                if i > 0 {
                    push_char(out, ',');
                }
                proof {
                    assert(decreases_to!(*v => (*v)->Array_0));
                    assert(decreases_to!((*v)->Array_0 => (*v)->Array_0@));
                    assert(decreases_to!((*v)->Array_0@ => a@[i as int]));
                }
                write_compact(out, &a[i]);
                assert(av[i as int] == a@[i as int]@);
                i += 1;
            }
            push_char(out, ']');
        },
        JsonValue::Object(m) => {
            let ghost mv = members_view(*m);
            proof {
                lemma_members_view(*m, m@.len());
            }
            push_char(out, '{');
            let mut i: usize = 0;
            while i < m.len()
                invariant
                    *v == JsonValue::Object(*m),
                    i <= m@.len(),
                    mv == members_view(*m),
                    mv.len() == m@.len(),
                    forall|k: int| 0 <= k < m@.len() ==> #[trigger] mv[k] == (m@[k].0@, m@[k].1@),
                    out@ == start + seq!['{'] + compact_members(mv, i as nat),
                decreases m.len() - i,
            {
                if i > 0 {
                    push_char(out, ',');
                }
                push_quoted(out, m[i].0.as_str());
                push_char(out, ':');
                proof {
                    assert(decreases_to!(*v => (*v)->Object_0));
                    assert(decreases_to!((*v)->Object_0 => (*v)->Object_0@));
                    assert(decreases_to!((*v)->Object_0@ => m@[i as int]));
                    assert(decreases_to!(m@[i as int] => m@[i as int].1));
                }
                write_compact(out, &m[i].1);
                assert(mv[i as int] == (m@[i as int].0@, m@[i as int].1@));
                i += 1;
            }
            push_char(out, '}');
        },
    }
    assert(out@ =~= start + compact(v@));
}

/// The compact JSON text of a value.
pub fn to_json_string(v: &JsonValue) -> (r: String)
    ensures
        r@ == compact(v@),
{
    let mut r = String::new();
    write_compact(&mut r, v);
    assert(r@ =~= compact(v@));
    r
}

/// Appends the pretty JSON text of a value nested at `depth` levels, given
/// the indentation of that depth.
fn write_pretty(out: &mut String, v: &JsonValue, ind: &String, Ghost(depth): Ghost<nat>)
    requires
        ind@ == indent(depth),
    ensures
        final(out)@ == old(out)@ + pretty(v@, depth),
    decreases v,
{
    let ghost start = out@;
    match v {
        JsonValue::Array(a) => {
            if a.len() == 0 {
                out.append("[]");
                assert(out@ =~= start + pretty(v@, depth));
                return;
            }
            let ghost av = items_view(*a);
            proof {
                lemma_items_view(*a, a@.len());
            }
            let mut inner = ind.clone();
            inner.append("  ");
            assert(inner@ =~= indent(depth + 1));
            push_char(out, '[');
            let mut i: usize = 0;
            while i < a.len()
                invariant
                    *v == JsonValue::Array(*a),
                    i <= a@.len(),
                    av == items_view(*a),
                    av.len() == a@.len(),
                    forall|k: int| 0 <= k < a@.len() ==> #[trigger] av[k] == a@[k]@,
                    inner@ == indent(depth + 1),
                    out@ == start + seq!['['] + pretty_items(av, i as nat, depth),
                decreases a.len() - i,
            {
                if i > 0 {
                    push_char(out, ',');
                }
                push_char(out, '\n');
                out.append(inner.as_str());
                proof {
                    assert(decreases_to!(*v => (*v)->Array_0));
                    assert(decreases_to!((*v)->Array_0 => (*v)->Array_0@));
                    assert(decreases_to!((*v)->Array_0@ => a@[i as int]));
                }
                write_pretty(out, &a[i], &inner, Ghost(depth + 1));
                assert(av[i as int] == a@[i as int]@);
                i += 1;
            }
            push_char(out, '\n');
            out.append(ind.as_str());
            push_char(out, ']');
        },
        JsonValue::Object(m) => {
            if m.len() == 0 {
                out.append("{}");
                assert(out@ =~= start + pretty(v@, depth));
                return;
            }
            let ghost mv = members_view(*m);
            proof {
                lemma_members_view(*m, m@.len());
            }
            let mut inner = ind.clone();
            inner.append("  ");
            assert(inner@ =~= indent(depth + 1));
            push_char(out, '{');
            let mut i: usize = 0;
            while i < m.len()
                invariant
                    *v == JsonValue::Object(*m),
                    i <= m@.len(),
                    mv == members_view(*m),
                    mv.len() == m@.len(),
                    forall|k: int| 0 <= k < m@.len() ==> #[trigger] mv[k] == (m@[k].0@, m@[k].1@),
                    inner@ == indent(depth + 1),
                    out@ == start + seq!['{'] + pretty_members(mv, i as nat, depth),
                decreases m.len() - i,
            {
                if i > 0 {
                    push_char(out, ',');
                }
                push_char(out, '\n');
                out.append(inner.as_str());
                push_quoted(out, m[i].0.as_str());
                out.append(": ");
                proof {
                    assert(decreases_to!(*v => (*v)->Object_0));
                    assert(decreases_to!((*v)->Object_0 => (*v)->Object_0@));
                    assert(decreases_to!((*v)->Object_0@ => m@[i as int]));
                    assert(decreases_to!(m@[i as int] => m@[i as int].1));
                }
                write_pretty(out, &m[i].1, &inner, Ghost(depth + 1));
                assert(mv[i as int] == (m@[i as int].0@, m@[i as int].1@));
                i += 1;
            }
            push_char(out, '\n');
            out.append(ind.as_str());
            push_char(out, '}');
        },
        _ => {
            write_compact(out, v);
        },
    }
    assert(out@ =~= start + pretty(v@, depth));
}

/// The pretty JSON text of a value.
pub fn to_json_string_pretty(v: &JsonValue) -> (r: String)
    ensures
        r@ == pretty(v@, 0),
{
    let mut r = String::new();
    let ind = String::new();
    assert(ind@ =~= indent(0));
    write_pretty(&mut r, v, &ind, Ghost(0));
    assert(r@ =~= pretty(v@, 0));
    r
}

} // verus!
