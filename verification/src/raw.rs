//! Plain-text rendering of tool results for piping and simple consumption.
use vstd::prelude::*;
use vstd::string::StringExecFns;
use crate::compact::{is_search, is_symbol, is_tree};
use crate::json::{
    compact, get_array, get_bool, get_str, get_u64, get_u64_opt, has_key, items_view, json_get,
    lemma_items_view, lemma_members_view, member, members_view, opt_array, opt_str, opt_u64,
    str_or, to_json_string, u64_or, bool_or, Json, JsonValue,
};
use crate::text::{dec, dec_u64, dec_usize, join, join_range, owned, push_line, trim, trim_str, views};

verus! {

// ------------------------------------------------------------------
// Shared specifications
// ------------------------------------------------------------------

/// The marker that stands for dropped array items.
pub open spec fn is_sentinel(v: Json) -> bool {
    bool_or(json_get(v, "_truncated"@), false)
}

/// How a dropped-items marker is shown.
pub open spec fn sentinel_text(v: Json) -> Seq<char> {
    "...("@ + dec(u64_or(json_get(v, "remaining"@), 0) as nat) + " more items)"@
}

/// A value as text: strings as they are, anything else as compact JSON.
pub open spec fn value_text(v: Json) -> Seq<char> {
    match v {
        Json::Str(s) => s,
        _ => compact(v),
    }
}

/// A line range: `start-end` when the end is after the start, else `start`.
pub open spec fn range_text(start: u64, end: u64) -> Seq<char> {
    if end > start {
        dec(start as nat) + "-"@ + dec(end as nat)
    } else {
        dec(start as nat)
    }
}

/// Sequences of lines, one after another.
pub open spec fn concat_all(ss: Seq<Seq<Seq<char>>>) -> Seq<Seq<char>>
    decreases ss.len(),
{
    if ss.len() == 0 {
        seq![]
    } else {
        concat_all(ss.drop_last()) + ss.last()
    }
}

/// The items of an array member (none when it is missing or not an array).
pub open spec fn array_items(o: Option<Json>) -> Seq<Json> {
    match opt_array(o) {
        Some(a) => a,
        None => seq![],
    }
}

// ------------------------------------------------------------------
// Raw specifications
// ------------------------------------------------------------------

pub open spec fn raw_tree_line(e: Json) -> Seq<char> {
    str_or(json_get(e, "path"@), "?"@) + if str_or(json_get(e, "type"@), "file"@) == "dir"@ {
        "/"@
    } else {
        seq![]
    }
}

/// Tree listing: one path per line, directories with a trailing `/`.
pub open spec fn raw_tree(m: Seq<(Seq<char>, Json)>) -> Seq<char> {
    join(array_items(member(m, "entries"@)).map_values(|e: Json| raw_tree_line(e)), "\n"@)
}

pub open spec fn raw_symbol_line(s: Json) -> Seq<char> {
    if is_sentinel(s) {
        sentinel_text(s)
    } else {
        str_or(json_get(s, "name"@), "?"@) + " ("@ + str_or(json_get(s, "kind"@), "?"@) + ") L:"@
            + range_text(u64_or(json_get(s, "line_start"@), 0), u64_or(json_get(s, "line_end"@), 0))
    }
}

/// Symbols: `name (kind) L:start-end` per line.
pub open spec fn raw_symbols(a: Seq<Json>) -> Seq<char> {
    join(a.map_values(|s: Json| raw_symbol_line(s)), "\n"@)
}

pub open spec fn raw_match_line(file: Seq<char>, x: Json) -> Seq<char> {
    if is_sentinel(x) {
        sentinel_text(x)
    } else {
        file + ":"@ + dec(u64_or(json_get(x, "line_number"@), 0) as nat) + ": "@ + trim(
            str_or(json_get(x, "content"@), ""@),
        )
    }
}

pub open spec fn raw_group_lines(g: Json) -> Seq<Seq<char>> {
    if is_sentinel(g) {
        seq![sentinel_text(g)]
    } else {
        array_items(json_get(g, "matches"@)).map_values(
            |x: Json| raw_match_line(str_or(json_get(g, "file"@), "?"@), x),
        )
    }
}

pub open spec fn raw_flat_match_line(x: Json) -> Seq<char> {
    raw_match_line(str_or(json_get(x, "file"@), "?"@), x)
}

/// Grep results: `file:line: content` per match, grouped matches preferred.
pub open spec fn raw_grep(m: Seq<(Seq<char>, Json)>) -> Seq<char> {
    join(
        match opt_array(member(m, "file_matches"@)) {
            Some(gs) => concat_all(gs.map_values(|g: Json| raw_group_lines(g))),
            None => array_items(member(m, "matches"@)).map_values(|x: Json| raw_flat_match_line(x)),
        },
        "\n"@,
    )
}

pub open spec fn raw_fs_ls_line(e: Json) -> Seq<char> {
    if is_sentinel(e) {
        sentinel_text(e)
    } else {
        str_or(json_get(e, "name"@), "?"@) + "\t"@ + str_or(json_get(e, "type"@), "?"@) + "\t"@
            + match opt_u64(json_get(e, "size"@)) {
            Some(s) => dec(s as nat),
            None => "-"@,
        }
    }
}

/// Directory listing: `name<TAB>type<TAB>size` per line.
pub open spec fn raw_fs_ls(m: Seq<(Seq<char>, Json)>) -> Seq<char> {
    join(array_items(member(m, "entries"@)).map_values(|e: Json| raw_fs_ls_line(e)), "\n"@)
}

pub open spec fn search_block(i: nat, r: Json) -> Seq<Seq<char>> {
    let url = str_or(json_get(r, "url"@), ""@);
    let snippet = str_or(json_get(r, "snippet"@), ""@);
    seq![dec(i + 1) + ". "@ + str_or(json_get(r, "title"@), "?"@)] + (if url.len() > 0 {
        seq!["   "@ + url]
    } else {
        seq![]
    }) + (if snippet.len() > 0 {
        seq!["   "@ + snippet]
    } else {
        seq![]
    }) + seq![Seq::<char>::empty()]
}

pub open spec fn search_blocks(rs: Seq<Json>) -> Seq<Seq<char>>
    decreases rs.len(),
{
    if rs.len() == 0 {
        seq![]
    } else {
        search_blocks(rs.drop_last()) + search_block((rs.len() - 1) as nat, rs.last())
    }
}

/// Search results: a heading, then a numbered block per result.
pub open spec fn raw_search(m: Seq<(Seq<char>, Json)>) -> Seq<char> {
    join(
        seq![
            "Search: "@ + str_or(member(m, "query"@), "?"@) + " ("@ + str_or(member(m, "engine"@), "?"@)
                + ")"@,
            Seq::<char>::empty(),
        ] + search_blocks(array_items(member(m, "results"@))),
        "\n"@,
    )
}

/// Any object: `key: value` per line.
pub open spec fn raw_kv(m: Seq<(Seq<char>, Json)>) -> Seq<char> {
    join(m.map_values(|kv: (Seq<char>, Json)| kv.0 + ": "@ + value_text(kv.1)), "\n"@)
}

/// Plain-text rendering by the shape of the value: tree listings, code and
/// file contents, grep results, directory listings, search results, fetched
/// pages, symbol arrays, other objects as `key: value` lines, other arrays
/// one item per line, anything else as compact JSON.
pub open spec fn raw_text(v: Json) -> Seq<char> {
    match v {
        Json::Object(m) => if is_tree(m) {
            raw_tree(m)
        } else if has_key(m, "path"@) && has_key(m, "language"@) && has_key(m, "content"@) {
            str_or(member(m, "content"@), ""@)
        } else if has_key(m, "pattern"@) && (has_key(m, "file_matches"@) || has_key(m, "matches"@))
            && has_key(m, "total_matches"@) {
            raw_grep(m)
        } else if has_key(m, "entries"@) && has_key(m, "total"@) {
            raw_fs_ls(m)
        } else if is_search(m) {
            raw_search(m)
        } else if has_key(m, "url"@) && has_key(m, "content"@) && has_key(m, "word_count"@) {
            str_or(member(m, "content"@), ""@)
        } else if has_key(m, "path"@) && has_key(m, "content"@) {
            str_or(member(m, "content"@), ""@)
        } else {
            raw_kv(m)
        },
        Json::Array(a) => if a.len() > 0 && is_symbol(a[0]) {
            raw_symbols(a)
        } else {
            join(a.map_values(|x: Json| value_text(x)), "\n"@)
        },
        _ => compact(v),
    }
}

// ------------------------------------------------------------------
// Laws
// ------------------------------------------------------------------

/// The plain text of a grouped grep result is its groups' lines, one after
/// another, one per line of text; in a group that is no truncation marker,
/// the line of each match reads `<group's file>:<line number>: <trimmed
/// content>`, or `...(<n> more items)` for a marker of dropped matches.
pub proof fn raw_grouped_grep_lines_name_their_group(m: Seq<(Seq<char>, Json)>, i: int, j: int)
    requires
        !is_tree(m),
        !(has_key(m, "path"@) && has_key(m, "language"@) && has_key(m, "content"@)),
        has_key(m, "pattern"@),
        has_key(m, "total_matches"@),
        opt_array(member(m, "file_matches"@)) is Some,
        0 <= i < array_items(member(m, "file_matches"@)).len(),
        !is_sentinel(array_items(member(m, "file_matches"@))[i]),
        0 <= j < array_items(json_get(array_items(member(m, "file_matches"@))[i], "matches"@)).len(),
    ensures
        raw_text(Json::Object(m)) == join(
            concat_all(
                array_items(member(m, "file_matches"@)).map_values(|g: Json| raw_group_lines(g)),
            ),
            "\n"@,
        ),
        ({
            let g = array_items(member(m, "file_matches"@))[i];
            let ms = array_items(json_get(g, "matches"@));
            let x = ms[j];
            &&& raw_group_lines(g).len() == ms.len()
            &&& raw_group_lines(g)[j] == if bool_or(json_get(x, "_truncated"@), false) {
                "...("@ + dec(u64_or(json_get(x, "remaining"@), 0) as nat) + " more items)"@
            } else {
                str_or(json_get(g, "file"@), "?"@) + ":"@ + dec(
                    u64_or(json_get(x, "line_number"@), 0) as nat,
                ) + ": "@ + trim(str_or(json_get(x, "content"@), ""@))
            }
        }),
{
    let gs = array_items(member(m, "file_matches"@));
    assert(has_key(m, "file_matches"@));
    assert(raw_text(Json::Object(m)) == raw_grep(m));
}

// ------------------------------------------------------------------
// Shared executable helpers
// ------------------------------------------------------------------

/// Check if a JSON value is the array truncation marker.
pub fn is_truncation_sentinel(v: &JsonValue) -> (r: bool)
    ensures
        r == is_sentinel(v@),
{
    get_bool(v, "_truncated", false)
}

/// Format the truncation marker for display.
pub fn format_truncation_sentinel(v: &JsonValue) -> (r: String)
    ensures
        r@ == sentinel_text(v@),
{
    let remaining = get_u64(v, "remaining", 0);
    let mut r = String::new();
    r.append("...(");
    let d = dec_u64(remaining);
    r.append(d.as_str());
    r.append(" more items)");
    r
}

/// A value as text: strings as they are, anything else as compact JSON.
pub fn format_json_value(v: &JsonValue) -> (r: String)
    ensures
        r@ == value_text(v@),
{
    match v {
        JsonValue::String(s) => s.clone(),
        _ => to_json_string(v),
    }
}

/// The text of a line range.
pub fn range_string(start: u64, end: u64) -> (r: String)
    ensures
        r@ == range_text(start, end),
{
    let mut r = dec_u64(start);
    if end > start {
        r.append("-");
        let d = dec_u64(end);
        r.append(d.as_str());
    }
    r
}

// ------------------------------------------------------------------
// Raw rendering
// ------------------------------------------------------------------

fn raw_tree_line_of(e: &JsonValue) -> (r: String)
    ensures
        r@ == raw_tree_line(e@),
{
    let mut r = owned(get_str(e, "path", "?"));
    let etype = get_str(e, "type", "file");
    if crate::text::str_eq(etype, "dir") {
        r.append("/");
    }
    assert(r@ =~= raw_tree_line(e@));
    r
}

fn render_raw_tree(m: &Vec<(String, JsonValue)>) -> (r: String)
    ensures
        r@ == raw_tree(members_view(*m)),
{
    let mut lines: Vec<String> = Vec::new();
    match crate::json::array_field(m, "entries") {
        Some(entries) => {
            proof {
                lemma_items_view(*entries, entries@.len());
            }
            let ghost es = items_view(*entries);
            let mut i: usize = 0;
            while i < entries.len()
                invariant
                    i <= entries@.len(),
                    es == items_view(*entries),
                    es.len() == entries@.len(),
                    forall|k: int| 0 <= k < entries@.len() ==> #[trigger] es[k] == entries@[k]@,
                    views(lines@) == es.take(i as int).map_values(|e: Json| raw_tree_line(e)),
                decreases entries.len() - i,
            {
                push_line(&mut lines, raw_tree_line_of(&entries[i]));
                assert(views(lines@) =~= es.take(i + 1).map_values(|e: Json| raw_tree_line(e)));
                i += 1;
            }
            assert(es.take(es.len() as int) =~= es);
        },
        None => {},
    }
    assert(views(lines@).subrange(0, lines@.len() as int) =~= views(lines@));
    join_range(&lines, 0, lines.len(), "\n")
}

fn raw_symbol_line_of(s: &JsonValue) -> (r: String)
    ensures
        r@ == raw_symbol_line(s@),
{
    if is_truncation_sentinel(s) {
        return format_truncation_sentinel(s);
    }
    let mut r = owned(get_str(s, "name", "?"));
    r.append(" (");
    r.append(get_str(s, "kind", "?"));
    r.append(") L:");
    let range = range_string(get_u64(s, "line_start", 0), get_u64(s, "line_end", 0));
    r.append(range.as_str());
    r
}

fn render_raw_symbols(a: &Vec<JsonValue>) -> (r: String)
    ensures
        r@ == raw_symbols(items_view(*a)),
{
    proof {
        lemma_items_view(*a, a@.len());
    }
    let ghost es = items_view(*a);
    let mut lines: Vec<String> = Vec::new();
    let mut i: usize = 0;
    while i < a.len()
        invariant
            i <= a@.len(),
            es == items_view(*a),
            es.len() == a@.len(),
            forall|k: int| 0 <= k < a@.len() ==> #[trigger] es[k] == a@[k]@,
            views(lines@) == es.take(i as int).map_values(|s: Json| raw_symbol_line(s)),
        decreases a.len() - i,
    {
        push_line(&mut lines, raw_symbol_line_of(&a[i]));
        assert(views(lines@) =~= es.take(i + 1).map_values(|s: Json| raw_symbol_line(s)));
        i += 1;
    }
    assert(es.take(es.len() as int) =~= es);
    assert(views(lines@).subrange(0, lines@.len() as int) =~= views(lines@));
    join_range(&lines, 0, lines.len(), "\n")
}

fn raw_match_line_of(file: &str, x: &JsonValue) -> (r: String)
    ensures
        r@ == raw_match_line(file@, x@),
{
    if is_truncation_sentinel(x) {
        return format_truncation_sentinel(x);
    }
    let mut r = owned(file);
    r.append(":");
    let d = dec_u64(get_u64(x, "line_number", 0));
    r.append(d.as_str());
    r.append(": ");
    let c = trim_str(get_str(x, "content", ""));
    r.append(c.as_str());
    r
}

/// Appends the lines of one grep file group.
fn push_raw_group_lines(lines: &mut Vec<String>, g: &JsonValue)
    ensures
        views(final(lines)@) == views(old(lines)@) + raw_group_lines(g@),
{
    let ghost start = views(lines@);
    if is_truncation_sentinel(g) {
        push_line(lines, format_truncation_sentinel(g));
        assert(views(lines@) =~= start + raw_group_lines(g@));
        return;
    }
    let file = get_str(g, "file", "?");
    match get_array(g, "matches") {
        Some(ms) => {
            proof {
                lemma_items_view(*ms, ms@.len());
            }
            let ghost es = items_view(*ms);
            let mut i: usize = 0;
            while i < ms.len()
                invariant
                    i <= ms@.len(),
                    es == items_view(*ms),
                    es.len() == ms@.len(),
                    forall|k: int| 0 <= k < ms@.len() ==> #[trigger] es[k] == ms@[k]@,
                    views(lines@) == start + es.take(i as int).map_values(|x: Json| raw_match_line(file@, x)),
                decreases ms.len() - i,
            {
                push_line(lines, raw_match_line_of(file, &ms[i]));
                assert(views(lines@) =~= start + es.take(i + 1).map_values(|x: Json| raw_match_line(file@, x)));
                i += 1;
            }
            assert(es.take(es.len() as int) =~= es);
            assert(views(lines@) =~= start + raw_group_lines(g@));
        },
        None => {
            assert(views(lines@) =~= start + raw_group_lines(g@));
        },
    }
}

fn render_raw_grep(m: &Vec<(String, JsonValue)>) -> (r: String)
    ensures
        r@ == raw_grep(members_view(*m)),
{
    let mut lines: Vec<String> = Vec::new();
    match crate::json::array_field(m, "file_matches") {
        Some(groups) => {
            proof {
                lemma_items_view(*groups, groups@.len());
            }
            let ghost gs = items_view(*groups);
            let mut i: usize = 0;
            while i < groups.len()
                invariant
                    i <= groups@.len(),
                    gs == items_view(*groups),
                    gs.len() == groups@.len(),
                    forall|k: int| 0 <= k < groups@.len() ==> #[trigger] gs[k] == groups@[k]@,
                    views(lines@) == concat_all(gs.take(i as int).map_values(|g: Json| raw_group_lines(g))),
                decreases groups.len() - i,
            {
                push_raw_group_lines(&mut lines, &groups[i]);
                assert(gs.take(i + 1).map_values(|g: Json| raw_group_lines(g)).drop_last() =~= gs.take(i as int).map_values(|g: Json| raw_group_lines(g)));
                i += 1;
            }
            assert(gs.take(gs.len() as int) =~= gs);
        },
        None => {
            match crate::json::array_field(m, "matches") {
                Some(ms) => {
                    proof {
                        lemma_items_view(*ms, ms@.len());
                    }
                    let ghost es = items_view(*ms);
                    let mut i: usize = 0;
                    while i < ms.len()
                        invariant
                            i <= ms@.len(),
                            es == items_view(*ms),
                            es.len() == ms@.len(),
                            forall|k: int| 0 <= k < ms@.len() ==> #[trigger] es[k] == ms@[k]@,
                            views(lines@) == es.take(i as int).map_values(|x: Json| raw_flat_match_line(x)),
                        decreases ms.len() - i,
                    {
                        let file = get_str(&ms[i], "file", "?");
                        push_line(&mut lines, raw_match_line_of(file, &ms[i]));
                        assert(views(lines@) =~= es.take(i + 1).map_values(|x: Json| raw_flat_match_line(x)));
                        i += 1;
                    }
                    assert(es.take(es.len() as int) =~= es);
                },
                None => {},
            }
        },
    }
    assert(views(lines@).subrange(0, lines@.len() as int) =~= views(lines@));
    join_range(&lines, 0, lines.len(), "\n")
}

fn raw_fs_ls_line_of(e: &JsonValue) -> (r: String)
    ensures
        r@ == raw_fs_ls_line(e@),
{
    if is_truncation_sentinel(e) {
        return format_truncation_sentinel(e);
    }
    let mut r = owned(get_str(e, "name", "?"));
    r.append("\t");
    r.append(get_str(e, "type", "?"));
    r.append("\t");
    match get_u64_opt(e, "size") {
        Some(s) => {
            let d = dec_u64(s);
            r.append(d.as_str());
        },
        None => {
            r.append("-");
        },
    }
    r
}

fn render_raw_fs_ls(m: &Vec<(String, JsonValue)>) -> (r: String)
    ensures
        r@ == raw_fs_ls(members_view(*m)),
{
    let mut lines: Vec<String> = Vec::new();
    match crate::json::array_field(m, "entries") {
        Some(entries) => {
            proof {
                lemma_items_view(*entries, entries@.len());
            }
            let ghost es = items_view(*entries);
            let mut i: usize = 0;
            while i < entries.len()
                invariant
                    i <= entries@.len(),
                    es == items_view(*entries),
                    es.len() == entries@.len(),
                    forall|k: int| 0 <= k < entries@.len() ==> #[trigger] es[k] == entries@[k]@,
                    views(lines@) == es.take(i as int).map_values(|e: Json| raw_fs_ls_line(e)),
                decreases entries.len() - i,
            {
                push_line(&mut lines, raw_fs_ls_line_of(&entries[i]));
                assert(views(lines@) =~= es.take(i + 1).map_values(|e: Json| raw_fs_ls_line(e)));
                i += 1;
            }
            assert(es.take(es.len() as int) =~= es);
        },
        None => {},
    }
    assert(views(lines@).subrange(0, lines@.len() as int) =~= views(lines@));
    join_range(&lines, 0, lines.len(), "\n")
}

fn render_raw_search(m: &Vec<(String, JsonValue)>) -> (r: String)
    ensures
        r@ == raw_search(members_view(*m)),
{
    let mut lines: Vec<String> = Vec::new();
    let mut head = owned("Search: ");
    head.append(crate::json::str_field(m, "query", "?"));
    head.append(" (");
    head.append(crate::json::str_field(m, "engine", "?"));
    head.append(")");
    push_line(&mut lines, head);
    push_line(&mut lines, String::new());
    let ghost start = views(lines@);
    match crate::json::array_field(m, "results") {
        Some(results) => {
            proof {
                lemma_items_view(*results, results@.len());
            }
            let ghost rs = items_view(*results);
            let mut i: usize = 0;
            while i < results.len()
                invariant
                    i <= results@.len(),
                    rs == items_view(*results),
                    rs.len() == results@.len(),
                    forall|k: int| 0 <= k < results@.len() ==> #[trigger] rs[k] == results@[k]@,
                    views(lines@) == start + search_blocks(rs.take(i as int)),
                decreases results.len() - i,
            {
                let r = &results[i];
                let ghost before = views(lines@);
                let mut first = dec_usize(i + 1);
                first.append(". ");
                first.append(get_str(r, "title", "?"));
                push_line(&mut lines, first);
                let url = get_str(r, "url", "");
                let snippet = get_str(r, "snippet", "");
                if !url.is_empty() {
                    let mut l = owned("   ");
                    l.append(url);
                    push_line(&mut lines, l);
                }
                if !snippet.is_empty() {
                    let mut l = owned("   ");
                    l.append(snippet);
                    push_line(&mut lines, l);
                }
                push_line(&mut lines, String::new());
                assert(rs.take(i + 1).drop_last() =~= rs.take(i as int));
                assert(views(lines@) =~= before + search_block(i as nat, rs[i as int]));
                i += 1;
            }
            assert(rs.take(rs.len() as int) =~= rs);
        },
        None => {},
    }
    assert(views(lines@) =~= seq![
        "Search: "@ + str_or(member(members_view(*m), "query"@), "?"@) + " ("@ + str_or(member(members_view(*m), "engine"@), "?"@) + ")"@,
        Seq::<char>::empty(),
    ] + search_blocks(array_items(member(members_view(*m), "results"@))));
    assert(views(lines@).subrange(0, lines@.len() as int) =~= views(lines@));
    join_range(&lines, 0, lines.len(), "\n")
}

fn render_raw_kv(m: &Vec<(String, JsonValue)>) -> (r: String)
    ensures
        r@ == raw_kv(members_view(*m)),
{
    proof {
        lemma_members_view(*m, m@.len());
    }
    let ghost mv = members_view(*m);
    let mut lines: Vec<String> = Vec::new();
    let mut i: usize = 0;
    while i < m.len()
        invariant
            i <= m@.len(),
            mv == members_view(*m),
            mv.len() == m@.len(),
            forall|k: int| 0 <= k < m@.len() ==> #[trigger] mv[k] == (m@[k].0@, m@[k].1@),
            views(lines@) == mv.take(i as int).map_values(|kv: (Seq<char>, Json)| kv.0 + ": "@ + value_text(kv.1)),
        decreases m.len() - i,
    {
        let mut l = m[i].0.clone();
        l.append(": ");
        let t = format_json_value(&m[i].1);
        l.append(t.as_str());
        push_line(&mut lines, l);
        assert(mv[i as int] == (m@[i as int].0@, m@[i as int].1@));
        assert(views(lines@) =~= mv.take(i + 1).map_values(|kv: (Seq<char>, Json)| kv.0 + ": "@ + value_text(kv.1)));
        i += 1;
    }
    assert(mv.take(mv.len() as int) =~= mv);
    assert(views(lines@).subrange(0, lines@.len() as int) =~= views(lines@));
    join_range(&lines, 0, lines.len(), "\n")
}

/// Render a JSON value as plain text (see [`raw_text`]).
pub fn render_raw(value: &JsonValue) -> (r: String)
    ensures
        r@ == raw_text(value@),
{
    match value {
        JsonValue::Object(m) => {
            let mv = m;
            if crate::json::has_member(mv, "root") && crate::json::has_member(mv, "entries")
                && crate::json::has_member(mv, "total_files") {
                return render_raw_tree(mv);
            }
            if crate::json::has_member(mv, "path") && crate::json::has_member(mv, "language")
                && crate::json::has_member(mv, "content") {
                return owned(crate::json::str_field(mv, "content", ""));
            }
            if crate::json::has_member(mv, "pattern") && (crate::json::has_member(mv, "file_matches")
                || crate::json::has_member(mv, "matches")) && crate::json::has_member(
                mv,
                "total_matches",
            ) {
                return render_raw_grep(mv);
            }
            if crate::json::has_member(mv, "entries") && crate::json::has_member(mv, "total") {
                return render_raw_fs_ls(mv);
            }
            if crate::json::has_member(mv, "query") && crate::json::has_member(mv, "results")
                && crate::json::has_member(mv, "total_results") {
                return render_raw_search(mv);
            }
            if crate::json::has_member(mv, "url") && crate::json::has_member(mv, "content")
                && crate::json::has_member(mv, "word_count") {
                return owned(crate::json::str_field(mv, "content", ""));
            }
            if crate::json::has_member(mv, "path") && crate::json::has_member(mv, "content") {
                return owned(crate::json::str_field(mv, "content", ""));
            }
            render_raw_kv(mv)
        },
        JsonValue::Array(a) => {
            proof {
                lemma_items_view(*a, a@.len());
            }
            if a.len() > 0 && a[0].get("kind").is_some() && a[0].get("line_start").is_some() {
                return render_raw_symbols(a);
            }
            let ghost es = items_view(*a);
            let mut lines: Vec<String> = Vec::new();
            let mut i: usize = 0;
            while i < a.len()
                invariant
                    i <= a@.len(),
                    es == items_view(*a),
                    es.len() == a@.len(),
                    forall|k: int| 0 <= k < a@.len() ==> #[trigger] es[k] == a@[k]@,
                    views(lines@) == es.take(i as int).map_values(|x: Json| value_text(x)),
                decreases a.len() - i,
            {
                push_line(&mut lines, format_json_value(&a[i]));
                assert(views(lines@) =~= es.take(i + 1).map_values(|x: Json| value_text(x)));
                i += 1;
            }
            assert(es.take(es.len() as int) =~= es);
            assert(views(lines@).subrange(0, lines@.len() as int) =~= views(lines@));
            join_range(&lines, 0, lines.len(), "\n")
        },
        _ => to_json_string(value),
    }
}

} // verus!
