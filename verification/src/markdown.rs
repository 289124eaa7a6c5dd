//! Markdown rendering of tool results.
use vstd::prelude::*;
use vstd::string::StringExecFns;
use crate::compact::{is_search, is_symbol, is_tree};
use crate::json::{
    bool_or, compact, get_array, get_bool, get_object, get_str, get_u64, get_u64_opt, has_key,
    items_view, json_get, lemma_items_view, lemma_members_view, member, members_view, opt_array,
    opt_object, opt_str, opt_u64, str_or, to_json_string, u64_or, Json, JsonValue,
};
use crate::raw::{
    array_items, format_json_value, format_truncation_sentinel, is_sentinel,
    is_truncation_sentinel, range_string, range_text, sentinel_text, value_text,
};
use crate::text::{
    dec, dec_u64, dec_usize, join, last_path_segment, last_segment, owned, push_repeat, repeat,
    replace_char, replace_chars, trim, trim_str,
};

verus! {

/// `num / den` rounded to the nearest integer, ties to the even neighbour.
pub open spec fn round_half_even(num: nat, den: nat) -> nat
    recommends
        den > 0,
{
    let q = num / den;
    let r = num % den;
    if 2 * r > den || (2 * r == den && q % 2 == 1) {
        q + 1
    } else {
        q
    }
}

/// A count of tenths written with one decimal place.
pub open spec fn tenths_text(t: nat) -> Seq<char> {
    dec(t / 10) + "."@ + dec(t % 10)
}

/// A byte count in B, KB or MB, the latter two with one decimal place.
pub open spec fn size_text(bytes: nat) -> Seq<char> {
    if bytes < 1024 {
        dec(bytes) + " B"@
    } else if bytes < 1048576 {
        tenths_text(round_half_even(bytes * 10, 1024)) + " KB"@
    } else {
        tenths_text(round_half_even(bytes * 10, 1048576)) + " MB"@
    }
}

fn tenths_string(bytes: u64, den: u64) -> (r: String)
    requires
        den > 0,
    ensures
        r@ == tenths_text(round_half_even((bytes * 10) as nat, den as nat)),
{
    let num: u128 = bytes as u128 * 10;
    let q: u128 = num / den as u128;
    let rem: u128 = num % den as u128;
    let t: u128 = if 2 * rem > den as u128 || (2 * rem == den as u128 && q % 2 == 1) {
        q + 1
    } else {
        q
    };
    assert(t <= 1_000_000_000_000_000_000_000u128) by (nonlinear_arith)
        requires
            q == num / den as u128,
            num <= 0xffff_ffff_ffff_ffff * 10,
            den >= 1,
            t <= q + 1,
    ;
    let whole: u64 = (t / 10) as u64;
    let frac: u64 = (t % 10) as u64;
    let mut r = dec_u64(whole);
    r.append(".");
    let f = dec_u64(frac);
    r.append(f.as_str());
    r
}

/// A human-readable byte size: `500 B`, `1.5 KB`, `1.5 MB`.
pub fn format_size(bytes: u64) -> (r: String)
    ensures
        r@ == size_text(bytes as nat),
{
    if bytes < 1024 {
        let mut r = dec_u64(bytes);
        r.append(" B");
        r
    } else if bytes < 1048576 {
        let mut r = tenths_string(bytes, 1024);
        r.append(" KB");
        r
    } else {
        let mut r = tenths_string(bytes, 1048576);
        r.append(" MB");
        r
    }
}

// ------------------------------------------------------------------
// Specifications
// ------------------------------------------------------------------

/// The texts of the items, one after another.
pub open spec fn concat_map(items: Seq<Json>, f: spec_fn(Json) -> Seq<char>) -> Seq<char>
    decreases items.len(),
{
    if items.len() == 0 {
        seq![]
    } else {
        concat_map(items.drop_last(), f) + f(items.last())
    }
}

/// The texts of the items with their positions, one after another.
pub open spec fn concat_indexed(items: Seq<Json>, f: spec_fn(nat, Json) -> Seq<char>) -> Seq<char>
    decreases items.len(),
{
    if items.len() == 0 {
        seq![]
    } else {
        concat_indexed(items.drop_last(), f) + f((items.len() - 1) as nat, items.last())
    }
}

/// The texts of the members, one after another.
pub open spec fn concat_members(
    m: Seq<(Seq<char>, Json)>,
    f: spec_fn((Seq<char>, Json)) -> Seq<char>,
) -> Seq<char>
    decreases m.len(),
{
    if m.len() == 0 {
        seq![]
    } else {
        concat_members(m.drop_last(), f) + f(m.last())
    }
}

pub open spec fn bool_text(b: bool) -> Seq<char> {
    if b {
        "true"@
    } else {
        "false"@
    }
}

pub open spec fn md_tree_entry(e: Json) -> Seq<char> {
    let depth = u64_or(json_get(e, "depth"@), 1);
    let path = str_or(json_get(e, "path"@), "?"@);
    repeat("  "@, if depth >= 1 { (depth - 1) as nat } else { 0 }) + last_segment(path) + (if str_or(
        json_get(e, "type"@),
        "?"@,
    ) == "dir"@ {
        "/"@
    } else {
        seq![]
    }) + "\n"@
}

/// Tree listing: heading, counts, and an indented listing of names.
pub open spec fn md_tree(m: Seq<(Seq<char>, Json)>) -> Seq<char> {
    "## Tree: "@ + str_or(member(m, "root"@), "."@) + "\n\n"@ + dec(
        u64_or(member(m, "total_files"@), 0) as nat,
    ) + " files, "@ + dec(u64_or(member(m, "total_dirs"@), 0) as nat) + " directories\n\n```\n"@
        + concat_map(array_items(member(m, "entries"@)), |e: Json| md_tree_entry(e)) + "```\n"@
}

/// The line number of a symbol in a code read: `line`, or else `line_start`.
pub open spec fn code_symbol_start(s: Json) -> u64 {
    u64_or(
        if json_get(s, "line"@) is Some {
            json_get(s, "line"@)
        } else {
            json_get(s, "line_start"@)
        },
        0,
    )
}

pub open spec fn md_code_symbol(s: Json) -> Seq<char> {
    if is_sentinel(s) {
        "\n_"@ + sentinel_text(s) + "_\n"@
    } else {
        let ls = code_symbol_start(s);
        let range = match opt_u64(json_get(s, "line_end"@)) {
            Some(end) => if end != ls {
                dec(ls as nat) + "-"@ + dec(end as nat)
            } else {
                dec(ls as nat)
            },
            None => dec(ls as nat),
        };
        "| `"@ + str_or(json_get(s, "name"@), "?"@) + "` | "@ + str_or(json_get(s, "kind"@), "?"@)
            + " | "@ + range + " |\n"@
    }
}

pub open spec fn symbols_table_head() -> Seq<char> {
    "| Name | Kind | Lines |\n|------|------|-------|\n"@
}

/// The header of a code read: path, language, line and token counts.
pub open spec fn md_code_header(m: Seq<(Seq<char>, Json)>) -> Seq<char> {
    let lang = str_or(member(m, "language"@), ""@);
    "## "@ + str_or(member(m, "path"@), "?"@) + "\n\n**"@ + lang + "** | "@ + dec(
        u64_or(member(m, "lines"@), 0) as nat,
    ) + " lines | "@ + dec(u64_or(member(m, "tokens"@), 0) as nat) + " tokens"@ + (if bool_or(
        member(m, "truncated"@),
        false,
    ) {
        " (truncated)"@
    } else {
        seq![]
    }) + "\n\n"@
}

/// The symbol table of a code read, when it has symbols.
pub open spec fn md_code_symbols(m: Seq<(Seq<char>, Json)>) -> Seq<char> {
    match opt_array(member(m, "symbols"@)) {
        Some(syms) => if syms.len() > 0 {
            "### Symbols\n\n"@ + symbols_table_head() + concat_map(syms, |s: Json| md_code_symbol(s))
                + "\n"@
        } else {
            seq![]
        },
        None => seq![],
    }
}

/// The content of a code read in a fenced block tagged with the language.
pub open spec fn md_code_content(m: Seq<(Seq<char>, Json)>) -> Seq<char> {
    match opt_str(member(m, "content"@)) {
        Some(c) => "```"@ + str_or(member(m, "language"@), ""@) + "\n"@ + c + "\n```\n"@,
        None => seq![],
    }
}

/// Code read: file header, symbol table when there are symbols, and the
/// content in a fenced block.
pub open spec fn md_code_read(m: Seq<(Seq<char>, Json)>) -> Seq<char> {
    md_code_header(m) + md_code_symbols(m) + md_code_content(m)
}

pub open spec fn context_lines(o: Option<Json>) -> Seq<char> {
    concat_map(
        array_items(o),
        |x: Json|
            match x {
                Json::Str(s) => "    "@ + s + "\n"@,
                _ => seq![],
            },
    )
}

pub open spec fn capture_text(kv: (Seq<char>, Json)) -> Seq<char> {
    kv.0 + "=`"@ + (match kv.1 {
        Json::Str(s) => s,
        _ => "?"@,
    }) + "`"@
}

pub open spec fn md_grep_match(x: Json) -> Seq<char> {
    context_lines(json_get(x, "context_before"@)) + "**"@ + dec(
        u64_or(json_get(x, "line_number"@), 0) as nat,
    ) + ":** `"@ + trim(str_or(json_get(x, "content"@), ""@)) + "`\n"@ + context_lines(
        json_get(x, "context_after"@),
    ) + (match opt_object(json_get(x, "captures"@)) {
        Some(c) => if c.len() > 0 {
            "  Captures: "@ + join(c.map_values(|kv: (Seq<char>, Json)| capture_text(kv)), ", "@)
                + "\n"@
        } else {
            seq![]
        },
        None => seq![],
    }) + "\n"@
}

pub open spec fn md_grep_item(x: Json) -> Seq<char> {
    if is_sentinel(x) {
        "_"@ + sentinel_text(x) + "_\n\n"@
    } else {
        md_grep_match(x)
    }
}

pub open spec fn md_grep_group(g: Json) -> Seq<char> {
    if is_sentinel(g) {
        "_"@ + sentinel_text(g) + "_\n\n"@
    } else {
        "### "@ + str_or(json_get(g, "file"@), "?"@) + "\n\n"@ + concat_map(
            array_items(json_get(g, "matches"@)),
            |x: Json| md_grep_item(x),
        )
    }
}

/// Flat matches with a file heading whenever the file changes: the text and
/// the current file after the first `n` matches.
pub open spec fn md_grep_flat(ms: Seq<Json>) -> (Seq<char>, Seq<char>)
    decreases ms.len(),
{
    if ms.len() == 0 {
        (seq![], seq![])
    } else {
        let (text, cur) = md_grep_flat(ms.drop_last());
        md_grep_flat_step(text, cur, ms.last())
    }
}

/// One match of an ungrouped grep listing: a file heading whenever the file changes.
pub open spec fn md_grep_flat_step(text: Seq<char>, cur: Seq<char>, x: Json) -> (Seq<char>, Seq<char>) {
    if is_sentinel(x) {
        (text + "_"@ + sentinel_text(x) + "_\n\n"@, cur)
    } else {
        let file = str_or(json_get(x, "file"@), "?"@);
        if file != cur {
            (text + "### "@ + file + "\n\n"@ + md_grep_match(x), file)
        } else {
            (text + md_grep_match(x), cur)
        }
    }
}

/// Grep results: heading, counts, and matches grouped by file.
pub open spec fn md_grep(m: Seq<(Seq<char>, Json)>) -> Seq<char> {
    "## Grep: `"@ + str_or(member(m, "pattern"@), "?"@) + "`\n\n"@ + dec(
        u64_or(member(m, "total_matches"@), 0) as nat,
    ) + " matches across "@ + dec(u64_or(member(m, "files_searched"@), 0) as nat) + " files\n\n"@
        + match opt_array(member(m, "file_matches"@)) {
        Some(gs) => concat_map(gs, |g: Json| md_grep_group(g)),
        None => md_grep_flat(array_items(member(m, "matches"@))).0,
    }
}

pub open spec fn md_symbol_row(s: Json) -> Seq<char> {
    if is_sentinel(s) {
        "\n_"@ + sentinel_text(s) + "_\n"@
    } else {
        "| `"@ + str_or(json_get(s, "name"@), "?"@) + "` | "@ + str_or(json_get(s, "kind"@), "?"@)
            + " | "@ + range_text(
            u64_or(json_get(s, "line_start"@), 0),
            u64_or(json_get(s, "line_end"@), 0),
        ) + " |\n"@
    }
}

/// Symbols: a table of name, kind and lines.
pub open spec fn md_symbols(a: Seq<Json>) -> Seq<char> {
    "## Symbols\n\n"@ + symbols_table_head() + concat_map(a, |s: Json| md_symbol_row(s))
}

pub open spec fn md_fs_entry(e: Json) -> Seq<char> {
    if is_sentinel(e) {
        "\n_"@ + sentinel_text(e) + "_\n"@
    } else {
        "| `"@ + str_or(json_get(e, "name"@), "?"@) + "` | "@ + str_or(json_get(e, "type"@), "?"@)
            + " | "@ + (match opt_u64(json_get(e, "size"@)) {
            Some(b) => size_text(b as nat),
            None => "-"@,
        }) + " |\n"@
    }
}

/// Directory listing: a table of name, type and human-readable size.
pub open spec fn md_fs_ls(m: Seq<(Seq<char>, Json)>) -> Seq<char> {
    "## Directory Listing\n\n"@ + dec(u64_or(member(m, "total"@), 0) as nat)
        + " entries\n\n| Name | Type | Size |\n|------|------|------|\n"@ + concat_map(
        array_items(member(m, "entries"@)),
        |e: Json| md_fs_entry(e),
    )
}

/// File contents: heading and a fenced block.
pub open spec fn md_fs_cat(m: Seq<(Seq<char>, Json)>) -> Seq<char> {
    "## "@ + str_or(member(m, "path"@), "?"@) + "\n\n"@ + match opt_str(member(m, "content"@)) {
        Some(c) => "```\n"@ + c + "\n```\n"@,
        None => seq![],
    }
}

pub open spec fn md_kv_line(kv: (Seq<char>, Json)) -> Seq<char> {
    "- **"@ + replace_char(kv.0, '_', ' ') + ":** "@ + value_text(kv.1) + "\n"@
}

/// A heading followed by a `- **key:** value` line per member, with
/// underscores in keys shown as spaces.
pub open spec fn md_kv(title: Seq<char>, m: Seq<(Seq<char>, Json)>) -> Seq<char> {
    title + concat_members(m, |kv: (Seq<char>, Json)| md_kv_line(kv))
}

/// Edit result: summary list and the diff when there is one.
pub open spec fn md_edit(m: Seq<(Seq<char>, Json)>) -> Seq<char> {
    "## Edit: "@ + str_or(member(m, "path"@), "?"@) + "\n\n"@ + "- **Format:** "@ + str_or(
        member(m, "format"@),
        "?"@,
    ) + "\n"@ + "- **Applied:** "@ + bool_text(bool_or(member(m, "applied"@), false)) + "\n"@
        + "- **Validated:** "@ + bool_text(bool_or(member(m, "validated"@), false)) + "\n"@
        + "- **Lines changed:** "@ + dec(u64_or(member(m, "lines_changed"@), 0) as nat) + "\n"@
        + match opt_str(member(m, "diff"@)) {
        Some(d) => if d.len() > 0 {
            "\n```diff\n"@ + d + "\n```\n"@
        } else {
            seq![]
        },
        None => seq![],
    }
}

pub open spec fn md_search_result(i: nat, r: Json) -> Seq<char> {
    let title = str_or(json_get(r, "title"@), "?"@);
    let url = str_or(json_get(r, "url"@), ""@);
    let snippet = str_or(json_get(r, "snippet"@), ""@);
    (if url.len() == 0 {
        "### "@ + dec(i + 1) + ". "@ + title + "\n\n"@
    } else {
        "### "@ + dec(i + 1) + ". ["@ + title + "]("@ + url + ")\n\n"@
    }) + if snippet.len() > 0 {
        snippet + "\n\n"@
    } else {
        seq![]
    }
}

/// Search results: heading, count and engine, and a numbered entry per result.
pub open spec fn md_search(m: Seq<(Seq<char>, Json)>) -> Seq<char> {
    "## Search: `"@ + str_or(member(m, "query"@), "?"@) + "`\n\n"@ + dec(
        u64_or(member(m, "total_results"@), 0) as nat,
    ) + " results via "@ + str_or(member(m, "engine"@), "?"@) + (if bool_or(
        member(m, "cached"@),
        false,
    ) {
        " (cached)"@
    } else {
        seq![]
    }) + "\n\n"@ + concat_indexed(
        array_items(member(m, "results"@)),
        |i: nat, r: Json| md_search_result(i, r),
    )
}

/// Fetched page: title (or URL), source, word count and content.
pub open spec fn md_fetch(m: Seq<(Seq<char>, Json)>) -> Seq<char> {
    let url = str_or(member(m, "url"@), "?"@);
    let title = str_or(member(m, "title"@), ""@);
    "## "@ + (if title.len() == 0 {
        url
    } else {
        title
    }) + "\n\n"@ + "**Source:** "@ + url + "\n**Words:** "@ + dec(
        u64_or(member(m, "word_count"@), 0) as nat,
    ) + "\n\n"@ + str_or(member(m, "content"@), ""@) + "\n"@
}

/// Any array: a numbered line per item.
pub open spec fn md_array(a: Seq<Json>) -> Seq<char> {
    concat_indexed(a, |i: nat, v: Json| dec(i + 1) + ". "@ + value_text(v) + "\n"@)
}

/// Markdown rendering by the shape of the value.
pub open spec fn markdown_text(v: Json) -> Seq<char> {
    match v {
        Json::Object(m) => if is_tree(m) {
            md_tree(m)
        } else if has_key(m, "path"@) && has_key(m, "language"@) && has_key(m, "content"@) {
            md_code_read(m)
        } else if has_key(m, "pattern"@) && (has_key(m, "file_matches"@) || has_key(m, "matches"@))
            && has_key(m, "total_matches"@) {
            md_grep(m)
        } else if has_key(m, "entries"@) && has_key(m, "total"@) {
            md_fs_ls(m)
        } else if has_key(m, "files_indexed"@) && has_key(m, "symbols_added"@) {
            md_kv("## Index Built\n\n"@, m)
        } else if has_key(m, "total_symbols"@) && has_key(m, "schema_version"@) {
            md_kv("## Index Status\n\n"@, m)
        } else if has_key(m, "applied"@) && has_key(m, "validated"@) {
            md_edit(m)
        } else if is_search(m) {
            md_search(m)
        } else if has_key(m, "url"@) && has_key(m, "content"@) && has_key(m, "word_count"@) {
            md_fetch(m)
        } else if has_key(m, "path"@) && has_key(m, "content"@) {
            md_fs_cat(m)
        } else {
            md_kv(seq![], m)
        },
        Json::Array(a) => if a.len() > 0 && is_symbol(a[0]) {
            md_symbols(a)
        } else {
            md_array(a)
        },
        _ => compact(v),
    }
}

// ------------------------------------------------------------------
// Laws
// ------------------------------------------------------------------

/// In the Markdown of a grep match (grouped or not, when it is no truncation
/// marker), the match's `context_before` lines come first, then the
/// `**line:** `content`` line, then its `context_after` lines, and only then
/// the captures and the closing blank line.
pub proof fn grep_match_context_surrounds_the_match(x: Json)
    ensures
        ({
            let before = context_lines(json_get(x, "context_before"@));
            let line = "**"@ + dec(u64_or(json_get(x, "line_number"@), 0) as nat) + ":** `"@ + trim(
                str_or(json_get(x, "content"@), ""@),
            ) + "`\n"@;
            let after = context_lines(json_get(x, "context_after"@));
            let text = md_grep_match(x);
            let n = before.len() + line.len() + after.len();
            &&& n <= text.len()
            &&& text.subrange(0, before.len() as int) == before
            &&& text.subrange(before.len() as int, (before.len() + line.len()) as int) == line
            &&& text.subrange((before.len() + line.len()) as int, n as int) == after
        }),
        !is_sentinel(x) ==> md_grep_item(x) == md_grep_match(x),
{
    let before = context_lines(json_get(x, "context_before"@));
    let line = "**"@ + dec(u64_or(json_get(x, "line_number"@), 0) as nat) + ":** `"@ + trim(
        str_or(json_get(x, "content"@), ""@),
    ) + "`\n"@;
    let after = context_lines(json_get(x, "context_after"@));
    let text = md_grep_match(x);
    let rest = text.skip((before.len() + line.len() + after.len()) as int);
    assert(text =~= before + line + after + rest);
    assert(text.subrange(0, before.len() as int) =~= before);
    assert(text.subrange(before.len() as int, (before.len() + line.len()) as int) =~= line);
    assert(text.subrange(
        (before.len() + line.len()) as int,
        (before.len() + line.len() + after.len()) as int,
    ) =~= after);
}

// ------------------------------------------------------------------
// Executable rendering
// ------------------------------------------------------------------

fn md_tree_entry_of(e: &JsonValue) -> (r: String)
    ensures
        r@ == md_tree_entry(e@),
{
    let depth = get_u64(e, "depth", 1);
    let path = get_str(e, "path", "?");
    let etype = get_str(e, "type", "?");
    let mut r = String::new();
    push_repeat(&mut r, "  ", if depth >= 1 { depth - 1 } else { 0 });
    let name = last_path_segment(path);
    r.append(name.as_str());
    if crate::text::str_eq(etype, "dir") {
        r.append("/");
    }
    r.append("\n");
    assert(r@ =~= md_tree_entry(e@));
    r
}

fn render_tree_md(m: &Vec<(String, JsonValue)>) -> (r: String)
    ensures
        r@ == md_tree(members_view(*m)),
{
    let mut out = owned("## Tree: ");
    out.append(crate::json::str_field(m, "root", "."));
    out.append("\n\n");
    let a = dec_u64(crate::json::u64_field(m, "total_files", 0));
    out.append(a.as_str());
    out.append(" files, ");
    let b = dec_u64(crate::json::u64_field(m, "total_dirs", 0));
    out.append(b.as_str());
    out.append(" directories\n\n```\n");
    let ghost start = out@;
    match crate::json::array_field(m, "entries") {
        Some(entries) => {
            proof {
                lemma_items_view(*entries, entries@.len());
            }
            let ghost es = items_view(*entries);
            let mut i: usize = 0;
            while i < entries.len()
                invariant
                    i <= entries@.len(),
                    es == items_view(*entries),
                    es.len() == entries@.len(),
                    forall|k: int| 0 <= k < entries@.len() ==> #[trigger] es[k] == entries@[k]@,
                    out@ == start + concat_map(es.take(i as int), |e: Json| md_tree_entry(e)),
                decreases entries.len() - i,
            {
                let t = md_tree_entry_of(&entries[i]);
                out.append(t.as_str());
                assert(es.take(i + 1).drop_last() =~= es.take(i as int));
                i += 1;
            }
            assert(es.take(es.len() as int) =~= es);
        },
        None => {},
    }
    out.append("```\n");
    assert(out@ =~= md_tree(members_view(*m)));
    out
}

fn md_code_symbol_of(s: &JsonValue) -> (r: String)
    ensures
        r@ == md_code_symbol(s@),
{
    if is_truncation_sentinel(s) {
        let mut r = owned("\n_");
        let t = format_truncation_sentinel(s);
        r.append(t.as_str());
        r.append("_\n");
        return r;
    }
    let name = get_str(s, "name", "?");
    let kind = get_str(s, "kind", "?");
    let ls = match s.get("line") {
        Some(v) => match v.as_u64() {
            Some(u) => u,
            None => 0,
        },
        None => get_u64(s, "line_start", 0),
    };
    let le = get_u64_opt(s, "line_end");
    let mut range = dec_u64(ls);
    match le {
        Some(end) => {
            if end != ls {
                range.append("-");
                let d = dec_u64(end);
                range.append(d.as_str());
            }
        },
        None => {},
    }
    let mut r = owned("| `");
    r.append(name);
    r.append("` | ");
    r.append(kind);
    r.append(" | ");
    r.append(range.as_str());
    r.append(" |\n");
    r
}

fn code_header_md(m: &Vec<(String, JsonValue)>) -> (r: String)
    ensures
        r@ == md_code_header(members_view(*m)),
{
    let path = crate::json::str_field(m, "path", "?");
    let lang = crate::json::str_field(m, "language", "");
    let lines = crate::json::u64_field(m, "lines", 0);
    let tokens = crate::json::u64_field(m, "tokens", 0);
    let truncated = crate::json::bool_field(m, "truncated", false);
    let mut out = owned("## ");
    out.append(path);
    out.append("\n\n**");
    out.append(lang);
    out.append("** | ");
    let a = dec_u64(lines);
    out.append(a.as_str());
    out.append(" lines | ");
    let b = dec_u64(tokens);
    out.append(b.as_str());
    out.append(" tokens");
    if truncated {
        out.append(" (truncated)");
    }
    out.append("\n\n");
    assert(out@ =~= md_code_header(members_view(*m)));
    out
}

fn code_symbols_md(m: &Vec<(String, JsonValue)>) -> (r: String)
    ensures
        r@ == md_code_symbols(members_view(*m)),
{
    let mut out = String::new();
    match crate::json::array_field(m, "symbols") {
        Some(symbols) => {
            proof {
                lemma_items_view(*symbols, symbols@.len());
            }
            if symbols.len() > 0 {
                out.append("### Symbols\n\n");
                out.append("| Name | Kind | Lines |\n|------|------|-------|\n");
                let ghost mid = out@;
                let ghost es = items_view(*symbols);
                let mut i: usize = 0;
                while i < symbols.len()
                    invariant
                        i <= symbols@.len(),
                        es == items_view(*symbols),
                        es.len() == symbols@.len(),
                        forall|k: int| 0 <= k < symbols@.len() ==> #[trigger] es[k] == symbols@[k]@,
                        out@ == mid + concat_map(es.take(i as int), |s: Json| md_code_symbol(s)),
                    decreases symbols.len() - i,
                {
                    let t = md_code_symbol_of(&symbols[i]);
                    out.append(t.as_str());
                    assert(es.take(i + 1).drop_last() =~= es.take(i as int));
                    i += 1;
                }
                assert(es.take(es.len() as int) =~= es);
                out.append("\n");
            }
        },
        None => {},
    }
    assert(out@ =~= md_code_symbols(members_view(*m)));
    out
}

fn render_code_read_md(m: &Vec<(String, JsonValue)>) -> (r: String)
    ensures
        r@ == md_code_read(members_view(*m)),
{
    let mut out = code_header_md(m);
    let syms = code_symbols_md(m);
    out.append(syms.as_str());
    match crate::json::member_of(m, "content") {
        Some(v) => match v.as_str() {
            Some(c) => {
                out.append("```");
                out.append(crate::json::str_field(m, "language", ""));
                out.append("\n");
                out.append(c);
                out.append("\n```\n");
            },
            None => {},
        },
        None => {},
    }
    assert(out@ =~= md_code_read(members_view(*m)));
    out
}

fn context_lines_of(x: &JsonValue, key: &str) -> (r: String)
    ensures
        r@ == context_lines(json_get(x@, key@)),
{
    let mut out = String::new();
    match get_array(x, key) {
        Some(a) => {
            proof {
                lemma_items_view(*a, a@.len());
            }
            let ghost es = items_view(*a);
            let mut i: usize = 0;
            while i < a.len()
                invariant
                    i <= a@.len(),
                    es == items_view(*a),
                    es.len() == a@.len(),
                    forall|k: int| 0 <= k < a@.len() ==> #[trigger] es[k] == a@[k]@,
                    out@ == concat_map(
                        es.take(i as int),
                        |x: Json|
                            match x {
                                Json::Str(s) => "    "@ + s + "\n"@,
                                _ => seq![],
                            },
                    ),
                decreases a.len() - i,
            {
                match a[i].as_str() {
                    Some(s) => {
                        out.append("    ");
                        out.append(s);
                        out.append("\n");
                    },
                    None => {},
                }
                assert(es.take(i + 1).drop_last() =~= es.take(i as int));
                assert(out@ =~= concat_map(
                    es.take(i + 1),
                    |x: Json|
                        match x {
                            Json::Str(s) => "    "@ + s + "\n"@,
                            _ => seq![],
                        },
                ));
                i += 1;
            }
            assert(es.take(es.len() as int) =~= es);
        },
        None => {
            assert(out@ =~= context_lines(json_get(x@, key@)));
        },
    }
    out
}

fn captures_of(c: &Vec<(String, JsonValue)>) -> (r: String)
    ensures
        r@ == join(members_view(*c).map_values(|kv: (Seq<char>, Json)| capture_text(kv)), ", "@),
{
    proof {
        lemma_members_view(*c, c@.len());
    }
    let ghost mv = members_view(*c);
    let mut parts: Vec<String> = Vec::new();
    let mut i: usize = 0;
    while i < c.len()
        invariant
            i <= c@.len(),
            mv == members_view(*c),
            mv.len() == c@.len(),
            forall|k: int| 0 <= k < c@.len() ==> #[trigger] mv[k] == (c@[k].0@, c@[k].1@),
            crate::text::views(parts@) == mv.take(i as int).map_values(|kv: (Seq<char>, Json)| capture_text(kv)),
        decreases c.len() - i,
    {
        let mut t = c[i].0.clone();
        t.append("=`");
        match c[i].1.as_str() {
            Some(s) => t.append(s),
            None => t.append("?"),
        }
        t.append("`");
        assert(mv[i as int] == (c@[i as int].0@, c@[i as int].1@));
        assert(t@ =~= capture_text(mv[i as int]));
        crate::text::push_line(&mut parts, t);
        assert(crate::text::views(parts@) =~= mv.take(i + 1).map_values(|kv: (Seq<char>, Json)| capture_text(kv)));
        i += 1;
    }
    assert(mv.take(mv.len() as int) =~= mv);
    assert(crate::text::views(parts@).subrange(0, parts@.len() as int) =~= crate::text::views(parts@));
    crate::text::join_range(&parts, 0, parts.len(), ", ")
}

/// Render a single grep match in markdown.
fn render_grep_match_md(x: &JsonValue) -> (r: String)
    ensures
        r@ == md_grep_match(x@),
{
    let mut out = context_lines_of(x, "context_before");
    out.append("**");
    let d = dec_u64(get_u64(x, "line_number", 0));
    out.append(d.as_str());
    out.append(":** `");
    let c = trim_str(get_str(x, "content", ""));
    out.append(c.as_str());
    out.append("`\n");
    let after = context_lines_of(x, "context_after");
    out.append(after.as_str());
    let ghost mid = out@;
    match get_object(x, "captures") {
        Some(caps) => {
            proof {
                lemma_members_view(*caps, caps@.len());
            }
            if caps.len() > 0 {
                out.append("  Captures: ");
                let j = captures_of(caps);
                out.append(j.as_str());
                out.append("\n");
            }
        },
        None => {},
    }
    out.append("\n");
    assert(out@ =~= md_grep_match(x@));
    out
}

fn md_grep_item_of(x: &JsonValue) -> (r: String)
    ensures
        r@ == md_grep_item(x@),
{
    if is_truncation_sentinel(x) {
        let mut r = owned("_");
        let t = format_truncation_sentinel(x);
        r.append(t.as_str());
        r.append("_\n\n");
        r
    } else {
        render_grep_match_md(x)
    }
}

fn md_grep_group_of(g: &JsonValue) -> (r: String)
    ensures
        r@ == md_grep_group(g@),
{
    if is_truncation_sentinel(g) {
        let mut r = owned("_");
        let t = format_truncation_sentinel(g);
        r.append(t.as_str());
        r.append("_\n\n");
        return r;
    }
    let mut out = owned("### ");
    out.append(get_str(g, "file", "?"));
    out.append("\n\n");
    let ghost start = out@;
    match get_array(g, "matches") {
        Some(a) => {
            proof {
                lemma_items_view(*a, a@.len());
            }
            let ghost es = items_view(*a);
            let mut i: usize = 0;
            while i < a.len()
                invariant
                    i <= a@.len(),
                    es == items_view(*a),
                    es.len() == a@.len(),
                    forall|k: int| 0 <= k < a@.len() ==> #[trigger] es[k] == a@[k]@,
                    out@ == start + concat_map(es.take(i as int), |x: Json| md_grep_item(x)),
                decreases a.len() - i,
            {
                let t = md_grep_item_of(&a[i]);
                out.append(t.as_str());
                assert(es.take(i + 1).drop_last() =~= es.take(i as int));
                i += 1;
            }
            assert(es.take(es.len() as int) =~= es);
        },
        None => {},
    }
    assert(out@ =~= md_grep_group(g@));
    out
}

fn grep_flat_step(out: &mut String, current_file: &mut String, x: &JsonValue)
    ensures
        final(out)@ == old(out)@ + md_grep_flat_step(seq![], old(current_file)@, x@).0,
        final(current_file)@ == md_grep_flat_step(seq![], old(current_file)@, x@).1,
{
    if is_truncation_sentinel(x) {
        out.append("_");
        let t = format_truncation_sentinel(x);
        out.append(t.as_str());
        out.append("_\n\n");
    } else {
        let file = get_str(x, "file", "?");
        if !crate::text::str_eq(file, current_file.as_str()) {
            out.append("### ");
            out.append(file);
            out.append("\n\n");
            *current_file = owned(file);
        }
        let t = render_grep_match_md(x);
        out.append(t.as_str());
    }
    assert(out@ =~= old(out)@ + md_grep_flat_step(seq![], old(current_file)@, x@).0);
}

fn render_grep_md(m: &Vec<(String, JsonValue)>) -> (r: String)
    ensures
        r@ == md_grep(members_view(*m)),
{
    let mut out = owned("## Grep: `");
    out.append(crate::json::str_field(m, "pattern", "?"));
    out.append("`\n\n");
    let a = dec_u64(crate::json::u64_field(m, "total_matches", 0));
    out.append(a.as_str());
    out.append(" matches across ");
    let b = dec_u64(crate::json::u64_field(m, "files_searched", 0));
    out.append(b.as_str());
    out.append(" files\n\n");
    let ghost start = out@;
    match crate::json::array_field(m, "file_matches") {
        Some(groups) => {
            proof {
                lemma_items_view(*groups, groups@.len());
            }
            let ghost gs = items_view(*groups);
            let mut i: usize = 0;
            while i < groups.len()
                invariant
                    i <= groups@.len(),
                    gs == items_view(*groups),
                    gs.len() == groups@.len(),
                    forall|k: int| 0 <= k < groups@.len() ==> #[trigger] gs[k] == groups@[k]@,
                    out@ == start + concat_map(gs.take(i as int), |g: Json| md_grep_group(g)),
                decreases groups.len() - i,
            {
                let t = md_grep_group_of(&groups[i]);
                out.append(t.as_str());
                assert(gs.take(i + 1).drop_last() =~= gs.take(i as int));
                i += 1;
            }
            assert(gs.take(gs.len() as int) =~= gs);
        },
        None => {
            match crate::json::array_field(m, "matches") {
                Some(ms) => {
                    proof {
                        lemma_items_view(*ms, ms@.len());
                    }
                    let ghost es = items_view(*ms);
                    let mut current_file = String::new();
                    let mut i: usize = 0;
                    while i < ms.len()
                        invariant
                            i <= ms@.len(),
                            es == items_view(*ms),
                            es.len() == ms@.len(),
                            forall|k: int| 0 <= k < ms@.len() ==> #[trigger] es[k] == ms@[k]@,
                            out@ == start + md_grep_flat(es.take(i as int)).0,
                            current_file@ == md_grep_flat(es.take(i as int)).1,
                        decreases ms.len() - i,
                    {
                        grep_flat_step(&mut out, &mut current_file, &ms[i]);
                        proof {
                            let pre = md_grep_flat(es.take(i as int));
                            assert(es.take(i + 1).drop_last() =~= es.take(i as int));
                            assert(es.take(i + 1).last() == es[i as int]);
                            let post = md_grep_flat_step(pre.0, pre.1, es[i as int]);
                            assert(md_grep_flat(es.take(i + 1)) == post);
                            assert(post.0 =~= pre.0 + md_grep_flat_step(seq![], pre.1, es[i as int]).0);
                        }
                        i += 1;
                    }
                    assert(es.take(es.len() as int) =~= es);
                },
                None => {
                    assert(md_grep_flat(Seq::<Json>::empty()).0 =~= Seq::<char>::empty());
                },
            }
        },
    }
    assert(out@ =~= md_grep(members_view(*m)));
    out
}

fn md_symbol_row_of(s: &JsonValue) -> (r: String)
    ensures
        r@ == md_symbol_row(s@),
{
    if is_truncation_sentinel(s) {
        let mut r = owned("\n_");
        let t = format_truncation_sentinel(s);
        r.append(t.as_str());
        r.append("_\n");
        return r;
    }
    let mut r = owned("| `");
    r.append(get_str(s, "name", "?"));
    r.append("` | ");
    r.append(get_str(s, "kind", "?"));
    r.append(" | ");
    let range = range_string(get_u64(s, "line_start", 0), get_u64(s, "line_end", 0));
    r.append(range.as_str());
    r.append(" |\n");
    r
}

fn render_symbols_md(a: &Vec<JsonValue>) -> (r: String)
    ensures
        r@ == md_symbols(items_view(*a)),
{
    proof {
        lemma_items_view(*a, a@.len());
    }
    let mut out = owned("## Symbols\n\n");
    out.append("| Name | Kind | Lines |\n|------|------|-------|\n");
    let ghost start = out@;
    let ghost es = items_view(*a);
    let mut i: usize = 0;
    while i < a.len()
        invariant
            i <= a@.len(),
            es == items_view(*a),
            es.len() == a@.len(),
            forall|k: int| 0 <= k < a@.len() ==> #[trigger] es[k] == a@[k]@,
            out@ == start + concat_map(es.take(i as int), |s: Json| md_symbol_row(s)),
        decreases a.len() - i,
    {
        let t = md_symbol_row_of(&a[i]);
        out.append(t.as_str());
        assert(es.take(i + 1).drop_last() =~= es.take(i as int));
        i += 1;
    }
    assert(es.take(es.len() as int) =~= es);
    assert(out@ =~= md_symbols(items_view(*a)));
    out
}

fn md_fs_entry_of(e: &JsonValue) -> (r: String)
    ensures
        r@ == md_fs_entry(e@),
{
    if is_truncation_sentinel(e) {
        let mut r = owned("\n_");
        let t = format_truncation_sentinel(e);
        r.append(t.as_str());
        r.append("_\n");
        return r;
    }
    let mut r = owned("| `");
    r.append(get_str(e, "name", "?"));
    r.append("` | ");
    r.append(get_str(e, "type", "?"));
    r.append(" | ");
    match get_u64_opt(e, "size") {
        Some(b) => {
            let t = format_size(b);
            r.append(t.as_str());
        },
        None => {
            r.append("-");
        },
    }
    r.append(" |\n");
    r
}

fn render_fs_ls_md(m: &Vec<(String, JsonValue)>) -> (r: String)
    ensures
        r@ == md_fs_ls(members_view(*m)),
{
    let mut out = owned("## Directory Listing\n\n");
    let a = dec_u64(crate::json::u64_field(m, "total", 0));
    out.append(a.as_str());
    out.append(" entries\n\n| Name | Type | Size |\n|------|------|------|\n");
    let ghost start = out@;
    match crate::json::array_field(m, "entries") {
        Some(entries) => {
            proof {
                lemma_items_view(*entries, entries@.len());
            }
            let ghost es = items_view(*entries);
            let mut i: usize = 0;
            while i < entries.len()
                invariant
                    i <= entries@.len(),
                    es == items_view(*entries),
                    es.len() == entries@.len(),
                    forall|k: int| 0 <= k < entries@.len() ==> #[trigger] es[k] == entries@[k]@,
                    out@ == start + concat_map(es.take(i as int), |e: Json| md_fs_entry(e)),
                decreases entries.len() - i,
            {
                let t = md_fs_entry_of(&entries[i]);
                out.append(t.as_str());
                assert(es.take(i + 1).drop_last() =~= es.take(i as int));
                i += 1;
            }
            assert(es.take(es.len() as int) =~= es);
        },
        None => {},
    }
    assert(out@ =~= md_fs_ls(members_view(*m)));
    out
}

fn render_fs_cat_md(m: &Vec<(String, JsonValue)>) -> (r: String)
    ensures
        r@ == md_fs_cat(members_view(*m)),
{
    let mut out = owned("## ");
    out.append(crate::json::str_field(m, "path", "?"));
    out.append("\n\n");
    match crate::json::member_of(m, "content") {
        Some(v) => match v.as_str() {
            Some(c) => {
                out.append("```\n");
                out.append(c);
                out.append("\n```\n");
            },
            None => {},
        },
        None => {},
    }
    assert(out@ =~= md_fs_cat(members_view(*m)));
    out
}

/// A heading then a `- **key:** value` line per member.
fn render_kv_md(title: &str, m: &Vec<(String, JsonValue)>) -> (r: String)
    ensures
        r@ == md_kv(title@, members_view(*m)),
{
    proof {
        lemma_members_view(*m, m@.len());
    }
    let ghost mv = members_view(*m);
    let mut out = owned(title);
    let mut i: usize = 0;
    while i < m.len()
        invariant
            i <= m@.len(),
            mv == members_view(*m),
            mv.len() == m@.len(),
            forall|k: int| 0 <= k < m@.len() ==> #[trigger] mv[k] == (m@[k].0@, m@[k].1@),
            out@ == title@ + concat_members(mv.take(i as int), |kv: (Seq<char>, Json)| md_kv_line(kv)),
        decreases m.len() - i,
    {
        out.append("- **");
        let label = replace_chars(m[i].0.as_str(), '_', ' ');
        out.append(label.as_str());
        out.append(":** ");
        let v = format_json_value(&m[i].1);
        out.append(v.as_str());
        out.append("\n");
        assert(mv[i as int] == (m@[i as int].0@, m@[i as int].1@));
        assert(mv.take(i + 1).drop_last() =~= mv.take(i as int));
        i += 1;
    }
    assert(mv.take(mv.len() as int) =~= mv);
    out
}

fn bool_string(b: bool) -> (r: String)
    ensures
        r@ == bool_text(b),
{
    if b {
        owned("true")
    } else {
        owned("false")
    }
}

fn render_edit_md(m: &Vec<(String, JsonValue)>) -> (r: String)
    ensures
        r@ == md_edit(members_view(*m)),
{
    let mut out = owned("## Edit: ");
    out.append(crate::json::str_field(m, "path", "?"));
    out.append("\n\n");
    out.append("- **Format:** ");
    out.append(crate::json::str_field(m, "format", "?"));
    out.append("\n");
    out.append("- **Applied:** ");
    let a = bool_string(crate::json::bool_field(m, "applied", false));
    out.append(a.as_str());
    out.append("\n");
    out.append("- **Validated:** ");
    let v = bool_string(crate::json::bool_field(m, "validated", false));
    out.append(v.as_str());
    out.append("\n");
    out.append("- **Lines changed:** ");
    let l = dec_u64(crate::json::u64_field(m, "lines_changed", 0));
    out.append(l.as_str());
    out.append("\n");
    let ghost mid = out@;
    match crate::json::member_of(m, "diff") {
        Some(d) => match d.as_str() {
            Some(diff) => {
                if !diff.is_empty() {
                    out.append("\n```diff\n");
                    out.append(diff);
                    out.append("\n```\n");
                }
            },
            None => {},
        },
        None => {},
    }
    assert(out@ =~= md_edit(members_view(*m)));
    out
}

fn md_search_result_of(i: usize, r: &JsonValue) -> (s: String)
    requires
        i < usize::MAX,
    ensures
        s@ == md_search_result(i as nat, r@),
{
    let title = get_str(r, "title", "?");
    let url = get_str(r, "url", "");
    let snippet = get_str(r, "snippet", "");
    let mut out = owned("### ");
    let n = dec_usize(i + 1);
    out.append(n.as_str());
    if url.is_empty() {
        out.append(". ");
        out.append(title);
        out.append("\n\n");
    } else {
        out.append(". [");
        out.append(title);
        out.append("](");
        out.append(url);
        out.append(")\n\n");
    }
    if !snippet.is_empty() {
        out.append(snippet);
        out.append("\n\n");
    }
    assert(out@ =~= md_search_result(i as nat, r@));
    out
}

fn render_search_md(m: &Vec<(String, JsonValue)>) -> (r: String)
    ensures
        r@ == md_search(members_view(*m)),
{
    let mut out = owned("## Search: `");
    out.append(crate::json::str_field(m, "query", "?"));
    out.append("`\n\n");
    let t = dec_u64(crate::json::u64_field(m, "total_results", 0));
    out.append(t.as_str());
    out.append(" results via ");
    out.append(crate::json::str_field(m, "engine", "?"));
    if crate::json::bool_field(m, "cached", false) {
        out.append(" (cached)");
    }
    out.append("\n\n");
    let ghost start = out@;
    match crate::json::array_field(m, "results") {
        Some(results) => {
            proof {
                lemma_items_view(*results, results@.len());
            }
            let ghost rs = items_view(*results);
            let mut i: usize = 0;
            while i < results.len()
                invariant
                    i <= results@.len(),
                    rs == items_view(*results),
                    rs.len() == results@.len(),
                    forall|k: int| 0 <= k < results@.len() ==> #[trigger] rs[k] == results@[k]@,
                    out@ == start + concat_indexed(rs.take(i as int), |i: nat, r: Json| md_search_result(i, r)),
                decreases results.len() - i,
            {
                let s = md_search_result_of(i, &results[i]);
                out.append(s.as_str());
                assert(rs.take(i + 1).drop_last() =~= rs.take(i as int));
                i += 1;
            }
            assert(rs.take(rs.len() as int) =~= rs);
        },
        None => {},
    }
    assert(out@ =~= md_search(members_view(*m)));
    out
}

fn render_fetch_md(m: &Vec<(String, JsonValue)>) -> (r: String)
    ensures
        r@ == md_fetch(members_view(*m)),
{
    let url = crate::json::str_field(m, "url", "?");
    let title = crate::json::str_field(m, "title", "");
    let word_count = crate::json::u64_field(m, "word_count", 0);
    let content = crate::json::str_field(m, "content", "");
    let mut out = owned("## ");
    if title.is_empty() {
        out.append(url);
    } else {
        out.append(title);
    }
    out.append("\n\n");
    out.append("**Source:** ");
    out.append(url);
    out.append("\n**Words:** ");
    let w = dec_u64(word_count);
    out.append(w.as_str());
    out.append("\n\n");
    out.append(content);
    out.append("\n");
    assert(out@ =~= md_fetch(members_view(*m)));
    out
}

fn render_array_md(a: &Vec<JsonValue>) -> (r: String)
    ensures
        r@ == md_array(items_view(*a)),
{
    proof {
        lemma_items_view(*a, a@.len());
    }
    let ghost es = items_view(*a);
    let mut out = String::new();
    let mut i: usize = 0;
    while i < a.len()
        invariant
            i <= a@.len(),
            es == items_view(*a),
            es.len() == a@.len(),
            forall|k: int| 0 <= k < a@.len() ==> #[trigger] es[k] == a@[k]@,
            out@ == concat_indexed(es.take(i as int), |i: nat, v: Json| dec(i + 1) + ". "@ + value_text(v) + "\n"@),
        decreases a.len() - i,
    {
        let n = dec_usize(i + 1);
        out.append(n.as_str());
        out.append(". ");
        let v = format_json_value(&a[i]);
        out.append(v.as_str());
        out.append("\n");
        assert(es.take(i + 1).drop_last() =~= es.take(i as int));
        i += 1;
    }
    assert(es.take(es.len() as int) =~= es);
    out
}

/// Render a JSON value as human-readable markdown (see [`markdown_text`]).
pub fn render_markdown(value: &JsonValue) -> (r: String)
    ensures
        r@ == markdown_text(value@),
{
    match value {
        JsonValue::Object(m) => {
            let has = |k: &str| -> (b: bool)
                ensures
                    b == has_key(members_view(*m), k@),
                { crate::json::has_member(m, k) };
            if has("root") && has("entries") && has("total_files") {
                return render_tree_md(m);
            }
            if has("path") && has("language") && has("content") {
                return render_code_read_md(m);
            }
            if has("pattern") && (has("file_matches") || has("matches")) && has("total_matches") {
                return render_grep_md(m);
            }
            if has("entries") && has("total") {
                return render_fs_ls_md(m);
            }
            if has("files_indexed") && has("symbols_added") {
                return render_kv_md("## Index Built\n\n", m);
            }
            if has("total_symbols") && has("schema_version") {
                return render_kv_md("## Index Status\n\n", m);
            }
            if has("applied") && has("validated") {
                return render_edit_md(m);
            }
            if has("query") && has("results") && has("total_results") {
                return render_search_md(m);
            }
            if has("url") && has("content") && has("word_count") {
                return render_fetch_md(m);
            }
            if has("path") && has("content") {
                return render_fs_cat_md(m);
            }
            let r = render_kv_md("", m);
            proof {
                reveal_strlit("");
            }
            r
        },
        JsonValue::Array(a) => {
            proof {
                lemma_items_view(*a, a@.len());
            }
            if a.len() > 0 && a[0].get("kind").is_some() && a[0].get("line_start").is_some() {
                return render_symbols_md(a);
            }
            render_array_md(a)
        },
        _ => to_json_string(value),
    }
}

} // verus!
