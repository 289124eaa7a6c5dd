use that_tools::budget::{
    apply_budget_to_text, compact_head_only, compact_head_tail, compact_rule_based, count_tokens,
    BudgetedOutput, CompactionStrategy,
};
use that_tools::compact::compact_json_value;
use that_tools::emit::{
    collect_value_stats, emit_json, extract_skeleton, normalize_value, reduce_value,
    reduction_plan, truncate_json_value, OutputEnvelope,
};
use that_tools::json::{to_json_string, to_json_string_pretty, JsonNumber, JsonValue};
use that_tools::markdown::{format_size, render_markdown};
use that_tools::raw::{format_json_value, format_truncation_sentinel, is_truncation_sentinel, render_raw};

/// Reads JSON text into the library's value (objects in key order, as
/// serde_json's map holds them).
fn from_serde(v: &serde_json::Value) -> JsonValue {
    match v {
        serde_json::Value::Null => JsonValue::Null,
        serde_json::Value::Bool(b) => JsonValue::Bool(*b),
        serde_json::Value::Number(n) => {
            if let Some(u) = n.as_u64() {
                JsonValue::Number(JsonNumber::PosInt(u))
            } else if let Some(i) = n.as_i64() {
                JsonValue::Number(JsonNumber::NegInt(i))
            } else {
                JsonValue::Number(JsonNumber::Float(n.to_string()))
            }
        }
        serde_json::Value::String(s) => JsonValue::String(s.clone()),
        serde_json::Value::Array(a) => JsonValue::Array(a.iter().map(from_serde).collect()),
        serde_json::Value::Object(m) => {
            JsonValue::Object(m.iter().map(|(k, v)| (k.clone(), from_serde(v))).collect())
        }
    }
}

fn to_serde(v: &JsonValue) -> serde_json::Value {
    match v {
        JsonValue::Null => serde_json::Value::Null,
        JsonValue::Bool(b) => serde_json::Value::Bool(*b),
        JsonValue::Number(JsonNumber::PosInt(u)) => serde_json::Value::from(*u),
        JsonValue::Number(JsonNumber::NegInt(i)) => serde_json::Value::from(*i),
        JsonValue::Number(JsonNumber::Float(t)) => serde_json::from_str(t).unwrap(),
        JsonValue::String(s) => serde_json::Value::String(s.clone()),
        JsonValue::Array(a) => serde_json::Value::Array(a.iter().map(to_serde).collect()),
        JsonValue::Object(m) => {
            let mut out = serde_json::Map::new();
            for (k, v) in m {
                out.insert(k.clone(), to_serde(v));
            }
            serde_json::Value::Object(out)
        }
    }
}

fn jv(text: &str) -> JsonValue {
    let v: serde_json::Value = serde_json::from_str(text).unwrap();
    from_serde(&v)
}

fn strings(items: Vec<String>) -> JsonValue {
    JsonValue::Array(items.into_iter().map(JsonValue::String).collect())
}

fn str_array(items: &[&str]) -> JsonValue {
    JsonValue::Array(items.iter().map(|s| JsonValue::String(s.to_string())).collect())
}

// ------------------------------------------------------------------
// Token counting and text budgets
// ------------------------------------------------------------------

#[test]
fn test_count_tokens_empty() {
    assert_eq!(count_tokens(""), 0);
}

#[test]
fn test_count_tokens_simple() {
    let count = count_tokens("Hello, world!");
    assert!(count > 0);
    assert!(count < 10);
}

#[test]
fn test_tokenizer_is_cached() {
    for _ in 0..100 {
        count_tokens("test string");
    }
}

#[test]
fn test_apply_budget_to_text_within_budget() {
    let text = "Hello, world!";
    let result = apply_budget_to_text(text, 100, CompactionStrategy::HeadTail);
    assert!(!result.truncated);
    assert_eq!(result.content, text);
}

#[test]
fn test_apply_budget_to_text_exceeds_budget() {
    let text = (0..100)
        .map(|i| format!("Line {}: some content here", i))
        .collect::<Vec<_>>()
        .join("\n");

    let result = apply_budget_to_text(&text, 50, CompactionStrategy::HeadTail);
    assert!(result.truncated);
    assert!(result.content.contains("lines omitted"));
}

#[test]
fn test_apply_budget_to_text_head_only() {
    let text = (0..100)
        .map(|i| format!("Line {}: content", i))
        .collect::<Vec<_>>()
        .join("\n");

    let result = apply_budget_to_text(&text, 30, CompactionStrategy::HeadOnly);
    assert!(result.truncated);
    assert!(result.content.contains("more lines truncated"));
}

#[test]
fn test_apply_budget_to_text_rule_based_prioritizes_errors() {
    let lines = vec![
        "INFO: Starting up",
        "DEBUG: Loading config",
        "ERROR: Failed to connect to database",
        "INFO: Retrying",
        "WARN: Connection timeout",
        "DEBUG: Some debug info",
    ];
    let text = lines.join("\n");

    let result = apply_budget_to_text(&text, 20, CompactionStrategy::RuleBased);
    assert!(result.truncated);
    assert!(result.content.contains("ERROR"));
}

#[test]
fn test_budgeted_output_original_tokens_preserved() {
    let text = (0..50)
        .map(|i| format!("Line {}", i))
        .collect::<Vec<_>>()
        .join("\n");
    let original_count = count_tokens(&text);

    let result = apply_budget_to_text(&text, 20, CompactionStrategy::HeadOnly);
    assert!(result.truncated);
    assert_eq!(result.original_tokens, original_count);
    assert!(result.tokens < result.original_tokens);
}

#[test]
fn default_strategy_is_head_tail() {
    assert_eq!(CompactionStrategy::default(), CompactionStrategy::HeadTail);
}

#[test]
fn budget_within_limit_returns_text_and_its_count() {
    let text = "one\ntwo\nthree";
    let n = count_tokens(text);
    let r = apply_budget_to_text(text, n, CompactionStrategy::RuleBased);
    assert!(!r.truncated);
    assert_eq!(r.content, text);
    assert_eq!(r.tokens, n);
    assert_eq!(r.original_tokens, n);
}

#[test]
fn budget_over_limit_reports_counts_of_both_texts() {
    let text = (0..40).map(|i| format!("row {}", i)).collect::<Vec<_>>().join("\n");
    let r = apply_budget_to_text(&text, 10, CompactionStrategy::HeadTail);
    assert!(r.truncated);
    assert_eq!(r.original_tokens, count_tokens(&text));
    assert_eq!(r.tokens, count_tokens(&r.content));
    assert_eq!(r.content, compact_head_tail(&text, 10));
}

#[test]
fn strategies_pick_their_compaction() {
    let text = (0..60).map(|i| format!("item {} here", i)).collect::<Vec<_>>().join("\n");
    let head = apply_budget_to_text(&text, 12, CompactionStrategy::HeadOnly);
    assert_eq!(head.content, compact_head_only(&text, 12));
    let rules = apply_budget_to_text(&text, 12, CompactionStrategy::RuleBased);
    assert_eq!(rules.content, compact_rule_based(&text, 12));
}

#[test]
fn head_only_keeps_a_prefix_of_lines() {
    let text = (0..100).map(|i| format!("Line {}: content", i)).collect::<Vec<_>>().join("\n");
    let out = compact_head_only(&text, 30);
    let kept: Vec<&str> = out.lines().take_while(|l| !l.starts_with("... (")).collect();
    assert!(!kept.is_empty());
    for (i, l) in kept.iter().enumerate() {
        assert_eq!(*l, format!("Line {}: content", i));
    }
    let omitted = 100 - kept.len();
    assert!(out.ends_with(&format!("\n... ({} more lines truncated)", omitted)));
}

#[test]
fn head_tail_of_three_lines_is_head_only() {
    let text = "first line of text\nsecond line of text\nthird line of text";
    assert_eq!(compact_head_tail(text, 3), compact_head_only(text, 3));
}

#[test]
fn head_tail_keeps_first_and_last_lines() {
    let text = (0..100).map(|i| format!("Line {}: some content here", i)).collect::<Vec<_>>().join("\n");
    let out = compact_head_tail(&text, 50);
    assert!(out.starts_with("Line 0: some content here\n"));
    assert!(out.ends_with("Line 99: some content here"));
    assert!(out.contains("lines omitted"));
}

#[test]
fn head_tail_kept_lines_fit_the_usable_budget() {
    let text = (0..80).map(|i| format!("entry number {} with words", i)).collect::<Vec<_>>().join("\n");
    for max in [10usize, 25, 50, 120] {
        let out = compact_head_tail(&text, max);
        let (head, tail) = out.split_once("\n... (").expect("a marker");
        let tail = tail.split_once(") ...\n").unwrap().1;
        let head_cost: usize = head.lines().map(count_tokens).sum();
        let tail_cost: usize = tail.lines().map(count_tokens).sum();
        assert!(head_cost <= (max - 5) * 3 / 5, "max = {}", max);
        assert!(head_cost + tail_cost <= max - 5, "max = {}", max);
    }
}

#[test]
fn rule_based_puts_priority_lines_first() {
    let text = "a info\nb info\nWARN: disk\nc info\nERROR: boom";
    let out = compact_rule_based(text, 100);
    assert_eq!(out, "WARN: disk\nERROR: boom\na info\nb info\nc info");
    let none = compact_rule_based(text, 2);
    assert_eq!(none, "\n... (0 of 5 lines shown)");
}

// ------------------------------------------------------------------
// JSON under a budget
// ------------------------------------------------------------------

#[test]
fn test_emit_json_within_budget() {
    let data = str_array(&["file1.rs", "file2.rs"]);
    let result = emit_json(&data, Some(100));
    assert!(!result.truncated);
    let parsed: serde_json::Value = serde_json::from_str(&result.content).unwrap();
    assert!(parsed.is_array());
}

#[test]
fn test_emit_json_no_budget() {
    let data = str_array(&["a", "b", "c"]);
    let result = emit_json(&data, None);
    assert!(!result.truncated);
    let _: serde_json::Value = serde_json::from_str(&result.content).unwrap();
}

#[test]
fn test_emit_json_over_budget_produces_valid_json() {
    let data = strings((0..500).map(|i| format!("file_{}.rs", i)).collect());
    let result = emit_json(&data, Some(30));
    assert!(result.truncated);
    let parsed: Result<serde_json::Value, _> = serde_json::from_str(&result.content);
    assert!(parsed.is_ok(), "truncated output must be valid JSON: {}", result.content);
}

#[test]
fn test_emit_json_over_budget_object_produces_valid_json() {
    // The fields of the result as its JSON map holds them: content, entries, total.
    let big = JsonValue::Object(vec![
        ("content".to_string(), JsonValue::String("x".repeat(5000))),
        ("entries".to_string(), strings((0..200).map(|i| format!("entry_{}", i)).collect())),
        ("total".to_string(), JsonValue::Number(JsonNumber::PosInt(200))),
    ]);
    let result = emit_json(&big, Some(40));
    assert!(result.truncated);
    let parsed: Result<serde_json::Value, _> = serde_json::from_str(&result.content);
    assert!(parsed.is_ok(), "truncated object must be valid JSON: {}", result.content);
}

#[test]
fn test_emit_json_very_small_budget() {
    let data = strings((0..100).map(|i| format!("item_{}", i)).collect());
    let result = emit_json(&data, Some(5));
    let parsed: Result<serde_json::Value, _> = serde_json::from_str(&result.content);
    assert!(parsed.is_ok(), "extreme budget must produce valid JSON: {}", result.content);
    assert!(!result.content.contains(r#""t":1"#), "should not use old {{\"t\":1}} fallback");
}

#[test]
fn emit_json_matches_serde_json_text() {
    let v = jv(r#"{"a": [1, -2, 3.5, true, null], "b": {"c": "d\"e\n\u0001"}, "e": []}"#);
    let sv = to_serde(&v);
    assert_eq!(to_json_string(&v), serde_json::to_string(&sv).unwrap());
    assert_eq!(to_json_string_pretty(&v), serde_json::to_string_pretty(&sv).unwrap());
    let none = emit_json(&v, None);
    assert_eq!(none.content, serde_json::to_string_pretty(&sv).unwrap());
    assert_eq!(none.tokens, count_tokens(&none.content));
    assert_eq!(none.original_tokens, none.tokens);
}

#[test]
fn json_text_escapes_as_serde_json_does() {
    let texts = [
        r#""plain""#,
        r#""quote \" backslash \\ slash / tab \t cr \r nl \n bs \b ff \f nul \u0000 us \u001f del \u007f""#,
        r#""é ü 😀 \u2028""#,
        r#"[0, 18446744073709551615, -9223372036854775808, -1, 1.5, -0.0, 1e300, 2.5e-8]"#,
        r#"{"": {}, "a": [], "b": [{}], "c": [[]], "d": {"e": {"f": null}}}"#,
    ];
    for t in texts {
        let v = jv(t);
        let sv = to_serde(&v);
        assert_eq!(to_json_string(&v), serde_json::to_string(&sv).unwrap(), "{}", t);
        assert_eq!(to_json_string_pretty(&v), serde_json::to_string_pretty(&sv).unwrap(), "{}", t);
    }
}

#[test]
fn emit_json_prefers_pretty_then_compact() {
    let v = jv(r#"{"alpha": [1, 2, 3, 4, 5, 6, 7, 8], "beta": "gamma"}"#);
    let compact = to_json_string(&v);
    let pretty = to_json_string_pretty(&v);
    let ct = count_tokens(&compact);
    let pt = count_tokens(&pretty);
    assert!(ct < pt);
    let fits_pretty = emit_json(&v, Some(pt));
    assert_eq!(fits_pretty.content, pretty);
    assert!(!fits_pretty.truncated);
    let fits_compact = emit_json(&v, Some(ct));
    assert_eq!(fits_compact.content, compact);
    assert!(!fits_compact.truncated);
    assert_eq!(fits_compact.original_tokens, pt);
    let too_small = emit_json(&v, Some(ct - 1));
    assert!(too_small.truncated);
    assert_eq!(too_small.original_tokens, ct);
    assert_eq!(too_small.content, truncate_json_value(&v, ct - 1));
}

#[test]
fn emitted_text_is_json_within_budget_or_exhausted() {
    let cases = vec![
        strings((0..300).map(|i| format!("path/to/file_{}.rs", i)).collect()),
        jv(r#"{"content": "long long long long long long long long long long text", "n": 3}"#),
        jv(r#"[[1, 2, 3], [4, 5, 6], [7, 8, 9], [10, 11, 12]]"#),
    ];
    for v in &cases {
        for budget in [1usize, 3, 8, 15, 40] {
            let r = emit_json(v, Some(budget));
            let parsed: serde_json::Value = serde_json::from_str(&r.content).unwrap();
            assert!(r.tokens <= budget || r.content == r#"{"budget_exhausted":true}"#, "{}", r.content);
            assert_eq!(r.tokens, count_tokens(&r.content));
            let ct = count_tokens(&to_json_string(v));
            assert_eq!(r.truncated, ct > budget);
            let _ = parsed;
        }
    }
}

#[test]
fn budget_exhausted_when_even_the_skeleton_is_too_big() {
    let v = strings((0..100).map(|i| format!("item_{}", i)).collect());
    let out = truncate_json_value(&v, 0);
    assert_eq!(out, r#"{"budget_exhausted":true}"#);
}

#[test]
fn normalizing_sorts_keys_and_keeps_the_last_duplicate() {
    let v = JsonValue::Object(vec![
        ("zeta".to_string(), JsonValue::Number(JsonNumber::PosInt(1))),
        ("alpha".to_string(), JsonValue::Array(vec![JsonValue::Object(vec![
            ("y".to_string(), JsonValue::Null),
            ("x".to_string(), JsonValue::Bool(false)),
        ])])),
        ("zeta".to_string(), JsonValue::Number(JsonNumber::PosInt(2))),
    ]);
    assert_eq!(to_json_string(&normalize_value(&v)), r#"{"alpha":[{"x":false,"y":null}],"zeta":2}"#);
}

#[test]
fn emitted_text_keeps_member_order_until_it_is_reduced() {
    let v = JsonValue::Object(vec![
        ("b".to_string(), JsonValue::String("x".repeat(3000))),
        ("a".to_string(), JsonValue::Number(JsonNumber::PosInt(1))),
    ]);
    let whole = emit_json(&v, None);
    assert!(whole.content.find("\"b\"").unwrap() < whole.content.find("\"a\"").unwrap());
    let reduced = emit_json(&v, Some(200));
    assert!(reduced.truncated);
    assert!(reduced.content.starts_with(r#"{"a":1,"b":"xxx"#), "{}", reduced.content);
}

#[test]
fn test_extract_skeleton_keeps_scalars() {
    let value = JsonValue::Object(vec![
        ("content".to_string(), JsonValue::String("x".repeat(200))),
        ("entries".to_string(), jv("[1, 2, 3]")),
        ("lines".to_string(), JsonValue::Number(JsonNumber::PosInt(100))),
        ("path".to_string(), JsonValue::String("src/main.rs".to_string())),
        ("truncated".to_string(), JsonValue::Bool(false)),
    ]);
    let skeleton = to_serde(&extract_skeleton(&value));
    let obj = skeleton.as_object().unwrap();
    assert_eq!(obj.get("path").unwrap(), "src/main.rs");
    assert_eq!(obj.get("lines").unwrap(), 100);
    assert_eq!(obj.get("truncated").unwrap(), true);
    assert!(obj.get("content").is_none(), "long strings should be dropped");
    assert!(obj.get("entries").is_none(), "arrays should be dropped");
}

#[test]
fn skeleton_of_a_non_object_is_the_marker() {
    let s = extract_skeleton(&jv("[1, 2]"));
    assert_eq!(to_json_string(&s), r#"{"truncated":true}"#);
}

#[test]
fn skeleton_keeps_key_order_with_marker_in_place() {
    let s = extract_skeleton(&jv(r#"{"a": 1, "z": "short", "nested": {"x": 1}}"#));
    assert_eq!(to_json_string(&s), r#"{"a":1,"truncated":true,"z":"short"}"#);
}

#[test]
fn test_reduce_value_truncates_strings() {
    let value = JsonValue::Object(vec![("content".to_string(), JsonValue::String("a".repeat(1000)))]);
    let reduced = to_serde(&reduce_value(&value, 50, 100));
    let s = reduced["content"].as_str().unwrap();
    assert!(s.len() < 200);
    assert!(s.contains("[truncated]"));
}

#[test]
fn test_reduce_value_truncates_arrays() {
    let value = jv("[1, 2, 3, 4, 5, 6, 7, 8, 9, 10]");
    let reduced = to_serde(&reduce_value(&value, 1000, 3));
    let arr = reduced.as_array().unwrap();
    assert_eq!(arr.len(), 4);
    let sentinel = &arr[3];
    assert_eq!(sentinel["_truncated"], true);
    assert_eq!(sentinel["remaining"], 7);
}

#[test]
fn reduce_value_cuts_strings_at_a_char_boundary() {
    // "é" takes two bytes: a cut at 3 bytes keeps one "é" and the "a".
    let v = JsonValue::String("aéé".to_string());
    let r = reduce_value(&v, 4, 10);
    assert_eq!(to_serde(&r), serde_json::Value::String("aé...[truncated]".to_string()));
    let r2 = reduce_value(&v, 5, 10);
    assert_eq!(to_serde(&r2), serde_json::Value::String("aéé".to_string()));
    let long = JsonValue::String("ü".repeat(100));
    for max in [0usize, 1, 2, 3, 17, 50] {
        match reduce_value(&long, max, 1) {
            JsonValue::String(t) => assert!(t.len() <= max + 14, "max = {}", max),
            _ => panic!("a string stays a string"),
        }
    }
}

#[test]
fn reduce_value_keeps_short_arrays_and_scalars() {
    let v = jv(r#"{"a": [1, 2], "b": true, "c": null, "d": -4}"#);
    let r = reduce_value(&v, 10, 2);
    assert_eq!(to_serde(&r), to_serde(&v));
}

#[test]
fn value_stats_and_plans() {
    let stats = collect_value_stats(&jv(r#"{"a": ["xx", "yyy"], "b": [[1], [2, 3, 4]]}"#));
    assert_eq!(stats.arrays, 4);
    assert_eq!(stats.strings, 2);
    assert_eq!(stats.max_array_len, 3);
    assert_eq!(stats.max_string_len, 3);
    // arrays (4) > 2 * strings (2)? no; strings (2) > 2 * arrays? no: balanced
    let plan = reduction_plan(stats);
    assert_eq!(plan[0], (1500, 30));
    assert_eq!(plan.len(), 12);
    let heavy = collect_value_stats(&strings((0..100).map(|i| i.to_string()).collect()));
    assert_eq!(reduction_plan(heavy)[0], (2000, 30));
    let stringy = collect_value_stats(&jv(r#"{"a": "x", "b": "y", "c": "z"}"#));
    assert_eq!(reduction_plan(stringy)[0], (1200, 50));
    assert_eq!(reduction_plan(stringy).len(), 12);
    assert_eq!(reduction_plan(heavy).len(), 11);
}

#[test]
fn envelope_of_budgeted_output() {
    let b = BudgetedOutput { content: "[1,2]".to_string(), tokens: 3, truncated: true, original_tokens: 7 };
    let parsed = Some(jv(&b.content));
    let e = OutputEnvelope::from_parsed(&b, parsed);
    assert_eq!(to_json_string(&e.data), "[1,2]");
    assert_eq!(e.tokens, 3);
    assert!(e.truncated);
    assert_eq!(e.original_tokens, 7);
    assert!(e.flush_recommended);
    let b2 = BudgetedOutput { content: "plain text".to_string(), tokens: 3, truncated: true, original_tokens: 6 };
    let e2 = OutputEnvelope::from_parsed(&b2, None);
    assert_eq!(to_json_string(&e2.data), r#""plain text""#);
    assert!(!e2.flush_recommended);
    let b3 = BudgetedOutput { content: "x".to_string(), tokens: 1, truncated: false, original_tokens: 9 };
    assert!(!b3.flush_recommended());
}

// ------------------------------------------------------------------
// Markdown
// ------------------------------------------------------------------

#[test]
fn test_render_markdown_tree() {
    let value = jv(r#"{
        "root": "src",
        "entries": [
            {"path": "cli", "type": "dir", "depth": 1},
            {"path": "cli/mod.rs", "type": "file", "depth": 2},
            {"path": "main.rs", "type": "file", "depth": 1}
        ],
        "total_files": 2,
        "total_dirs": 1
    }"#);
    let md = render_markdown(&value);
    assert!(md.contains("## Tree: src"));
    assert!(md.contains("2 files, 1 directories"));
    assert!(md.contains("cli/"));
    assert!(md.contains("mod.rs"));
    assert!(md.contains("main.rs"));
}

#[test]
fn test_render_markdown_code_read() {
    let value = jv(r#"{
        "path": "src/main.rs",
        "language": "rust",
        "lines": 100,
        "symbols": [
            {"name": "main", "kind": "function", "line_start": 1, "line_end": 10}
        ],
        "content": "fn main() {\n    println!(\"hello\");\n}",
        "tokens": 20,
        "truncated": false
    }"#);
    let md = render_markdown(&value);
    assert!(md.contains("## src/main.rs"));
    assert!(md.contains("**rust**"));
    assert!(md.contains("100 lines"));
    assert!(md.contains("| `main` | function | 1-10 |"));
    assert!(md.contains("```rust"));
    assert!(md.contains("fn main()"));
}

#[test]
fn test_render_markdown_grep() {
    let value = jv(r#"{
        "pattern": "TODO",
        "matches": [
            {
                "file": "main.rs",
                "line_number": 42,
                "content": "// TODO: fix this",
                "context_before": [],
                "context_after": []
            }
        ],
        "total_matches": 1,
        "files_searched": 5
    }"#);
    let md = render_markdown(&value);
    assert!(md.contains("## Grep: `TODO`"));
    assert!(md.contains("1 matches across 5 files"));
    assert!(md.contains("### main.rs"));
    assert!(md.contains("**42:** `// TODO: fix this`"));
}

#[test]
fn test_render_markdown_symbols() {
    let value = jv(r#"[
        {"name": "Config", "kind": "struct", "line_start": 10, "line_end": 20, "byte_start": 0, "byte_end": 100},
        {"name": "new", "kind": "function", "line_start": 22, "line_end": 30, "byte_start": 0, "byte_end": 100}
    ]"#);
    let md = render_markdown(&value);
    assert!(md.contains("## Symbols"));
    assert!(md.contains("| `Config` | struct | 10-20 |"));
    assert!(md.contains("| `new` | function | 22-30 |"));
}

#[test]
fn test_render_markdown_fs_ls() {
    let value = jv(r#"{
        "entries": [
            {"name": "src", "path": "src", "type": "dir", "size": 96},
            {"name": "main.rs", "path": "main.rs", "type": "file", "size": 1500}
        ],
        "total": 2
    }"#);
    let md = render_markdown(&value);
    assert!(md.contains("## Directory Listing"));
    assert!(md.contains("2 entries"));
    assert!(md.contains("| `src` | dir |"));
    assert!(md.contains("| `main.rs` | file |"));
}

#[test]
fn test_render_markdown_edit() {
    let value = jv(r#"{
        "path": "file.rs",
        "format": "search-replace",
        "applied": true,
        "validated": true,
        "diff": "- old\n+ new",
        "lines_changed": 1
    }"#);
    let md = render_markdown(&value);
    assert!(md.contains("## Edit: file.rs"));
    assert!(md.contains("**Applied:** true"));
    assert!(md.contains("```diff"));
    assert!(md.contains("- old"));
}

#[test]
fn test_render_markdown_index_build() {
    let value = jv(r#"{
        "files_indexed": 19,
        "files_skipped": 0,
        "symbols_added": 429,
        "refs_added": 780
    }"#);
    let md = render_markdown(&value);
    assert!(md.contains("## Index Built"));
    assert!(md.contains("**files indexed:** 19"));
    assert!(md.contains("**symbols added:** 429"));
}

#[test]
fn test_render_markdown_index_status() {
    let value = jv(r#"{
        "path": ".anvil/index.db",
        "total_files": 19,
        "total_symbols": 429,
        "total_refs": 780,
        "stale_files": 0,
        "schema_version": "1"
    }"#);
    let md = render_markdown(&value);
    assert!(md.contains("## Index Status"));
    assert!(md.contains("**total symbols:** 429"));
}

#[test]
fn test_format_size() {
    assert_eq!(format_size(500), "500 B");
    assert_eq!(format_size(1536), "1.5 KB");
    assert_eq!(format_size(1_572_864), "1.5 MB");
}

#[test]
fn format_size_rounds_like_one_decimal_float_formatting() {
    let mut samples: Vec<u64> = (0..5000).collect();
    samples.extend((1000..200_000).step_by(7));
    samples.extend([1023, 1024, 1075, 1076, 1126, 1127, 1048575, 1048576, 1101004, 1101005]);
    samples.extend((1_000_000..30_000_000).step_by(9973));
    samples.extend([u32::MAX as u64, 1 << 40, (1 << 52) + 12345]);
    for b in samples {
        let expected = if b < 1024 {
            format!("{} B", b)
        } else if b < 1024 * 1024 {
            format!("{:.1} KB", b as f64 / 1024.0)
        } else {
            format!("{:.1} MB", b as f64 / (1024.0 * 1024.0))
        };
        assert_eq!(format_size(b), expected, "bytes = {}", b);
    }
}

#[test]
fn markdown_search_fetch_cat_and_kv() {
    let cat = render_markdown(&jv(r#"{"path": "a.txt", "content": "hello", "lines": 1}"#));
    assert_eq!(cat, "## a.txt\n\n```\nhello\n```\n");
    let kv = render_markdown(&jv(r#"{"alpha_one": 1, "beta": "two"}"#));
    assert_eq!(kv, "- **alpha one:** 1\n- **beta:** two\n");
    let arr = render_markdown(&jv(r#"[1, "x", true]"#));
    assert_eq!(arr, "1. 1\n2. x\n3. true\n");
    let scalar = render_markdown(&jv(r#""just text""#));
    assert_eq!(scalar, "\"just text\"");
    let search = render_markdown(&jv(r#"{
        "query": "verus", "engine": "web", "total_results": 2, "cached": true,
        "results": [
            {"title": "Guide", "url": "https://x.y", "snippet": "a guide"},
            {"title": "Notes", "url": "", "snippet": ""}
        ]
    }"#));
    assert_eq!(
        search,
        "## Search: `verus`\n\n2 results via web (cached)\n\n### 1. [Guide](https://x.y)\n\na guide\n\n### 2. Notes\n\n"
    );
    let fetch = render_markdown(&jv(r#"{"url": "https://x.y", "content": "body", "word_count": 1, "title": ""}"#));
    assert_eq!(fetch, "## https://x.y\n\n**Source:** https://x.y\n**Words:** 1\n\nbody\n");
    let edit = render_markdown(&jv(r#"{"path": "f.rs", "applied": false, "validated": true, "diff": ""}"#));
    assert_eq!(
        edit,
        "## Edit: f.rs\n\n- **Format:** ?\n- **Applied:** false\n- **Validated:** true\n- **Lines changed:** 0\n"
    );
}

#[test]
fn markdown_tree_indents_by_depth() {
    let md = render_markdown(&jv(r#"{
        "root": "src", "total_files": 2, "total_dirs": 1,
        "entries": [
            {"path": "cli", "type": "dir", "depth": 1},
            {"path": "cli/mod.rs", "type": "file", "depth": 2}
        ]
    }"#));
    assert_eq!(md, "## Tree: src\n\n2 files, 1 directories\n\n```\ncli/\n  mod.rs\n```\n");
}

#[test]
fn markdown_grep_groups_files_and_sentinels() {
    let value = jv(r#"{
        "pattern": "x",
        "matches": [
            {"file": "a.rs", "line_number": 1, "content": "x1"},
            {"file": "a.rs", "line_number": 2, "content": "x2"},
            {"_truncated": true, "remaining": 4},
            {"file": "b.rs", "line_number": 3, "content": "x3"}
        ],
        "total_matches": 7,
        "files_searched": 2
    }"#);
    let md = render_markdown(&value);
    assert_eq!(md.matches("### a.rs").count(), 1);
    assert_eq!(md.matches("### b.rs").count(), 1);
    assert!(md.contains("...(4 more items)"));
    assert!(md.contains("**2:** `x2`"));
}

// ------------------------------------------------------------------
// Compaction of tool results
// ------------------------------------------------------------------

#[test]
fn test_compact_json_value_tree_strips_depth() {
    let value = jv(r#"{
        "root": "src",
        "entries": [
            {"path": "main.rs", "type": "file", "depth": 1},
            {"path": "lib.rs", "type": "file", "depth": 1}
        ],
        "total_files": 2,
        "total_dirs": 0
    }"#);
    let compacted = to_serde(&compact_json_value(&value));
    let entries = compacted["entries"].as_array().unwrap();
    for entry in entries {
        assert!(entry.get("depth").is_none(), "depth should be stripped in compact");
        assert!(entry.get("path").is_some(), "path should be preserved");
    }
}

#[test]
fn test_compact_json_value_symbols_strips_bytes() {
    let value = jv(r#"[
        {"name": "Config", "kind": "struct", "line_start": 10, "line_end": 20, "byte_start": 0, "byte_end": 100}
    ]"#);
    let compacted = to_serde(&compact_json_value(&value));
    let arr = compacted.as_array().unwrap();
    let sym = &arr[0];
    assert!(sym.get("byte_start").is_none(), "byte_start should be stripped");
    assert!(sym.get("byte_end").is_none(), "byte_end should be stripped");
    assert!(sym.get("name").is_some(), "name should be preserved");
}

#[test]
fn test_compact_json_value_grep_strips_context() {
    let value = jv(r#"{
        "pattern": "TODO",
        "matches": [
            {
                "file": "main.rs",
                "line_number": 42,
                "content": "// TODO: fix",
                "context_before": ["line before"],
                "context_after": ["line after"],
                "captures": {}
            }
        ],
        "total_matches": 1,
        "files_searched": 5
    }"#);
    let compacted = to_serde(&compact_json_value(&value));
    let m = &compacted["matches"][0];
    assert!(m.get("context_before").is_none(), "context_before should be stripped");
    assert!(m.get("context_after").is_none(), "context_after should be stripped");
    assert!(m.get("captures").is_none(), "empty captures should be stripped");
    assert!(m.get("file").is_some(), "file should be preserved");
}

#[test]
fn compact_leaves_other_values_alone() {
    let v = jv(r#"{"alpha": [1, 2], "beta": {"depth": 3}}"#);
    assert_eq!(to_serde(&compact_json_value(&v)), to_serde(&v));
}

// ------------------------------------------------------------------
// Raw text
// ------------------------------------------------------------------

#[test]
fn test_render_raw_tree() {
    let value = jv(r#"{
        "root": "src",
        "entries": [
            {"path": "cli", "type": "dir", "depth": 1},
            {"path": "cli/mod.rs", "type": "file", "depth": 2},
            {"path": "main.rs", "type": "file", "depth": 1}
        ],
        "total_files": 2,
        "total_dirs": 1
    }"#);
    let raw = render_raw(&value);
    assert!(raw.contains("cli/"));
    assert!(raw.contains("cli/mod.rs"));
    assert!(raw.contains("main.rs"));
    assert!(!raw.contains('{'));
}

#[test]
fn test_render_raw_symbols() {
    let value = jv(r#"[
        {"name": "Config", "kind": "struct", "line_start": 10, "line_end": 20, "byte_start": 0, "byte_end": 100},
        {"name": "new", "kind": "function", "line_start": 22, "line_end": 30, "byte_start": 0, "byte_end": 100}
    ]"#);
    let raw = render_raw(&value);
    assert!(raw.contains("Config (struct) L:10-20"));
    assert!(raw.contains("new (function) L:22-30"));
}

#[test]
fn test_render_raw_grep() {
    let value = jv(r#"{
        "pattern": "TODO",
        "matches": [
            {
                "file": "main.rs",
                "line_number": 42,
                "content": "// TODO: fix this",
                "context_before": [],
                "context_after": []
            }
        ],
        "total_matches": 1,
        "files_searched": 5
    }"#);
    let raw = render_raw(&value);
    assert!(raw.contains("main.rs:42: // TODO: fix this"));
}

#[test]
fn test_render_raw_fs_ls() {
    let value = jv(r#"{
        "entries": [
            {"name": "src", "path": "src", "type": "dir", "size": 96},
            {"name": "main.rs", "path": "main.rs", "type": "file", "size": 1500}
        ],
        "total": 2
    }"#);
    let raw = render_raw(&value);
    assert!(raw.contains("src\tdir\t96"));
    assert!(raw.contains("main.rs\tfile\t1500"));
}

#[test]
fn test_render_raw_code_read() {
    let value = jv(r#"{
        "path": "src/main.rs",
        "language": "rust",
        "lines": 10,
        "symbols": [],
        "content": "fn main() {\n    println!(\"hello\");\n}",
        "tokens": 20,
        "truncated": false
    }"#);
    let raw = render_raw(&value);
    assert_eq!(raw, "fn main() {\n    println!(\"hello\");\n}");
}

#[test]
fn test_render_raw_index() {
    let value = jv(r#"{
        "files_indexed": 19,
        "files_skipped": 0,
        "symbols_added": 429,
        "refs_added": 780
    }"#);
    let raw = render_raw(&value);
    assert!(raw.contains("files_indexed: 19"));
    assert!(raw.contains("symbols_added: 429"));
}

#[test]
fn raw_sentinel_and_scalars() {
    let s = jv(r#"{"_truncated": true, "remaining": 12}"#);
    assert!(is_truncation_sentinel(&s));
    assert_eq!(format_truncation_sentinel(&s), "...(12 more items)");
    assert!(!is_truncation_sentinel(&jv(r#"{"_truncated": false}"#)));
    assert_eq!(format_truncation_sentinel(&jv("{}")), "...(0 more items)");
    assert_eq!(format_json_value(&jv(r#""text""#)), "text");
    assert_eq!(format_json_value(&jv("-7")), "-7");
    assert_eq!(format_json_value(&jv("2.5")), "2.5");
    assert_eq!(format_json_value(&jv("true")), "true");
    assert_eq!(format_json_value(&jv("null")), "null");
    assert_eq!(format_json_value(&jv(r#"{"a":[1]}"#)), r#"{"a":[1]}"#);
}
