use rusty_map::error::TransformError;
use rusty_map::pipeline::{select_kept, Exports};
use rusty_map::{read_output, run_transform};

fn json(text: &str) -> serde_json::Value {
    serde_json::from_str(text).unwrap()
}

const SAMPLE_JSON: &str = r#"[
  { "id": 1, "name": "Alice", "role": "admin",  "score": 90 },
  { "id": 2, "name": "Bob",   "role": "viewer", "score": 40 },
  { "id": 3, "name": "Carol", "role": "editor", "score": 75 }
]"#;

const SAMPLE_JS: &str = r#"
export function before_transform() {
  return { minScore: 50 };
}

export function try_filter(item, ctx) {
  return item.score >= ctx.minScore;
}

export function try_map(item) {
  return {
    ...item,
    display_name: `${item.role.charAt(0).toUpperCase() + item.role.slice(1)}: ${item.name}`,
  };
}

export function after_transform(items) {
  return {
    version: "1.0",
    total_users: items.length,
    admins: items.filter(u => u.role === "admin").map(u => u.name),
    processed_at: new Date().toISOString(),
  };
}
"#;

#[test]
fn readme_sample_script_gives_documented_shape() {
    let result = run_transform(SAMPLE_JSON, SAMPLE_JS).unwrap();
    assert_eq!(result["version"], "1.0");
    assert_eq!(result["total_users"], 2);
    assert_eq!(result["admins"], json(r#"["Alice"]"#));
    assert!(result["processed_at"].is_string());
}

#[test]
fn readme_short_example_filters_maps_and_wraps() {
    let script = r#"
        export function before_transform() { return { min: 2 }; }
        export function try_filter(item, ctx) { return item > ctx.min; }
        export function try_map(item) { return item * 10; }
        export function after_transform(items) { return { results: items }; }
    "#;
    let result = run_transform("[1, 2, 3, 4]", script).unwrap();
    assert_eq!(result, json(r#"{"results": [30, 40]}"#));
}

#[test]
fn passthrough_keeps_array_unchanged() {
    let result = run_transform("[1, \"a\", null, {\"b\": [true]}]", "export const nothing = 0;").unwrap();
    assert_eq!(result, json("[1, \"a\", null, {\"b\": [true]}]"));
}

#[test]
fn default_context_is_an_empty_object() {
    let script = r#"export function try_map(item, ctx) { return Object.keys(ctx).length + typeof ctx; }"#;
    let result = run_transform("[7]", script).unwrap();
    assert_eq!(result, json(r#"["0object"]"#));
}

#[test]
fn filter_runs_on_every_item_before_any_map() {
    let script = r#"
        export function before_transform() { return { seen: [] }; }
        export function try_filter(item, ctx) { ctx.seen.push("f" + item); return true; }
        export function try_map(item, ctx) { ctx.seen.push("m" + item); return ctx.seen.slice(); }
    "#;
    let result = run_transform("[1, 2]", script).unwrap();
    assert_eq!(result, json(r#"[["f1", "f2", "m1"], ["f1", "f2", "m1", "m2"]]"#));
}

#[test]
fn filter_uses_truthiness() {
    let script = r#"export function try_filter(item) { return item; }"#;
    let result = run_transform("[0, 1, \"\", \"x\", null, [], {}, false, true]", script).unwrap();
    assert_eq!(result, json(r#"[1, "x", [], {}, true]"#));
}

#[test]
fn filter_keeps_object_when_truthy() {
    let script = r#"export function try_filter(o) { return o.keep; }"#;
    let result = run_transform(r#"{"keep": 1}"#, script).unwrap();
    assert_eq!(result, json(r#"{"keep": 1}"#));
}

#[test]
fn scalar_input_is_wrapped_for_map() {
    let script = r#"export function try_map(x) { return x + 1; }"#;
    let result = run_transform("41", script).unwrap();
    assert_eq!(result, json("42"));
}

#[test]
fn empty_array_stays_empty_array() {
    let script = r#"export function try_map(x) { return x; } export function try_filter(x) { return true; }"#;
    let result = run_transform("[]", script).unwrap();
    assert_eq!(result, json("[]"));
}

#[test]
fn after_transform_sees_processed_array() {
    let script = r#"
        export function try_filter(x) { return x % 2 === 0; }
        export function after_transform(xs) { return Array.isArray(xs) ? xs.length : -1; }
    "#;
    let result = run_transform("[1, 2, 3, 4, 6]", script).unwrap();
    assert_eq!(result, json("3"));
}

#[test]
fn non_function_exports_are_ignored() {
    let script = r#"
        export const try_map = 5;
        export const after_transform = "no";
    "#;
    let result = run_transform("[1, 2]", script).unwrap();
    assert_eq!(result, json("[1, 2]"));
}

#[test]
fn syntax_error_in_script_is_script_failure() {
    let err = run_transform("{}", "export function (").unwrap_err();
    assert!(matches!(err, TransformError::ScriptFailed { .. }));
    assert!(err.to_string().starts_with("Script execution failed: "));
}

#[test]
fn input_rejected_by_json_check_is_invalid_json() {
    let err = run_transform("[1, 2,]", "export const x = 1;").unwrap_err();
    assert!(matches!(err, TransformError::InvalidJson { .. }));
    assert!(err.cause().unwrap().contains("line 1"));
    assert_eq!(err.to_string(), "Invalid JSON input");
}

#[test]
fn function_result_is_not_serialisable() {
    let script = r#"export function after_transform(_) { return function () {}; }"#;
    let err = run_transform("{}", script).unwrap_err();
    assert!(matches!(err, TransformError::ScriptFailed { .. }));
}

#[test]
fn error_messages_match_their_kind() {
    let cause = || "out of memory".to_string();
    assert_eq!(
        TransformError::RuntimeUnavailable { cause: cause() }.to_string(),
        "Failed to create JS runtime"
    );
    assert_eq!(
        TransformError::ContextUnavailable { cause: cause() }.to_string(),
        "Failed to create JS context"
    );
    assert_eq!(
        TransformError::NotSerialisable { cause: cause() }.to_string(),
        "Script returned a non-JSON-serialisable value"
    );
    let e = TransformError::ScriptFailed { detail: "boom".to_string() };
    assert_eq!(e.to_string(), "Script execution failed: boom");
    assert_eq!(e.cause(), None);
}

#[test]
fn select_kept_keeps_flagged_items_in_order() {
    let kept = select_kept(vec![10u64, 20, 30, 40], &vec![true, false, false, true]);
    assert_eq!(kept, vec![10, 40]);
}

#[test]
fn select_kept_all_true_is_identity_and_all_false_is_empty() {
    assert_eq!(select_kept(vec![1u64, 2, 3], &vec![true, true, true]), vec![1, 2, 3]);
    assert_eq!(select_kept(vec![1u64, 2, 3], &vec![false, false, false]), Vec::<u64>::new());
    assert_eq!(select_kept(Vec::<u64>::new(), &vec![]), Vec::<u64>::new());
}

#[test]
fn item_stage_present_with_filter_or_map() {
    let none = Exports { before: true, filter: false, map: false, after: true };
    let filter = Exports { before: false, filter: true, map: false, after: false };
    let map = Exports { before: false, filter: false, map: true, after: false };
    assert!(!none.has_item_stage());
    assert!(filter.has_item_stage());
    assert!(map.has_item_stage());
}

#[test]
fn read_output_accepts_json_text() {
    assert_eq!(read_output(r#"{"a": [1, 2]}"#).unwrap(), json(r#"{"a": [1, 2]}"#));
}

#[test]
fn read_output_rejects_other_text() {
    assert!(matches!(read_output("undefined").unwrap_err(), TransformError::NotSerialisable { .. }));
    assert!(matches!(read_output("").unwrap_err(), TransformError::NotSerialisable { .. }));
}

#[test]
fn too_deep_result_is_not_serialisable() {
    let script = r#"
        export function after_transform(_) {
            let v = 0;
            for (let i = 0; i < 200; i++) { v = [v]; }
            return v;
        }
    "#;
    let err = run_transform("{}", script).unwrap_err();
    assert!(matches!(err, TransformError::NotSerialisable { .. }));
    assert!(err.cause().unwrap().contains("recursion limit"));
    assert!(err.to_string().contains("non-JSON"));
}

#[test]
fn holes_in_an_array_are_skipped() {
    let script = r#"
        JSON.parse = function (_) { const a = []; a.length = 5; a[2] = 7; return a; };
        export function try_map(x) { return x * 2; }
    "#;
    let result = run_transform("[]", script).unwrap();
    assert_eq!(result, json("[14]"));
}

#[test]
fn a_proxy_of_an_array_counts_as_an_array() {
    let script = r#"
        JSON.parse = function (_) { return new Proxy([1, 2, 3], {}); };
        export function try_map(x) { return x * 2; }
    "#;
    let result = run_transform("[]", script).unwrap();
    assert_eq!(result, json("[2, 4, 6]"));
}


const KEEP_PARSED: &str = r#"
    const parse = JSON.parse;
    let parsed;
    JSON.parse = function (text) { parsed = parse(text); return parsed; };
"#;

#[test]
fn filter_sees_elements_changed_by_earlier_filter_calls() {
    let script = format!(
        "{KEEP_PARSED}
        export function try_filter(item) {{ if (item === 1) {{ parsed[2] = 99; }} return true; }}"
    );
    let result = run_transform("[1, 2, 3]", &script).unwrap();
    assert_eq!(result, json("[1, 2, 99]"));
}

#[test]
fn element_deleted_by_an_earlier_filter_call_is_skipped() {
    let script = format!(
        "{KEEP_PARSED}
        export function try_filter(item) {{ if (item === 1) {{ delete parsed[1]; }} return true; }}"
    );
    let result = run_transform("[1, 2, 3]", &script).unwrap();
    assert_eq!(result, json("[1, 3]"));
}

#[test]
fn elements_appended_during_the_walk_are_not_visited() {
    let script = format!(
        "{KEEP_PARSED}
        export function try_filter(item) {{ parsed.push(item + 10); return true; }}"
    );
    let result = run_transform("[1, 2]", &script).unwrap();
    assert_eq!(result, json("[1, 2]"));
}

#[test]
fn map_sees_the_batch_as_read_before_any_map_call() {
    let script = format!(
        "{KEEP_PARSED}
        export function try_map(item) {{ if (item === 1) {{ parsed[2] = 99; }} return item; }}"
    );
    let result = run_transform("[1, 2, 3]", &script).unwrap();
    assert_eq!(result, json("[1, 2, 3]"));
}

#[test]
fn filter_and_element_reads_interleave() {
    let script = r#"
        const log = [];
        JSON.parse = function (_) {
            return new Proxy([10, 20], {
                get(t, k) { if (k === "0" || k === "1") { log.push("get" + k); } return t[k]; },
            });
        };
        export function try_filter(item) { log.push("filter" + item); return true; }
        export function after_transform(_) { return log; }
    "#;
    let result = run_transform("[]", script).unwrap();
    assert_eq!(result, json(r#"["get0", "filter10", "get1", "filter20"]"#));
}
