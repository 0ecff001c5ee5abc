use rusty_map::run_transform;

fn json(text: &str) -> serde_json::Value {
    serde_json::from_str(text).unwrap()
}

#[test]
fn lib_no_pipeline_fns_passes_through() {
    let script = r#"export const placeholder = true;"#;
    let input = json(r#"{"name": "Alice", "age": 30}"#);
    let result = run_transform(&input.to_string(), script).unwrap();
    assert_eq!(result, input);
}

#[test]
fn lib_after_transform_adds_field() {
    let script = r#"export function after_transform(data) { return { ...data, ok: true }; }"#;
    let result = run_transform(r#"{"x": 1}"#, script).unwrap();
    assert_eq!(result["x"], 1);
    assert_eq!(result["ok"], true);
}

#[test]
fn lib_try_filter_removes_items() {
    let script = r#"export function try_filter(item) { return item > 2; }"#;
    let result = run_transform("[1, 2, 3, 4]", script).unwrap();
    assert_eq!(result, json("[3, 4]"));
}

#[test]
fn lib_try_map_transforms_items() {
    let script = r#"export function try_map(item) { return item * 2; }"#;
    let result = run_transform("[1, 2, 3]", script).unwrap();
    assert_eq!(result, json("[2, 4, 6]"));
}

#[test]
fn lib_before_transform_context_passed_to_filter_and_map() {
    let script = r#"
        export function before_transform() { return { threshold: 2, multiplier: 10 }; }
        export function try_filter(item, ctx) { return item > ctx.threshold; }
        export function try_map(item, ctx) { return item * ctx.multiplier; }
    "#;
    let result = run_transform("[1, 2, 3, 4]", script).unwrap();
    assert_eq!(result, json("[30, 40]"));
}

#[test]
fn lib_full_pipeline_with_all_four_fns() {
    let script = r#"
        export function before_transform() { return { min: 1 }; }
        export function try_filter(item, ctx) { return item.value > ctx.min; }
        export function try_map(item) { return item.value; }
        export function after_transform(items) { return { total: items.length, items }; }
    "#;
    let result = run_transform(
        r#"[{"value": 1}, {"value": 2}, {"value": 3}]"#,
        script,
    )
    .unwrap();
    assert_eq!(result["total"], 2);
    assert_eq!(result["items"], json("[2, 3]"));
}

#[test]
fn lib_try_map_applied_to_object_via_wrapping() {
    let script = r#"export function try_map(item) { return { ...item, added: true }; }"#;
    let input = json(r#"{"key": "value"}"#);
    let result = run_transform(&input.to_string(), script).unwrap();
    assert_eq!(result, json(r#"{"key": "value", "added": true}"#));
}

#[test]
fn lib_try_filter_false_on_object_returns_null() {
    let script = r#"export function try_filter(_) { return false; }"#;
    let input = json(r#"{"key": "value"}"#);
    let result = run_transform(&input.to_string(), script).unwrap();
    assert!(result.is_null());
}

#[test]
fn lib_invalid_json_returns_error() {
    let script = r#"export const x = 1;"#;
    let err = run_transform("not json", script).unwrap_err();
    assert!(err.to_string().contains("Invalid JSON"));
}

#[test]
fn lib_after_transform_that_throws_returns_error() {
    let script = r#"export function after_transform(_) { throw new Error("boom"); }"#;
    let err = run_transform("{}", script).unwrap_err();
    assert!(err.to_string().contains("Script execution failed"));
}

#[test]
fn lib_before_transform_that_throws_returns_error() {
    let script = r#"export function before_transform() { throw new Error("setup failed"); }"#;
    let err = run_transform("[1, 2]", script).unwrap_err();
    assert!(err.to_string().contains("Script execution failed"));
}

#[test]
fn lib_try_filter_that_throws_returns_error() {
    let script = r#"export function try_filter(_) { throw new Error("filter failed"); }"#;
    let err = run_transform("[1, 2]", script).unwrap_err();
    assert!(err.to_string().contains("Script execution failed"));
}

#[test]
fn lib_try_map_that_throws_returns_error() {
    let script = r#"export function try_map(_) { throw new Error("map failed"); }"#;
    let err = run_transform("[1, 2]", script).unwrap_err();
    assert!(err.to_string().contains("Script execution failed"));
}

#[test]
fn lib_after_transform_returning_null_is_valid() {
    let script = r#"export function after_transform(_) { return null; }"#;
    let result = run_transform("{}", script).unwrap();
    assert!(result.is_null());
}

#[test]
fn lib_after_transform_returning_undefined_is_error() {
    let script = r#"export function after_transform(_) { return undefined; }"#;
    let err = run_transform("{}", script).unwrap_err();
    assert!(
        err.to_string().contains("Script execution failed")
            || err.to_string().contains("non-JSON")
    );
}
