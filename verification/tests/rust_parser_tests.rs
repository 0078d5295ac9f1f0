use claude_fn_length_hook::rust_parser::{
    check, extract_fn_name, preceding_lines_have_test_attr, NESTING_LIMIT, BODY_LIMIT,
    TEST_BODY_LIMIT,
};

#[test]
fn ignores_fn_keyword_inside_top_level_string_literal() {
    assert_eq!(extract_fn_name(r#"const MSG: &str = "fn fake";"#, 0), None);
}

fn rust_function_with_counted_lines(name: &str, count: usize) -> String {
    let body = vec!["    let value = 1;"; count].join("\n");
    format!("fn {name}() {{\n{body}\n}}\n")
}

fn test_function_with_counted_lines(name: &str, count: usize) -> String {
    let body = vec!["    let value = 1;"; count].join("\n");
    format!("#[test]\nfn {name}() {{\n{body}\n}}\n")
}

fn tokio_test_function_with_counted_lines(name: &str, count: usize) -> String {
    let body = vec!["    let value = 1;"; count].join("\n");
    format!("#[tokio::test]\nfn {name}() {{\n{body}\n}}\n")
}

#[test]
fn allows_test_fn_up_to_test_body_limit() {
    let source = test_function_with_counted_lines("my_test", TEST_BODY_LIMIT);
    let result = check(&source);
    assert!(result.fn_violations.is_empty());
}

#[test]
fn blocks_test_fn_over_test_body_limit() {
    let source = test_function_with_counted_lines("my_test", TEST_BODY_LIMIT + 1);
    let result = check(&source);
    assert_eq!(result.fn_violations.len(), 1);
    assert!(result.fn_violations[0].is_test);
}

#[test]
fn allows_tokio_test_fn_up_to_test_body_limit() {
    let source = tokio_test_function_with_counted_lines("my_async_test", TEST_BODY_LIMIT);
    let result = check(&source);
    assert!(result.fn_violations.is_empty());
}

#[test]
fn normal_fn_still_blocked_at_normal_limit() {
    let source = rust_function_with_counted_lines("normal_fn", BODY_LIMIT + 1);
    let result = check(&source);
    assert_eq!(result.fn_violations.len(), 1);
    assert!(!result.fn_violations[0].is_test);
}

#[test]
fn preceding_lines_have_test_attr_detects_test() {
    let lines: Vec<&str> = "#[test]\nfn my_test() {}".lines().collect();
    assert!(preceding_lines_have_test_attr(&lines, 1));
}

#[test]
fn preceding_lines_have_test_attr_detects_tokio_test() {
    let lines: Vec<&str> = "#[tokio::test]\nfn my_test() {}".lines().collect();
    assert!(preceding_lines_have_test_attr(&lines, 1));
}

#[test]
fn preceding_lines_have_test_attr_returns_false_for_normal_fn() {
    let lines: Vec<&str> = "fn normal() {}".lines().collect();
    assert!(!preceding_lines_have_test_attr(&lines, 0));
}

#[test]
fn detects_deep_nesting() {
    let source = "fn deep() {\n    if true {\n        if true {\n            if true {\n                if true {\n                    if true {\n                        let x = 1;\n                    }\n                }\n            }\n        }\n    }\n}\n";
    let result = check(source);
    assert_eq!(result.fn_violations.len(), 1);
    assert!(result.fn_violations[0].max_nesting > NESTING_LIMIT);
}

#[test]
fn allows_moderate_nesting() {
    let source = "fn shallow() {\n    if true {\n        if true {\n            let x = 1;\n        }\n    }\n}\n";
    let result = check(source);
    assert!(result.fn_violations.is_empty());
}
