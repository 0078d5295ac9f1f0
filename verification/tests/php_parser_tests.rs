use claude_fn_length_hook::php_parser::{check, extract_php_fn_name, BODY_LIMIT};

fn php_function_with_counted_lines(name: &str, count: usize) -> String {
    let body = vec!["    $x++;"; count].join("\n");
    format!("function {}() {{\n{}\n}}", name, body)
}

#[test]
fn allows_legacy_php_function_to_stay_same_size_over_limit() {
    let source = php_function_with_counted_lines("legacy_demo", BODY_LIMIT + 1);

    let violations = check(&source, Some(&source));

    assert!(violations.is_empty());
}

#[test]
fn blocks_legacy_php_function_when_it_grows_past_previous_size() {
    let old_source = php_function_with_counted_lines("legacy_demo", BODY_LIMIT + 1);
    let new_source = php_function_with_counted_lines("legacy_demo", BODY_LIMIT + 2);

    let violations = check(&new_source, Some(&old_source));

    assert_eq!(violations.len(), 1);
    assert_eq!(violations[0].name, "legacy_demo");
    assert_eq!(violations[0].old_body_lines, Some(BODY_LIMIT + 1));
}

#[test]
fn ignores_function_keyword_inside_top_level_string_literal() {
    assert_eq!(
        extract_php_fn_name(r#"$msg = "function fake";"#, 0, false),
        None
    );
}
