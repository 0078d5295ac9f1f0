use claude_fn_length_hook::brace_scan::BraceScanState;
use claude_fn_length_hook::hook::{
    block_message_for, check_file_length, check_php, check_rust, extract_file_path,
    format_block_message, format_php_violation, kind_of_extension, replace_first_occurrence,
    resolve_content, resolve_edit, resolve_write, source_kind, HookInput, SourceKind, ToolInput,
};
use claude_fn_length_hook::lines::is_countable;
use claude_fn_length_hook::php_parser::{self, check_with_test_flag};
use claude_fn_length_hook::rust_parser::{self, extract_fn_name};

fn rust_fn(name: &str, count: usize) -> String {
    let body = vec!["    let value = 1;"; count].join("\n");
    format!("fn {name}() {{\n{body}\n}}\n")
}

fn php_fn(name: &str, count: usize) -> String {
    let body = vec!["    $x++;"; count].join("\n");
    format!("function {}() {{\n{}\n}}", name, body)
}

fn tool(file_path: Option<&str>, old: Option<&str>, new: Option<&str>, content: Option<&str>) -> ToolInput {
    ToolInput {
        file_path: file_path.map(|s| s.to_string()),
        old_string: old.map(|s| s.to_string()),
        new_string: new.map(|s| s.to_string()),
        content: content.map(|s| s.to_string()),
    }
}

// ----- line classification -----

#[test]
fn blank_and_brace_only_lines_never_count_even_in_block_comment() {
    for line in ["", "   ", "{", "}", "};", "},", "});", "})", "  }  "] {
        let mut open = false;
        assert!(!is_countable(line, &mut open), "{line:?}");
        assert!(!open);
        let mut open = true;
        assert!(!is_countable(line, &mut open), "{line:?}");
        assert!(open);
    }
}

#[test]
fn comment_only_lines_never_count_outside_block_comment() {
    for line in ["// a", "# b", "* c", "  * d /* e", "// f /* g */ h", "#x */"] {
        let mut open = false;
        assert!(!is_countable(line, &mut open), "{line:?}");
    }
}

#[test]
fn line_comment_followed_by_star_opens_block_comment() {
    let mut open = false;
    assert!(is_countable("//* foo", &mut open));
    assert!(open);
}

#[test]
fn open_block_comment_line_without_close_stays_open() {
    let mut open = true;
    assert!(!is_countable("let x = 1;", &mut open));
    assert!(open);
}

#[test]
fn code_after_block_comment_close_counts() {
    let mut open = true;
    assert!(is_countable("end */ let y = 2;", &mut open));
    assert!(!open);
    let mut open = true;
    assert!(!is_countable("end */", &mut open));
    assert!(!open);
}

#[test]
fn unicode_whitespace_is_trimmed() {
    let mut open = false;
    assert!(!is_countable("\u{3000}\u{a0}}\u{2003}", &mut open));
    assert!(is_countable("\u{3000}x", &mut open));
}

// ----- brace scanning -----

#[test]
fn brace_scan_counts_code_braces_only() {
    let mut st = BraceScanState::default();
    st.scan_line("fn a() { let s = \"{\"; let c = '}'; /* { */ } // {", false);
    assert_eq!(st.depth, 0);
    assert!(!st.in_block_comment);
    assert_eq!(st.string_delimiter, None);
    st.scan_line("{ { /* open", false);
    assert_eq!(st.depth, 2);
    assert!(st.in_block_comment);
    st.scan_line("} */ }", false);
    assert_eq!(st.depth, 1);
    assert!(!st.in_block_comment);
}

#[test]
fn brace_scan_handles_escapes_and_hash_comments() {
    let mut st = BraceScanState::default();
    st.scan_line("x = \"a\\\"{\" {", false);
    assert_eq!(st.depth, 1);
    let mut st = BraceScanState::default();
    st.scan_line("{ # }", true);
    assert_eq!(st.depth, 1);
    let mut st = BraceScanState::default();
    st.scan_line("{ # }", false);
    assert_eq!(st.depth, 0);
    let mut st = BraceScanState::default();
    st.scan_line("s = \"open {", false);
    assert_eq!(st.string_delimiter, Some('"'));
    assert_eq!(st.depth, 0);
}

// ----- rust parser -----

#[test]
fn extract_fn_name_reads_unicode_and_underscore_names() {
    assert_eq!(extract_fn_name("  pub fn foo_bar(x: u8) {", 3), Some(("foo_bar".to_string(), 3)));
    assert_eq!(extract_fn_name("fn grüße()", 0), Some(("grüße".to_string(), 0)));
    assert_eq!(extract_fn_name("// fn hidden()", 0), None);
    assert_eq!(extract_fn_name("fn ()", 0), None);
}

#[test]
fn rust_violations_come_in_line_order_and_break_limits() {
    let source = format!("{}{}{}", rust_fn("first", 31), rust_fn("small", 2), rust_fn("second", 40));
    let result = rust_parser::check(&source);
    assert_eq!(result.file_lines, 33 + 4 + 42);
    assert_eq!(result.fn_violations.len(), 2);
    assert_eq!(result.fn_violations[0].name, "first");
    assert_eq!(result.fn_violations[0].line, 1);
    assert_eq!(result.fn_violations[0].body_lines, 31);
    assert_eq!(result.fn_violations[1].name, "second");
    assert_eq!(result.fn_violations[1].line, 38);
    assert_eq!(result.fn_violations[1].body_lines, 40);
}

#[test]
fn rust_body_skips_blank_comment_and_brace_lines() {
    let source = "fn f() {\n\n    // note\n    let a = 1;\n    {\n    }\n}\n";
    let result = rust_parser::check(source);
    assert!(result.fn_violations.is_empty());
    assert_eq!(result.file_lines, 7);
}

#[test]
fn rust_crlf_lines_are_split() {
    let source = "fn f() {\r\n    let a = 1;\r\n}\r\n";
    let result = rust_parser::check(source);
    assert_eq!(result.file_lines, 3);
}

#[test]
fn test_fn_is_not_held_to_nesting_limit() {
    let source = "#[test]\nfn deep() {\n if a {\n  if b {\n   if c {\n    if d {\n     if e {\n      x();\n     }\n    }\n   }\n  }\n }\n}\n";
    assert!(rust_parser::check(source).fn_violations.is_empty());
}

// ----- php parser -----

#[test]
fn php_unchanged_file_has_no_violations() {
    let source = format!("<?php\n{}\n{}\n", php_fn("a", 45), php_fn("b", 60));
    assert!(php_parser::check(&source, Some(&source)).is_empty());
    assert_eq!(php_parser::check(&source, None).len(), 2);
}

#[test]
fn php_violations_are_sorted_by_line() {
    let source = format!("{}\n{}\n{}\n", php_fn("zeta", 31), php_fn("alpha", 35), php_fn("mid", 3));
    let v = php_parser::check(&source, None);
    assert_eq!(v.len(), 2);
    assert_eq!(v[0].name, "zeta");
    assert_eq!(v[0].line, 1);
    assert_eq!(v[1].name, "alpha");
    assert_eq!(v[1].line, 34);
    assert_eq!(v[1].old_body_lines, None);
}

#[test]
fn php_redefined_function_keeps_last_definition() {
    let source = format!("{}\n{}\n", php_fn("dup", 40), php_fn("dup", 2));
    assert!(php_parser::check(&source, None).is_empty());
}

#[test]
fn php_test_file_limit_applies() {
    let source = php_fn("test_something", 50);
    assert!(check_with_test_flag(&source, None, true).is_empty());
    assert_eq!(check_with_test_flag(&source, None, false).len(), 1);
    assert_eq!(check_with_test_flag(&php_fn("t", 201), None, true).len(), 1);
}

#[test]
fn php_reference_return_and_hash_comment() {
    assert_eq!(
        php_parser::extract_php_fn_name("public function &getRef($a) {", 4, false),
        Some(("getRef".to_string(), 5))
    );
    assert_eq!(php_parser::extract_php_fn_name("# function hidden()", 0, false), None);
    assert_eq!(php_parser::extract_php_fn_name("function shown()", 0, true), None);
}

// ----- hook decisions -----

#[test]
fn rust_messages_have_exact_text() {
    let source = rust_fn("too_long_demo", 31);
    let messages = check_rust(None, &source);
    assert_eq!(messages, vec!["too_long_demo (line 1): 31 body lines (max 30)".to_string()]);
    let test_source = format!("#[test]\n{}", rust_fn("my_test", 201));
    let messages = check_rust(None, &test_source);
    assert_eq!(messages, vec!["my_test (line 2): 201 body lines (max 200)".to_string()]);
}

#[test]
fn rust_file_length_message_follows_function_messages() {
    let source = format!("{}{}", rust_fn("big", 31), vec!["const X: u8 = 1;"; 760].join("\n"));
    let messages = check_rust(None, &source);
    assert_eq!(messages.len(), 2);
    assert_eq!(messages[1], "File is 793 lines (max 750). Consider splitting it.");
}

#[test]
fn file_length_within_limit_or_without_before() {
    let mut messages = Vec::new();
    check_file_length(None, 750, &mut messages);
    assert!(messages.is_empty());
    check_file_length(None, 751, &mut messages);
    assert_eq!(messages, vec!["File is 751 lines (max 750). Consider splitting it.".to_string()]);
}

#[test]
fn php_messages_have_exact_text() {
    let old = php_fn("legacy", 40);
    let new = php_fn("legacy", 41);
    let messages = check_php(Some(&old), &new, "src/Legacy.php");
    assert_eq!(
        messages,
        vec!["legacy (line 1): 41 body lines (was 40, cannot grow legacy function)".to_string()]
    );
    let messages = check_php(None, &php_fn("fresh", 31), "src/Fresh.php");
    assert_eq!(messages, vec!["fresh (line 1): 31 body lines (max 30)".to_string()]);
    let messages = check_php(None, &php_fn("test_x", 50), "tests/FooTest.php");
    assert!(messages.is_empty());
    let messages = check_php(None, &php_fn("test_y", 201), "tests/FooCest.php");
    assert_eq!(messages, vec!["test_y (line 1): 201 body lines (max 200)".to_string()]);
}

#[test]
fn format_php_violation_for_small_previous_length() {
    let v = php_parser::Violation {
        name: "f".to_string(),
        line: 12,
        body_lines: 45,
        old_body_lines: Some(10),
    };
    assert_eq!(format_php_violation(&v, false), "f (line 12): 45 body lines (max 30)");
}

#[test]
fn block_message_uses_file_name_and_joins_messages() {
    let messages = vec!["a (line 1): 31 body lines (max 30)".to_string(), "File is 800 lines (max 750). Consider splitting it.".to_string()];
    assert_eq!(
        format_block_message("/tmp/dir/sample.rs", &messages),
        "Function body exceeds 30-line limit in sample.rs:\n  - a (line 1): 31 body lines (max 30)\n  - File is 800 lines (max 750). Consider splitting it.\nExtract logic into well-named helper functions."
    );
    assert_eq!(
        format_block_message("..", &messages[..1].to_vec()),
        "Function body exceeds 30-line limit in ..:\n  - a (line 1): 31 body lines (max 30)\nExtract logic into well-named helper functions."
    );
    assert_eq!(
        block_message_for("x.rs", &Vec::new()),
        "Function body exceeds 30-line limit in x.rs:\n  - \nExtract logic into well-named helper functions."
    );
}

#[test]
fn source_kind_by_extension() {
    assert_eq!(source_kind("src/main.rs"), Some(SourceKind::Rust));
    assert_eq!(source_kind("app/Foo.php"), Some(SourceKind::Php));
    assert_eq!(source_kind("rs"), None);
    assert_eq!(source_kind("notes.txt"), None);
    assert_eq!(kind_of_extension("php"), Some(SourceKind::Php));
    assert_eq!(kind_of_extension("RS"), None);
}

#[test]
fn resolve_content_by_tool() {
    let edit = HookInput {
        tool_name: None,
        tool_input: tool(Some("a.rs"), Some("x"), Some("y"), None),
    };
    assert_eq!(extract_file_path(&edit), Some("a.rs".to_string()));
    assert_eq!(
        resolve_content(&edit, Some("x x".to_string())),
        Some((Some("x x".to_string()), "y x".to_string()))
    );
    assert_eq!(resolve_content(&edit, None), None);
    let write = HookInput {
        tool_name: Some("Write".to_string()),
        tool_input: tool(None, None, None, Some("new")),
    };
    assert_eq!(extract_file_path(&write), None);
    assert_eq!(resolve_content(&write, None), Some((None, "new".to_string())));
    let other = HookInput {
        tool_name: Some("Read".to_string()),
        tool_input: tool(None, None, None, Some("new")),
    };
    assert_eq!(resolve_content(&other, None), None);
}

#[test]
fn resolve_edit_and_write_need_their_fields() {
    assert_eq!(resolve_edit(&tool(None, Some("a"), None, None), Some("a".to_string())), None);
    assert_eq!(resolve_edit(&tool(None, None, Some("b"), None), Some("a".to_string())), None);
    assert_eq!(resolve_write(&tool(None, None, None, None), Some("a".to_string())), None);
}

#[test]
fn replace_first_occurrence_only() {
    assert_eq!(replace_first_occurrence("aXbXc", "X", "--"), "a--bXc");
    assert_eq!(replace_first_occurrence("abc", "z", "--"), "abc");
    assert_eq!(replace_first_occurrence("abc", "", "<"), "<abc");
    assert_eq!(replace_first_occurrence("é→é", "→", "->"), "é->é");
}
