use claude_fn_length_hook::brace_scan::BraceScanState;
use claude_fn_length_hook::hook::{hook_decision, path_to_check, HookInput, HookOutcome, ToolInput};
use claude_fn_length_hook::php_parser::{self, try_check_with_test_flag};
use claude_fn_length_hook::rust_parser;
use claude_fn_length_hook::text::{leading_name_len, leading_name_len_with};

fn body(count: usize) -> String {
    vec!["    let value = 1;"; count].join("\n")
}

fn php_body(count: usize) -> String {
    vec!["    $x++;"; count].join("\n")
}

fn write_input(path: Option<&str>, content: &str) -> HookInput {
    HookInput {
        tool_name: Some("Write".to_string()),
        tool_input: ToolInput {
            file_path: path.map(|p| p.to_string()),
            old_string: None,
            new_string: None,
            content: Some(content.to_string()),
        },
    }
}

#[test]
fn rust_fn_after_multi_line_block_comment_is_measured() {
    let source = format!("/*\n*/\nfn big() {{\n{}\n}}\n", body(31));
    let result = rust_parser::check(&source);
    assert_eq!(result.fn_violations.len(), 1);
    assert_eq!(result.fn_violations[0].name, "big");
    assert_eq!(result.fn_violations[0].line, 3);
    assert_eq!(result.fn_violations[0].body_lines, 31);
}

#[test]
fn rust_fn_inside_block_comment_is_not_measured() {
    let source = format!("/*\nfn hidden() {{\n{}\n}}\n*/\n", body(31));
    assert!(rust_parser::check(&source).fn_violations.is_empty());
}

#[test]
fn rust_one_line_body_closes_on_its_own_line() {
    let source = format!("fn f() {{}}\nfn g() {{\n{}\n}}\n", body(31));
    let result = rust_parser::check(&source);
    assert_eq!(result.fn_violations.len(), 1);
    assert_eq!(result.fn_violations[0].name, "g");
    assert_eq!(result.fn_violations[0].line, 2);
    assert_eq!(result.fn_violations[0].body_lines, 31);
}

#[test]
fn rust_try_check_agrees_with_check() {
    let source = format!("fn big() {{\n{}\n}}\n", body(35));
    let tried = rust_parser::try_check(&source).expect("depth fits");
    let checked = rust_parser::check(&source);
    assert_eq!(tried.file_lines, checked.file_lines);
    assert_eq!(tried.fn_violations.len(), 1);
    assert_eq!(tried.fn_violations[0].body_lines, 35);
    assert_eq!(checked.fn_violations[0].body_lines, 35);
}

#[test]
fn php_one_line_body_closes_on_its_own_line() {
    let source = format!("<?php\nfunction f() {{}}\nfunction g() {{\n{}\n}}\n", php_body(31));
    let vs = php_parser::check(&source, None);
    assert_eq!(vs.len(), 1);
    assert_eq!(vs[0].name, "g");
    assert_eq!(vs[0].line, 3);
    assert_eq!(vs[0].body_lines, 31);
}

#[test]
fn php_line_classified_by_comment_state_before_it() {
    // "$x = 1; /* a" has code before the comment; "b */ $y = 2;" has code after it.
    let source = format!(
        "function f() {{\n{}\n    $x = 1; /* a\n    still comment\n    b */ $y = 2;\n}}",
        php_body(29)
    );
    let vs = php_parser::check(&source, None);
    assert_eq!(vs.len(), 1);
    assert_eq!(vs[0].body_lines, 31);
    // A line that only closes the comment does not count.
    let source = format!(
        "function f() {{\n{}\n    $x = 1; /* a\n    b */\n}}",
        php_body(30)
    );
    let vs = php_parser::check(&source, None);
    assert_eq!(vs.len(), 1);
    assert_eq!(vs[0].body_lines, 31);
}

#[test]
fn php_try_check_gives_reports_when_depth_fits() {
    let source = format!("function big() {{\n{}\n}}", php_body(201));
    let vs = try_check_with_test_flag(&source, None, true).expect("depth fits");
    assert_eq!(vs.len(), 1);
    assert_eq!(vs[0].body_lines, 201);
    let vs = try_check_with_test_flag(&source, Some(&source), false).expect("depth fits");
    assert!(vs.is_empty());
}

#[test]
fn php_old_source_only_raises_limits() {
    let old = format!("function a() {{\n{}\n}}\nfunction b() {{\n{}\n}}", php_body(40), php_body(5));
    let new = format!("function a() {{\n{}\n}}\nfunction b() {{\n{}\n}}", php_body(41), php_body(35));
    let with_old = php_parser::check(&new, Some(&old));
    let without = php_parser::check(&new, None);
    assert_eq!(without.len(), 2);
    assert_eq!(with_old.len(), 2);
    let grown_a = php_format(&with_old[0]);
    assert_eq!(grown_a, ("a".to_string(), 1, 41, Some(40)));
    let same = format!("function a() {{\n{}\n}}", php_body(40));
    let only_old = php_parser::check(&same, Some(&old));
    assert!(only_old.is_empty());
    assert_eq!(php_parser::check(&same, None).len(), 1);
    for v in &with_old {
        assert!(without.iter().any(|w| w.name == v.name && w.line == v.line && w.body_lines == v.body_lines));
    }
}

fn php_format(v: &php_parser::Violation) -> (String, usize, usize, Option<usize>) {
    (v.name.clone(), v.line, v.body_lines, v.old_body_lines)
}

#[test]
fn php_report_names_are_distinct_and_lines_positive() {
    let source = format!(
        "function a() {{\n{}\n}}\nfunction a() {{\n{}\n}}\nfunction c() {{\n{}\n}}",
        php_body(31),
        php_body(32),
        php_body(33)
    );
    let vs = php_parser::check(&source, None);
    assert_eq!(vs.len(), 2);
    assert_eq!(vs[0].name, "a");
    assert_eq!(vs[0].body_lines, 32);
    assert_eq!(vs[1].name, "c");
    assert!(vs.iter().all(|v| v.line >= 1));
}

#[test]
fn scan_state_stays_well_formed() {
    let mut st = BraceScanState::default();
    for line in ["s = \"open /* {", "still \" } /*", "x */ '{' \"", "# ' {"] {
        st.scan_line(line, true);
        assert!(!(st.in_block_comment && st.string_delimiter.is_some()));
        assert!(matches!(st.string_delimiter, None | Some('"') | Some('\'')));
    }
}

#[test]
fn plain_line_brace_arithmetic() {
    let mut st = BraceScanState::default();
    st.scan_line("{ { x } { {", false);
    assert_eq!(st.depth, 3);
    st.scan_line("} } }", false);
    assert_eq!(st.depth, 0);
    let source = "function f() {\n    if (a) { b(); }\n    $y = 1;\n}";
    assert!(php_parser::check(source, None).is_empty());
}

#[test]
fn leading_name_with_flags() {
    let s: Vec<char> = "ab_c(d".chars().collect();
    assert_eq!(leading_name_len_with(&s, &[true, true, false, true, false, true]), 4);
    assert_eq!(leading_name_len_with(&s, &[true, false, false, true, false, true]), 1);
    assert_eq!(leading_name_len_with(&s, &[true, true]), 2);
    assert_eq!(leading_name_len(&s), 4);
    let g: Vec<char> = "grüße()".chars().collect();
    assert_eq!(leading_name_len(&g), 5);
}

#[test]
fn path_to_check_keeps_rust_and_php_paths() {
    assert_eq!(path_to_check(&write_input(Some("src/main.rs"), "")), Some("src/main.rs".to_string()));
    assert_eq!(path_to_check(&write_input(Some("app/A.php"), "")), Some("app/A.php".to_string()));
    assert_eq!(path_to_check(&write_input(Some("notes.md"), "")), None);
    assert_eq!(path_to_check(&write_input(None, "")), None);
}

#[test]
fn hook_decision_blocks_with_readme_header() {
    let content = format!("fn foo() {{\n{}\n}}\n", body(34));
    match hook_decision(&write_input(Some("/work/src/main.rs"), &content), None) {
        HookOutcome::Block(reason) => assert_eq!(
            reason,
            "Function body exceeds 30-line limit in main.rs:\n  - foo (line 1): 34 body lines (max 30)\nExtract logic into well-named helper functions."
        ),
        other => panic!("expected a block, got {:?}", other),
    }
}

#[test]
fn hook_decision_allows_small_and_other_files() {
    let content = format!("fn foo() {{\n{}\n}}\n", body(30));
    assert!(matches!(hook_decision(&write_input(Some("a.rs"), &content), None), HookOutcome::Allow));
    let big = format!("fn foo() {{\n{}\n}}\n", body(40));
    assert!(matches!(hook_decision(&write_input(Some("a.txt"), &big), None), HookOutcome::Allow));
    assert!(matches!(hook_decision(&write_input(None, &big), None), HookOutcome::Allow));
    let edit = HookInput {
        tool_name: None,
        tool_input: ToolInput {
            file_path: Some("a.rs".to_string()),
            old_string: Some("x".to_string()),
            new_string: Some("y".to_string()),
            content: None,
        },
    };
    assert!(matches!(hook_decision(&edit, None), HookOutcome::Allow));
}

#[test]
fn hook_decision_php_legacy_function_may_stay() {
    let old = format!("<?php\nfunction legacy() {{\n{}\n}}\n", php_body(40));
    let edit = HookInput {
        tool_name: Some("Edit".to_string()),
        tool_input: ToolInput {
            file_path: Some("src/Legacy.php".to_string()),
            old_string: Some("<?php".to_string()),
            new_string: Some("<?php // tidy".to_string()),
            content: None,
        },
    };
    assert!(matches!(hook_decision(&edit, Some(old.clone())), HookOutcome::Allow));
    let grow = HookInput {
        tool_name: Some("Edit".to_string()),
        tool_input: ToolInput {
            file_path: Some("src/Legacy.php".to_string()),
            old_string: Some("    $x++;".to_string()),
            new_string: Some("    $x++;\n    $x++;".to_string()),
            content: None,
        },
    };
    match hook_decision(&grow, Some(old)) {
        HookOutcome::Block(reason) => assert_eq!(
            reason,
            "Function body exceeds 30-line limit in Legacy.php:\n  - legacy (line 2): 41 body lines (was 40, cannot grow legacy function)\nExtract logic into well-named helper functions."
        ),
        other => panic!("expected a block, got {:?}", other),
    }
}

#[test]
fn rust_brace_in_comment_on_opening_line_keeps_scanning() {
    let source = format!("fn big() // {{\n{{\n{}\n}}\n", body(31));
    let result = rust_parser::check(&source);
    assert_eq!(result.fn_violations.len(), 1);
    assert_eq!(result.fn_violations[0].name, "big");
    assert_eq!(result.fn_violations[0].line, 1);
    assert_eq!(result.fn_violations[0].body_lines, 31);
    assert_eq!(result.fn_violations[0].max_nesting, 0);
}

#[test]
fn php_brace_in_comment_on_opening_line_keeps_scanning() {
    let source = format!("function big() // {{\n{{\n{}\n}}", php_body(31));
    let vs = php_parser::check(&source, None);
    assert_eq!(vs.len(), 1);
    assert_eq!(vs[0].name, "big");
    assert_eq!(vs[0].line, 1);
    assert_eq!(vs[0].body_lines, 31);
}
