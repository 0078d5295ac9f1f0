use claude_fn_length_hook::lines::is_countable;

fn count(lines: &[&str]) -> usize {
    let mut in_bc = false;
    lines.iter().filter(|l| is_countable(l, &mut in_bc)).count()
}

#[test]
fn blank_lines_excluded() {
    assert_eq!(count(&["", "  ", "\t"]), 0);
}

#[test]
fn comment_lines_excluded() {
    assert_eq!(
        count(&["// comment", "  // indented", "* doc", "# hash"]),
        0
    );
}

#[test]
fn brace_lines_excluded() {
    assert_eq!(count(&["{", "}", "};"]), 0);
}

#[test]
fn code_lines_counted() {
    assert_eq!(count(&["let x = 1;", "return x;"]), 2);
}

#[test]
fn block_comment_excluded() {
    assert_eq!(count(&["/* start", "middle", "end */"]), 0);
}

#[test]
fn inline_block_comment_counted() {
    // Line has code before block comment
    assert_eq!(count(&["let x = /* comment */ 1;"]), 1);
}
