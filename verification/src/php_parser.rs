//! Finds PHP functions whose bodies are too long, letting functions that
//! were already too long stay as long as they do not grow.
use vstd::prelude::*;

use crate::brace_scan::pair_at;
use crate::lines::{countable, is_countable_chars};
use crate::rust_parser::{
    brace_from, comment_start, found_or_len_exec, keyword_position, opening_brace,
};
use crate::text::{
    chars_of, contains_char, count_from, find_in, leading_name, leading_name_len, lines, slice_copy,
    split_lines, starts_with_chars, string_of, strip_leading, stripped_leading, trim, trimmed,
    views,
};

verus! {

pub const BODY_LIMIT: usize = 30;

/// Limit for functions in test files (`*Test.php`, `*Cest.php`).
pub const TEST_BODY_LIMIT: usize = 200;

const BRACE_LOOKAHEAD_LINES: usize = 10;

/// A PHP function whose body breaks its limit.
#[derive(Debug)]
pub struct Violation {
    pub name: String,
    pub line: usize,
    pub body_lines: usize,
    pub old_body_lines: Option<usize>,  // None = new function
}

/// What a [`Violation`] holds, as mathematical values.
pub struct PhpReport {
    pub name: Seq<char>,
    pub line: int,
    pub body_lines: int,
    pub old_body_lines: Option<int>,
}

impl View for Violation {
    type V = PhpReport;

    open spec fn view(&self) -> PhpReport {
        PhpReport {
            name: self.name@,
            line: self.line as int,
            body_lines: self.body_lines as int,
            old_body_lines: match self.old_body_lines {
                Some(n) => Some(n as int),
                None => None,
            },
        }
    }
}

/// The views of a list of violations.
pub open spec fn php_reports(v: Seq<Violation>) -> Seq<PhpReport> {
    Seq::new(v.len(), |i: int| v[i]@)
}

/// A function found in a PHP file: name, 1-based line, counted body lines.
pub struct PhpFn {
    pub name: Seq<char>,
    pub line: int,
    pub body_lines: int,
}

// ---------------------------------------------------------------------------
// Line scanning
// ---------------------------------------------------------------------------

/// Scanner state of the PHP body counter.
pub struct PhpScan {
    pub depth: int,
    pub in_block_comment: bool,
    pub in_string: bool,
    pub string_char: char,
}

/// The state after scanning `s` from position `j` to the end of the line
/// (or to a `//` or `#` comment).
pub open spec fn php_scan_from(st: PhpScan, s: Seq<char>, j: int) -> PhpScan
    decreases s.len() + 2 - j,
{
    if j < 0 || j >= s.len() {
        st
    } else if st.in_block_comment {
        if pair_at(s, j, '*', '/') {
            php_scan_from(PhpScan { in_block_comment: false, ..st }, s, j + 2)
        } else {
            php_scan_from(st, s, j + 1)
        }
    } else if st.in_string {
        if s[j] == '\\' {
            php_scan_from(st, s, j + 2)
        } else if s[j] == st.string_char {
            php_scan_from(PhpScan { in_string: false, ..st }, s, j + 1)
        } else {
            php_scan_from(st, s, j + 1)
        }
    } else if pair_at(s, j, '/', '*') {
        php_scan_from(PhpScan { in_block_comment: true, ..st }, s, j + 2)
    } else if pair_at(s, j, '/', '/') || s[j] == '#' {
        st
    } else if s[j] == '"' || s[j] == '\'' {
        php_scan_from(PhpScan { in_string: true, string_char: s[j], ..st }, s, j + 1)
    } else if s[j] == '{' {
        php_scan_from(PhpScan { depth: st.depth + 1, ..st }, s, j + 1)
    } else if s[j] == '}' {
        php_scan_from(PhpScan { depth: st.depth - 1, ..st }, s, j + 1)
    } else {
        php_scan_from(st, s, j + 1)
    }
}

/// Scanning `s` from position `j` takes the depth above 0 at some `{`.
pub open spec fn php_rises_from(st: PhpScan, s: Seq<char>, j: int) -> bool
    decreases s.len() + 2 - j,
{
    if j < 0 || j >= s.len() {
        false
    } else if st.in_block_comment {
        if pair_at(s, j, '*', '/') {
            php_rises_from(PhpScan { in_block_comment: false, ..st }, s, j + 2)
        } else {
            php_rises_from(st, s, j + 1)
        }
    } else if st.in_string {
        if s[j] == '\\' {
            php_rises_from(st, s, j + 2)
        } else if s[j] == st.string_char {
            php_rises_from(PhpScan { in_string: false, ..st }, s, j + 1)
        } else {
            php_rises_from(st, s, j + 1)
        }
    } else if pair_at(s, j, '/', '*') {
        php_rises_from(PhpScan { in_block_comment: true, ..st }, s, j + 2)
    } else if pair_at(s, j, '/', '/') || s[j] == '#' {
        false
    } else if s[j] == '"' || s[j] == '\'' {
        php_rises_from(PhpScan { in_string: true, string_char: s[j], ..st }, s, j + 1)
    } else if s[j] == '{' {
        st.depth + 1 > 0 || php_rises_from(PhpScan { depth: st.depth + 1, ..st }, s, j + 1)
    } else if s[j] == '}' {
        php_rises_from(PhpScan { depth: st.depth - 1, ..st }, s, j + 1)
    } else {
        php_rises_from(st, s, j + 1)
    }
}

/// The body closes on `line`, the `offset`-th line from the opening one,
/// scanned from `st`: the depth is back to 0, and on the opening line itself
/// only when that line took the depth above 0.
pub open spec fn php_body_closes(st: PhpScan, line: Seq<char>, offset: int) -> bool {
    php_scan(st, line).depth == 0 && (offset > 0 || php_rises_from(st, line, 0))
}

/// The state after scanning the whole line `s`.
pub open spec fn php_scan(st: PhpScan, s: Seq<char>) -> PhpScan {
    php_scan_from(st, s, 0)
}

/// Scanning `s` from position `j` never takes the depth out of `i32`.
pub open spec fn php_scan_fits_from(st: PhpScan, s: Seq<char>, j: int) -> bool
    decreases s.len() + 2 - j,
{
    if j < 0 || j >= s.len() {
        true
    } else if st.in_block_comment {
        if pair_at(s, j, '*', '/') {
            php_scan_fits_from(PhpScan { in_block_comment: false, ..st }, s, j + 2)
        } else {
            php_scan_fits_from(st, s, j + 1)
        }
    } else if st.in_string {
        if s[j] == '\\' {
            php_scan_fits_from(st, s, j + 2)
        } else if s[j] == st.string_char {
            php_scan_fits_from(PhpScan { in_string: false, ..st }, s, j + 1)
        } else {
            php_scan_fits_from(st, s, j + 1)
        }
    } else if pair_at(s, j, '/', '*') {
        php_scan_fits_from(PhpScan { in_block_comment: true, ..st }, s, j + 2)
    } else if pair_at(s, j, '/', '/') || s[j] == '#' {
        true
    } else if s[j] == '"' || s[j] == '\'' {
        php_scan_fits_from(PhpScan { in_string: true, string_char: s[j], ..st }, s, j + 1)
    } else if s[j] == '{' {
        st.depth < i32::MAX && php_scan_fits_from(PhpScan { depth: st.depth + 1, ..st }, s, j + 1)
    } else if s[j] == '}' {
        st.depth > i32::MIN && php_scan_fits_from(PhpScan { depth: st.depth - 1, ..st }, s, j + 1)
    } else {
        php_scan_fits_from(st, s, j + 1)
    }
}

/// Scanning the line `s` never takes the depth out of `i32`.
pub open spec fn php_scan_fits(st: PhpScan, s: Seq<char>) -> bool {
    php_scan_fits_from(st, s, 0)
}

/// On a line with no quote, slash or `#`, read outside comments and
/// strings, the depth moves by the number of `{` less the number of `}`
/// and nothing else changes.
pub proof fn law_php_plain_line_brace_arithmetic(st: PhpScan, s: Seq<char>, j: int)
    requires
        !st.in_block_comment,
        !st.in_string,
        0 <= j,
        forall|k: int|
            0 <= k < s.len() ==> #[trigger] s[k] != '"' && s[k] != '\'' && s[k] != '/' && s[k]
                != '#',
    ensures
        php_scan_from(st, s, j) == (PhpScan {
            depth: st.depth + count_from(s, '{', j) - count_from(s, '}', j),
            ..st
        }),
    decreases s.len() - j,
{
    if j < s.len() {
        assert(s[j] != '"' && s[j] != '\'' && s[j] != '/' && s[j] != '#');
        if s[j] == '{' {
            law_php_plain_line_brace_arithmetic(PhpScan { depth: st.depth + 1, ..st }, s, j + 1);
        } else if s[j] == '}' {
            law_php_plain_line_brace_arithmetic(PhpScan { depth: st.depth - 1, ..st }, s, j + 1);
        } else {
            law_php_plain_line_brace_arithmetic(st, s, j + 1);
        }
    }
}

/// Inside a string, a backslash escapes the character after it: scanning
/// goes on two characters later, whatever that character is.
pub proof fn law_php_escape_skips_next_char(st: PhpScan, s: Seq<char>, j: int)
    requires
        !st.in_block_comment,
        st.in_string,
        0 <= j < s.len(),
        s[j] == '\\',
    ensures
        php_scan_from(st, s, j) == php_scan_from(st, s, j + 2),
        php_rises_from(st, s, j) == php_rises_from(st, s, j + 2),
        php_scan_fits_from(st, s, j) == php_scan_fits_from(st, s, j + 2),
{
}

/// Inside a block comment only `*/` matters: any other character is passed
/// over, and `*/` leaves the comment.
pub proof fn law_php_block_comment_skips_to_close(st: PhpScan, s: Seq<char>, j: int)
    requires
        st.in_block_comment,
        0 <= j < s.len(),
    ensures
        pair_at(s, j, '*', '/') ==> php_scan_from(st, s, j) == php_scan_from(
            PhpScan { in_block_comment: false, ..st },
            s,
            j + 2,
        ),
        !pair_at(s, j, '*', '/') ==> php_scan_from(st, s, j) == php_scan_from(st, s, j + 1),
{
}

/// Outside strings and block comments, `//` and `#` end the line: nothing
/// after them changes the depth, the string or the comment state, and no
/// brace after them can overflow or open a body.
pub proof fn law_php_line_comment_ends_line(st: PhpScan, s: Seq<char>, j: int)
    requires
        !st.in_block_comment,
        !st.in_string,
        pair_at(s, j, '/', '/') || (0 <= j < s.len() && s[j] == '#'),
    ensures
        php_scan_from(st, s, j) == st,
        !php_rises_from(st, s, j),
        php_scan_fits_from(st, s, j),
{
}

/// The scanner state before a line: outside strings, at depth 0, with the
/// given block-comment state.
pub open spec fn php_line_start(in_block_comment: bool) -> PhpScan {
    PhpScan { depth: 0, in_block_comment, in_string: false, string_char: '"' }
}

/// Reading one line from a fresh depth never takes the depth out of `i32`.
pub open spec fn php_block_fits(line: Seq<char>, in_block_comment: bool) -> bool {
    php_scan_fits(php_line_start(in_block_comment), line)
}

/// Whether a block comment is open after `line`, given whether one was open before.
pub open spec fn php_block_comment_after(line: Seq<char>, in_block_comment: bool) -> bool {
    php_scan(php_line_start(in_block_comment), line).in_block_comment
}

/// Scanning the body that opens on line `open` from its `offset`-th line:
/// counted body lines and the line where the body closes (or the last line).
pub open spec fn php_body_from(
    ls: Seq<Seq<char>>,
    open: int,
    offset: int,
    st: PhpScan,
    body: int,
) -> (int, int)
    decreases ls.len() - (open + offset),
{
    if open < 0 || offset < 0 || open + offset >= ls.len() {
        (body, if ls.len() > 0 {
            ls.len() - 1
        } else {
            0
        })
    } else {
        let line = ls[open + offset];
        let next = php_scan(st, line);
        let counted = offset > 0 && next.depth > 0 && countable(line, st.in_block_comment).0;
        let body2 = body + if counted {
            1int
        } else {
            0int
        };
        if php_body_closes(st, line, offset) {
            (body2, open + offset)
        } else {
            php_body_from(ls, open, offset + 1, next, body2)
        }
    }
}

/// Scanning the body from its `offset`-th line up to where it closes never
/// takes the depth out of `i32`.
pub open spec fn php_body_fits(ls: Seq<Seq<char>>, open: int, offset: int, st: PhpScan) -> bool
    decreases ls.len() - (open + offset),
{
    if open < 0 || offset < 0 || open + offset >= ls.len() {
        true
    } else {
        let line = ls[open + offset];
        let next = php_scan(st, line);
        &&& php_scan_fits(st, line)
        &&& (php_body_closes(st, line, offset) || php_body_fits(ls, open, offset + 1, next))
    }
}

/// `(body lines, closing line)` of the body opening on line `open`.
pub open spec fn php_body_of(ls: Seq<Seq<char>>, open: int) -> (int, int) {
    php_body_from(ls, open, 0, php_line_start(false), 0)
}

pub proof fn lemma_php_body_close(
    ls: Seq<Seq<char>>,
    open: int,
    offset: int,
    st: PhpScan,
    body: int,
)
    requires
        0 <= open < ls.len(),
        0 <= offset,
    ensures
        open <= php_body_from(ls, open, offset, st, body).1 < ls.len(),
    decreases ls.len() - (open + offset),
{
    if open + offset < ls.len() {
        let line = ls[open + offset];
        let next = php_scan(st, line);
        let counted = offset > 0 && next.depth > 0 && countable(line, st.in_block_comment).0;
        let body2 = body + if counted {
            1int
        } else {
            0int
        };
        if !php_body_closes(st, line, offset) {
            lemma_php_body_close(ls, open, offset + 1, next, body2);
        }
    }
}

/// The PHP scanner state before line `k`, having read the lines `open..k`
/// from depth 0 outside comments and strings.
pub open spec fn php_state_before(ls: Seq<Seq<char>>, open: int, k: int) -> PhpScan
    decreases k - open,
{
    if k <= open {
        php_line_start(false)
    } else {
        php_scan(php_state_before(ls, open, k - 1), ls[k - 1])
    }
}

/// Line `k` of the PHP body opening on line `open` ends it: after it the
/// depth is back to 0, and when `k` is the opening line, that line took the
/// depth above 0.
pub open spec fn php_ends_body_at(ls: Seq<Seq<char>>, open: int, k: int) -> bool {
    php_state_before(ls, open, k + 1).depth == 0 && (k > open || php_rises_from(
        php_line_start(false),
        ls[open],
        0,
    ))
}

/// Line `k` of the PHP body opening on line `open` is a counted body line:
/// past the opening line, leaving the depth above 0, and counting given the
/// block-comment state before it.
pub open spec fn php_counted_body_line(ls: Seq<Seq<char>>, open: int, k: int) -> bool {
    k > open && php_state_before(ls, open, k + 1).depth > 0 && countable(
        ls[k],
        php_state_before(ls, open, k).in_block_comment,
    ).0
}

/// Number of counted PHP body lines among `open..b`.
pub open spec fn php_counted_lines(ls: Seq<Seq<char>>, open: int, b: int) -> int
    decreases b - open,
{
    if b <= open {
        0
    } else {
        php_counted_lines(ls, open, b - 1) + if php_counted_body_line(ls, open, b - 1) {
            1int
        } else {
            0int
        }
    }
}

proof fn lemma_php_body_from_lines(
    ls: Seq<Seq<char>>,
    open: int,
    offset: int,
    st: PhpScan,
    body: int,
)
    requires
        0 <= open < ls.len(),
        0 <= offset,
        open + offset <= ls.len(),
        st == php_state_before(ls, open, open + offset),
        body == php_counted_lines(ls, open, open + offset),
        forall|k: int| open <= k < open + offset ==> !#[trigger] php_ends_body_at(ls, open, k),
    ensures
        ({
            let r = php_body_from(ls, open, offset, st, body);
            &&& open <= r.1 < ls.len()
            &&& forall|k: int| open <= k < r.1 ==> !#[trigger] php_ends_body_at(ls, open, k)
            &&& (php_ends_body_at(ls, open, r.1) || r.1 == ls.len() - 1)
            &&& r.0 == php_counted_lines(ls, open, r.1 + 1)
        }),
    decreases ls.len() - (open + offset),
{
    let i = open + offset;
    if i < ls.len() {
        let line = ls[i];
        let next = php_scan(st, line);
        assert(php_state_before(ls, open, i + 1) == next);
        assert(php_body_closes(st, line, offset) == php_ends_body_at(ls, open, i));
        let counted = offset > 0 && next.depth > 0 && countable(line, st.in_block_comment).0;
        assert(php_counted_body_line(ls, open, i) == counted);
        if !php_body_closes(st, line, offset) {
            assert forall|k: int| open <= k < i + 1 implies !#[trigger] php_ends_body_at(
                ls,
                open,
                k,
            ) by {}
            lemma_php_body_from_lines(
                ls,
                open,
                offset + 1,
                next,
                body + if counted {
                    1int
                } else {
                    0int
                },
            );
        }
    }
}

/// Where a PHP body opening on line `open` ends and how many lines it
/// holds: it ends on the first line after which the depth (read from the
/// opening line) is back to 0 (the opening line itself only when it took the
/// depth above 0), or on the last line when it never closes; its body lines
/// are the lines past the opening one, up to the end, that leave the depth
/// above 0 and count given the comment state before them.
pub proof fn law_php_body_extent_and_count(ls: Seq<Seq<char>>, open: int)
    requires
        0 <= open < ls.len(),
    ensures
        ({
            let (body_lines, close) = php_body_of(ls, open);
            &&& open <= close < ls.len()
            &&& forall|k: int| open <= k < close ==> !#[trigger] php_ends_body_at(ls, open, k)
            &&& (php_ends_body_at(ls, open, close) || close == ls.len() - 1)
            &&& body_lines == php_counted_lines(ls, open, close + 1)
        }),
{
    lemma_php_body_from_lines(ls, open, 0, php_line_start(false), 0);
}

// ---------------------------------------------------------------------------
// Function headers and the function table
// ---------------------------------------------------------------------------

/// `function `
pub open spec fn function_keyword() -> Seq<char> {
    seq!['f', 'u', 'n', 'c', 't', 'i', 'o', 'n', ' ']
}

/// The name declared by a `function` on `line` (index `idx`), with its
/// 1-based line; none inside a block comment.
pub open spec fn php_fn_name_on(line: Seq<char>, idx: int, in_block_comment: bool) -> Option<
    (Seq<char>, int),
> {
    if in_block_comment {
        None
    } else {
        let t = trim(line);
        if comment_start(t) {
            None
        } else {
            match keyword_position(t, function_keyword(), true) {
                Some(pos) => {
                    let after = trim(strip_leading(t.skip(pos + 9), '&'));
                    let name = leading_name(after);
                    if name.len() == 0 {
                        None
                    } else {
                        Some((name, idx + 1))
                    }
                },
                None => None,
            }
        }
    }
}

/// The functions found from line `i` on, in file order (a name may repeat).
pub open spec fn php_fns_from(ls: Seq<Seq<char>>, i: int, in_block_comment: bool) -> Seq<PhpFn>
    decreases ls.len() + 1 - i,
{
    if i < 0 || i >= ls.len() {
        Seq::empty()
    } else {
        match php_fn_name_on(ls[i], i, in_block_comment) {
            Some((name, fn_line)) => match opening_brace(ls, i) {
                Some(open) => {
                    let (body_lines, close) = php_body_of(ls, open);
                    proof {
                        lemma_opening_brace_php(ls, i);
                        lemma_php_body_close(ls, open, 0, php_line_start(false), 0);
                    }
                    seq![PhpFn { name, line: fn_line, body_lines }] + php_fns_from(
                        ls,
                        close + 1,
                        in_block_comment,
                    )
                },
                None => php_fns_from(ls, i + 1, php_block_comment_after(ls[i], in_block_comment)),
            },
            None => php_fns_from(ls, i + 1, php_block_comment_after(ls[i], in_block_comment)),
        }
    }
}

/// Entry `f` is the function declared on its line, outside any block
/// comment, measured from the body that opens within reach of it.
pub open spec fn declared_and_measured(ls: Seq<Seq<char>>, f: PhpFn) -> bool {
    &&& 1 <= f.line <= ls.len()
    &&& php_fn_name_on(ls[f.line - 1], f.line - 1, false) == Some((f.name, f.line))
    &&& opening_brace(ls, f.line - 1) matches Some(open) && f.body_lines == php_body_of(
        ls,
        open,
    ).0
}

proof fn lemma_php_fns_declared(ls: Seq<Seq<char>>, i: int, in_block_comment: bool)
    requires
        0 <= i,
    ensures
        forall|k: int|
            0 <= k < php_fns_from(ls, i, in_block_comment).len() ==> declared_and_measured(
                ls,
                #[trigger] php_fns_from(ls, i, in_block_comment)[k],
            ),
    decreases ls.len() + 1 - i,
{
    if i < ls.len() {
        match php_fn_name_on(ls[i], i, in_block_comment) {
            Some((name, fn_line)) => match opening_brace(ls, i) {
                Some(open) => {
                    let (body_lines, close) = php_body_of(ls, open);
                    lemma_opening_brace_php(ls, i);
                    lemma_php_body_close(ls, open, 0, php_line_start(false), 0);
                    lemma_php_fns_declared(ls, close + 1, in_block_comment);
                    let rest = php_fns_from(ls, close + 1, in_block_comment);
                    let all = seq![PhpFn { name, line: fn_line, body_lines }] + rest;
                    assert(!in_block_comment);
                    assert(fn_line == i + 1);
                    assert(php_fns_from(ls, i, in_block_comment) == all);
                    assert(declared_and_measured(ls, all[0]));
                    assert forall|k: int| 0 <= k < all.len() implies declared_and_measured(
                        ls,
                        #[trigger] all[k],
                    ) by {
                        if k > 0 {
                            assert(all[k] == rest[k - 1]);
                        }
                    }
                },
                None => {
                    let next = php_block_comment_after(ls[i], in_block_comment);
                    lemma_php_fns_declared(ls, i + 1, next);
                    assert(php_fns_from(ls, i, in_block_comment) == php_fns_from(ls, i + 1, next));
                },
            },
            None => {
                let next = php_block_comment_after(ls[i], in_block_comment);
                lemma_php_fns_declared(ls, i + 1, next);
                assert(php_fns_from(ls, i, in_block_comment) == php_fns_from(ls, i + 1, next));
            },
        }
    }
}

/// Every function the PHP walk finds is declared on its line outside any
/// block comment and measured from the body that opens within reach of it.
pub proof fn law_php_functions_are_declared_and_measured(ls: Seq<Seq<char>>)
    ensures
        forall|k: int|
            0 <= k < php_fns_from(ls, 0, false).len() ==> declared_and_measured(
                ls,
                #[trigger] php_fns_from(ls, 0, false)[k],
            ),
{
    lemma_php_fns_declared(ls, 0, false);
}

/// Inside a block comment a line declares no function and only moves the
/// comment state on: the walk goes on at the very next line.
pub proof fn law_php_comment_line_moves_to_next_line(ls: Seq<Seq<char>>, i: int)
    requires
        0 <= i < ls.len(),
    ensures
        php_fns_from(ls, i, true) == php_fns_from(ls, i + 1, php_block_comment_after(ls[i], true)),
{
}

/// Reading the file from line `i` on never takes a brace depth out of `i32`.
pub open spec fn php_fns_fit_from(ls: Seq<Seq<char>>, i: int, in_block_comment: bool) -> bool
    decreases ls.len() + 1 - i,
{
    if i < 0 || i >= ls.len() {
        true
    } else {
        let skip = php_block_fits(ls[i], in_block_comment) && php_fns_fit_from(
            ls,
            i + 1,
            php_block_comment_after(ls[i], in_block_comment),
        );
        match php_fn_name_on(ls[i], i, in_block_comment) {
            Some((name, fn_line)) => match opening_brace(ls, i) {
                Some(open) => {
                    let (body_lines, close) = php_body_of(ls, open);
                    proof {
                        lemma_opening_brace_php(ls, i);
                        lemma_php_body_close(ls, open, 0, php_line_start(false), 0);
                    }
                    php_body_fits(ls, open, 0, php_line_start(false)) && php_fns_fit_from(
                        ls,
                        close + 1,
                        in_block_comment,
                    )
                },
                None => skip,
            },
            None => skip,
        }
    }
}

/// Checking the file with lines `ls` never takes a brace depth out of `i32`.
pub open spec fn php_depth_fits(ls: Seq<Seq<char>>) -> bool {
    php_fns_fit_from(ls, 0, false)
}

pub proof fn lemma_opening_brace_php(ls: Seq<Seq<char>>, start: int)
    ensures
        opening_brace(ls, start) matches Some(k) ==> start <= k && 0 <= k < ls.len(),
{
    crate::rust_parser::lemma_opening_brace(ls, start);
}

/// `t` without its entries named `name`.
pub open spec fn remove_name(t: Seq<PhpFn>, name: Seq<char>) -> Seq<PhpFn>
    decreases t.len(),
{
    if t.len() == 0 {
        t
    } else {
        let r = remove_name(t.drop_last(), name);
        if t.last().name == name {
            r
        } else {
            r.push(t.last())
        }
    }
}

/// The table of functions by name: each name once, with the entry found
/// last for it, in the order those entries were found.
pub open spec fn fn_table(fs: Seq<PhpFn>) -> Seq<PhpFn>
    decreases fs.len(),
{
    if fs.len() == 0 {
        fs
    } else {
        remove_name(fn_table(fs.drop_last()), fs.last().name).push(fs.last())
    }
}

/// The functions of the file with lines `ls`, by name.
pub open spec fn php_functions(ls: Seq<Seq<char>>) -> Seq<PhpFn> {
    fn_table(php_fns_from(ls, 0, false))
}

/// The body length of the entry named `name` in `t`, if any (the last such entry).
pub open spec fn lookup(t: Seq<PhpFn>, name: Seq<char>) -> Option<int>
    decreases t.len(),
{
    if t.len() == 0 {
        None
    } else if t.last().name == name {
        Some(t.last().body_lines)
    } else {
        lookup(t.drop_last(), name)
    }
}

/// The limit of a function: `base`, or its previous length when that was larger.
pub open spec fn limit_for(old_len: Option<int>, base: int) -> int {
    match old_len {
        Some(l) => if l > base {
            l
        } else {
            base
        },
        None => base,
    }
}

/// The violations among the functions `t`, measured against the previous
/// functions `old` and the limit `base`, in the order of `t`.
pub open spec fn php_violations(t: Seq<PhpFn>, old: Seq<PhpFn>, base: int) -> Seq<PhpReport>
    decreases t.len(),
{
    if t.len() == 0 {
        Seq::empty()
    } else {
        let rest = php_violations(t.drop_last(), old, base);
        let f = t.last();
        let old_len = lookup(old, f.name);
        if f.body_lines > limit_for(old_len, base) {
            rest.push(
                PhpReport {
                    name: f.name,
                    line: f.line,
                    body_lines: f.body_lines,
                    old_body_lines: old_len,
                },
            )
        } else {
            rest
        }
    }
}

/// The violations of `source` against `old_source` with the limit `base`.
pub open spec fn php_check(source: Seq<char>, old_source: Option<Seq<char>>, base: int) -> Seq<
    PhpReport,
> {
    let old = match old_source {
        Some(o) => php_functions(lines(o)),
        None => Seq::empty(),
    };
    php_violations(php_functions(lines(source)), old, base)
}

/// Lines strictly increase along `fs`.
pub open spec fn lines_increase(fs: Seq<PhpFn>) -> bool {
    forall|a: int, b: int| 0 <= a < b < fs.len() ==> fs[a].line < fs[b].line
}

/// Lines strictly increase along the reports.
pub open spec fn report_lines_increase(rs: Seq<PhpReport>) -> bool {
    forall|a: int, b: int| 0 <= a < b < rs.len() ==> rs[a].line < rs[b].line
}

/// No two entries of `t` share a name.
pub open spec fn names_unique(t: Seq<PhpFn>) -> bool {
    forall|a: int, b: int| 0 <= a < b < t.len() ==> #[trigger] t[a].name != #[trigger] t[b].name
}

/// Every entry of `t` lies on a line in `lo..=hi`.
pub open spec fn lines_within(t: Seq<PhpFn>, lo: int, hi: int) -> bool {
    forall|k: int| 0 <= k < t.len() ==> lo <= #[trigger] t[k].line <= hi
}

proof fn lemma_remove_name(t: Seq<PhpFn>, name: Seq<char>, lo: int, hi: int)
    requires
        lines_within(t, lo, hi),
    ensures
        lines_within(remove_name(t, name), lo, hi),
        forall|k: int|
            0 <= k < remove_name(t, name).len() ==> #[trigger] remove_name(t, name)[k].name
                != name,
        lines_increase(t) ==> lines_increase(remove_name(t, name)),
        names_unique(t) ==> names_unique(remove_name(t, name)),
        names_unique(t) ==> forall|k: int|
            0 <= k < remove_name(t, name).len() ==> exists|j: int|
                0 <= j < t.len() && #[trigger] remove_name(t, name)[k] == t[j],
    decreases t.len(),
{
    if t.len() > 0 {
        let d = t.drop_last();
        assert(lines_within(d, lo, hi)) by {
            assert forall|k: int| 0 <= k < d.len() implies lo <= #[trigger] d[k].line <= hi by {
                assert(d[k] == t[k]);
            }
        }
        if lines_increase(t) {
            assert(lines_within(d, lo, t.last().line - 1)) by {
                assert forall|k: int| 0 <= k < d.len() implies lo <= #[trigger] d[k].line <= t.last().line - 1 by {
                    assert(d[k] == t[k]);
                }
            }
            lemma_remove_name(d, name, lo, t.last().line - 1);
        }
        lemma_remove_name(d, name, lo, hi);
        let r = remove_name(d, name);
        if names_unique(t) {
            assert(names_unique(d));
            assert forall|k: int| 0 <= k < r.len() implies #[trigger] r[k].name != t.last().name by {
                let j = choose|j: int| 0 <= j < d.len() && r[k] == d[j];
                assert(d[j] == t[j]);
            }
        }
        if t.last().name != name {
            let all = r.push(t.last());
            assert(remove_name(t, name) == all);
            assert forall|k: int| 0 <= k < all.len() implies lo <= #[trigger] all[k].line <= hi by {
                if k < r.len() {
                    assert(all[k] == r[k]);
                }
            }
            if names_unique(t) {
                assert forall|k: int| 0 <= k < all.len() implies exists|j: int|
                    0 <= j < t.len() && #[trigger] all[k] == t[j] by {
                    if k < r.len() {
                        let j = choose|j: int| 0 <= j < d.len() && r[k] == d[j];
                        assert(all[k] == t[j]);
                    } else {
                        assert(all[k] == t[t.len() - 1]);
                    }
                }
            }
        }
    }
}

/// The table keeps one entry per name, in increasing line order, on lines
/// of `fs`.
proof fn lemma_fn_table(fs: Seq<PhpFn>, lo: int)
    requires
        lines_increase(fs),
        lines_within(fs, lo, if fs.len() > 0 { fs.last().line } else { lo }),
    ensures
        names_unique(fn_table(fs)),
        lines_increase(fn_table(fs)),
        lines_within(fn_table(fs), lo, if fs.len() > 0 { fs.last().line } else { lo }),
    decreases fs.len(),
{
    if fs.len() > 0 {
        let d = fs.drop_last();
        let hi = fs.last().line;
        let dhi = if d.len() > 0 { d.last().line } else { lo };
        assert(lines_increase(d));
        assert(lines_within(d, lo, dhi)) by {
            assert forall|k: int| 0 <= k < d.len() implies lo <= #[trigger] d[k].line <= dhi by {
                assert(d[k] == fs[k]);
                if d.len() > 0 && k < d.len() - 1 {
                    assert(fs[k].line < fs[d.len() - 1].line);
                }
            }
        }
        lemma_fn_table(d, lo);
        let t = fn_table(d);
        let below = if d.len() > 0 { hi - 1 } else { lo };
        if d.len() > 0 {
            assert(fs[d.len() - 1].line < fs[fs.len() - 1].line);
        }
        assert(lines_within(t, lo, below)) by {
            assert forall|k: int| 0 <= k < t.len() implies lo <= #[trigger] t[k].line <= below by {
                assert(lo <= t[k].line <= dhi);
            }
        }
        lemma_remove_name(t, fs.last().name, lo, below);
        let r = remove_name(t, fs.last().name);
        let all = r.push(fs.last());
        assert(fn_table(fs) == all);
        assert(lo <= fs.last().line) by {
            assert(fs.last() == fs[fs.len() - 1]);
        }
        if d.len() == 0 {
            assert(r.len() == 0) by {
                assert(t.len() == 0);
            }
        }
        assert forall|a: int, b: int| 0 <= a < b < all.len() implies #[trigger] all[a].name
            != #[trigger] all[b].name by {
            if b < r.len() {
                assert(all[a] == r[a] && all[b] == r[b]);
            } else {
                assert(all[a] == r[a]);
            }
        }
        assert forall|a: int, b: int| 0 <= a < b < all.len() implies #[trigger] all[a].line
            < #[trigger] all[b].line by {
            if b < r.len() {
                assert(all[a] == r[a] && all[b] == r[b]);
            } else {
                assert(all[a] == r[a]);
            }
        }
        assert forall|k: int| 0 <= k < all.len() implies lo <= #[trigger] all[k].line <= hi by {
            if k < r.len() {
                assert(all[k] == r[k]);
            }
        }
    }
}

/// The functions found from line `i` on lie after line `i`, in increasing
/// line order, up to the line count.
proof fn lemma_php_fns_from(ls: Seq<Seq<char>>, i: int, in_block_comment: bool)
    requires
        0 <= i,
    ensures
        lines_increase(php_fns_from(ls, i, in_block_comment)),
        lines_within(php_fns_from(ls, i, in_block_comment), i + 1, ls.len() as int),
    decreases ls.len() + 1 - i,
{
    if i < ls.len() {
        match php_fn_name_on(ls[i], i, in_block_comment) {
            Some((name, fn_line)) => match opening_brace(ls, i) {
                Some(open) => {
                    let (body_lines, close) = php_body_of(ls, open);
                    lemma_opening_brace_php(ls, i);
                    lemma_php_body_close(ls, open, 0, php_line_start(false), 0);
                    lemma_php_fns_from(ls, close + 1, in_block_comment);
                    let rest = php_fns_from(ls, close + 1, in_block_comment);
                    let f = PhpFn { name, line: fn_line, body_lines };
                    let all = seq![f] + rest;
                    assert(php_fns_from(ls, i, in_block_comment) == all);
                    assert(fn_line == i + 1);
                    assert forall|a: int, b: int| 0 <= a < b < all.len() implies #[trigger] all[a].line
                        < #[trigger] all[b].line by {
                        assert(all[b] == rest[b - 1]);
                        if a > 0 {
                            assert(all[a] == rest[a - 1]);
                        }
                    }
                    assert forall|k: int| 0 <= k < all.len() implies i + 1 <= #[trigger] all[k].line
                        <= ls.len() by {
                        if k > 0 {
                            assert(all[k] == rest[k - 1]);
                        }
                    }
                },
                None => lemma_php_fns_from(
                    ls,
                    i + 1,
                    php_block_comment_after(ls[i], in_block_comment),
                ),
            },
            None => lemma_php_fns_from(ls, i + 1, php_block_comment_after(ls[i], in_block_comment)),
        }
    }
}

/// The functions of a file: one entry per name, in increasing line order.
pub proof fn lemma_php_functions(ls: Seq<Seq<char>>)
    ensures
        names_unique(php_functions(ls)),
        lines_increase(php_functions(ls)),
        forall|k: int|
            0 <= k < php_functions(ls).len() ==> #[trigger] php_functions(ls)[k].line >= 1,
{
    let fs = php_fns_from(ls, 0, false);
    lemma_php_fns_from(ls, 0, false);
    assert(lines_within(fs, 1, if fs.len() > 0 { fs.last().line } else { 1 })) by {
        assert forall|k: int| 0 <= k < fs.len() implies 1 <= #[trigger] fs[k].line <= (if fs.len()
            > 0 {
            fs.last().line
        } else {
            1
        }) by {
            if k < fs.len() - 1 {
                assert(fs[k].line < fs[fs.len() - 1].line);
            }
        }
    }
    lemma_fn_table(fs, 1);
    let t = php_functions(ls);
    assert forall|k: int| 0 <= k < t.len() implies #[trigger] t[k].line >= 1 by {
        assert(lines_within(t, 1, if fs.len() > 0 { fs.last().line } else { 1 }));
    }
}

/// In a table with one entry per name, looking an entry's name up finds it.
proof fn lemma_lookup_unique(t: Seq<PhpFn>, k: int)
    requires
        names_unique(t),
        0 <= k < t.len(),
    ensures
        lookup(t, t[k].name) == Some(t[k].body_lines),
    decreases t.len(),
{
    if k < t.len() - 1 {
        let d = t.drop_last();
        assert(t[k].name != t[t.len() - 1].name);
        assert(names_unique(d));
        assert(d[k] == t[k]);
        lemma_lookup_unique(d, k);
    }
}

/// `f` has a previous entry in `old` at least as long as it.
pub open spec fn not_grown(old: Seq<PhpFn>, f: PhpFn) -> bool {
    match lookup(old, f.name) {
        Some(n) => f.body_lines <= n,
        None => false,
    }
}

/// Functions no longer than their previous entry are never reported.
proof fn lemma_no_growth_no_violation(u: Seq<PhpFn>, old: Seq<PhpFn>, base: int)
    requires
        forall|k: int| 0 <= k < u.len() ==> not_grown(old, #[trigger] u[k]),
    ensures
        php_violations(u, old, base).len() == 0,
    decreases u.len(),
{
    if u.len() > 0 {
        let d = u.drop_last();
        assert forall|k: int| 0 <= k < d.len() implies not_grown(old, #[trigger] d[k]) by {
            assert(d[k] == u[k]);
        }
        lemma_no_growth_no_violation(d, old, base);
        assert(not_grown(old, u[u.len() - 1]));
    }
}

/// A file checked against itself has no violations: a function that was
/// already over the limit may stay as long as it does not grow.
pub proof fn law_php_unchanged_source_has_no_violations(source: Seq<char>, base: int)
    ensures
        php_check(source, Some(source), base).len() == 0,
{
    let t = php_functions(lines(source));
    lemma_php_functions(lines(source));
    assert forall|k: int| 0 <= k < t.len() implies not_grown(t, #[trigger] t[k]) by {
        lemma_lookup_unique(t, k);
    }
    lemma_no_growth_no_violation(t, t, base);
}

/// Every report breaks its limit (the larger of `base` and its previous
/// length), names its previous length, and the reports come in line order.
proof fn lemma_php_violations(t: Seq<PhpFn>, old: Seq<PhpFn>, base: int)
    requires
        lines_increase(t),
    ensures
        forall|k: int|
            0 <= k < php_violations(t, old, base).len() ==> {
                let r = #[trigger] php_violations(t, old, base)[k];
                &&& r.body_lines > limit_for(r.old_body_lines, base)
                &&& r.old_body_lines == lookup(old, r.name)
                &&& t.len() > 0 && r.line <= t.last().line
            },
        report_lines_increase(php_violations(t, old, base)),
    decreases t.len(),
{
    if t.len() > 0 {
        let d = t.drop_last();
        assert(lines_increase(d));
        lemma_php_violations(d, old, base);
        let rest = php_violations(d, old, base);
        assert forall|k: int| 0 <= k < rest.len() implies #[trigger] rest[k].line < t.last().line by {
            assert(rest[k].line <= d.last().line);
            assert(d.last() == t[t.len() - 2]);
            assert(t[t.len() - 2].line < t[t.len() - 1].line);
        }
    }
}

/// Some report names line `line`.
pub open spec fn reported_at(rs: Seq<PhpReport>, line: int) -> bool {
    exists|j: int| 0 <= j < rs.len() && #[trigger] rs[j].line == line
}

/// `f` is longer than its limit: the base limit, or its previous length
/// when that was larger.
pub open spec fn over_limit(f: PhpFn, old: Seq<PhpFn>, base: int) -> bool {
    f.body_lines > limit_for(lookup(old, f.name), base)
}

proof fn lemma_reported_iff_over_limit(u: Seq<PhpFn>, old: Seq<PhpFn>, base: int, k: int)
    requires
        lines_increase(u),
        0 <= k < u.len(),
    ensures
        reported_at(php_violations(u, old, base), u[k].line) <==> over_limit(u[k], old, base),
    decreases u.len(),
{
    let d = u.drop_last();
    let last = u.last();
    assert(lines_increase(d));
    lemma_php_violations(d, old, base);
    let rest = php_violations(d, old, base);
    let all = php_violations(u, old, base);
    assert forall|j: int| 0 <= j < rest.len() implies #[trigger] rest[j].line < last.line by {
        assert(rest[j].line <= d.last().line);
        assert(d.last() == u[u.len() - 2]);
        assert(u[u.len() - 2].line < u[u.len() - 1].line);
    }
    if k < d.len() {
        lemma_reported_iff_over_limit(d, old, base, k);
        assert(d[k] == u[k]);
        assert(u[k].line < last.line);
        if reported_at(all, u[k].line) {
            let j = choose|j: int| 0 <= j < all.len() && #[trigger] all[j].line == u[k].line;
            if j < rest.len() {
                assert(all[j] == rest[j]);
            }
        }
        if reported_at(rest, u[k].line) {
            let j = choose|j: int| 0 <= j < rest.len() && #[trigger] rest[j].line == u[k].line;
            assert(all[j] == rest[j]);
        }
    } else {
        assert(u[k] == last);
        if over_limit(last, old, base) {
            assert(all[all.len() - 1].line == last.line);
        } else {
            assert(all == rest);
            if reported_at(all, last.line) {
                let j = choose|j: int| 0 <= j < all.len() && #[trigger] all[j].line == last.line;
                assert(rest[j].line < last.line);
            }
        }
    }
}

/// A function of the new file is reported exactly when it is longer than
/// its limit: a new function when it exceeds `base`, a function that was
/// already longer than `base` only when it grew.
pub proof fn law_php_function_reported_iff_over_limit(
    source: Seq<char>,
    old_source: Option<Seq<char>>,
    base: int,
    k: int,
)
    requires
        0 <= k < php_functions(lines(source)).len(),
    ensures
        reported_at(php_check(source, old_source, base), php_functions(lines(source))[k].line)
            <==> over_limit(
            php_functions(lines(source))[k],
            match old_source {
                Some(o) => php_functions(lines(o)),
                None => Seq::empty(),
            },
            base,
        ),
{
    lemma_php_functions(lines(source));
    let old = match old_source {
        Some(o) => php_functions(lines(o)),
        None => Seq::empty(),
    };
    lemma_reported_iff_over_limit(php_functions(lines(source)), old, base, k);
}

/// Each reported PHP function is longer than its limit: the base limit, or
/// its previous length when that was larger; the report names that previous
/// length; and the reports come in line order.
pub proof fn law_php_reports_break_limits_in_line_order(
    source: Seq<char>,
    old_source: Option<Seq<char>>,
    base: int,
)
    ensures
        forall|k: int|
            0 <= k < php_check(source, old_source, base).len() ==> {
                let r = #[trigger] php_check(source, old_source, base)[k];
                &&& r.body_lines > limit_for(r.old_body_lines, base)
                &&& r.old_body_lines == lookup(
                    match old_source {
                        Some(o) => php_functions(lines(o)),
                        None => Seq::empty(),
                    },
                    r.name,
                )
            },
        report_lines_increase(php_check(source, old_source, base)),
{
    lemma_php_functions(lines(source));
    let old = match old_source {
        Some(o) => php_functions(lines(o)),
        None => Seq::empty(),
    };
    lemma_php_violations(php_functions(lines(source)), old, base);
}

/// Each report repeats the name and line of an entry of `t`.
proof fn lemma_reports_from_table(t: Seq<PhpFn>, old: Seq<PhpFn>, base: int)
    ensures
        forall|k: int|
            0 <= k < php_violations(t, old, base).len() ==> exists|j: int|
                0 <= j < t.len() && t[j].name == (#[trigger] php_violations(t, old, base)[k]).name
                    && t[j].line == php_violations(t, old, base)[k].line,
    decreases t.len(),
{
    if t.len() > 0 {
        let d = t.drop_last();
        lemma_reports_from_table(d, old, base);
        let rest = php_violations(d, old, base);
        let all = php_violations(t, old, base);
        assert forall|k: int| 0 <= k < all.len() implies exists|j: int|
            0 <= j < t.len() && t[j].name == (#[trigger] all[k]).name && t[j].line
                == all[k].line by {
            if k < rest.len() {
                assert(all[k] == rest[k]);
                let j = choose|j: int|
                    0 <= j < d.len() && d[j].name == (#[trigger] rest[k]).name && d[j].line
                        == rest[k].line;
                assert(d[j] == t[j]);
            } else {
                assert(t[t.len() - 1] == t.last());
            }
        }
    }
}

/// No two PHP reports name the same function, and every report names a
/// line from 1 on.
pub proof fn law_php_reports_name_distinct_functions(
    source: Seq<char>,
    old_source: Option<Seq<char>>,
    base: int,
)
    ensures
        forall|a: int, b: int|
            0 <= a < b < php_check(source, old_source, base).len() ==> (#[trigger] php_check(
                source,
                old_source,
                base,
            )[a]).name != (#[trigger] php_check(source, old_source, base)[b]).name,
        forall|k: int|
            0 <= k < php_check(source, old_source, base).len() ==> (#[trigger] php_check(
                source,
                old_source,
                base,
            )[k]).line >= 1,
{
    let t = php_functions(lines(source));
    let old = match old_source {
        Some(o) => php_functions(lines(o)),
        None => Seq::empty(),
    };
    let rs = php_check(source, old_source, base);
    lemma_php_functions(lines(source));
    lemma_php_violations(t, old, base);
    lemma_reports_from_table(t, old, base);
    assert forall|a: int, b: int| 0 <= a < b < rs.len() implies (#[trigger] rs[a]).name != (
    #[trigger] rs[b]).name by {
        let ja = choose|j: int| 0 <= j < t.len() && t[j].name == (#[trigger] rs[a]).name && t[j].line == rs[a].line;
        let jb = choose|j: int| 0 <= j < t.len() && t[j].name == (#[trigger] rs[b]).name && t[j].line == rs[b].line;
        assert(rs[a].line < rs[b].line);
        if rs[a].name == rs[b].name {
            if ja < jb {
                assert(t[ja].name != t[jb].name);
            } else if jb < ja {
                assert(t[jb].name != t[ja].name);
            }
        }
    }
    assert forall|k: int| 0 <= k < rs.len() implies (#[trigger] rs[k]).line >= 1 by {
        let j = choose|j: int| 0 <= j < t.len() && t[j].name == (#[trigger] rs[k]).name && t[j].line == rs[k].line;
        assert(t[j].line >= 1);
    }
}

/// A previous version of the file only raises limits: every function
/// reported against an old source is reported, with the same name, line
/// and length, when the file is checked with no old source.
pub proof fn law_php_old_source_adds_no_report(source: Seq<char>, old_source: Seq<char>, base: int)
    ensures
        forall|k: int|
            0 <= k < php_check(source, Some(old_source), base).len() ==> exists|j: int|
                0 <= j < php_check(source, None, base).len() && php_check(source, None, base)[j].name
                    == (#[trigger] php_check(source, Some(old_source), base)[k]).name
                    && php_check(source, None, base)[j].line == php_check(
                    source,
                    Some(old_source),
                    base,
                )[k].line && php_check(source, None, base)[j].body_lines == php_check(
                    source,
                    Some(old_source),
                    base,
                )[k].body_lines,
{
    let t = php_functions(lines(source));
    let old = php_functions(lines(old_source));
    let none: Seq<PhpFn> = Seq::empty();
    let with_old = php_check(source, Some(old_source), base);
    let fresh = php_check(source, None, base);
    assert(with_old == php_violations(t, old, base));
    assert(fresh == php_violations(t, none, base));
    lemma_php_functions(lines(source));
    lemma_php_violations(t, old, base);
    lemma_php_violations(t, none, base);
    lemma_reports_from_table(t, old, base);
    lemma_reports_from_table(t, none, base);
    assert forall|k: int| 0 <= k < with_old.len() implies exists|j: int|
        0 <= j < fresh.len() && fresh[j].name == (#[trigger] with_old[k]).name && fresh[j].line
            == with_old[k].line && fresh[j].body_lines == with_old[k].body_lines by {
        let i = choose|j: int|
            0 <= j < t.len() && t[j].name == (#[trigger] with_old[k]).name && t[j].line
                == with_old[k].line;
        lemma_reported_iff_over_limit(t, old, base, i);
        lemma_reported_iff_over_limit(t, none, base, i);
        assert(reported_at(with_old, t[i].line));
        assert(over_limit(t[i], old, base));
        assert(lookup(none, t[i].name) is None);
        assert(over_limit(t[i], none, base));
        assert(reported_at(fresh, t[i].line));
        let j = choose|j: int| 0 <= j < fresh.len() && #[trigger] fresh[j].line == t[i].line;
        let i2 = choose|i2: int|
            0 <= i2 < t.len() && t[i2].name == (#[trigger] fresh[j]).name && t[i2].line
                == fresh[j].line;
        if i2 < i {
            assert(t[i2].line < t[i].line);
        } else if i < i2 {
            assert(t[i].line < t[i2].line);
        }
        lemma_report_lengths(t, old, base, k);
        lemma_report_lengths(t, none, base, j);
    }
}

/// A report's length is that of the entry of `t` on its line.
proof fn lemma_report_lengths(t: Seq<PhpFn>, old: Seq<PhpFn>, base: int, k: int)
    requires
        lines_increase(t),
        0 <= k < php_violations(t, old, base).len(),
    ensures
        exists|j: int|
            0 <= j < t.len() && t[j].line == php_violations(t, old, base)[k].line
                && t[j].body_lines == php_violations(t, old, base)[k].body_lines,
    decreases t.len(),
{
    let d = t.drop_last();
    let rest = php_violations(d, old, base);
    let all = php_violations(t, old, base);
    assert(lines_increase(d));
    if k < rest.len() {
        assert(all[k] == rest[k]);
        lemma_report_lengths(d, old, base, k);
        let j = choose|j: int|
            0 <= j < d.len() && d[j].line == rest[k].line && d[j].body_lines == rest[k].body_lines;
        assert(d[j] == t[j]);
    } else {
        assert(t[t.len() - 1] == t.last());
    }
}

// ---------------------------------------------------------------------------
// Executable parser
// ---------------------------------------------------------------------------

/// A named entry of the function table.
struct NamedFn {
    name: String,
    info: FnInfo,
}

#[derive(Debug)]
struct FnInfo {
    line: usize,
    body_lines: usize,
}

impl View for NamedFn {
    type V = PhpFn;

    closed spec fn view(&self) -> PhpFn {
        PhpFn {
            name: self.name@,
            line: self.info.line as int,
            body_lines: self.info.body_lines as int,
        }
    }
}

/// The views of a function table.
spec fn table_view(t: Seq<NamedFn>) -> Seq<PhpFn> {
    Seq::new(t.len(), |i: int| t[i]@)
}

/// The old source as text, if any.
pub open spec fn old_text(old_source: Option<&str>) -> Option<Seq<char>> {
    match old_source {
        Some(o) => Some(o@),
        None => None,
    }
}

/// Both sources can be read without a brace depth leaving `i32`.
pub open spec fn sources_fit(source: Seq<char>, old_source: Option<Seq<char>>) -> bool {
    &&& php_depth_fits(lines(source))
    &&& (old_source matches Some(o) ==> php_depth_fits(lines(o)))
}

/// The limit for the functions of a file.
pub open spec fn base_limit(is_test_file: bool) -> int {
    if is_test_file {
        TEST_BODY_LIMIT as int
    } else {
        BODY_LIMIT as int
    }
}

/// Parse PHP source and check against legacy-aware limits.
pub fn check(source: &str, old_source: Option<&str>) -> (r: Vec<Violation>)
    requires
        sources_fit(source@, old_text(old_source)),
    ensures
        php_reports(r@) == php_check(source@, old_text(old_source), BODY_LIMIT as int),
{
    check_with_test_flag(source, old_source, false)
}

/// [`check`] with the limit of test files when `is_test_file` holds.
pub fn check_with_test_flag(source: &str, old_source: Option<&str>, is_test_file: bool) -> (r: Vec<
    Violation,
>)
    requires
        sources_fit(source@, old_text(old_source)),
    ensures
        php_reports(r@) == php_check(source@, old_text(old_source), base_limit(is_test_file)),
{
    match try_check_with_test_flag(source, old_source, is_test_file) {
        Some(r) => r,
        None => {
            proof {
                assert(false);
            }
            Vec::new()
        },
    }
}

/// [`check_with_test_flag`], or `None` when a brace depth would leave `i32`
/// while reading either source.
pub fn try_check_with_test_flag(source: &str, old_source: Option<&str>, is_test_file: bool) -> (r:
    Option<Vec<Violation>>)
    ensures
        r is Some <==> sources_fit(source@, old_text(old_source)),
        r matches Some(v) ==> php_reports(v@) == php_check(
            source@,
            old_text(old_source),
            base_limit(is_test_file),
        ),
{
    let fns = match parse_functions(source) {
        Some(t) => t,
        None => return None,
    };
    let old_fns = match old_source {
        Some(o) => match parse_functions(o) {
            Some(t) => t,
            None => return None,
        },
        None => Vec::new(),
    };
    assert(table_view(old_fns@) == match old_text(old_source) {
        Some(o) => php_functions(lines(o)),
        None => Seq::<PhpFn>::empty(),
    });
    let base = if is_test_file {
        TEST_BODY_LIMIT
    } else {
        BODY_LIMIT
    };
    Some(collect_violations(fns, old_fns, base))
}

fn collect_violations(fns: Vec<NamedFn>, old_fns: Vec<NamedFn>, base: usize) -> (r: Vec<
    Violation,
>)
    ensures
        php_reports(r@) == php_violations(table_view(fns@), table_view(old_fns@), base as int),
{
    let ghost t = table_view(fns@);
    let ghost old = table_view(old_fns@);
    let mut violations: Vec<Violation> = Vec::new();
    let mut k: usize = 0;
    while k < fns.len()
        invariant
            k <= fns.len(),
            t == table_view(fns@),
            old == table_view(old_fns@),
            php_reports(violations@) == php_violations(t.take(k as int), old, base as int),
        decreases fns.len() - k,
    {
        let entry = &fns[k];
        assert(t.take(k + 1).drop_last() =~= t.take(k as int));
        assert(t.take(k + 1).last() == entry@);
        let old_len = lookup_body(&old_fns, &entry.name);
        let limit = match old_len {
            Some(l) => if l > base {
                l
            } else {
                base
            },
            None => base,
        };
        if entry.info.body_lines > limit {
            let ghost before = php_reports(violations@);
            violations.push(
                Violation {
                    name: entry.name.clone(),
                    line: entry.info.line,
                    body_lines: entry.info.body_lines,
                    old_body_lines: old_len,
                },
            );
            assert(php_reports(violations@) =~= before.push(violations@.last()@));
        }
        k += 1;
    }
    assert(t.take(fns.len() as int) =~= t);
    violations
}

/// Body length recorded for `name` in the table.
fn lookup_body(t: &Vec<NamedFn>, name: &String) -> (r: Option<usize>)
    ensures
        r matches Some(n) ==> lookup(table_view(t@), name@) == Some(n as int),
        r is None ==> lookup(table_view(t@), name@) is None,
{
    let ghost tv = table_view(t@);
    let mut k = t.len();
    assert(tv.take(t.len() as int) =~= tv);
    while k > 0
        invariant
            k <= t.len(),
            tv == table_view(t@),
            lookup(tv, name@) == lookup(tv.take(k as int), name@),
        decreases k,
    {
        assert(tv.take(k as int).drop_last() =~= tv.take(k - 1));
        assert(tv.take(k as int).last() == t@[k - 1]@);
        if t[k - 1].name == *name {
            return Some(t[k - 1].info.body_lines);
        }
        k -= 1;
    }
    assert(tv.take(0) =~= Seq::<PhpFn>::empty());
    None
}

/// `t` without the entries named `name`.
fn without_name(t: &Vec<NamedFn>, name: &String) -> (r: Vec<NamedFn>)
    ensures
        table_view(r@) == remove_name(table_view(t@), name@),
{
    let ghost tv = table_view(t@);
    let mut r: Vec<NamedFn> = Vec::new();
    let mut k: usize = 0;
    while k < t.len()
        invariant
            k <= t.len(),
            tv == table_view(t@),
            table_view(r@) == remove_name(tv.take(k as int), name@),
        decreases t.len() - k,
    {
        assert(tv.take(k + 1).drop_last() =~= tv.take(k as int));
        assert(tv.take(k + 1).last() == t@[k as int]@);
        if t[k].name != *name {
            let ghost before = table_view(r@);
            r.push(
                NamedFn {
                    name: t[k].name.clone(),
                    info: FnInfo { line: t[k].info.line, body_lines: t[k].info.body_lines },
                },
            );
            assert(table_view(r@) =~= before.push(t@[k as int]@));
        }
        k += 1;
    }
    assert(tv.take(t.len() as int) =~= tv);
    r
}

/// Parse all functions from PHP source into a table with one entry per
/// name, or `None` when a brace depth would leave `i32`.
fn parse_functions(source: &str) -> (t: Option<Vec<NamedFn>>)
    ensures
        t is Some <==> php_depth_fits(lines(source@)),
        t matches Some(v) ==> table_view(v@) == php_functions(lines(source@)),
{
    let chars = chars_of(source);
    let lines = split_lines(&chars);
    let ghost ls = views(lines@);
    let mut result: Vec<NamedFn> = Vec::new();
    let ghost mut found: Seq<PhpFn> = Seq::empty();
    let mut i: usize = 0;
    let mut in_bc = false;

    while i < lines.len()
        invariant
            ls == views(lines@),
            ls == crate::text::lines(source@),
            table_view(result@) == fn_table(found),
            found + php_fns_from(ls, i as int, in_bc) == php_fns_from(ls, 0, false),
            php_depth_fits(ls) == php_fns_fit_from(ls, i as int, in_bc),
        decreases lines.len() + 1 - i,
    {
        let line = &lines[i];
        assert(ls[i as int] == line@);
        if let Some((name, fn_line)) = extract_php_fn_name_chars(line, i, in_bc) {
            // Find opening brace
            if let Some(open_idx) = find_opening_brace(&lines, i) {
                proof {
                    lemma_opening_brace_php(ls, i as int);
                    lemma_php_body_close(ls, open_idx as int, 0, php_line_start(false), 0);
                }
                let (body_lines, close_idx) = match count_body(&lines, open_idx) {
                    Some(measured) => measured,
                    None => {
                        assert(!php_fns_fit_from(ls, i as int, in_bc));
                        return None;
                    },
                };
                let entry = NamedFn { name, info: FnInfo { line: fn_line, body_lines } };
                let ghost f = entry@;
                let kept = without_name(&result, &entry.name);
                result = kept;
                let ghost before = table_view(result@);
                result.push(entry);
                assert(table_view(result@) =~= before.push(f));
                proof {
                    assert(found.push(f).drop_last() =~= found);
                    found = found.push(f);
                    assert(found + php_fns_from(ls, close_idx + 1, in_bc) =~= found.drop_last()
                        + php_fns_from(ls, i as int, in_bc));
                }
                i = close_idx + 1;
                continue;
            }
        }
        let ghost bc0 = in_bc;
        if !update_block_comment_state(line, &mut in_bc) {
            assert(!php_fns_fit_from(ls, i as int, bc0));
            return None;
        }
        i += 1;
    }
    assert(php_fns_from(ls, i as int, in_bc) =~= Seq::<PhpFn>::empty());
    assert(found =~= php_fns_from(ls, 0, false));
    Some(result)
}

/// Extract PHP function name from a line containing `function <name>`.
pub fn extract_php_fn_name(line: &str, line_idx: usize, in_bc: bool) -> (r: Option<
    (String, usize),
>)
    requires
        php_fn_name_on(line@, line_idx as int, in_bc) is Some ==> line_idx < usize::MAX,
    ensures
        match php_fn_name_on(line@, line_idx as int, in_bc) {
            Some((name, k)) => r matches Some((n, l)) && n@ == name && l == k,
            None => r is None,
        },
{
    let chars = chars_of(line);
    extract_php_fn_name_chars(&chars, line_idx, in_bc)
}

/// [`extract_php_fn_name`] on the characters of a line.
fn extract_php_fn_name_chars(line: &[char], line_idx: usize, in_bc: bool) -> (r: Option<
    (String, usize),
>)
    requires
        php_fn_name_on(line@, line_idx as int, in_bc) is Some ==> line_idx < usize::MAX,
    ensures
        match php_fn_name_on(line@, line_idx as int, in_bc) {
            Some((name, k)) => r matches Some((n, l)) && n@ == name && l == k,
            None => r is None,
        },
{
    if in_bc {
        return None;
    }
    let trimmed_line = trimmed(line);
    let slash2: [char; 2] = ['/', '/'];
    let star: [char; 1] = ['*'];
    let open: [char; 2] = ['/', '*'];
    assert(slash2@ == seq!['/', '/']);
    assert(star@ == seq!['*']);
    assert(open@ == seq!['/', '*']);
    if starts_with_chars(&trimmed_line, &slash2) || starts_with_chars(&trimmed_line, &star)
        || starts_with_chars(&trimmed_line, &open) {
        return None;
    }
    let keyword: [char; 9] = ['f', 'u', 'n', 'c', 't', 'i', 'o', 'n', ' '];
    assert(keyword@ == function_keyword());
    let pos = match find_keyword_position(&trimmed_line, &keyword) {
        Some(p) => p,
        None => return None,
    };
    let rest = slice_copy(&trimmed_line, pos + 9, trimmed_line.len());
    assert(rest@ =~= trimmed_line@.skip(pos + 9));
    // Skip `&` for reference returns
    let after = trimmed(&stripped_leading(&rest, '&'));
    let name_end = leading_name_len(&after);
    proof {
        crate::text::lemma_name_len_bounds(after@, 0);
    }
    if name_end == 0 {
        return None;
    }
    let name = slice_copy(&after, 0, name_end);
    assert(name@ =~= leading_name(after@));
    Some((string_of(&name), line_idx + 1))
}

/// First position of `keyword` on `line` before any comment or string literal.
fn find_keyword_position(line: &[char], keyword: &[char]) -> (r: Option<usize>)
    ensures
        r matches Some(k) ==> keyword_position(line@, keyword@, true) == Some(k as int),
        r is None ==> keyword_position(line@, keyword@, true) is None,
        r matches Some(k) ==> k + keyword.len() <= line.len(),
{
    let keyword_pos = match find_in(line, keyword) {
        Some(k) => k,
        None => return None,
    };
    let m1: [char; 2] = ['/', '/'];
    let m2: [char; 2] = ['/', '*'];
    let m3: [char; 1] = ['"'];
    let m4: [char; 1] = ['\''];
    let m5: [char; 1] = ['#'];
    assert(m1@ == seq!['/', '/']);
    assert(m2@ == seq!['/', '*']);
    assert(m3@ == seq!['"']);
    assert(m4@ == seq!['\'']);
    assert(m5@ == seq!['#']);
    let a = found_or_len_exec(line, &m1);
    let b = found_or_len_exec(line, &m2);
    let c = found_or_len_exec(line, &m3);
    let d = found_or_len_exec(line, &m4);
    let e = found_or_len_exec(line, &m5);
    let mut stop_pos = a;
    if b < stop_pos {
        stop_pos = b;
    }
    if c < stop_pos {
        stop_pos = c;
    }
    if d < stop_pos {
        stop_pos = d;
    }
    if e < stop_pos {
        stop_pos = e;
    }
    if keyword_pos < stop_pos {
        Some(keyword_pos)
    } else {
        None
    }
}

/// Find the `{` that opens a function body, scanning up to 10 lines forward.
fn find_opening_brace(lines: &[Vec<char>], start: usize) -> (r: Option<usize>)
    requires
        start < lines.len(),
    ensures
        r matches Some(k) ==> opening_brace(views(lines@), start as int) == Some(k as int),
        r is None ==> opening_brace(views(lines@), start as int) is None,
{
    let ghost ls = views(lines@);
    let end = if lines.len() - start < BRACE_LOOKAHEAD_LINES {
        lines.len()
    } else {
        start + BRACE_LOOKAHEAD_LINES
    };
    let mut index = start;
    while index < end
        invariant
            start <= index <= end <= lines.len(),
            ls == views(lines@),
            end == (if ls.len() < start + 10 {
                ls.len() as int
            } else {
                start + 10
            }),
            brace_from(ls, index as int, end as int) == opening_brace(ls, start as int),
        decreases end - index,
    {
        assert(ls[index as int] == lines@[index as int]@);
        if contains_char(&lines[index], '{') {
            return Some(index);
        }
        index += 1;
    }
    None
}

/// Count countable body lines inside the brace block starting at `open_line`,
/// or `None` when the depth would leave `i32`.
fn count_body(lines: &[Vec<char>], open_line: usize) -> (r: Option<(usize, usize)>)
    requires
        open_line < lines.len(),
    ensures
        r is Some <==> php_body_fits(views(lines@), open_line as int, 0, php_line_start(false)),
        r matches Some(m) ==> (m.0 as int, m.1 as int) == php_body_of(
            views(lines@),
            open_line as int,
        ),
{
    let ghost ls = views(lines@);
    let mut depth: i32 = 0;
    let mut body_count: usize = 0;
    let mut in_bc = false;
    let mut in_string = false;
    let mut string_char = '"';
    let mut offset: usize = 0;
    while open_line + offset < lines.len()
        invariant
            open_line < lines.len(),
            ls == views(lines@),
            open_line + offset <= lines.len(),
            body_count <= offset,
            php_body_from(
                ls,
                open_line as int,
                offset as int,
                PhpScan { depth: depth as int, in_block_comment: in_bc, in_string, string_char },
                body_count as int,
            ) == php_body_of(ls, open_line as int),
            php_body_fits(
                ls,
                open_line as int,
                offset as int,
                PhpScan { depth: depth as int, in_block_comment: in_bc, in_string, string_char },
            ) == php_body_fits(ls, open_line as int, 0, php_line_start(false)),
        decreases lines.len() - (open_line + offset),
    {
        let idx = open_line + offset;
        let line = &lines[idx];
        assert(ls[idx as int] == line@);
        let bc_before = in_bc;
        let rose = match update_depth(line, &mut depth, &mut in_bc, &mut in_string, &mut string_char) {
            Some(rose) => rose,
            None => return None,
        };

        if offset > 0 && depth > 0 {
            let mut bc_clone = bc_before;
            if is_countable_chars(line, &mut bc_clone) {
                body_count += 1;
            }
        }

        if depth == 0 && (offset > 0 || rose) {
            return Some((body_count, idx));
        }
        offset += 1;
    }
    let last = if lines.len() > 0 {
        lines.len() - 1
    } else {
        0
    };
    Some((body_count, last))
}

/// Scans one line, updating depth, block-comment and string state, and
/// answers whether the depth rose above 0 on the line; `None` when the depth
/// would leave `i32`.
fn update_depth(
    line: &[char],
    depth: &mut i32,
    in_bc: &mut bool,
    in_string: &mut bool,
    string_char: &mut char,
) -> (r: Option<bool>)
    ensures
        r is Some == php_scan_fits(
            PhpScan {
                depth: *old(depth) as int,
                in_block_comment: *old(in_bc),
                in_string: *old(in_string),
                string_char: *old(string_char),
            },
            line@,
        ),
        r matches Some(rose) ==> rose == php_rises_from(
            PhpScan {
                depth: *old(depth) as int,
                in_block_comment: *old(in_bc),
                in_string: *old(in_string),
                string_char: *old(string_char),
            },
            line@,
            0,
        ),
        r is Some ==> (PhpScan {
            depth: *final(depth) as int,
            in_block_comment: *final(in_bc),
            in_string: *final(in_string),
            string_char: *final(string_char),
        }) == php_scan(
            PhpScan {
                depth: *old(depth) as int,
                in_block_comment: *old(in_bc),
                in_string: *old(in_string),
                string_char: *old(string_char),
            },
            line@,
        ),
{
    let ghost s = line@;
    let mut d: i32 = *depth;
    let mut bc: bool = *in_bc;
    let mut st: bool = *in_string;
    let mut sc: char = *string_char;
    let ghost start = PhpScan { depth: d as int, in_block_comment: bc, in_string: st, string_char: sc };
    let ghost target = php_scan(start, s);
    let ghost fits = php_scan_fits(start, s);
    let ghost target_rose = php_rises_from(start, s, 0);
    let mut rose = false;
    let mut j: usize = 0;
    while j < line.len()
        invariant_except_break
            php_scan_from(
                PhpScan { depth: d as int, in_block_comment: bc, in_string: st, string_char: sc },
                s,
                j as int,
            ) == target,
            php_scan_fits_from(
                PhpScan { depth: d as int, in_block_comment: bc, in_string: st, string_char: sc },
                s,
                j as int,
            ) == fits,
            (rose || php_rises_from(
                PhpScan { depth: d as int, in_block_comment: bc, in_string: st, string_char: sc },
                s,
                j as int,
            )) == target_rose,
            j <= line.len(),
        invariant
            s == line@,
            start == (PhpScan {
                depth: *depth as int,
                in_block_comment: *in_bc,
                in_string: *in_string,
                string_char: *string_char,
            }),
            fits == php_scan_fits(start, s),
            target_rose == php_rises_from(start, s, 0),
        ensures
            fits,
            rose == target_rose,
            (PhpScan { depth: d as int, in_block_comment: bc, in_string: st, string_char: sc })
                == target,
        decreases line.len() - j,
    {
        let c = line[j];
        if bc {
            if j + 1 < line.len() && c == '*' && line[j + 1] == '/' {
                bc = false;
                j += 2;
                continue;
            }
        } else if st {
            if c == '\\' {
                let ghost before = j as int;
                let ghost cur = PhpScan {
                    depth: d as int,
                    in_block_comment: bc,
                    in_string: st,
                    string_char: sc,
                };
                if j + 1 < line.len() {
                    j += 2;
                } else {
                    j = line.len();
                }
                assert(php_scan_from(cur, s, before + 2) == php_scan_from(cur, s, j as int));
                assert(php_scan_fits_from(cur, s, before + 2) == php_scan_fits_from(
                    cur,
                    s,
                    j as int,
                ));
                assert(php_rises_from(cur, s, before + 2) == php_rises_from(cur, s, j as int));
                continue;
            }
            if c == sc {
                st = false;
            }
        } else if j + 1 < line.len() && c == '/' && line[j + 1] == '*' {
            bc = true;
            j += 2;
            continue;
        } else if j + 1 < line.len() && c == '/' && line[j + 1] == '/' {
            break;
        } else if c == '#' {
            break;  // PHP single-line comment
        } else if c == '"' || c == '\'' {
            st = true;
            sc = c;
        } else if c == '{' {
            if d == i32::MAX {
                assert(!php_scan_fits_from(
                    PhpScan { depth: d as int, in_block_comment: bc, in_string: st, string_char: sc },
                    s,
                    j as int,
                ));
                return None;
            }
            d += 1;
            if d > 0 {
                rose = true;
            }
        } else if c == '}' {
            if d == i32::MIN {
                assert(!php_scan_fits_from(
                    PhpScan { depth: d as int, in_block_comment: bc, in_string: st, string_char: sc },
                    s,
                    j as int,
                ));
                return None;
            }
            d -= 1;
        }
        j += 1;
    }
    *depth = d;
    *in_bc = bc;
    *in_string = st;
    *string_char = sc;
    Some(rose)
}

/// Update block-comment state for a line (used outside fn parsing); `false`
/// when the depth would leave `i32`.
fn update_block_comment_state(line: &[char], in_bc: &mut bool) -> (ok: bool)
    ensures
        ok == php_block_fits(line@, *old(in_bc)),
        ok ==> *final(in_bc) == php_block_comment_after(line@, *old(in_bc)),
{
    let mut dummy: i32 = 0;
    let mut dummy_str = false;
    let mut dummy_char = '"';
    match update_depth(line, &mut dummy, in_bc, &mut dummy_str, &mut dummy_char) {
        Some(_) => true,
        None => false,
    }
}

} // verus!
