//! Finds Rust functions whose bodies are too long or too deeply nested.
use vstd::prelude::*;

use crate::brace_scan::BraceScanState;
use crate::lines::{countable, is_countable_chars};
use crate::text::{
    chars_eq, chars_of, contains_char, find, find_in, leading_name, leading_name_len, lines,
    slice_copy, split_lines, starts_with, starts_with_chars, string_of, trim, trimmed, views,
};

verus! {

pub const BODY_LIMIT: usize = 30;

pub const TEST_BODY_LIMIT: usize = 200;

pub const FILE_LINE_LIMIT: usize = 750;

pub const NESTING_LIMIT: usize = 4;

const BRACE_LOOKAHEAD_LINES: usize = 10;

const OPEN_BRACE: char = '{';

/// A function found in a Rust file, with its measured body.
#[derive(Debug)]
pub struct Violation {
    pub name: String,
    pub line: usize,
    pub body_lines: usize,
    pub is_test: bool,
    pub max_nesting: usize,
}

/// What a [`Violation`] holds, as mathematical values.
pub struct FnReport {
    pub name: Seq<char>,
    pub line: int,
    pub body_lines: int,
    pub is_test: bool,
    pub max_nesting: int,
}

impl View for Violation {
    type V = FnReport;

    open spec fn view(&self) -> FnReport {
        FnReport {
            name: self.name@,
            line: self.line as int,
            body_lines: self.body_lines as int,
            is_test: self.is_test,
            max_nesting: self.max_nesting as int,
        }
    }
}

/// The functions of a file that break a limit, and the file's line count.
pub struct RustViolations {
    pub fn_violations: Vec<Violation>,
    pub file_lines: usize,
}

/// The views of a list of violations.
pub open spec fn reports(v: Seq<Violation>) -> Seq<FnReport> {
    Seq::new(v.len(), |i: int| v[i]@)
}

// ---------------------------------------------------------------------------
// Function headers
// ---------------------------------------------------------------------------

/// Position of the first occurrence of `p` in `line`, or the line's length.
pub open spec fn found_or_len(line: Seq<char>, p: Seq<char>) -> int {
    match find(line, p) {
        Some(k) => k,
        None => line.len() as int,
    }
}

/// Where a comment or a string literal could begin on `line`: the first
/// `//`, `/*`, `"` or `'` (and `#` when `hash` holds), or the line's length.
pub open spec fn stop_position(line: Seq<char>, hash: bool) -> int {
    let a = found_or_len(line, seq!['/', '/']);
    let b = found_or_len(line, seq!['/', '*']);
    let c = found_or_len(line, seq!['"']);
    let d = found_or_len(line, seq!['\'']);
    let e = if hash {
        found_or_len(line, seq!['#'])
    } else {
        line.len() as int
    };
    let m1 = if a < b {
        a
    } else {
        b
    };
    let m2 = if m1 < c {
        m1
    } else {
        c
    };
    let m3 = if m2 < d {
        m2
    } else {
        d
    };
    if m3 < e {
        m3
    } else {
        e
    }
}

/// The first position of `keyword` on `line` when it stands before any
/// comment or string literal.
pub open spec fn keyword_position(line: Seq<char>, keyword: Seq<char>, hash: bool) -> Option<
    int,
> {
    match find(line, keyword) {
        Some(k) => if k < stop_position(line, hash) {
            Some(k)
        } else {
            None
        },
        None => None,
    }
}

/// `fn `
pub open spec fn fn_keyword() -> Seq<char> {
    seq!['f', 'n', ' ']
}

/// A trimmed line that starts as a comment: `//`, `*` or `/*`.
pub open spec fn comment_start(t: Seq<char>) -> bool {
    starts_with(t, seq!['/', '/']) || starts_with(t, seq!['*']) || starts_with(t, seq!['/', '*'])
}

/// The name declared by a `fn` on `line` (index `idx`), with that index.
pub open spec fn fn_name_on(line: Seq<char>, idx: int) -> Option<(Seq<char>, int)> {
    let t = trim(line);
    if comment_start(t) {
        None
    } else {
        match keyword_position(t, fn_keyword(), false) {
            Some(pos) => {
                let name = leading_name(t.skip(pos + 3));
                if name.len() == 0 {
                    None
                } else {
                    Some((name, idx))
                }
            },
            None => None,
        }
    }
}

/// `#[test]`
pub open spec fn test_attr() -> Seq<char> {
    seq!['#', '[', 't', 'e', 's', 't', ']']
}

/// `#[tokio::test]`
pub open spec fn tokio_test_attr() -> Seq<char> {
    seq!['#', '[', 't', 'o', 'k', 'i', 'o', ':', ':', 't', 'e', 's', 't', ']']
}

/// Walking up from line `idx` over blank lines and attributes, a test
/// attribute is met before anything else.
pub open spec fn test_attr_before(ls: Seq<Seq<char>>, idx: int) -> bool
    decreases idx,
{
    if idx <= 0 || idx > ls.len() {
        false
    } else {
        let t = trim(ls[idx - 1]);
        if t.len() == 0 {
            test_attr_before(ls, idx - 1)
        } else if t == test_attr() || t == tokio_test_attr() {
            true
        } else if !starts_with(t, seq!['#']) {
            false
        } else {
            test_attr_before(ls, idx - 1)
        }
    }
}

/// Line `k` is passed over when walking up to a function's attributes:
/// blank after trimming, or an attribute line starting with `#`.
pub open spec fn attribute_or_blank(ls: Seq<Seq<char>>, k: int) -> bool {
    trim(ls[k]).len() == 0 || starts_with(trim(ls[k]), seq!['#'])
}

/// A function whose line is preceded by `#[test]` or `#[tokio::test]`, with
/// only blank and attribute lines (such as `#[should_panic]`) in between,
/// is a test; nothing else is.
pub proof fn law_test_attr_found_across_attributes(ls: Seq<Seq<char>>, idx: int)
    requires
        0 <= idx <= ls.len(),
    ensures
        test_attr_before(ls, idx) <==> exists|j: int|
            0 <= j < idx && (trim(ls[j]) == test_attr() || trim(ls[j]) == tokio_test_attr())
                && forall|k: int| j < k < idx ==> #[trigger] attribute_or_blank(ls, k),
    decreases idx,
{
    if idx > 0 {
        law_test_attr_found_across_attributes(ls, idx - 1);
        let t = trim(ls[idx - 1]);
        let found = exists|j: int|
            0 <= j < idx && (trim(ls[j]) == test_attr() || trim(ls[j]) == tokio_test_attr())
                && forall|k: int| j < k < idx ==> #[trigger] attribute_or_blank(ls, k);
        let found_before = exists|j: int|
            0 <= j < idx - 1 && (trim(ls[j]) == test_attr() || trim(ls[j]) == tokio_test_attr())
                && forall|k: int| j < k < idx - 1 ==> #[trigger] attribute_or_blank(ls, k);
        if t == test_attr() || t == tokio_test_attr() {
            assert(found) by {
                assert(forall|k: int| idx - 1 < k < idx ==> #[trigger] attribute_or_blank(ls, k));
            }
        } else if attribute_or_blank(ls, idx - 1) {
            if found_before {
                let j = choose|j: int|
                    0 <= j < idx - 1 && (trim(ls[j]) == test_attr() || trim(ls[j])
                        == tokio_test_attr()) && forall|k: int|
                        j < k < idx - 1 ==> #[trigger] attribute_or_blank(ls, k);
                assert(forall|k: int| j < k < idx ==> #[trigger] attribute_or_blank(ls, k));
            }
            if found {
                let j = choose|j: int|
                    0 <= j < idx && (trim(ls[j]) == test_attr() || trim(ls[j])
                        == tokio_test_attr()) && forall|k: int|
                        j < k < idx ==> #[trigger] attribute_or_blank(ls, k);
                assert(j != idx - 1);
                assert(forall|k: int| j < k < idx - 1 ==> #[trigger] attribute_or_blank(ls, k));
            }
        } else {
            if found {
                let j = choose|j: int|
                    0 <= j < idx && (trim(ls[j]) == test_attr() || trim(ls[j])
                        == tokio_test_attr()) && forall|k: int|
                        j < k < idx ==> #[trigger] attribute_or_blank(ls, k);
                assert(j != idx - 1) by {
                    if j == idx - 1 {
                        assert(t.len() > 0 && t[0] == '#');
                    }
                }
                assert(attribute_or_blank(ls, idx - 1));
            }
        }
    }
}

/// First line in `ls[i..end]` that holds a `{`.
pub open spec fn brace_from(ls: Seq<Seq<char>>, i: int, end: int) -> Option<int>
    decreases end - i,
{
    if i >= end || i < 0 || i >= ls.len() {
        None
    } else if ls[i].contains('{') {
        Some(i)
    } else {
        brace_from(ls, i + 1, end)
    }
}

/// The line that opens a body declared at `start`: the first of the ten
/// lines from `start` on that holds a `{`.
pub open spec fn opening_brace(ls: Seq<Seq<char>>, start: int) -> Option<int> {
    let end = if ls.len() < start + 10 {
        ls.len() as int
    } else {
        start + 10
    };
    brace_from(ls, start, end)
}

pub proof fn lemma_brace_from(ls: Seq<Seq<char>>, i: int, end: int)
    ensures
        brace_from(ls, i, end) matches Some(k) ==> i <= k < end && 0 <= k < ls.len(),
    decreases end - i,
{
    if i >= end || i < 0 || i >= ls.len() {
    } else if ls[i].contains('{') {
    } else {
        lemma_brace_from(ls, i + 1, end);
    }
}

// ---------------------------------------------------------------------------
// Body measurement
// ---------------------------------------------------------------------------

/// The state after reading one line from a fresh depth: whether a block
/// comment is open after it.
pub open spec fn block_comment_after(line: Seq<char>, in_block_comment: bool) -> bool {
    BraceScanState { depth: 0, in_block_comment, string_delimiter: None }.scan(
        line,
        false,
    ).in_block_comment
}

/// Nesting below the body itself: `max_depth - 1`, never negative.
pub open spec fn nesting_of(max_depth: int) -> int {
    if max_depth - 1 > 0 {
        max_depth - 1
    } else {
        0
    }
}

/// Running totals of a body scan.
pub struct BodyAcc {
    pub body_lines: int,
    pub max_depth: int,
    pub state: BraceScanState,
}

/// The step of a body scan over `line`, the `offset`-th line from the one
/// holding the opening brace.
pub open spec fn body_step(acc: BodyAcc, line: Seq<char>, offset: int) -> BodyAcc {
    let st = acc.state.scan(line, false);
    let counted = offset > 0 && st.depth > 0 && countable(line, acc.state.in_block_comment).0;
    BodyAcc {
        body_lines: acc.body_lines + if counted {
            1int
        } else {
            0int
        },
        max_depth: if acc.max_depth < st.depth {
            st.depth as int
        } else {
            acc.max_depth
        },
        state: st,
    }
}

/// The body closes on `line`, the `offset`-th line from the opening one:
/// the depth is back to 0, and on the opening line itself only when that
/// line took the depth above 0 (a `{` in a comment or a string opens nothing).
pub open spec fn body_closes(acc: BodyAcc, line: Seq<char>, offset: int) -> bool {
    acc.state.scan(line, false).depth == 0 && (offset > 0 || acc.state.rises_from(line, 0, false))
}

/// Scanning the body that opens on line `open` from its `offset`-th line:
/// counted body lines, deepest depth, and the line where the body closes
/// (or the last line when it never closes).
pub open spec fn body_from(ls: Seq<Seq<char>>, open: int, offset: int, acc: BodyAcc) -> (
    int,
    int,
    int,
)
    decreases ls.len() - (open + offset),
{
    if open < 0 || offset < 0 || open + offset >= ls.len() {
        (acc.body_lines, acc.max_depth, if ls.len() > 0 {
            ls.len() - 1
        } else {
            0
        })
    } else {
        let next = body_step(acc, ls[open + offset], offset);
        if body_closes(acc, ls[open + offset], offset) {
            (next.body_lines, next.max_depth, open + offset)
        } else {
            body_from(ls, open, offset + 1, next)
        }
    }
}

/// `(body lines, nesting, closing line)` of the body opening on line `open`.
pub open spec fn body_of(ls: Seq<Seq<char>>, open: int) -> (int, int, int) {
    let r = body_from(ls, open, 0, body_start());
    (r.0, nesting_of(r.1), r.2)
}

/// The scanner state before line `k`, having read the lines `open..k` from
/// the start state.
pub open spec fn state_before(ls: Seq<Seq<char>>, open: int, k: int) -> BraceScanState
    decreases k - open,
{
    if k <= open {
        BraceScanState::start()
    } else {
        state_before(ls, open, k - 1).scan(ls[k - 1], false)
    }
}

/// Line `k` of the body opening on line `open` ends it: after it the depth
/// is back to 0, and when `k` is the opening line, that line took the depth
/// above 0.
pub open spec fn ends_body_at(ls: Seq<Seq<char>>, open: int, k: int) -> bool {
    state_before(ls, open, k + 1).depth == 0 && (k > open || BraceScanState::start().rises_from(
        ls[open],
        0,
        false,
    ))
}

/// Line `k` of the body opening on line `open` is a counted body line: it is
/// past the opening line, the depth after it is above 0, and it counts given
/// the block-comment state before it.
pub open spec fn counted_body_line(ls: Seq<Seq<char>>, open: int, k: int) -> bool {
    k > open && state_before(ls, open, k + 1).depth > 0 && countable(
        ls[k],
        state_before(ls, open, k).in_block_comment,
    ).0
}

/// Number of counted body lines among `open..b`.
pub open spec fn counted_lines(ls: Seq<Seq<char>>, open: int, b: int) -> int
    decreases b - open,
{
    if b <= open {
        0
    } else {
        counted_lines(ls, open, b - 1) + if counted_body_line(ls, open, b - 1) {
            1int
        } else {
            0int
        }
    }
}

/// Deepest depth after any of the lines `open..b` (0 when none goes deeper).
pub open spec fn deepest(ls: Seq<Seq<char>>, open: int, b: int) -> int
    decreases b - open,
{
    if b <= open {
        0
    } else {
        let d = state_before(ls, open, b).depth as int;
        let rest = deepest(ls, open, b - 1);
        if rest < d {
            d
        } else {
            rest
        }
    }
}

proof fn lemma_body_from_lines(ls: Seq<Seq<char>>, open: int, offset: int, acc: BodyAcc)
    requires
        0 <= open < ls.len(),
        0 <= offset,
        open + offset <= ls.len(),
        acc.state == state_before(ls, open, open + offset),
        acc.body_lines == counted_lines(ls, open, open + offset),
        acc.max_depth == deepest(ls, open, open + offset),
        forall|k: int| open <= k < open + offset ==> !#[trigger] ends_body_at(ls, open, k),
    ensures
        ({
            let r = body_from(ls, open, offset, acc);
            &&& open <= r.2 < ls.len()
            &&& forall|k: int| open <= k < r.2 ==> !#[trigger] ends_body_at(ls, open, k)
            &&& (ends_body_at(ls, open, r.2) || r.2 == ls.len() - 1)
            &&& r.0 == counted_lines(ls, open, r.2 + 1)
            &&& r.1 == deepest(ls, open, r.2 + 1)
        }),
    decreases ls.len() - (open + offset),
{
    let i = open + offset;
    if i >= ls.len() {
        assert(offset > 0);
        assert(i == ls.len());
    } else {
        let next = body_step(acc, ls[i], offset);
        assert(state_before(ls, open, i + 1) == acc.state.scan(ls[i], false));
        assert(body_closes(acc, ls[i], offset) == ends_body_at(ls, open, i));
        assert(counted_body_line(ls, open, i) == (offset > 0 && next.state.depth > 0 && countable(
            ls[i],
            acc.state.in_block_comment,
        ).0));
        if !body_closes(acc, ls[i], offset) {
            assert forall|k: int| open <= k < i + 1 implies !#[trigger] ends_body_at(ls, open, k) by {
            }
            lemma_body_from_lines(ls, open, offset + 1, next);
        }
    }
}

/// Where the body opening on line `open` ends and what it holds: it ends on
/// the first line after which the depth (read from the opening line) is back
/// to 0 (the opening line itself only when it took the depth above 0), or on
/// the last line when it never closes; its body lines are the lines past the
/// opening one, up to the end, that leave the depth above 0 and count given
/// the comment state before them; its nesting is the deepest depth less one.
pub proof fn law_body_extent_and_count(ls: Seq<Seq<char>>, open: int)
    requires
        0 <= open < ls.len(),
    ensures
        ({
            let (body_lines, nesting, close) = body_of(ls, open);
            &&& open <= close < ls.len()
            &&& forall|k: int| open <= k < close ==> !#[trigger] ends_body_at(ls, open, k)
            &&& (ends_body_at(ls, open, close) || close == ls.len() - 1)
            &&& body_lines == counted_lines(ls, open, close + 1)
            &&& nesting == (if deepest(ls, open, close + 1) > 1 {
                deepest(ls, open, close + 1) - 1
            } else {
                0
            })
        }),
{
    lemma_body_from_lines(ls, open, 0, body_start());
}

pub proof fn lemma_body_from_close(ls: Seq<Seq<char>>, open: int, offset: int, acc: BodyAcc)
    requires
        0 <= open < ls.len(),
        0 <= offset,
    ensures
        open <= body_from(ls, open, offset, acc).2 < ls.len(),
    decreases ls.len() - (open + offset),
{
    if open + offset >= ls.len() {
    } else {
        let next = body_step(acc, ls[open + offset], offset);
        if body_closes(acc, ls[open + offset], offset) {
        } else {
            lemma_body_from_close(ls, open, offset + 1, next);
        }
    }
}

/// The body scan starts from depth 0 outside comments and strings.
pub open spec fn body_start() -> BodyAcc {
    BodyAcc { body_lines: 0, max_depth: 0, state: BraceScanState::start() }
}

/// Scanning the body from its `offset`-th line up to where it closes never
/// takes the depth out of `i32`.
pub open spec fn body_fits(ls: Seq<Seq<char>>, open: int, offset: int, acc: BodyAcc) -> bool
    decreases ls.len() - (open + offset),
{
    if open < 0 || offset < 0 || open + offset >= ls.len() {
        true
    } else {
        let line = ls[open + offset];
        let next = body_step(acc, line, offset);
        &&& acc.state.scan_fits(line, 0, false)
        &&& (body_closes(acc, line, offset) || body_fits(ls, open, offset + 1, next))
    }
}

/// Reading one line from a fresh depth never takes the depth out of `i32`.
pub open spec fn block_fits(line: Seq<char>, in_block_comment: bool) -> bool {
    BraceScanState { depth: 0, in_block_comment, string_delimiter: None }.scan_fits(
        line,
        0,
        false,
    )
}

// ---------------------------------------------------------------------------
// The whole file
// ---------------------------------------------------------------------------

/// The function whose `fn` stands on line `i`, when its header names one and
/// a body opens within reach: its report and the line where the body closes.
pub open spec fn fn_at(ls: Seq<Seq<char>>, i: int) -> Option<(FnReport, int)> {
    match fn_name_on(ls[i], i) {
        Some((name, fn_line)) => match opening_brace(ls, i) {
            Some(open) => {
                let (body_lines, max_nesting, close) = body_of(ls, open);
                Some(
                    (
                        FnReport {
                            name,
                            line: fn_line + 1,
                            body_lines,
                            is_test: test_attr_before(ls, i),
                            max_nesting,
                        },
                        close,
                    ),
                )
            },
            None => None,
        },
        None => None,
    }
}

/// The report breaks a limit: too many body lines for its kind, or (outside
/// tests) nesting deeper than [`NESTING_LIMIT`].
pub open spec fn breaks_limit(r: FnReport) -> bool {
    let limit = if r.is_test {
        TEST_BODY_LIMIT as int
    } else {
        BODY_LIMIT as int
    };
    r.body_lines > limit || (!r.is_test && r.max_nesting > NESTING_LIMIT as int)
}

/// The reports of the functions from line `i` on that break a limit, given
/// whether a block comment is open before line `i`. A line read inside a
/// block comment declares no function; it only moves the comment state on.
pub open spec fn violations_from(ls: Seq<Seq<char>>, i: int, in_block_comment: bool) -> Seq<
    FnReport,
>
    decreases ls.len() + 1 - i,
{
    if i < 0 || i >= ls.len() {
        Seq::empty()
    } else if in_block_comment {
        violations_from(ls, i + 1, block_comment_after(ls[i], in_block_comment))
    } else {
        match fn_at(ls, i) {
            Some((r, close)) => {
                proof {
                    lemma_fn_at_close(ls, i);
                }
                if breaks_limit(r) {
                    seq![r] + violations_from(ls, close + 1, in_block_comment)
                } else {
                    violations_from(ls, close + 1, in_block_comment)
                }
            },
            None => violations_from(ls, i + 1, block_comment_after(ls[i], in_block_comment)),
        }
    }
}

/// Reading the file from line `i` on never takes a brace depth out of `i32`:
/// neither the comment tracking of lines outside functions nor the scan of
/// a function's body.
pub open spec fn violations_fit_from(ls: Seq<Seq<char>>, i: int, in_block_comment: bool) -> bool
    decreases ls.len() + 1 - i,
{
    if i < 0 || i >= ls.len() {
        true
    } else if in_block_comment {
        block_fits(ls[i], in_block_comment) && violations_fit_from(
            ls,
            i + 1,
            block_comment_after(ls[i], in_block_comment),
        )
    } else {
        match fn_at(ls, i) {
            Some((r, close)) => {
                proof {
                    lemma_fn_at_close(ls, i);
                }
                body_fits(ls, opening_brace(ls, i)->0, 0, body_start()) && violations_fit_from(
                    ls,
                    close + 1,
                    in_block_comment,
                )
            },
            None => block_fits(ls[i], in_block_comment) && violations_fit_from(
                ls,
                i + 1,
                block_comment_after(ls[i], in_block_comment),
            ),
        }
    }
}

/// Checking the file with lines `ls` never takes a brace depth out of `i32`.
pub open spec fn rust_depth_fits(ls: Seq<Seq<char>>) -> bool {
    violations_fit_from(ls, 0, false)
}

/// A function found on line `i` has its body open on a line at or after `i`
/// and close on a line at or after that.
pub proof fn lemma_fn_at_close(ls: Seq<Seq<char>>, i: int)
    requires
        0 <= i < ls.len(),
        fn_at(ls, i) is Some,
    ensures
        opening_brace(ls, i) is Some,
        i <= opening_brace(ls, i)->0 <= (fn_at(ls, i)->0).1 < ls.len(),
{
    lemma_opening_brace(ls, i);
    let open = opening_brace(ls, i)->0;
    lemma_body_from_close(ls, open, 0, body_start());
}

pub proof fn lemma_opening_brace(ls: Seq<Seq<char>>, start: int)
    ensures
        opening_brace(ls, start) matches Some(k) ==> start <= k && 0 <= k < ls.len(),
{
    let end = if ls.len() < start + 10 {
        ls.len() as int
    } else {
        start + 10
    };
    lemma_brace_from(ls, start, end);
}

/// The body of a function declared on line `start` opens on the first line
/// holding a `{` among the ten lines from `start` on; when none of them
/// holds one, no body is found.
pub proof fn law_opening_brace_within_ten_lines(ls: Seq<Seq<char>>, start: int)
    requires
        0 <= start,
    ensures
        opening_brace(ls, start) matches Some(k) ==> start <= k < start + 10 && k < ls.len()
            && ls[k].contains('{') && forall|m: int| start <= m < k ==> !#[trigger] ls[m].contains('{'),
        opening_brace(ls, start) is None ==> forall|m: int|
            start <= m < start + 10 && m < ls.len() ==> !#[trigger] ls[m].contains('{'),
{
    let end = if ls.len() < start + 10 {
        ls.len() as int
    } else {
        start + 10
    };
    lemma_brace_from_first(ls, start, end);
}

proof fn lemma_brace_from_first(ls: Seq<Seq<char>>, i: int, end: int)
    requires
        0 <= i,
        end <= ls.len(),
    ensures
        brace_from(ls, i, end) matches Some(k) ==> i <= k < end && ls[k].contains('{') && forall|
            m: int,
        | i <= m < k ==> !#[trigger] ls[m].contains('{'),
        brace_from(ls, i, end) is None ==> forall|m: int|
            i <= m < end ==> !#[trigger] ls[m].contains('{'),
    decreases end - i,
{
    if i < end {
        lemma_brace_from_first(ls, i + 1, end);
    }
}

/// A non-test function breaks a limit when its body has more than 30
/// countable lines or it nests deeper than 4; a test function only when its
/// body has more than 200.
pub proof fn law_rust_limits(r: FnReport)
    ensures
        !r.is_test ==> (breaks_limit(r) <==> (r.body_lines > 30 || r.max_nesting > 4)),
        r.is_test ==> (breaks_limit(r) <==> r.body_lines > 200),
{
}

/// The limit-breaking functions of the file with lines `ls`, in file order.
pub open spec fn rust_violations(ls: Seq<Seq<char>>) -> Seq<FnReport> {
    violations_from(ls, 0, false)
}

/// Each report breaks a limit and names a line after `i`; lines strictly increase.
pub open spec fn ordered_breaking(rs: Seq<FnReport>, i: int) -> bool {
    &&& forall|k: int| 0 <= k < rs.len() ==> breaks_limit(#[trigger] rs[k]) && rs[k].line > i
    &&& forall|a: int, b: int| 0 <= a < b < rs.len() ==> #[trigger] rs[a].line < #[trigger] rs[b].line
}

proof fn lemma_violations_from_shape(ls: Seq<Seq<char>>, i: int, in_block_comment: bool)
    requires
        0 <= i,
    ensures
        ordered_breaking(violations_from(ls, i, in_block_comment), i),
    decreases ls.len() + 1 - i,
{
    if i >= ls.len() {
    } else if in_block_comment {
        lemma_violations_from_shape(ls, i + 1, block_comment_after(ls[i], in_block_comment));
    } else {
        match fn_at(ls, i) {
            Some((r, close)) => {
                lemma_fn_at_close(ls, i);
                lemma_violations_from_shape(ls, close + 1, in_block_comment);
                let rest = violations_from(ls, close + 1, in_block_comment);
                assert(r.line == i + 1);
                if breaks_limit(r) {
                    let all = seq![r] + rest;
                    assert(violations_from(ls, i, in_block_comment) == all);
                    assert forall|k: int| 0 <= k < all.len() implies breaks_limit(
                        #[trigger] all[k],
                    ) && all[k].line > i by {
                        if k > 0 {
                            assert(all[k] == rest[k - 1]);
                        }
                    }
                    assert forall|a: int, b: int| 0 <= a < b < all.len() implies #[trigger] all[a].line
                        < #[trigger] all[b].line by {
                        assert(all[b] == rest[b - 1]);
                        if a > 0 {
                            assert(all[a] == rest[a - 1]);
                        }
                    }
                } else {
                    assert(violations_from(ls, i, in_block_comment) == rest);
                }
            },
            None => {
                lemma_violations_from_shape(
                    ls,
                    i + 1,
                    block_comment_after(ls[i], in_block_comment),
                );
            },
        }
    }
}

/// Every reported function breaks a limit (too many body lines for its
/// kind, or nesting deeper than the limit outside tests), and the reports
/// come in file order: their lines strictly increase.
pub proof fn law_rust_violations_break_limits_in_file_order(ls: Seq<Seq<char>>)
    ensures
        ordered_breaking(rust_violations(ls), 0),
{
    lemma_violations_from_shape(ls, 0, false);
}

proof fn lemma_violations_are_functions(ls: Seq<Seq<char>>, i: int, in_block_comment: bool)
    requires
        0 <= i,
    ensures
        forall|k: int|
            0 <= k < violations_from(ls, i, in_block_comment).len() ==> {
                let r = #[trigger] violations_from(ls, i, in_block_comment)[k];
                &&& i < r.line <= ls.len()
                &&& fn_at(ls, r.line - 1) matches Some((m, _)) && m == r
                &&& breaks_limit(r)
            },
    decreases ls.len() + 1 - i,
{
    if i < ls.len() {
        if in_block_comment {
            lemma_violations_are_functions(ls, i + 1, block_comment_after(ls[i], in_block_comment));
        } else {
            match fn_at(ls, i) {
                Some((r, close)) => {
                    lemma_fn_at_close(ls, i);
                    lemma_violations_are_functions(ls, close + 1, in_block_comment);
                    let rest = violations_from(ls, close + 1, in_block_comment);
                    if breaks_limit(r) {
                        let all = seq![r] + rest;
                        assert forall|k: int| 0 <= k < all.len() implies {
                            let q = #[trigger] all[k];
                            &&& i < q.line <= ls.len()
                            &&& fn_at(ls, q.line - 1) matches Some((m, _)) && m == q
                            &&& breaks_limit(q)
                        } by {
                            if k > 0 {
                                assert(all[k] == rest[k - 1]);
                            }
                        }
                    }
                },
                None => lemma_violations_are_functions(
                    ls,
                    i + 1,
                    block_comment_after(ls[i], in_block_comment),
                ),
            }
        }
    }
}

/// Every Rust report is the measure of the function declared on its line,
/// and that function breaks a limit.
pub proof fn law_rust_reports_are_measured_functions(ls: Seq<Seq<char>>)
    ensures
        forall|k: int|
            0 <= k < rust_violations(ls).len() ==> {
                let r = #[trigger] rust_violations(ls)[k];
                &&& 1 <= r.line <= ls.len()
                &&& fn_at(ls, r.line - 1) matches Some((m, _)) && m == r
                &&& breaks_limit(r)
            },
{
    lemma_violations_are_functions(ls, 0, false);
}

/// Inside a block comment a line declares no function and only moves the
/// comment state on: the walk goes on at the very next line.
pub proof fn law_rust_comment_line_moves_to_next_line(ls: Seq<Seq<char>>, i: int)
    requires
        0 <= i < ls.len(),
    ensures
        violations_from(ls, i, true) == violations_from(ls, i + 1, block_comment_after(ls[i], true)),
{
}

// ---------------------------------------------------------------------------
// Executable parser
// ---------------------------------------------------------------------------

/// Parse a Rust source file and return function body violations.
pub fn check(source: &str) -> (r: RustViolations)
    requires
        rust_depth_fits(lines(source@)),
    ensures
        r.file_lines == lines(source@).len(),
        reports(r.fn_violations@) == rust_violations(lines(source@)),
{
    match try_check(source) {
        Some(r) => r,
        None => {
            proof {
                assert(false);
            }
            RustViolations { fn_violations: Vec::new(), file_lines: 0 }
        },
    }
}

/// [`check`], or `None` when a brace depth would leave `i32` on the way.
pub fn try_check(source: &str) -> (r: Option<RustViolations>)
    ensures
        r is Some <==> rust_depth_fits(lines(source@)),
        r matches Some(v) ==> v.file_lines == lines(source@).len() && reports(v.fn_violations@)
            == rust_violations(lines(source@)),
{
    let chars = chars_of(source);
    let lines = split_lines(&chars);
    let file_lines = lines.len();
    match find_fn_violations(&lines) {
        Some(fn_violations) => Some(RustViolations { fn_violations, file_lines }),
        None => None,
    }
}

/// What parsing one line gives.
enum ParseStep {
    /// No function starts on the line.
    Skip,
    /// A function starts on the line; its body was measured.
    Measured(Violation),
    /// Measuring the body would take the depth out of `i32`.
    DepthOverflow,
}

/// Walk lines to find `fn` declarations and measure their body lengths.
fn find_fn_violations(lines: &[Vec<char>]) -> (r: Option<Vec<Violation>>)
    ensures
        r is Some <==> rust_depth_fits(views(lines@)),
        r matches Some(v) ==> reports(v@) == rust_violations(views(lines@)),
{
    let ghost ls = views(lines@);
    let mut violations: Vec<Violation> = Vec::new();
    let mut in_block_comment = false;
    let mut i: usize = 0;

    while i < lines.len()
        invariant
            i <= lines.len(),
            ls == views(lines@),
            reports(violations@) + violations_from(ls, i as int, in_block_comment)
                == rust_violations(ls),
            rust_depth_fits(ls) == violations_fit_from(ls, i as int, in_block_comment),
        decreases lines.len() - i,
    {
        let line = &lines[i];
        assert(ls[i as int] == line@);
        let ghost i0 = i as int;
        // Track block comments so we don't pick up `fn` inside them
        match try_parse_fn(lines, &mut i, in_block_comment) {
            ParseStep::Measured(viol) => {
                let limit = if viol.is_test {
                    TEST_BODY_LIMIT
                } else {
                    BODY_LIMIT
                };
                let nesting_exceeds = !viol.is_test && viol.max_nesting > NESTING_LIMIT;
                let ghost before = reports(violations@);
                if viol.body_lines > limit || nesting_exceeds {
                    violations.push(viol);
                    assert(reports(violations@) =~= before.push(viol@));
                }
                assert(reports(violations@) + violations_from(ls, i as int, in_block_comment)
                    =~= before + violations_from(ls, i0, in_block_comment));
            },
            ParseStep::DepthOverflow => {
                return None;
            },
            ParseStep::Skip => {
                let ghost bc0 = in_block_comment;
                if !update_block_comment_state(line, &mut in_block_comment) {
                    return None;
                }
                i += 1;
                assert(violations_from(ls, i0, bc0) == violations_from(
                    ls,
                    i as int,
                    in_block_comment,
                ));
            },
        }
    }
    assert(violations_from(ls, i as int, in_block_comment) =~= Seq::<FnReport>::empty());
    assert(reports(violations@) =~= rust_violations(ls));
    Some(violations)
}

/// If the current line (at index `i`) contains a top-level `fn` declaration
/// outside a block comment, scan its body and return it as a Violation (even
/// if within limit, caller filters), advancing `i` past the closing brace.
fn try_parse_fn(lines: &[Vec<char>], i: &mut usize, in_block_comment: bool) -> (r: ParseStep)
    requires
        *old(i) < lines.len(),
    ensures
        in_block_comment ==> r is Skip && *final(i) == *old(i),
        !in_block_comment ==> match fn_at(views(lines@), *old(i) as int) {
            Some((rep, close)) => if body_fits(
                views(lines@),
                opening_brace(views(lines@), *old(i) as int)->0,
                0,
                body_start(),
            ) {
                r matches ParseStep::Measured(v) && v@ == rep && *final(i) == close + 1
            } else {
                r is DepthOverflow
            },
            None => r is Skip && *final(i) == *old(i),
        },
        r is Measured ==> *old(i) < *final(i) <= lines.len(),
{
    let ghost ls = views(lines@);
    let line = &lines[*i];
    assert(ls[*i as int] == line@);
    if in_block_comment {
        return ParseStep::Skip;
    }
    let (name, fn_line) = match extract_fn_name_chars(line, *i) {
        Some(found) => found,
        None => return ParseStep::Skip,
    };
    let is_test = test_attr_before_chars(lines, *i);
    // Find opening brace of function body (may be on same line or next few)
    let open_idx = match find_opening_brace(lines, *i) {
        Some(k) => k,
        None => return ParseStep::Skip,
    };
    proof {
        lemma_fn_at_close(ls, *i as int);
    }
    let (body_lines, max_nesting, close_idx) = match count_body(lines, open_idx) {
        Some(measured) => measured,
        None => return ParseStep::DepthOverflow,
    };
    *i = close_idx + 1;
    ParseStep::Measured(Violation { name, line: fn_line + 1, body_lines, is_test, max_nesting })
}

/// Walk backwards from `fn_line` skipping blank lines to check for test attributes.
pub fn preceding_lines_have_test_attr(lines: &[&str], fn_line: usize) -> (r: bool)
    requires
        fn_line <= lines.len(),
    ensures
        r == test_attr_before(Seq::new(lines@.len(), |k: int| lines@[k]@), fn_line as int),
{
    let mut owned: Vec<Vec<char>> = Vec::new();
    let mut k: usize = 0;
    while k < lines.len()
        invariant
            k <= lines.len(),
            owned@.len() == k,
            forall|j: int| 0 <= j < k ==> owned@[j]@ == lines@[j]@,
        decreases lines.len() - k,
    {
        owned.push(chars_of(lines[k]));
        k += 1;
    }
    assert(views(owned@) =~= Seq::new(lines@.len(), |j: int| lines@[j]@));
    test_attr_before_chars(&owned, fn_line)
}

/// [`preceding_lines_have_test_attr`] on lines held as characters.
fn test_attr_before_chars(lines: &[Vec<char>], fn_line: usize) -> (r: bool)
    requires
        fn_line <= lines.len(),
    ensures
        r == test_attr_before(views(lines@), fn_line as int),
{
    let ghost ls = views(lines@);
    let test: [char; 7] = ['#', '[', 't', 'e', 's', 't', ']'];
    let tokio: [char; 14] = ['#', '[', 't', 'o', 'k', 'i', 'o', ':', ':', 't', 'e', 's', 't', ']'];
    let hash: [char; 1] = ['#'];
    assert(test@ == test_attr());
    assert(tokio@ == tokio_test_attr());
    assert(hash@ == seq!['#']);
    let mut idx = fn_line;
    while idx > 0
        invariant
            idx <= fn_line <= lines.len(),
            ls == views(lines@),
            test@ == test_attr(),
            tokio@ == tokio_test_attr(),
            hash@ == seq!['#'],
            test_attr_before(ls, idx as int) == test_attr_before(ls, fn_line as int),
        decreases idx,
    {
        let trimmed_line = trimmed(&lines[idx - 1]);
        assert(ls[idx - 1] == lines@[idx - 1]@);
        if trimmed_line.len() == 0 {
            idx -= 1;
            continue;
        }
        if chars_eq(&trimmed_line, &test) || chars_eq(&trimmed_line, &tokio) {
            return true;
        }
        // Stop at anything that isn't an attribute
        if !starts_with_chars(&trimmed_line, &hash) {
            return false;
        }
        idx -= 1;
    }
    false
}

/// Extract function name from a line containing `fn <name>`.
/// Returns (name, 0-based line index) or None if no match.
pub fn extract_fn_name(line: &str, line_idx: usize) -> (r: Option<(String, usize)>)
    ensures
        match fn_name_on(line@, line_idx as int) {
            Some((name, idx)) => r matches Some((n, k)) && n@ == name && k == idx,
            None => r is None,
        },
{
    let chars = chars_of(line);
    extract_fn_name_chars(&chars, line_idx)
}

/// [`extract_fn_name`] on the characters of a line.
fn extract_fn_name_chars(line: &[char], line_idx: usize) -> (r: Option<(String, usize)>)
    ensures
        match fn_name_on(line@, line_idx as int) {
            Some((name, idx)) => r matches Some((n, k)) && n@ == name && k == idx,
            None => r is None,
        },
{
    let t = trimmed(line);
    // Skip comments
    let slash2: [char; 2] = ['/', '/'];
    let star: [char; 1] = ['*'];
    let open: [char; 2] = ['/', '*'];
    assert(slash2@ == seq!['/', '/']);
    assert(star@ == seq!['*']);
    assert(open@ == seq!['/', '*']);
    if starts_with_chars(&t, &slash2) || starts_with_chars(&t, &star) || starts_with_chars(
        &t,
        &open,
    ) {
        return None;
    }
    let keyword: [char; 3] = ['f', 'n', ' '];
    assert(keyword@ == fn_keyword());
    let pos = match find_keyword_position(&t, &keyword) {
        Some(p) => p,
        None => return None,
    };
    let after = slice_copy(&t, pos + 3, t.len());
    assert(after@ =~= t@.skip(pos + 3));
    let name_end = leading_name_len(&after);
    proof {
        crate::text::lemma_name_len_bounds(after@, 0);
    }
    if name_end == 0 {
        return None;
    }
    let name = slice_copy(&after, 0, name_end);
    assert(name@ =~= leading_name(after@));
    Some((string_of(&name), line_idx))
}

/// Position of the first occurrence of `p` in `line`, or the line's length.
pub(crate) fn found_or_len_exec(line: &[char], p: &[char]) -> (r: usize)
    ensures
        r as int == found_or_len(line@, p@),
        r <= line.len(),
{
    match find_in(line, p) {
        Some(k) => k,
        None => line.len(),
    }
}

/// First position of `keyword` on `line` before any comment or string literal.
fn find_keyword_position(line: &[char], keyword: &[char]) -> (r: Option<usize>)
    ensures
        r matches Some(k) ==> keyword_position(line@, keyword@, false) == Some(k as int),
        r is None ==> keyword_position(line@, keyword@, false) is None,
        r matches Some(k) ==> k + keyword.len() <= line.len(),
{
    let keyword_pos = match find_in(line, keyword) {
        Some(k) => k,
        None => return None,
    };
    let m1: [char; 2] = ['/', '/'];
    let m2: [char; 2] = ['/', '*'];
    let m3: [char; 1] = ['"'];
    let m4: [char; 1] = ['\''];
    assert(m1@ == seq!['/', '/']);
    assert(m2@ == seq!['/', '*']);
    assert(m3@ == seq!['"']);
    assert(m4@ == seq!['\'']);
    let a = found_or_len_exec(line, &m1);
    let b = found_or_len_exec(line, &m2);
    let c = found_or_len_exec(line, &m3);
    let d = found_or_len_exec(line, &m4);
    let mut stop_pos = a;
    if b < stop_pos {
        stop_pos = b;
    }
    if c < stop_pos {
        stop_pos = c;
    }
    if d < stop_pos {
        stop_pos = d;
    }
    if keyword_pos < stop_pos {
        Some(keyword_pos)
    } else {
        None
    }
}

/// Scan forward from `start` to find the `{` that opens the function body.
fn find_opening_brace(lines: &[Vec<char>], start: usize) -> (r: Option<usize>)
    requires
        start < lines.len(),
    ensures
        r matches Some(k) ==> opening_brace(views(lines@), start as int) == Some(k as int),
        r is None ==> opening_brace(views(lines@), start as int) is None,
{
    let ghost ls = views(lines@);
    let end = if lines.len() - start < BRACE_LOOKAHEAD_LINES {
        lines.len()
    } else {
        start + BRACE_LOOKAHEAD_LINES
    };
    let mut index = start;
    while index < end
        invariant
            start <= index <= end <= lines.len(),
            ls == views(lines@),
            end == (if ls.len() < start + 10 {
                ls.len() as int
            } else {
                start + 10
            }),
            brace_from(ls, index as int, end as int) == opening_brace(ls, start as int),
        decreases end - index,
    {
        assert(ls[index as int] == lines@[index as int]@);
        if contains_char(&lines[index], OPEN_BRACE) {
            return Some(index);
        }
        index += 1;
    }
    None
}

/// Count body lines inside braces starting at `open_line`.
/// Returns (countable body lines, max nesting depth, index of closing brace line),
/// or `None` when the depth would leave `i32`.
/// Max nesting depth subtracts 1 so the fn body itself is depth 0.
fn count_body(lines: &[Vec<char>], open_line: usize) -> (r: Option<(usize, usize, usize)>)
    requires
        open_line < lines.len(),
    ensures
        r is Some <==> body_fits(views(lines@), open_line as int, 0, body_start()),
        r matches Some(m) ==> (m.0 as int, m.1 as int, m.2 as int) == body_of(
            views(lines@),
            open_line as int,
        ),
{
    let ghost ls = views(lines@);
    let mut scan = RustBodyScan {
        body_lines: 0,
        max_depth: 0,
        state: BraceScanState { depth: 0, in_block_comment: false, string_delimiter: None },
    };
    let mut offset: usize = 0;
    while open_line + offset < lines.len()
        invariant
            open_line < lines.len(),
            ls == views(lines@),
            0 <= scan.max_depth,
            scan.body_lines <= offset,
            open_line + offset <= lines.len(),
            body_from(ls, open_line as int, offset as int, scan.acc()) == body_from(
                ls,
                open_line as int,
                0,
                body_start(),
            ),
            body_fits(ls, open_line as int, offset as int, scan.acc()) == body_fits(
                ls,
                open_line as int,
                0,
                body_start(),
            ),
        decreases lines.len() - (open_line + offset),
    {
        let idx = open_line + offset;
        let line = &lines[idx];
        assert(ls[idx as int] == line@);
        let ghost before = scan.acc();
        let rose = match scan.scan_line(line, offset) {
            Some(rose) => rose,
            None => return None,
        };
        assert(scan.acc() == body_step(before, line@, offset as int));
        if scan.body_closed(offset, rose) {
            return Some(scan.finish(idx));
        }
        offset += 1;
    }
    let last = if lines.len() > 0 {
        lines.len() - 1
    } else {
        0
    };
    Some(scan.finish(last))
}

/// Update block-comment state for a line (used outside fn parsing); `false`
/// when the depth would leave `i32`.
fn update_block_comment_state(line: &[char], in_bc: &mut bool) -> (ok: bool)
    ensures
        ok == block_fits(line@, *old(in_bc)),
        ok ==> *final(in_bc) == block_comment_after(line@, *old(in_bc)),
{
    let mut scan = BraceScanState { in_block_comment: *in_bc, depth: 0, string_delimiter: None };
    if !scan.scan_chars(line, false) {
        return false;
    }
    *in_bc = scan.in_block_comment;
    true
}

/// Running state of a body scan.
struct RustBodyScan {
    body_lines: usize,
    max_depth: i32,
    state: BraceScanState,
}

impl RustBodyScan {
    spec fn acc(self) -> BodyAcc {
        BodyAcc {
            body_lines: self.body_lines as int,
            max_depth: self.max_depth as int,
            state: self.state,
        }
    }

    /// Scans one body line, answering whether the depth rose above 0 on it;
    /// `None` when the depth would leave `i32`.
    fn scan_line(&mut self, line: &[char], offset: usize) -> (r: Option<bool>)
        requires
            old(self).body_lines <= offset < usize::MAX,
            old(self).max_depth >= 0,
        ensures
            r is Some == old(self).state.scan_fits(line@, 0, false),
            r is Some ==> final(self).acc() == body_step(old(self).acc(), line@, offset as int),
            r is Some ==> final(self).body_lines <= offset + 1 && final(self).max_depth >= 0,
            r matches Some(rose) ==> rose == old(self).state.rises_from(line@, 0, false),
    {
        let countable_block_comment = self.state.in_block_comment;
        let rose = match self.state.scan_chars_rising(line, false) {
            Some(rose) => rose,
            None => return None,
        };
        if self.max_depth < self.state.depth {
            self.max_depth = self.state.depth;
        }
        if should_count_body_line(offset, self.state.depth) && is_countable_with_state(
            line,
            countable_block_comment,
        ) {
            self.body_lines += 1;
        }
        Some(rose)
    }

    /// The body has closed: the depth is back to 0, on the opening line
    /// only when that line took it above 0.
    fn body_closed(&self, offset: usize, rose: bool) -> (r: bool)
        ensures
            r == (self.state.depth == 0 && (offset > 0 || rose)),
    {
        (offset > 0 || rose) && self.state.depth == 0
    }

    fn finish(&self, close_idx: usize) -> (r: (usize, usize, usize))
        requires
            self.max_depth >= 0,
        ensures
            r.0 == self.body_lines,
            r.1 as int == nesting_of(self.max_depth as int),
            r.2 == close_idx,
    {
        (self.body_lines, max_nesting(self.max_depth), close_idx)
    }
}

fn should_count_body_line(offset: usize, depth: i32) -> (r: bool)
    ensures
        r == (offset > 0 && depth > 0),
{
    offset > 0 && depth > 0
}

fn is_countable_with_state(line: &[char], in_block_comment: bool) -> (r: bool)
    ensures
        r == countable(line@, in_block_comment).0,
{
    let mut in_block_comment = in_block_comment;
    is_countable_chars(line, &mut in_block_comment)
}

fn max_nesting(max_depth: i32) -> (r: usize)
    requires
        max_depth >= 0,
    ensures
        r as int == nesting_of(max_depth as int),
{
    if max_depth - 1 > 0 {
        (max_depth - 1) as usize
    } else {
        0
    }
}

} // verus!
