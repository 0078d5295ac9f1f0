//! Classifies lines for body-line counting purposes.
//! A line counts toward the body if it is not blank, comment-only, or brace-only.
use vstd::prelude::*;

use crate::text::{
    chars_of, find, find_in, slice_copy, starts_with, starts_with_chars, trim, trimmed, chars_eq,
    lemma_find_from, lemma_trim_idempotent, lemma_trim_keeps_head, white_space,
};

verus! {

/// `//`
pub open spec fn line_comment_open() -> Seq<char> {
    seq!['/', '/']
}

/// `/*`
pub open spec fn block_open() -> Seq<char> {
    seq!['/', '*']
}

/// `*/`
pub open spec fn block_close() -> Seq<char> {
    seq!['*', '/']
}

/// A line made only of a closing or opening brace: `{`, `}`, `};`, `},`, `});`, `})`.
pub open spec fn brace_only(t: Seq<char>) -> bool {
    ||| t == seq!['{']
    ||| t == seq!['}']
    ||| t == seq!['}', ';']
    ||| t == seq!['}', ',']
    ||| t == seq!['}', ')', ';']
    ||| t == seq!['}', ')']
}

/// A line with no open block comment counts: after trimming it is not
/// empty, not a comment (`//`, `#`, `*`) and not brace-only.
pub open spec fn countable_simple(line: Seq<char>) -> bool {
    let t = trim(line);
    &&& t.len() > 0
    &&& !starts_with(t, line_comment_open())
    &&& !starts_with(t, seq!['#'])
    &&& !starts_with(t, seq!['*'])
    &&& !brace_only(t)
}

/// The text left of a trimmed line once a block comment that opens on it is
/// taken out, and whether a block comment is open after it.
pub open spec fn strip_inline(line: Seq<char>, in_block_comment: bool) -> (Seq<char>, bool) {
    match find(line, block_open()) {
        Some(start) => {
            let before = line.take(start);
            let rest = line.skip(start + 2);
            match find(rest, block_close()) {
                Some(end) => (
                    trim(trim(before) + seq![' '] + trim(rest.skip(end + 2))),
                    in_block_comment,
                ),
                None => (trim(before), true),
            }
        },
        None => (line, in_block_comment),
    }
}

/// Whether `line` counts, given whether a block comment is open before it,
/// and whether one is open after it.
pub open spec fn countable(line: Seq<char>, in_block_comment: bool) -> (bool, bool) {
    let t = trim(line);
    if in_block_comment {
        match find(t, block_close()) {
            Some(end) => (countable_simple(trim(t.skip(end + 2))), false),
            None => (false, true),
        }
    } else {
        let (effective, open_after) = strip_inline(t, in_block_comment);
        (countable_simple(effective), open_after)
    }
}

/// A text without `*` holds neither `/*` nor `*/`.
proof fn lemma_no_star_no_comment_mark(t: Seq<char>)
    requires
        forall|i: int| 0 <= i < t.len() ==> t[i] != '*',
    ensures
        find(t, block_open()) is None,
        find(t, block_close()) is None,
{
    lemma_find_from(t, block_open(), 0);
    lemma_find_from(t, block_close(), 0);
    if let Some(k) = find(t, block_open()) {
        assert(t.subrange(k, k + 2)[1] == t[k + 1]);
    }
    if let Some(k) = find(t, block_close()) {
        assert(t.subrange(k, k + 2)[0] == t[k]);
    }
}

/// Blank and brace-only lines never count, whether or not a block comment
/// is open.
pub proof fn law_blank_or_brace_only_line_not_counted(line: Seq<char>, in_block_comment: bool)
    requires
        trim(line).len() == 0 || brace_only(trim(line)),
    ensures
        !countable(line, in_block_comment).0,
{
    let t = trim(line);
    lemma_trim_idempotent(line);
    assert forall|i: int| 0 <= i < t.len() implies t[i] != '*' by {
        if brace_only(t) {
            assert(t.len() <= 3);
        }
    }
    lemma_no_star_no_comment_mark(t);
}

/// Outside a block comment, a line counts whenever its trimmed text is not
/// empty, is not a comment (`//`, `#`, `*`) and is none of the six
/// brace-only lines `{`, `}`, `};`, `},`, `});`, `})`: so `} else {` counts.
pub proof fn law_plain_line_counted(line: Seq<char>)
    requires
        ({
            let t = trim(line);
            &&& t.len() > 0
            &&& !starts_with(t, seq!['/', '/'])
            &&& !starts_with(t, seq!['#'])
            &&& !starts_with(t, seq!['*'])
            &&& t != seq!['{']
            &&& t != seq!['}']
            &&& t != seq!['}', ';']
            &&& t != seq!['}', ',']
            &&& t != seq!['}', ')', ';']
            &&& t != seq!['}', ')']
        }),
    ensures
        countable_simple(line),
        find(trim(line), seq!['/', '*']) is None ==> countable(line, false).0,
{
    lemma_trim_idempotent(line);
}

/// Outside a block comment, a comment-only line never counts: its trimmed
/// text starts with `#`, `*`, or `//` (but not `//*`, which opens a block
/// comment).
pub proof fn law_comment_line_not_counted(line: Seq<char>)
    requires
        ({
            let t = trim(line);
            ||| starts_with(t, seq!['#'])
            ||| starts_with(t, seq!['*'])
            ||| starts_with(t, line_comment_open()) && !starts_with(t, seq!['/', '/', '*'])
        }),
    ensures
        !countable(line, false).0,
{
    let t = trim(line);
    lemma_trim_idempotent(line);
    let m: int = if starts_with(t, line_comment_open()) {
        2
    } else {
        1
    };
    let marker = t.take(m);
    assert forall|i: int| 0 <= i < m implies !white_space(#[trigger] t[i]) by {
        assert(t[i] == t.subrange(0, m)[i]);
    }
    let effective = strip_inline(t, false).0;
    lemma_find_from(t, block_open(), 0);
    match find(t, block_open()) {
        Some(start) => {
            assert(start >= m) by {
                if start < m {
                    assert(t.subrange(start, start + 2)[0] == t[start]);
                    assert(t.subrange(start, start + 2)[1] == t[start + 1]);
                    if m == 2 && start == 1 {
                        assert(t.subrange(0, 3) =~= seq!['/', '/', '*']);
                    } else {
                        assert(t[0] == t.subrange(0, m)[0]);
                    }
                }
            }
            let before = t.take(start);
            assert forall|i: int| 0 <= i < m implies !white_space(#[trigger] before[i]) by {
                assert(before[i] == t[i]);
            }
            lemma_trim_keeps_head(before, m);
            lemma_trim_idempotent(before);
            let rest = t.skip(start + 2);
            match find(rest, block_close()) {
                Some(end) => {
                    let x = trim(before) + seq![' '] + trim(rest.skip(end + 2));
                    assert forall|i: int| 0 <= i < m implies !white_space(#[trigger] x[i]) by {
                        assert(x[i] == trim(before)[i]);
                        assert(trim(before)[i] == trim(before).take(m)[i]);
                        assert(before[i] == before.take(m)[i]);
                    }
                    lemma_trim_keeps_head(x, m);
                    lemma_trim_idempotent(x);
                    assert(x.take(m) =~= before.take(m));
                    assert(before.take(m) =~= t.take(m));
                    assert(effective == trim(x));
                },
                None => {
                    assert(before.take(m) =~= t.take(m));
                    assert(effective == trim(before));
                },
            }
            assert(effective.take(m) == marker);
            assert(trim(effective) == effective);
        },
        None => {
            assert(effective == t);
            assert(effective.take(m) =~= marker);
        },
    }
    assert(effective.subrange(0, m) =~= effective.take(m));
    assert(t.subrange(0, m) =~= marker);
}

/// While a block comment is open and the line does not close it, the line
/// does not count and the comment stays open.
pub proof fn law_open_block_comment_line_not_counted(line: Seq<char>)
    requires
        find(trim(line), block_close()) is None,
    ensures
        countable(line, true) == (false, true),
{
}

/// Returns true if the line is considered countable (not blank/comment/brace).
/// `in_block_comment` is updated in place as we traverse.
pub fn is_countable(line: &str, in_block_comment: &mut bool) -> (r: bool)
    ensures
        (r, *final(in_block_comment)) == countable(line@, *old(in_block_comment)),
{
    let chars = chars_of(line);
    is_countable_chars(&chars, in_block_comment)
}

/// [`is_countable`] on the characters of a line.
pub fn is_countable_chars(line: &[char], in_block_comment: &mut bool) -> (r: bool)
    ensures
        (r, *final(in_block_comment)) == countable(line@, *old(in_block_comment)),
{
    let trimmed_line = trimmed(line);
    if *in_block_comment {
        let close: [char; 2] = ['*', '/'];
        assert(close@ == block_close());
        if let Some(end) = find_in(&trimmed_line, &close) {
            *in_block_comment = false;
            let after = trimmed(&slice_copy(&trimmed_line, end + 2, trimmed_line.len()));
            assert(trimmed_line@.subrange(end + 2, trimmed_line@.len() as int)
                =~= trimmed_line@.skip(end + 2));
            return is_countable_simple(&after);
        }
        return false;
    }
    let effective = strip_inline_block_comment(&trimmed_line, in_block_comment);
    is_countable_simple(&effective)
}

/// Strip a block comment that opens and potentially closes on the same line.
/// Sets `in_block_comment` if the comment does not close on this line.
fn strip_inline_block_comment(line: &[char], in_block_comment: &mut bool) -> (v: Vec<char>)
    ensures
        (v@, *final(in_block_comment)) == strip_inline(line@, *old(in_block_comment)),
{
    let open: [char; 2] = ['/', '*'];
    let close: [char; 2] = ['*', '/'];
    assert(open@ == block_open());
    assert(close@ == block_close());
    if let Some(start) = find_in(line, &open) {
        let before = slice_copy(line, 0, start);
        let rest = slice_copy(line, start + 2, line.len());
        assert(before@ =~= line@.take(start as int));
        assert(rest@ =~= line@.skip(start + 2));
        if let Some(end) = find_in(&rest, &close) {
            let after = slice_copy(&rest, end + 2, rest.len());
            assert(after@ =~= rest@.skip(end + 2));
            let mut combined = trimmed(&before);
            combined.push(' ');
            let after_trimmed = trimmed(&after);
            let mut k: usize = 0;
            let ghost head = combined@;
            while k < after_trimmed.len()
                invariant
                    k <= after_trimmed.len(),
                    combined@ == head + after_trimmed@.take(k as int),
                decreases after_trimmed.len() - k,
            {
                combined.push(after_trimmed[k]);
                k += 1;
                assert(combined@ =~= head + after_trimmed@.take(k as int));
            }
            assert(after_trimmed@.take(after_trimmed.len() as int) =~= after_trimmed@);
            assert(combined@ =~= trim(before@) + seq![' '] + trim(after@));
            return trimmed(&combined);
        } else {
            *in_block_comment = true;
            return trimmed(&before);
        }
    }
    slice_copy(line, 0, line.len())
}

/// Check a pre-processed line (no open block comments) for countability.
fn is_countable_simple(line: &[char]) -> (r: bool)
    ensures
        r == countable_simple(line@),
{
    let t = trimmed(line);
    if t.len() == 0 {
        return false;
    }
    let slash2: [char; 2] = ['/', '/'];
    let hash: [char; 1] = ['#'];
    let star: [char; 1] = ['*'];
    assert(slash2@ == line_comment_open());
    assert(hash@ == seq!['#']);
    assert(star@ == seq!['*']);
    if starts_with_chars(&t, &slash2) || starts_with_chars(&t, &hash) || starts_with_chars(
        &t,
        &star,
    ) {
        return false;
    }
    !is_brace_only(&t)
}

/// `t` is one of the brace-only lines.
fn is_brace_only(t: &[char]) -> (r: bool)
    ensures
        r == brace_only(t@),
{
    let b1: [char; 1] = ['{'];
    let b2: [char; 1] = ['}'];
    let b3: [char; 2] = ['}', ';'];
    let b4: [char; 2] = ['}', ','];
    let b5: [char; 3] = ['}', ')', ';'];
    let b6: [char; 2] = ['}', ')'];
    assert(b1@ == seq!['{']);
    assert(b2@ == seq!['}']);
    assert(b3@ == seq!['}', ';']);
    assert(b4@ == seq!['}', ',']);
    assert(b5@ == seq!['}', ')', ';']);
    assert(b6@ == seq!['}', ')']);
    chars_eq(t, &b1) || chars_eq(t, &b2) || chars_eq(t, &b3) || chars_eq(t, &b4) || chars_eq(
        t,
        &b5,
    ) || chars_eq(t, &b6)
}

} // verus!
