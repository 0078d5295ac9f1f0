//! A line-by-line scanner that tracks brace depth while skipping string
//! literals, block comments and line comments.
use vstd::prelude::*;

use crate::text::{chars_of, count_from};

verus! {

/// Scanner state carried from one line to the next.
#[derive(Clone, Copy, Debug)]
pub struct BraceScanState {
    pub depth: i32,
    pub in_block_comment: bool,
    pub string_delimiter: Option<char>,
}

impl Default for BraceScanState {
    fn default() -> (st: Self)
        ensures
            st == BraceScanState::start(),
    {
        BraceScanState { depth: 0, in_block_comment: false, string_delimiter: None }
    }
}

/// The two-character sequence `left right` stands at position `i` of `s`.
pub open spec fn pair_at(s: Seq<char>, i: int, left: char, right: char) -> bool {
    0 <= i && i + 1 < s.len() && s[i] == left && s[i + 1] == right
}

/// A line comment starts at position `i`: `//`, or `#` when `hash` holds.
pub open spec fn line_comment_at(s: Seq<char>, i: int, hash: bool) -> bool {
    pair_at(s, i, '/', '/') || (hash && 0 <= i < s.len() && s[i] == '#')
}

impl BraceScanState {
    /// The state at the start of a file: depth 0, outside comments and strings.
    pub open spec fn start() -> BraceScanState {
        BraceScanState { depth: 0, in_block_comment: false, string_delimiter: None }
    }

    /// Code tokens count in this state: not in a block comment nor a string.
    pub open spec fn ready(self) -> bool {
        !self.in_block_comment && self.string_delimiter is None
    }

    /// A code character read outside comments and strings changes no more than
    /// the depth by one.
    pub open spec fn code_char_fits(self, ch: char) -> bool {
        self.ready() ==> (ch == '{' ==> self.depth < i32::MAX) && (ch == '}' ==> self.depth
            > i32::MIN)
    }

    /// The state after reading the code character `ch`.
    pub open spec fn after_code_char(self, ch: char) -> BraceScanState {
        if !self.ready() {
            self
        } else if ch == '"' || ch == '\'' {
            BraceScanState { string_delimiter: Some(ch), ..self }
        } else if ch == '{' {
            BraceScanState { depth: (self.depth + 1) as i32, ..self }
        } else if ch == '}' {
            BraceScanState { depth: (self.depth - 1) as i32, ..self }
        } else {
            self
        }
    }

    /// The state after scanning `s` from position `i` to the end of the line
    /// (or to a line comment).
    pub open spec fn scan_from(self, s: Seq<char>, i: int, hash: bool) -> BraceScanState
        decreases s.len() + 2 - i,
    {
        if i < 0 || i >= s.len() {
            self
        } else if self.in_block_comment && pair_at(s, i, '*', '/') {
            BraceScanState { in_block_comment: false, ..self }.scan_from(s, i + 2, hash)
        } else if self.string_delimiter is Some && s[i] == '\\' {
            self.scan_from(s, i + 2, hash)
        } else if self.string_delimiter == Some(s[i]) {
            BraceScanState { string_delimiter: None, ..self }.scan_from(s, i + 1, hash)
        } else if self.ready() && pair_at(s, i, '/', '*') {
            BraceScanState { in_block_comment: true, ..self }.scan_from(s, i + 2, hash)
        } else if self.ready() && line_comment_at(s, i, hash) {
            self
        } else {
            self.after_code_char(s[i]).scan_from(s, i + 1, hash)
        }
    }

    /// Scanning `s` from position `i` never takes the depth out of `i32`.
    pub open spec fn scan_fits(self, s: Seq<char>, i: int, hash: bool) -> bool
        decreases s.len() + 2 - i,
    {
        if i < 0 || i >= s.len() {
            true
        } else if self.in_block_comment && pair_at(s, i, '*', '/') {
            BraceScanState { in_block_comment: false, ..self }.scan_fits(s, i + 2, hash)
        } else if self.string_delimiter is Some && s[i] == '\\' {
            self.scan_fits(s, i + 2, hash)
        } else if self.string_delimiter == Some(s[i]) {
            BraceScanState { string_delimiter: None, ..self }.scan_fits(s, i + 1, hash)
        } else if self.ready() && pair_at(s, i, '/', '*') {
            BraceScanState { in_block_comment: true, ..self }.scan_fits(s, i + 2, hash)
        } else if self.ready() && line_comment_at(s, i, hash) {
            true
        } else {
            self.code_char_fits(s[i]) && self.after_code_char(s[i]).scan_fits(s, i + 1, hash)
        }
    }

    /// Scanning `s` from position `i` takes the depth above 0 after some code
    /// character.
    pub open spec fn rises_from(self, s: Seq<char>, i: int, hash: bool) -> bool
        decreases s.len() + 2 - i,
    {
        if i < 0 || i >= s.len() {
            false
        } else if self.in_block_comment && pair_at(s, i, '*', '/') {
            BraceScanState { in_block_comment: false, ..self }.rises_from(s, i + 2, hash)
        } else if self.string_delimiter is Some && s[i] == '\\' {
            self.rises_from(s, i + 2, hash)
        } else if self.string_delimiter == Some(s[i]) {
            BraceScanState { string_delimiter: None, ..self }.rises_from(s, i + 1, hash)
        } else if self.ready() && pair_at(s, i, '/', '*') {
            BraceScanState { in_block_comment: true, ..self }.rises_from(s, i + 2, hash)
        } else if self.ready() && line_comment_at(s, i, hash) {
            false
        } else {
            self.after_code_char(s[i]).depth > 0 || self.after_code_char(s[i]).rises_from(
                s,
                i + 1,
                hash,
            )
        }
    }

    /// The state after scanning the whole line `s`.
    pub open spec fn scan(self, s: Seq<char>, hash: bool) -> BraceScanState {
        self.scan_from(s, 0, hash)
    }

    /// A state that can arise from scanning: never inside a string and a block
    /// comment at once, and a string is delimited by `"` or `'`.
    pub open spec fn well_formed(self) -> bool {
        &&& !(self.in_block_comment && self.string_delimiter is Some)
        &&& (self.string_delimiter matches Some(d) ==> d == '"' || d == '\'')
    }

    /// Scanning keeps a state well formed, whatever the line.
    pub proof fn law_scan_keeps_well_formed(self, s: Seq<char>, i: int, hash: bool)
        requires
            self.well_formed(),
        ensures
            self.scan_from(s, i, hash).well_formed(),
        decreases s.len() + 2 - i,
    {
        if i < 0 || i >= s.len() {
        } else if self.in_block_comment && pair_at(s, i, '*', '/') {
            BraceScanState { in_block_comment: false, ..self }.law_scan_keeps_well_formed(
                s,
                i + 2,
                hash,
            );
        } else if self.string_delimiter is Some && s[i] == '\\' {
            self.law_scan_keeps_well_formed(s, i + 2, hash);
        } else if self.string_delimiter == Some(s[i]) {
            BraceScanState { string_delimiter: None, ..self }.law_scan_keeps_well_formed(
                s,
                i + 1,
                hash,
            );
        } else if self.ready() && pair_at(s, i, '/', '*') {
            BraceScanState { in_block_comment: true, ..self }.law_scan_keeps_well_formed(
                s,
                i + 2,
                hash,
            );
        } else if self.ready() && line_comment_at(s, i, hash) {
        } else {
            self.after_code_char(s[i]).law_scan_keeps_well_formed(s, i + 1, hash);
        }
    }

    /// Inside a string, a backslash escapes the character after it: the scan
    /// goes on two characters later, whatever that character is (so `\"`
    /// does not close a `"` string).
    pub proof fn law_escape_skips_next_char(self, s: Seq<char>, i: int, hash: bool)
        requires
            !self.in_block_comment,
            self.string_delimiter is Some,
            0 <= i < s.len(),
            s[i] == '\\',
        ensures
            self.scan_from(s, i, hash) == self.scan_from(s, i + 2, hash),
            self.scan_fits(s, i, hash) == self.scan_fits(s, i + 2, hash),
            self.rises_from(s, i, hash) == self.rises_from(s, i + 2, hash),
    {
    }

    /// Outside strings and block comments, a line comment (`//`, or `#` when
    /// `hash` holds) ends the line: nothing after it changes the state.
    pub proof fn law_line_comment_ends_line(self, s: Seq<char>, i: int, hash: bool)
        requires
            self.ready(),
            line_comment_at(s, i, hash),
        ensures
            self.scan_from(s, i, hash) == self,
            self.scan_fits(s, i, hash),
            !self.rises_from(s, i, hash),
    {
    }

    /// On a line with no quote, slash, `#` or backslash, read outside
    /// comments and strings, the depth moves by the number of `{` less the
    /// number of `}` and nothing else changes.
    pub proof fn law_plain_line_brace_arithmetic(self, s: Seq<char>, i: int, hash: bool)
        requires
            self.ready(),
            0 <= i,
            self.scan_fits(s, i, hash),
            forall|k: int|
                0 <= k < s.len() ==> #[trigger] s[k] != '"' && s[k] != '\'' && s[k] != '/'
                    && s[k] != '#' && s[k] != '\\',
        ensures
            self.scan_from(s, i, hash).depth == self.depth + count_from(s, '{', i) - count_from(
                s,
                '}',
                i,
            ),
            self.scan_from(s, i, hash).ready(),
        decreases s.len() - i,
    {
        if i < s.len() {
            assert(s[i] != '"' && s[i] != '\'' && s[i] != '/' && s[i] != '#' && s[i] != '\\');
            assert(!pair_at(s, i, '/', '*') && !line_comment_at(s, i, hash));
            self.after_code_char(s[i]).law_plain_line_brace_arithmetic(s, i + 1, hash);
        }
    }

    /// Inside a block comment only `*/` matters: any other character is
    /// passed over, and `*/` leaves the comment.
    pub proof fn law_block_comment_skips_to_close(self, s: Seq<char>, i: int, hash: bool)
        requires
            self.well_formed(),
            self.in_block_comment,
            0 <= i < s.len(),
        ensures
            pair_at(s, i, '*', '/') ==> self.scan_from(s, i, hash) == (BraceScanState {
                in_block_comment: false,
                ..self
            }).scan_from(s, i + 2, hash),
            !pair_at(s, i, '*', '/') ==> self.scan_from(s, i, hash) == self.scan_from(
                s,
                i + 1,
                hash,
            ),
    {
    }

    /// Scans one line, updating depth, block-comment and string state.
    /// `hash_starts_comment` makes `#` start a line comment.
    pub fn scan_line(&mut self, line: &str, hash_starts_comment: bool)
        requires
            old(self).scan_fits(line@, 0, hash_starts_comment),
        ensures
            *final(self) == old(self).scan(line@, hash_starts_comment),
    {
        let chars = chars_of(line);
        self.scan_chars(&chars, hash_starts_comment);
    }

    /// [`Self::scan_line`] on the characters of a line; stops and answers
    /// `false` where the depth would leave `i32`.
    pub fn scan_chars(&mut self, chars: &[char], hash_starts_comment: bool) -> (ok: bool)
        ensures
            ok == old(self).scan_fits(chars@, 0, hash_starts_comment),
            ok ==> *final(self) == old(self).scan(chars@, hash_starts_comment),
    {
        match self.scan_chars_rising(chars, hash_starts_comment) {
            Some(_) => true,
            None => false,
        }
    }

    /// [`Self::scan_chars`], answering also whether the depth rose above 0
    /// after some code character of the line: `None` where the depth would
    /// leave `i32`.
    pub fn scan_chars_rising(&mut self, chars: &[char], hash_starts_comment: bool) -> (r: Option<
        bool,
    >)
        ensures
            r is Some == old(self).scan_fits(chars@, 0, hash_starts_comment),
            r is Some ==> *final(self) == old(self).scan(chars@, hash_starts_comment),
            r matches Some(rose) ==> rose == old(self).rises_from(chars@, 0, hash_starts_comment),
    {
        let ghost s = chars@;
        let ghost target = old(self).scan(s, hash_starts_comment);
        let ghost fits = old(self).scan_fits(s, 0, hash_starts_comment);
        let ghost target_rose = old(self).rises_from(s, 0, hash_starts_comment);
        let mut index: usize = 0;
        let mut rose = false;

        while index < chars.len()
            invariant_except_break
                self.scan_from(s, index as int, hash_starts_comment) == target,
                self.scan_fits(s, index as int, hash_starts_comment) == fits,
                (rose || self.rises_from(s, index as int, hash_starts_comment)) == target_rose,
            invariant
                s == chars@,
                fits == old(self).scan_fits(s, 0, hash_starts_comment),
                target_rose == old(self).rises_from(s, 0, hash_starts_comment),
            ensures
                fits,
                *self == target,
                rose == target_rose,
            decreases chars.len() - index,
        {
            if self.consume_block_comment_end(chars, &mut index) {
                continue;
            }
            let ghost before = index as int;
            if self.consume_string_escape(chars, &mut index) {
                assert(self.scan_from(s, before + 2, hash_starts_comment) == self.scan_from(
                    s,
                    index as int,
                    hash_starts_comment,
                ));
                assert(self.scan_fits(s, before + 2, hash_starts_comment) == self.scan_fits(
                    s,
                    index as int,
                    hash_starts_comment,
                ));
                assert(self.rises_from(s, before + 2, hash_starts_comment) == self.rises_from(
                    s,
                    index as int,
                    hash_starts_comment,
                ));
                continue;
            }
            if self.consume_string_end(chars[index]) {
                index += 1;
                continue;
            }
            if self.consume_block_comment_start(chars, &mut index) {
                continue;
            }
            if self.ready_for_code_tokens() && starts_line_comment(
                chars,
                index,
                hash_starts_comment,
            ) {
                break;
            }
            if !self.consume_code_char(chars[index]) {
                return None;
            }
            if self.depth > 0 {
                rose = true;
            }
            index += 1;
        }
        Some(rose)
    }

    /// Leaves a block comment at `*/`, stepping over it.
    fn consume_block_comment_end(&mut self, chars: &[char], index: &mut usize) -> (r: bool)
        requires
            *old(index) < chars.len(),
        ensures
            r == (old(self).in_block_comment && pair_at(chars@, *old(index) as int, '*', '/')),
            r ==> *final(self) == (BraceScanState { in_block_comment: false, ..*old(self) })
                && *final(index) == *old(index) + 2,
            !r ==> *final(self) == *old(self) && *final(index) == *old(index),
    {
        if !self.in_block_comment || !matches_pair(chars, *index, '*', '/') {
            return false;
        }
        self.in_block_comment = false;
        *index += 2;
        true
    }

    /// Steps over a backslash and the character after it inside a string.
    fn consume_string_escape(&self, chars: &[char], index: &mut usize) -> (r: bool)
        requires
            *old(index) < chars.len(),
        ensures
            r == (self.string_delimiter is Some && chars@[*old(index) as int] == '\\'),
            r ==> (if *old(index) + 2 <= chars.len() {
                *final(index) == *old(index) + 2
            } else {
                *final(index) == chars.len()
            }),
            !r ==> *final(index) == *old(index),
    {
        if self.string_delimiter.is_none() || chars[*index] != '\\' {
            return false;
        }
        if *index + 1 < chars.len() {
            *index += 2;
        } else {
            *index = chars.len();
        }
        true
    }

    /// Leaves a string at its closing delimiter.
    fn consume_string_end(&mut self, ch: char) -> (r: bool)
        ensures
            r == (old(self).string_delimiter == Some(ch)),
            r ==> *final(self) == (BraceScanState { string_delimiter: None, ..*old(self) }),
            !r ==> *final(self) == *old(self),
    {
        match self.string_delimiter {
            Some(delimiter) => {
                if ch == delimiter {
                    self.string_delimiter = None;
                    true
                } else {
                    false
                }
            },
            None => false,
        }
    }

    /// Enters a block comment at `/*`, stepping over it.
    fn consume_block_comment_start(&mut self, chars: &[char], index: &mut usize) -> (r: bool)
        requires
            *old(index) < chars.len(),
        ensures
            r == (old(self).ready() && pair_at(chars@, *old(index) as int, '/', '*')),
            r ==> *final(self) == (BraceScanState { in_block_comment: true, ..*old(self) })
                && *final(index) == *old(index) + 2,
            !r ==> *final(self) == *old(self) && *final(index) == *old(index),
    {
        if !self.ready_for_code_tokens() || !matches_pair(chars, *index, '/', '*') {
            return false;
        }
        self.in_block_comment = true;
        *index += 2;
        true
    }

    /// Reads one code character: opens a string or moves the depth; answers
    /// `false`, changing nothing, where the depth would leave `i32`.
    fn consume_code_char(&mut self, ch: char) -> (ok: bool)
        ensures
            ok == old(self).code_char_fits(ch),
            ok ==> *final(self) == old(self).after_code_char(ch),
            !ok ==> *final(self) == *old(self),
    {
        if !self.ready_for_code_tokens() {
            return true;
        }
        match ch {
            '"' | '\'' => self.string_delimiter = Some(ch),
            '{' => {
                if self.depth == i32::MAX {
                    return false;
                }
                self.depth += 1
            },
            '}' => {
                if self.depth == i32::MIN {
                    return false;
                }
                self.depth -= 1
            },
            _ => {},
        }
        true
    }

    /// Outside block comments and strings.
    fn ready_for_code_tokens(&self) -> (r: bool)
        ensures
            r == self.ready(),
    {
        !self.in_block_comment && self.string_delimiter.is_none()
    }
}

/// A line comment starts at `index`.
fn starts_line_comment(chars: &[char], index: usize, hash_starts_comment: bool) -> (r: bool)
    requires
        index < chars.len(),
    ensures
        r == line_comment_at(chars@, index as int, hash_starts_comment),
{
    matches_pair(chars, index, '/', '/') || (hash_starts_comment && chars[index] == '#')
}

/// `left right` stands at `index`.
fn matches_pair(chars: &[char], index: usize, left: char, right: char) -> (r: bool)
    ensures
        r == pair_at(chars@, index as int, left, right),
{
    index < chars.len() && index + 1 < chars.len() && chars[index] == left && chars[index + 1]
        == right
}

} // verus!
