//! Character-level text helpers shared by the scanners: trimming,
//! searching, line splitting and decimal rendering, all stated over
//! `Seq<char>`.
use vstd::prelude::*;

verus! {

/// The Unicode `White_Space` property: tab, line feed, vertical tab, form
/// feed, carriage return, space, U+0085, U+00A0, U+1680, U+2000 to U+200A,
/// U+2028, U+2029, U+202F, U+205F and U+3000.
pub open spec fn white_space(c: char) -> bool {
    let n = c as u32;
    ||| 0x09 <= n <= 0x0d
    ||| n == 0x20
    ||| n == 0x85
    ||| n == 0xa0
    ||| n == 0x1680
    ||| 0x2000 <= n <= 0x200a
    ||| n == 0x2028
    ||| n == 0x2029
    ||| n == 0x202f
    ||| n == 0x205f
    ||| n == 0x3000
}

/// Name for what `char::is_alphanumeric` answers for a character
/// (alphabetic or numeric in the Unicode sense).
pub uninterp spec fn alphanumeric(c: char) -> bool;

/// Calls `char::is_whitespace`, which tells whether `c` has the Unicode
/// `White_Space` property.
#[verifier::external_body]
pub(crate) fn is_white_space(c: char) -> (r: bool)
    ensures
        r == white_space(c),
{
    c.is_whitespace()
}

/// Calls `char::is_alphanumeric`; its result is the named property of `c`.
#[verifier::external_body]
pub(crate) fn is_alphanumeric(c: char) -> (r: bool)
    ensures
        r == alphanumeric(c),
{
    c.is_alphanumeric()
}

/// Calls `String::push`, which appends `c` to the end of the string.
#[verifier::external_body]
pub(crate) fn push_char(s: &mut String, c: char)
    ensures
        final(s)@ == old(s)@.push(c),
{
    s.push(c)
}

/// The characters of `s`, in order.
pub fn chars_of(s: &str) -> (v: Vec<char>)
    ensures
        v@ == s@,
{
    let mut v: Vec<char> = Vec::new();
    for c in it: s.chars()
        invariant
            v@ == it.seq().take(it.index() as int),
    {
        v.push(c);
    }
    v
}

/// A string holding exactly the characters of `v`.
pub fn string_of(v: &[char]) -> (s: String)
    ensures
        s@ == v@,
{
    let mut s = String::new();
    let mut i: usize = 0;
    while i < v.len()
        invariant
            i <= v.len(),
            s@ == v@.take(i as int),
        decreases v.len() - i,
    {
        push_char(&mut s, v[i]);
        i += 1;
        assert(s@ =~= v@.take(i as int));
    }
    assert(v@.take(v.len() as int) =~= v@);
    s
}

/// Appends the characters of `v` to `s`.
pub fn push_chars(s: &mut String, v: &[char])
    ensures
        final(s)@ == old(s)@ + v@,
{
    let ghost start = s@;
    let mut i: usize = 0;
    while i < v.len()
        invariant
            i <= v.len(),
            s@ == start + v@.take(i as int),
        decreases v.len() - i,
    {
        push_char(s, v[i]);
        i += 1;
        assert(s@ =~= start + v@.take(i as int));
    }
    assert(v@.take(v.len() as int) =~= v@);
}

/// Copy of `s[from..to]`.
pub fn slice_copy(s: &[char], from: usize, to: usize) -> (v: Vec<char>)
    requires
        from <= to <= s.len(),
    ensures
        v@ == s@.subrange(from as int, to as int),
{
    let mut v: Vec<char> = Vec::new();
    let mut i: usize = from;
    while i < to
        invariant
            from <= i <= to <= s.len(),
            v@ == s@.subrange(from as int, i as int),
        decreases to - i,
    {
        v.push(s[i]);
        i += 1;
        assert(v@ =~= s@.subrange(from as int, i as int));
    }
    v
}

// ---------------------------------------------------------------------------
// Trimming
// ---------------------------------------------------------------------------

/// `s` without its leading white space.
pub open spec fn trim_start(s: Seq<char>) -> Seq<char>
    decreases s.len(),
{
    if s.len() > 0 && white_space(s[0]) {
        trim_start(s.drop_first())
    } else {
        s
    }
}

/// `s` without its trailing white space.
pub open spec fn trim_end(s: Seq<char>) -> Seq<char>
    decreases s.len(),
{
    if s.len() > 0 && white_space(s.last()) {
        trim_end(s.drop_last())
    } else {
        s
    }
}

/// `s` without leading and trailing white space (what `str::trim` gives).
pub open spec fn trim(s: Seq<char>) -> Seq<char> {
    trim_end(trim_start(s))
}

/// A non-empty result of `trim_start` begins with a character that is not
/// white space.
pub proof fn lemma_trim_start_shape(s: Seq<char>)
    ensures
        trim_start(s).len() > 0 ==> !white_space(trim_start(s)[0]),
        trim_start(s).len() <= s.len(),
        trim_start(s) == s.skip(s.len() - trim_start(s).len()),
    decreases s.len(),
{
    if s.len() > 0 && white_space(s[0]) {
        lemma_trim_start_shape(s.drop_first());
        assert(s.drop_first().skip(s.drop_first().len() - trim_start(s).len()) =~= s.skip(
            s.len() - trim_start(s).len(),
        ));
    } else {
        assert(s.skip(0) =~= s);
    }
}

/// `trim_end` keeps a prefix of `s`, ends in a character that is not white
/// space (when not empty), and keeps every leading run of characters that
/// are not white space.
pub proof fn lemma_trim_end_shape(s: Seq<char>, m: int)
    requires
        0 <= m <= s.len(),
        forall|i: int| 0 <= i < m ==> !white_space(#[trigger] s[i]),
    ensures
        trim_end(s).len() > 0 ==> !white_space(trim_end(s).last()),
        m <= trim_end(s).len() <= s.len(),
        trim_end(s) == s.take(trim_end(s).len() as int),
    decreases s.len(),
{
    if s.len() > 0 && white_space(s.last()) {
        assert(s.len() - 1 >= m) by {
            if s.len() - 1 < m {
                assert(!white_space(s[s.len() - 1]));
            }
        }
        lemma_trim_end_shape(s.drop_last(), m);
        assert(s.drop_last().take(trim_end(s).len() as int) =~= s.take(trim_end(s).len() as int));
    } else {
        assert(s.take(s.len() as int) =~= s);
    }
}

/// Trimming twice is trimming once.
pub proof fn lemma_trim_idempotent(s: Seq<char>)
    ensures
        trim(trim(s)) == trim(s),
        trim(s).len() > 0 ==> !white_space(trim(s)[0]) && !white_space(trim(s).last()),
{
    let a = trim_start(s);
    lemma_trim_start_shape(s);
    if a.len() > 0 {
        lemma_trim_end_shape(a, 1);
    } else {
        lemma_trim_end_shape(a, 0);
    }
    let t = trim(s);
    if t.len() > 0 {
        assert(t[0] == a[0]);
        assert(trim_start(t) == t);
        assert(trim_end(t) == t);
    }
}

/// When the first `m` characters of `s` are not white space, the trimmed
/// text of `s` begins with them.
pub proof fn lemma_trim_keeps_head(s: Seq<char>, m: int)
    requires
        0 < m <= s.len(),
        forall|i: int| 0 <= i < m ==> !white_space(#[trigger] s[i]),
    ensures
        trim(s).len() >= m,
        trim(s).take(m) == s.take(m),
{
    assert(trim_start(s) == s);
    lemma_trim_end_shape(s, m);
    assert(trim(s).take(m) =~= s.take(m));
}

/// `s` without any leading occurrence of `c` (what `str::trim_start_matches` gives
/// for a single character).
pub open spec fn strip_leading(s: Seq<char>, c: char) -> Seq<char>
    decreases s.len(),
{
    if s.len() > 0 && s[0] == c {
        strip_leading(s.drop_first(), c)
    } else {
        s
    }
}

/// The bounds `(a, b)` with `s[a..b]` the trimmed text of `s`.
pub fn trim_bounds(s: &[char]) -> (r: (usize, usize))
    ensures
        r.0 <= r.1 <= s.len(),
        s@.subrange(r.0 as int, r.1 as int) == trim(s@),
{
    let mut i: usize = 0;
    assert(s@.subrange(0, s.len() as int) =~= s@);
    while i < s.len() && is_white_space(s[i])
        invariant
            i <= s.len(),
            trim_start(s@) == trim_start(s@.subrange(i as int, s.len() as int)),
        decreases s.len() - i,
    {
        assert(s@.subrange(i as int, s.len() as int).drop_first() =~= s@.subrange(
            i + 1,
            s.len() as int,
        ));
        i += 1;
    }
    assert(trim_start(s@) == s@.subrange(i as int, s.len() as int));
    let mut j: usize = s.len();
    while j > i && is_white_space(s[j - 1])
        invariant
            i <= j <= s.len(),
            trim(s@) == trim_end(s@.subrange(i as int, j as int)),
        decreases j,
    {
        assert(s@.subrange(i as int, j as int).drop_last() =~= s@.subrange(i as int, j - 1));
        j -= 1;
    }
    (i, j)
}

/// Trimmed copy of `s`.
pub fn trimmed(s: &[char]) -> (v: Vec<char>)
    ensures
        v@ == trim(s@),
{
    let (a, b) = trim_bounds(s);
    slice_copy(s, a, b)
}

/// Copy of `s` without its leading occurrences of `c`.
pub fn stripped_leading(s: &[char], c: char) -> (v: Vec<char>)
    ensures
        v@ == strip_leading(s@, c),
{
    let mut i: usize = 0;
    assert(s@.subrange(0, s.len() as int) =~= s@);
    while i < s.len() && s[i] == c
        invariant
            i <= s.len(),
            strip_leading(s@, c) == strip_leading(s@.subrange(i as int, s.len() as int), c),
        decreases s.len() - i,
    {
        assert(s@.subrange(i as int, s.len() as int).drop_first() =~= s@.subrange(
            i + 1,
            s.len() as int,
        ));
        i += 1;
    }
    slice_copy(s, i, s.len())
}

// ---------------------------------------------------------------------------
// Searching
// ---------------------------------------------------------------------------

/// `p` occurs in `s` at position `i`.
pub open spec fn occurs_at(s: Seq<char>, i: int, p: Seq<char>) -> bool {
    0 <= i && i + p.len() <= s.len() && s.subrange(i, i + p.len()) == p
}

/// First position at or after `i` where `p` occurs in `s`.
pub open spec fn find_from(s: Seq<char>, p: Seq<char>, i: int) -> Option<int>
    decreases s.len() + 1 - i,
{
    if i < 0 || i + p.len() > s.len() {
        None
    } else if occurs_at(s, i, p) {
        Some(i)
    } else {
        find_from(s, p, i + 1)
    }
}

/// First position where `p` occurs in `s` (what `str::find` gives, counted in characters).
pub open spec fn find(s: Seq<char>, p: Seq<char>) -> Option<int> {
    find_from(s, p, 0)
}

/// What `find_from` returns is the first occurrence at or after `i`.
pub proof fn lemma_find_from(s: Seq<char>, p: Seq<char>, i: int)
    requires
        0 <= i,
    ensures
        find_from(s, p, i) matches Some(k) ==> i <= k && occurs_at(s, k, p) && forall|j: int|
            i <= j < k ==> !occurs_at(s, j, p),
        find_from(s, p, i) is None ==> forall|j: int| i <= j ==> !occurs_at(s, j, p),
    decreases s.len() + 1 - i,
{
    if i < 0 || i + p.len() > s.len() {
    } else if occurs_at(s, i, p) {
    } else {
        lemma_find_from(s, p, i + 1);
    }
}

/// `s` begins with `p`.
pub open spec fn starts_with(s: Seq<char>, p: Seq<char>) -> bool {
    p.len() <= s.len() && s.subrange(0, p.len() as int) == p
}

/// `s` ends with `p`.
pub open spec fn ends_with(s: Seq<char>, p: Seq<char>) -> bool {
    p.len() <= s.len() && s.subrange(s.len() - p.len(), s.len() as int) == p
}

/// `p` occurs in `s` at position `i`.
pub fn matches_at(s: &[char], i: usize, p: &[char]) -> (r: bool)
    ensures
        r == occurs_at(s@, i as int, p@),
{
    if i > s.len() || p.len() > s.len() - i {
        return false;
    }
    let mut k: usize = 0;
    while k < p.len()
        invariant
            i + p.len() <= s.len(),
            k <= p.len(),
            forall|m: int| 0 <= m < k ==> s@[i + m] == p@[m],
        decreases p.len() - k,
    {
        if s[i + k] != p[k] {
            assert(s@.subrange(i as int, i + p.len())[k as int] != p@[k as int]);
            return false;
        }
        k += 1;
    }
    assert(s@.subrange(i as int, i + p.len()) =~= p@);
    true
}

/// First position of `p` in `s`.
pub fn find_in(s: &[char], p: &[char]) -> (r: Option<usize>)
    ensures
        r matches Some(i) ==> find(s@, p@) == Some(i as int),
        r matches Some(i) ==> i + p.len() <= s.len(),
        r is None ==> find(s@, p@) is None,
{
    proof {
        lemma_find_from(s@, p@, 0);
    }
    let mut i: usize = 0;
    while i <= s.len() && p.len() <= s.len() - i
        invariant
            find(s@, p@) == find_from(s@, p@, i as int),
        decreases s.len() + 1 - i,
    {
        if matches_at(s, i, p) {
            return Some(i);
        }
        if i == s.len() {
            assert(s@.subrange(i as int, i as int) =~= p@);
        }
        i += 1;
    }
    None
}

/// `s` begins with `p`.
pub fn starts_with_chars(s: &[char], p: &[char]) -> (r: bool)
    ensures
        r == starts_with(s@, p@),
{
    matches_at(s, 0, p)
}

/// `s` ends with `p`.
pub fn ends_with_chars(s: &[char], p: &[char]) -> (r: bool)
    ensures
        r == ends_with(s@, p@),
{
    if p.len() > s.len() {
        false
    } else {
        matches_at(s, s.len() - p.len(), p)
    }
}

/// `s` and `p` hold the same characters.
pub fn chars_eq(s: &[char], p: &[char]) -> (r: bool)
    ensures
        r == (s@ == p@),
{
    if s.len() != p.len() {
        return false;
    }
    let r = matches_at(s, 0, p);
    assert(s@.subrange(0, s.len() as int) =~= s@);
    r
}

/// `s` contains the character `c`.
pub fn contains_char(s: &[char], c: char) -> (r: bool)
    ensures
        r == s@.contains(c),
{
    let mut i: usize = 0;
    while i < s.len()
        invariant
            i <= s.len(),
            forall|k: int| 0 <= k < i ==> s@[k] != c,
        decreases s.len() - i,
    {
        if s[i] == c {
            return true;
        }
        i += 1;
    }
    false
}

// ---------------------------------------------------------------------------
// Identifiers
// ---------------------------------------------------------------------------

/// A character that may stand in a function name.
pub open spec fn name_char(c: char) -> bool {
    alphanumeric(c) || c == '_'
}

/// Length of the longest prefix of `s[i..]` made of name characters.
pub open spec fn name_len_from(s: Seq<char>, i: int) -> int
    decreases s.len() - i,
{
    if i < 0 || i >= s.len() || !name_char(s[i]) {
        0
    } else {
        1 + name_len_from(s, i + 1)
    }
}

/// The name at the start of `s`: its longest prefix of name characters.
pub open spec fn leading_name(s: Seq<char>) -> Seq<char> {
    s.take(name_len_from(s, 0))
}

pub proof fn lemma_name_len_bounds(s: Seq<char>, i: int)
    requires
        0 <= i <= s.len(),
    ensures
        0 <= name_len_from(s, i) <= s.len() - i,
    decreases s.len() - i,
{
    if i < s.len() && name_char(s[i]) {
        lemma_name_len_bounds(s, i + 1);
    }
}

/// Length of the longest prefix of `s[i..]` whose characters are name
/// characters when `alnum` tells, position by position, which characters
/// are alphanumeric (the scan stops where either sequence ends).
pub open spec fn name_len_with(s: Seq<char>, alnum: Seq<bool>, i: int) -> int
    decreases s.len() - i,
{
    if i < 0 || i >= s.len() || i >= alnum.len() || !(alnum[i] || s[i] == '_') {
        0
    } else {
        1 + name_len_with(s, alnum, i + 1)
    }
}

/// The alphanumeric flag of each character of `s`.
pub open spec fn alnum_flags(s: Seq<char>) -> Seq<bool> {
    Seq::new(s.len(), |k: int| alphanumeric(s[k]))
}

/// With the true flags, the scan over flags measures the leading name.
pub proof fn lemma_name_len_with_flags(s: Seq<char>, i: int)
    requires
        0 <= i <= s.len(),
    ensures
        name_len_with(s, alnum_flags(s), i) == name_len_from(s, i),
    decreases s.len() - i,
{
    if i < s.len() {
        lemma_name_len_with_flags(s, i + 1);
    }
}

/// Length of the leading name of `s`, where `alnum[i]` says whether `s[i]`
/// is alphanumeric: the number of leading positions whose flag is set or
/// whose character is `'_'`.
pub fn leading_name_len_with(s: &[char], alnum: &[bool]) -> (n: usize)
    ensures
        n == name_len_with(s@, alnum@, 0),
        n <= s.len(),
        n <= alnum.len(),
{
    let mut i: usize = 0;
    while i < s.len() && i < alnum.len() && (alnum[i] || s[i] == '_')
        invariant
            i <= s.len(),
            i <= alnum.len(),
            name_len_with(s@, alnum@, 0) == i + name_len_with(s@, alnum@, i as int),
        decreases s.len() - i,
    {
        i += 1;
    }
    i
}

/// Length of the leading name of `s`.
pub fn leading_name_len(s: &[char]) -> (n: usize)
    ensures
        n == name_len_from(s@, 0),
        n <= s.len(),
{
    let mut flags: Vec<bool> = Vec::new();
    let mut k: usize = 0;
    while k < s.len()
        invariant
            k <= s.len(),
            flags@ =~= alnum_flags(s@).take(k as int),
        decreases s.len() - k,
    {
        flags.push(is_alphanumeric(s[k]));
        k += 1;
    }
    assert(flags@ =~= alnum_flags(s@));
    proof {
        lemma_name_len_with_flags(s@, 0);
    }
    leading_name_len_with(s, flags.as_slice())
}

// ---------------------------------------------------------------------------
// Lines
// ---------------------------------------------------------------------------

/// Position of the first `'\n'` at or after `i` (or the length when there is none).
pub open spec fn line_end(s: Seq<char>, i: int) -> int
    decreases s.len() - i,
{
    if i < 0 || i >= s.len() || s[i] == '\n' {
        i
    } else {
        line_end(s, i + 1)
    }
}

/// A line's text: a `'\r'` right before its `'\n'` is not part of it.
pub open spec fn drop_cr(l: Seq<char>, terminated: bool) -> Seq<char> {
    if terminated && l.len() > 0 && l.last() == '\r' {
        l.drop_last()
    } else {
        l
    }
}

/// The lines of `s` that start at or after position `start`.
pub open spec fn lines_from(s: Seq<char>, start: int) -> Seq<Seq<char>>
    decreases s.len() + 1 - start,
{
    if start < 0 || start >= s.len() {
        Seq::empty()
    } else {
        let e = line_end(s, start);
        proof {
            lemma_line_end_bounds(s, start);
        }
        seq![drop_cr(s.subrange(start, e), e < s.len())] + lines_from(s, e + 1)
    }
}

/// The lines of `s`, as `str::lines` yields them: split at `'\n'`, a `'\r'`
/// before a `'\n'` dropped, no empty line after a final `'\n'`.
pub open spec fn lines(s: Seq<char>) -> Seq<Seq<char>> {
    lines_from(s, 0)
}

/// The character views of the lines held in `v`.
pub open spec fn views(v: Seq<Vec<char>>) -> Seq<Seq<char>> {
    Seq::new(v.len(), |i: int| v[i]@)
}

proof fn lemma_line_end_skip(s: Seq<char>, a: int, b: int)
    requires
        0 <= a <= b <= s.len(),
        forall|k: int| a <= k < b ==> s[k] != '\n',
    ensures
        line_end(s, a) == line_end(s, b),
    decreases b - a,
{
    if a < b {
        lemma_line_end_skip(s, a + 1, b);
    }
}

pub proof fn lemma_line_end_bounds(s: Seq<char>, i: int)
    requires
        0 <= i <= s.len(),
    ensures
        i <= line_end(s, i) <= s.len(),
        line_end(s, i) < s.len() ==> s[line_end(s, i)] == '\n',
    decreases s.len() - i,
{
    if i < s.len() && s[i] != '\n' {
        lemma_line_end_bounds(s, i + 1);
    }
}

/// Copy of `s[from..to]`, less a final `'\r'` when `terminated`.
fn line_copy(s: &[char], from: usize, to: usize, terminated: bool) -> (v: Vec<char>)
    requires
        from <= to <= s.len(),
    ensures
        v@ == drop_cr(s@.subrange(from as int, to as int), terminated),
{
    if terminated && to > from && s[to - 1] == '\r' {
        let v = slice_copy(s, from, to - 1);
        assert(v@ =~= s@.subrange(from as int, to as int).drop_last());
        v
    } else {
        slice_copy(s, from, to)
    }
}

/// The lines of `s`.
pub fn split_lines(s: &[char]) -> (ls: Vec<Vec<char>>)
    ensures
        views(ls@) == lines(s@),
{
    let mut ls: Vec<Vec<char>> = Vec::new();
    let mut start: usize = 0;
    let mut i: usize = 0;
    while i < s.len()
        invariant
            start <= i <= s.len(),
            forall|k: int| start <= k < i ==> s@[k] != '\n',
            views(ls@) + lines_from(s@, start as int) == lines(s@),
        decreases s.len() - i,
    {
        if s[i] == '\n' {
            proof {
                lemma_line_end_skip(s@, start as int, i as int);
            }
            let line = line_copy(s, start, i, true);
            let ghost before = views(ls@);
            ls.push(line);
            assert(views(ls@) =~= before.push(line@));
            assert(lines_from(s@, start as int) == seq![line@] + lines_from(s@, i + 1));
            assert(views(ls@) + lines_from(s@, i + 1) =~= before + lines_from(
                s@,
                start as int,
            ));
            start = i + 1;
        }
        i += 1;
    }
    if start < s.len() {
        proof {
            lemma_line_end_skip(s@, start as int, s.len() as int);
        }
        let line = line_copy(s, start, s.len(), false);
        let ghost before = views(ls@);
        ls.push(line);
        assert(views(ls@) =~= before.push(line@));
        assert(lines_from(s@, s.len() + 1) =~= Seq::<Seq<char>>::empty());
        assert(lines_from(s@, start as int) =~= seq![line@]);
    }
    assert(views(ls@) =~= lines(s@));
    ls
}

/// Number of occurrences of `c` in `s[j..]`.
pub open spec fn count_from(s: Seq<char>, c: char, j: int) -> int
    decreases s.len() - j,
{
    if j < 0 || j >= s.len() {
        0
    } else {
        (if s[j] == c {
            1int
        } else {
            0int
        }) + count_from(s, c, j + 1)
    }
}

// ---------------------------------------------------------------------------
// Decimal numerals
// ---------------------------------------------------------------------------

/// The digit character for `d < 10`.
pub open spec fn digit(d: nat) -> char {
    if d == 0 {
        '0'
    } else if d == 1 {
        '1'
    } else if d == 2 {
        '2'
    } else if d == 3 {
        '3'
    } else if d == 4 {
        '4'
    } else if d == 5 {
        '5'
    } else if d == 6 {
        '6'
    } else if d == 7 {
        '7'
    } else if d == 8 {
        '8'
    } else {
        '9'
    }
}

/// The decimal numeral of `n`, as `{}` formats an unsigned integer.
pub open spec fn decimal(n: nat) -> Seq<char>
    decreases n,
{
    if n < 10 {
        seq![digit(n)]
    } else {
        decimal(n / 10).push(digit(n % 10))
    }
}

fn digit_char(d: usize) -> (c: char)
    requires
        d < 10,
    ensures
        c == digit(d as nat),
{
    if d == 0 {
        '0'
    } else if d == 1 {
        '1'
    } else if d == 2 {
        '2'
    } else if d == 3 {
        '3'
    } else if d == 4 {
        '4'
    } else if d == 5 {
        '5'
    } else if d == 6 {
        '6'
    } else if d == 7 {
        '7'
    } else if d == 8 {
        '8'
    } else {
        '9'
    }
}

/// Appends the decimal numeral of `n` to `s`.
pub fn push_decimal(s: &mut String, n: usize)
    ensures
        final(s)@ == old(s)@ + decimal(n as nat),
    decreases n,
{
    if n >= 10 {
        push_decimal(s, n / 10);
    }
    push_char(s, digit_char(n % 10));
    proof {
        if n >= 10 {
            assert(decimal(n as nat) == decimal((n / 10) as nat).push(digit((n % 10) as nat)));
        }
    }
    assert(s@ =~= old(s)@ + decimal(n as nat));
}

} // verus!
