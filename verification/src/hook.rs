//! The decisions of the edit hook: what a tool call leaves in a file, and
//! which messages the length checks produce for it.
use vstd::prelude::*;

use crate::php_parser::{self, php_check, php_reports, sources_fit, PhpReport};
use crate::rust_parser::{
    self, reports, rust_depth_fits, rust_violations, FnReport, RustViolations, FILE_LINE_LIMIT,
};
use crate::text::{
    chars_eq, chars_of, decimal, ends_with, ends_with_chars, find, find_in, lemma_find_from, lines,
    occurs_at, push_chars, push_decimal, slice_copy, split_lines,
};

verus! {

/// The fields of a tool call's input that the hook reads.
pub struct ToolInput {
    pub file_path: Option<String>,
    pub old_string: Option<String>,
    pub new_string: Option<String>,
    pub content: Option<String>,
}

/// A hook payload: the tool's name (if given) and its input.
pub struct HookInput {
    pub tool_name: Option<String>,
    pub tool_input: ToolInput,
}

/// The languages the hook checks.
#[derive(Clone, Copy, Debug, PartialEq, Eq, Structural)]
pub enum SourceKind {
    Rust,
    Php,
}

/// The text of an optional string.
pub open spec fn opt_text(o: Option<String>) -> Option<Seq<char>> {
    match o {
        Some(s) => Some(s@),
        None => None,
    }
}

/// The texts of a list of strings.
pub open spec fn texts(v: Seq<String>) -> Seq<Seq<char>> {
    Seq::new(v.len(), |i: int| v[i]@)
}

// ---------------------------------------------------------------------------
// Paths
// ---------------------------------------------------------------------------

/// Name for the final component of a path, as text, that
/// `std::path::Path::file_name` gives (none for a path ending in `..` or for `/`).
pub uninterp spec fn path_file_name(path: Seq<char>) -> Option<Seq<char>>;

/// Name for the extension of a path's file name, as text, that
/// `std::path::Path::extension` gives.
pub uninterp spec fn path_extension(path: Seq<char>) -> Option<Seq<char>>;

/// Calls `Path::file_name` on `path` and turns the component back into text.
#[verifier::external_body]
fn file_name_of(path: &str) -> (r: Option<String>)
    ensures
        opt_text(r) == path_file_name(path@),
{
    std::path::Path::new(path).file_name().and_then(|n| n.to_str()).map(|n| n.to_string())
}

/// Calls `Path::extension` on `path` and turns the extension back into text.
#[verifier::external_body]
fn extension_of(path: &str) -> (r: Option<String>)
    ensures
        opt_text(r) == path_extension(path@),
{
    std::path::Path::new(path).extension().and_then(|e| e.to_str()).map(|e| e.to_string())
}

/// The language an extension stands for: `rs` or `php`.
pub open spec fn kind_of(ext: Seq<char>) -> Option<SourceKind> {
    if ext == seq!['r', 's'] {
        Some(SourceKind::Rust)
    } else if ext == seq!['p', 'h', 'p'] {
        Some(SourceKind::Php)
    } else {
        None
    }
}

/// The language of a file by its extension; none for other files.
pub fn source_kind(file_path: &str) -> (r: Option<SourceKind>)
    ensures
        r == match path_extension(file_path@) {
            Some(ext) => kind_of(ext),
            None => None,
        },
{
    match extension_of(file_path) {
        Some(ext) => kind_of_extension(ext.as_str()),
        None => None,
    }
}

/// The language an extension stands for.
pub fn kind_of_extension(ext: &str) -> (r: Option<SourceKind>)
    ensures
        r == kind_of(ext@),
{
    let e = chars_of(ext);
    let rs: [char; 2] = ['r', 's'];
    let php: [char; 3] = ['p', 'h', 'p'];
    assert(rs@ == seq!['r', 's']);
    assert(php@ == seq!['p', 'h', 'p']);
    if chars_eq(&e, &rs) {
        Some(SourceKind::Rust)
    } else if chars_eq(&e, &php) {
        Some(SourceKind::Php)
    } else {
        None
    }
}

// ---------------------------------------------------------------------------
// Simulating the tool call
// ---------------------------------------------------------------------------

/// `s` with the first occurrence of `old` replaced by `new` (what
/// `str::replacen(old, new, 1)` gives).
pub open spec fn replace_first(s: Seq<char>, old: Seq<char>, new: Seq<char>) -> Seq<char> {
    match find(s, old) {
        Some(k) => s.take(k) + new + s.skip(k + old.len()),
        None => s,
    }
}

/// An edit replaces the first occurrence of `old` and nothing else: where
/// `old` occurs, the result is the text before its first occurrence, then
/// `new`, then the text after that occurrence; where it does not, the text
/// is left as it is.
pub proof fn law_replace_first_occurrence(s: Seq<char>, old: Seq<char>, new: Seq<char>)
    ensures
        (exists|j: int| 0 <= j && occurs_at(s, j, old)) ==> exists|k: int|
            0 <= k && occurs_at(s, k, old) && (forall|j: int| 0 <= j < k ==> !occurs_at(s, j, old))
                && replace_first(s, old, new) == s.take(k) + new + s.skip(k + old.len()),
        (forall|j: int| 0 <= j ==> !occurs_at(s, j, old)) ==> replace_first(s, old, new) == s,
{
    lemma_find_from(s, old, 0);
}

/// What an `Edit` leaves: the old text and the text after the replacement.
pub open spec fn edit_result(tool_input: ToolInput, before: Option<Seq<char>>) -> Option<
    (Option<Seq<char>>, Seq<char>),
> {
    match (tool_input.old_string, tool_input.new_string, before) {
        (Some(o), Some(n), Some(b)) => Some((before, replace_first(b, o@, n@))),
        _ => None,
    }
}

/// What a `Write` leaves: the old text and the new content.
pub open spec fn write_result(tool_input: ToolInput, before: Option<Seq<char>>) -> Option<
    (Option<Seq<char>>, Seq<char>),
> {
    match tool_input.content {
        Some(c) => Some((before, c@)),
        None => None,
    }
}

/// What the tool call leaves, by tool (`Edit` when none is named); none for
/// other tools.
pub open spec fn content_result(input: HookInput, before: Option<Seq<char>>) -> Option<
    (Option<Seq<char>>, Seq<char>),
> {
    let tool = match input.tool_name {
        Some(t) => t@,
        None => seq!['E', 'd', 'i', 't'],
    };
    if tool == seq!['E', 'd', 'i', 't'] {
        edit_result(input.tool_input, before)
    } else if tool == seq!['W', 'r', 'i', 't', 'e'] {
        write_result(input.tool_input, before)
    } else {
        None
    }
}

/// The path of the file the tool call touches.
pub fn extract_file_path(input: &HookInput) -> (r: Option<String>)
    ensures
        opt_text(r) == opt_text(input.tool_input.file_path),
{
    match &input.tool_input.file_path {
        Some(p) => Some(p.clone()),
        None => None,
    }
}

/// Simulate the edit to get (before, after) content, given the file's
/// current text `before`.
pub fn resolve_content(input: &HookInput, before: Option<String>) -> (r: Option<
    (Option<String>, String),
>)
    ensures
        match r {
            Some((b, a)) => content_result(*input, opt_text(before)) == Some((opt_text(b), a@)),
            None => content_result(*input, opt_text(before)) is None,
        },
{
    let tool = match &input.tool_name {
        Some(t) => chars_of(t.as_str()),
        None => {
            let edit: [char; 4] = ['E', 'd', 'i', 't'];
            assert(edit@ == seq!['E', 'd', 'i', 't']);
            slice_copy(&edit, 0, 4)
        },
    };
    assert(tool@ == match input.tool_name {
        Some(t) => t@,
        None => seq!['E', 'd', 'i', 't'],
    });
    let edit: [char; 4] = ['E', 'd', 'i', 't'];
    let write: [char; 5] = ['W', 'r', 'i', 't', 'e'];
    assert(edit@ == seq!['E', 'd', 'i', 't']);
    assert(write@ == seq!['W', 'r', 'i', 't', 'e']);
    if chars_eq(&tool, &edit) {
        resolve_edit(&input.tool_input, before)
    } else if chars_eq(&tool, &write) {
        resolve_write(&input.tool_input, before)
    } else {
        None
    }
}

/// The text left by an `Edit`: the first occurrence of `old_string` in the
/// current text replaced by `new_string`.
pub fn resolve_edit(tool_input: &ToolInput, before: Option<String>) -> (r: Option<
    (Option<String>, String),
>)
    ensures
        match r {
            Some((b, a)) => edit_result(*tool_input, opt_text(before)) == Some((opt_text(b), a@)),
            None => edit_result(*tool_input, opt_text(before)) is None,
        },
{
    let old_str = match &tool_input.old_string {
        Some(s) => s,
        None => return None,
    };
    let new_str = match &tool_input.new_string {
        Some(s) => s,
        None => return None,
    };
    let after = match &before {
        Some(current) => replace_first_occurrence(current.as_str(), old_str.as_str(), new_str.as_str()),
        None => return None,
    };
    Some((before, after))
}

/// The text left by a `Write`: its content.
pub fn resolve_write(tool_input: &ToolInput, before: Option<String>) -> (r: Option<
    (Option<String>, String),
>)
    ensures
        match r {
            Some((b, a)) => write_result(*tool_input, opt_text(before)) == Some((opt_text(b), a@)),
            None => write_result(*tool_input, opt_text(before)) is None,
        },
{
    let content = match &tool_input.content {
        Some(c) => c.clone(),
        None => return None,
    };
    Some((before, content))
}

/// `s` with its first occurrence of `old` replaced by `new`.
pub fn replace_first_occurrence(s: &str, old: &str, new: &str) -> (r: String)
    ensures
        r@ == replace_first(s@, old@, new@),
{
    let sc = chars_of(s);
    let oc = chars_of(old);
    let nc = chars_of(new);
    let mut out = String::new();
    match find_in(&sc, &oc) {
        Some(k) => {
            push_chars(&mut out, &slice_copy(&sc, 0, k));
            push_chars(&mut out, &nc);
            push_chars(&mut out, &slice_copy(&sc, k + oc.len(), sc.len()));
            assert(sc@.subrange(0, k as int) =~= sc@.take(k as int));
            assert(sc@.subrange(k + oc.len(), sc.len() as int) =~= sc@.skip(k + oc.len()));
        },
        None => {
            push_chars(&mut out, &sc);
        },
    }
    assert(out@ =~= replace_first(s@, old@, new@));
    out
}

// ---------------------------------------------------------------------------
// Messages
// ---------------------------------------------------------------------------

/// `{name} (line {line}): {body} body lines (max {limit})`
pub open spec fn over_limit_message(name: Seq<char>, line: nat, body: nat, limit: nat) -> Seq<
    char,
> {
    name + " (line "@ + decimal(line) + "): "@ + decimal(body) + " body lines (max "@ + decimal(
        limit,
    ) + ")"@
}

/// The message for a Rust function that breaks its limit.
pub open spec fn rust_message(r: FnReport) -> Seq<char> {
    over_limit_message(
        r.name,
        r.line as nat,
        r.body_lines as nat,
        if r.is_test {
            rust_parser::TEST_BODY_LIMIT as nat
        } else {
            rust_parser::BODY_LIMIT as nat
        },
    )
}

/// `File is {n} lines (max 750). Consider splitting it.`
pub open spec fn file_length_message(after_lines: nat) -> Seq<char> {
    "File is "@ + decimal(after_lines) + " lines (max "@ + decimal(FILE_LINE_LIMIT as nat)
        + "). Consider splitting it."@
}

/// The file-length message, if any: a file over the limit is reported
/// unless it was already over the limit and did not grow.
pub open spec fn file_length_messages(before: Option<Seq<char>>, after_lines: int) -> Seq<
    Seq<char>,
> {
    if after_lines <= FILE_LINE_LIMIT as int {
        Seq::empty()
    } else {
        let before_lines = match before {
            Some(b) => lines(b).len() as int,
            None => 0,
        };
        if before_lines <= FILE_LINE_LIMIT as int || after_lines > before_lines {
            seq![file_length_message(after_lines as nat)]
        } else {
            Seq::empty()
        }
    }
}

/// A file within the line limit gets no file-length message, nor does a
/// file that was already over the limit and has not grown; a file over the
/// limit that was within it before, or that grew, gets exactly one.
pub proof fn law_file_length_legacy_may_not_grow(before: Option<Seq<char>>, after_lines: int)
    ensures
        after_lines <= FILE_LINE_LIMIT as int ==> file_length_messages(before, after_lines).len()
            == 0,
        (before matches Some(b) && lines(b).len() > FILE_LINE_LIMIT && after_lines <= lines(
            b,
        ).len()) ==> file_length_messages(before, after_lines).len() == 0,
        (after_lines > FILE_LINE_LIMIT as int && (before matches Some(b) ==> (lines(b).len()
            <= FILE_LINE_LIMIT || after_lines > lines(b).len()))) ==> file_length_messages(
            before,
            after_lines,
        ) == seq![file_length_message(after_lines as nat)],
{
}

/// The messages for a Rust file: one per limit-breaking function, then the
/// file-length message.
pub open spec fn rust_messages(before: Option<Seq<char>>, after: Seq<char>) -> Seq<Seq<char>> {
    rust_violations(lines(after)).map_values(|r: FnReport| rust_message(r))
        + file_length_messages(before, lines(after).len() as int)
}

/// A Rust file that was already over the line limit may be edited as long
/// as it does not grow: its messages are then the function messages alone.
/// A file that crosses the limit, or grows past it, gets the file-length
/// message after them.
pub proof fn law_rust_legacy_file_may_stay(before: Seq<char>, after: Seq<char>, path: Seq<char>)
    ensures
        messages_for(SourceKind::Rust, Some(before), after, path) == rust_messages(
            Some(before),
            after,
        ),
        (lines(before).len() > 750 && lines(after).len() <= lines(before).len())
            ==> rust_messages(Some(before), after) == rust_violations(lines(after)).map_values(
            |r: FnReport| rust_message(r),
        ),
        (lines(after).len() > 750 && (lines(before).len() <= 750
            || lines(after).len() > lines(before).len())) ==> rust_messages(Some(before), after)
            == rust_violations(lines(after)).map_values(|r: FnReport| rust_message(r)).push(
            file_length_message(lines(after).len())),
{
    let fs = rust_violations(lines(after)).map_values(|r: FnReport| rust_message(r));
    assert(fs + Seq::<Seq<char>>::empty() =~= fs);
    assert(fs + seq![file_length_message(lines(after).len())] =~= fs.push(
        file_length_message(lines(after).len()),
    ));
}

/// A PHP file is a test file when its name ends in `Test.php` or `Cest.php`.
pub open spec fn is_php_test_file(file_path: Seq<char>) -> bool {
    ends_with(file_path, "Test.php"@) || ends_with(file_path, "Cest.php"@)
}

/// The limit that applies to functions of a PHP file.
pub open spec fn php_limit(is_test_file: bool) -> nat {
    if is_test_file {
        php_parser::TEST_BODY_LIMIT as nat
    } else {
        php_parser::BODY_LIMIT as nat
    }
}

/// Only `.rs` and `.php` files are checked; a PHP file named `*Test.php` or
/// `*Cest.php` is held to 200 body lines, any other to 30.
pub proof fn law_checked_files_and_php_limits(ext: Seq<char>, file_path: Seq<char>)
    ensures
        kind_of(ext) == Some(SourceKind::Rust) <==> ext == "rs"@,
        kind_of(ext) == Some(SourceKind::Php) <==> ext == "php"@,
        kind_of(ext) is None <==> (ext != "rs"@ && ext != "php"@),
        php_limit(is_php_test_file(file_path)) == if ends_with(file_path, "Test.php"@) || ends_with(
            file_path,
            "Cest.php"@,
        ) {
            200nat
        } else {
            30nat
        },
        php_parser::base_limit(is_php_test_file(file_path)) == php_limit(
            is_php_test_file(file_path),
        ),
{
    reveal_strlit("rs");
    reveal_strlit("php");
    assert("rs"@ =~= seq!['r', 's']);
    assert("php"@ =~= seq!['p', 'h', 'p']);
}

/// The message for a PHP function that breaks its limit: a legacy function
/// (already over the limit before) is told it cannot grow.
pub open spec fn php_message(v: PhpReport, is_test_file: bool) -> Seq<char> {
    let limit = php_limit(is_test_file);
    match v.old_body_lines {
        Some(old) if old > limit => v.name + " (line "@ + decimal(v.line as nat) + "): "@
            + decimal(v.body_lines as nat) + " body lines (was "@ + decimal(old as nat)
            + ", cannot grow legacy function)"@,
        _ => over_limit_message(v.name, v.line as nat, v.body_lines as nat, limit),
    }
}

/// The messages for a PHP file.
pub open spec fn php_messages(before: Option<Seq<char>>, after: Seq<char>, file_path: Seq<char>) -> Seq<
    Seq<char>,
> {
    let is_test = is_php_test_file(file_path);
    php_check(after, before, php_limit(is_test) as int).map_values(
        |v: PhpReport| php_message(v, is_test),
    )
}

/// `ms` joined with `sep` between neighbours.
pub open spec fn join(ms: Seq<Seq<char>>, sep: Seq<char>) -> Seq<char>
    decreases ms.len(),
{
    if ms.len() == 0 {
        Seq::empty()
    } else if ms.len() == 1 {
        ms[0]
    } else {
        join(ms.drop_last(), sep) + sep + ms.last()
    }
}

/// The reason given when a change is blocked.
pub open spec fn block_message(short_name: Seq<char>, messages: Seq<Seq<char>>) -> Seq<char> {
    "Function body exceeds 30-line limit in "@ + short_name + ":\n  - "@ + join(messages, "\n  - "@)
        + "\nExtract logic into well-named helper functions."@
}

/// The messages for a Rust file after the change.
pub fn check_rust(before: Option<&str>, after: &str) -> (messages: Vec<String>)
    requires
        rust_depth_fits(lines(after@)),
    ensures
        texts(messages@) == rust_messages(str_text(before), after@),
{
    let result = rust_parser::check(after);
    rust_messages_from(before, &result)
}

/// The text of an optional string slice.
pub open spec fn str_text(o: Option<&str>) -> Option<Seq<char>> {
    match o {
        Some(s) => Some(s@),
        None => None,
    }
}

/// The messages for the result of a Rust check: one per reported function,
/// then the file-length message.
fn rust_messages_from(before: Option<&str>, result: &RustViolations) -> (messages: Vec<String>)
    ensures
        texts(messages@) == reports(result.fn_violations@).map_values(
            |r: FnReport| rust_message(r),
        ) + file_length_messages(str_text(before), result.file_lines as int),
{
    let mut messages: Vec<String> = Vec::new();
    let ghost reps = reports(result.fn_violations@);
    let mut k: usize = 0;
    while k < result.fn_violations.len()
        invariant
            k <= result.fn_violations.len(),
            reports(result.fn_violations@) == reps,
            texts(messages@) == reps.take(k as int).map_values(|r: FnReport| rust_message(r)),
        decreases result.fn_violations.len() - k,
    {
        let v = &result.fn_violations[k];
        assert(reps[k as int] == v@);
        let m = rust_violation_message(v);
        let ghost prev = texts(messages@);
        messages.push(m);
        assert(texts(messages@) =~= prev.push(m@));
        assert(reps.take(k + 1).map_values(|r: FnReport| rust_message(r)) =~= reps.take(
            k as int,
        ).map_values(|r: FnReport| rust_message(r)).push(rust_message(reps[k as int])));
        k += 1;
    }
    assert(reps.take(k as int) =~= reps);
    let ghost front = texts(messages@);
    check_file_length(before, result.file_lines, &mut messages);
    assert(texts(messages@) =~= front + file_length_messages(
        str_text(before),
        result.file_lines as int,
    ));
    messages
}

/// `{name} (line {line}): {body} body lines (max {limit})` for a Rust function.
fn rust_violation_message(v: &rust_parser::Violation) -> (m: String)
    ensures
        m@ == rust_message(v@),
{
    let limit = if v.is_test {
        rust_parser::TEST_BODY_LIMIT
    } else {
        rust_parser::BODY_LIMIT
    };
    over_limit_text(&v.name, v.line, v.body_lines, limit)
}

/// `{name} (line {line}): {body} body lines (max {limit})`
fn over_limit_text(name: &String, line: usize, body: usize, limit: usize) -> (m: String)
    ensures
        m@ == over_limit_message(name@, line as nat, body as nat, limit as nat),
{
    let mut m = name.clone();
    m.append(" (line ");
    push_decimal(&mut m, line);
    m.append("): ");
    push_decimal(&mut m, body);
    m.append(" body lines (max ");
    push_decimal(&mut m, limit);
    m.append(")");
    m
}

/// Appends the file-length message when the file is over the limit and
/// either was not before or grew.
pub fn check_file_length(before: Option<&str>, after_lines: usize, messages: &mut Vec<String>)
    ensures
        texts(final(messages)@) == texts(old(messages)@) + file_length_messages(
            match before {
                Some(b) => Some(b@),
                None => None,
            },
            after_lines as int,
        ),
{
    let ghost prev = texts(messages@);
    if after_lines <= FILE_LINE_LIMIT {
        assert(texts(messages@) =~= prev + Seq::<Seq<char>>::empty());
        return;
    }
    let before_lines = match before {
        Some(s) => split_lines(&chars_of(s)).len(),
        None => 0,
    };
    if before_lines <= FILE_LINE_LIMIT || after_lines > before_lines {
        let mut m = String::new();
        m.append("File is ");
        push_decimal(&mut m, after_lines);
        m.append(" lines (max ");
        push_decimal(&mut m, FILE_LINE_LIMIT);
        m.append("). Consider splitting it.");
        messages.push(m);
        assert(texts(messages@) =~= prev.push(m@));
    } else {
        assert(texts(messages@) =~= prev + Seq::<Seq<char>>::empty());
    }
}

/// The messages for a PHP file after the change.
pub fn check_php(before: Option<&str>, after: &str, file_path: &str) -> (messages: Vec<String>)
    requires
        sources_fit(after@, str_text(before)),
    ensures
        texts(messages@) == php_messages(str_text(before), after@, file_path@),
{
    let is_test_file = is_php_test_path(file_path);
    let vs = php_parser::check_with_test_flag(after, before, is_test_file);
    php_messages_from(&vs, is_test_file)
}

/// A PHP file is a test file when its name ends in `Test.php` or `Cest.php`.
fn is_php_test_path(file_path: &str) -> (r: bool)
    ensures
        r == is_php_test_file(file_path@),
{
    let path = chars_of(file_path);
    ends_with_chars(&path, &chars_of("Test.php")) || ends_with_chars(&path, &chars_of("Cest.php"))
}

/// The messages for the PHP violations `vs`.
fn php_messages_from(vs: &Vec<php_parser::Violation>, is_test_file: bool) -> (messages: Vec<
    String,
>)
    ensures
        texts(messages@) == php_reports(vs@).map_values(
            |v: PhpReport| php_message(v, is_test_file),
        ),
{
    let ghost reps = php_reports(vs@);
    let mut messages: Vec<String> = Vec::new();
    let mut k: usize = 0;
    while k < vs.len()
        invariant
            k <= vs.len(),
            reps == php_reports(vs@),
            texts(messages@) == reps.take(k as int).map_values(
                |v: PhpReport| php_message(v, is_test_file),
            ),
        decreases vs.len() - k,
    {
        let m = format_php_violation(&vs[k], is_test_file);
        let ghost prev = texts(messages@);
        messages.push(m);
        assert(texts(messages@) =~= prev.push(m@));
        assert(reps.take(k + 1).map_values(|v: PhpReport| php_message(v, is_test_file))
            =~= reps.take(k as int).map_values(|v: PhpReport| php_message(v, is_test_file)).push(
            php_message(reps[k as int], is_test_file),
        ));
        k += 1;
    }
    assert(reps.take(k as int) =~= reps);
    messages
}

/// The message for a PHP function that breaks its limit.
pub fn format_php_violation(v: &php_parser::Violation, is_test_file: bool) -> (m: String)
    ensures
        m@ == php_message(v@, is_test_file),
{
    let applicable_limit = if is_test_file {
        php_parser::TEST_BODY_LIMIT
    } else {
        php_parser::BODY_LIMIT
    };
    match v.old_body_lines {
        Some(old) => {
            if old > applicable_limit {
                let mut m = v.name.clone();
                m.append(" (line ");
                push_decimal(&mut m, v.line);
                m.append("): ");
                push_decimal(&mut m, v.body_lines);
                m.append(" body lines (was ");
                push_decimal(&mut m, old);
                m.append(", cannot grow legacy function)");
                return m;
            }
            over_limit_text(&v.name, v.line, v.body_lines, applicable_limit)
        },
        None => over_limit_text(&v.name, v.line, v.body_lines, applicable_limit),
    }
}

/// The reason given when a change to `file_path` is blocked.
pub fn format_block_message(file_path: &str, messages: &Vec<String>) -> (m: String)
    ensures
        m@ == block_message(
            match path_file_name(file_path@) {
                Some(n) => n,
                None => file_path@,
            },
            texts(messages@),
        ),
{
    let short = match file_name_of(file_path) {
        Some(n) => n,
        None => String::from_str(file_path),
    };
    block_message_for(short.as_str(), messages)
}

/// The reason given when a change is blocked, naming the file `short_name`.
pub fn block_message_for(short_name: &str, messages: &Vec<String>) -> (m: String)
    ensures
        m@ == block_message(short_name@, texts(messages@)),
{
    let mut m = String::new();
    m.append("Function body exceeds 30-line limit in ");
    m.append(short_name);
    m.append(":\n  - ");
    let ghost ms = texts(messages@);
    let ghost head = m@;
    let mut k: usize = 0;
    while k < messages.len()
        invariant
            k <= messages.len(),
            ms == texts(messages@),
            m@ == head + join(ms.take(k as int), "\n  - "@),
        decreases messages.len() - k,
    {
        let ghost before = m@;
        if k > 0 {
            m.append("\n  - ");
        }
        m.append(messages[k].as_str());
        assert(ms.take(k + 1).drop_last() =~= ms.take(k as int));
        assert(ms.take(k + 1).last() == messages@[k as int]@);
        if k == 0 {
            assert(join(ms.take(0), "\n  - "@) =~= Seq::<char>::empty());
            assert(m@ =~= head + join(ms.take(k + 1), "\n  - "@));
        } else {
            assert(m@ =~= head + join(ms.take(k + 1), "\n  - "@));
        }
        k += 1;
    }
    assert(ms.take(k as int) =~= ms);
    m.append("\nExtract logic into well-named helper functions.");
    m
}

// ---------------------------------------------------------------------------
// The decision
// ---------------------------------------------------------------------------

/// What the hook does with a tool call.
#[derive(Debug)]
pub enum HookOutcome {
    /// The change keeps every limit (or is not a Rust or PHP file change).
    Allow,
    /// The change breaks a limit; the reason to show.
    Block(String),
    /// Checking the change would take a brace depth out of `i32`.
    DepthOverflow,
}

/// The language of the file at `path`, by its extension.
pub open spec fn kind_for(path: Seq<char>) -> Option<SourceKind> {
    match path_extension(path) {
        Some(ext) => kind_of(ext),
        None => None,
    }
}

/// The file name shown in a block reason: the path's last component, or
/// the whole path when it has none.
pub open spec fn short_name(path: Seq<char>) -> Seq<char> {
    match path_file_name(path) {
        Some(n) => n,
        None => path,
    }
}

/// Checking `after` (against `before`) keeps every brace depth in `i32`.
pub open spec fn depth_fits_for(kind: SourceKind, before: Option<Seq<char>>, after: Seq<char>) -> bool {
    match kind {
        SourceKind::Rust => rust_depth_fits(lines(after)),
        SourceKind::Php => sources_fit(after, before),
    }
}

/// The messages for the file at `path` of the given kind.
pub open spec fn messages_for(
    kind: SourceKind,
    before: Option<Seq<char>>,
    after: Seq<char>,
    path: Seq<char>,
) -> Seq<Seq<char>> {
    match kind {
        SourceKind::Rust => rust_messages(before, after),
        SourceKind::Php => php_messages(before, after, path),
    }
}

/// The path whose current text the hook needs: that of a Rust or PHP file
/// named by the tool call.
pub fn path_to_check(input: &HookInput) -> (r: Option<String>)
    ensures
        match input.tool_input.file_path {
            Some(p) => if kind_for(p@) is Some {
                r matches Some(q) && q@ == p@
            } else {
                r is None
            },
            None => r is None,
        },
{
    let path = match extract_file_path(input) {
        Some(p) => p,
        None => return None,
    };
    match source_kind(path.as_str()) {
        Some(_) => Some(path),
        None => None,
    }
}

/// The hook's decision on a tool call, given the current text of the file
/// it names (if it could be read).
pub fn hook_decision(input: &HookInput, current: Option<String>) -> (r: HookOutcome)
    ensures
        match input.tool_input.file_path {
            None => r is Allow,
            Some(p) => match kind_for(p@) {
                None => r is Allow,
                Some(kind) => match content_result(*input, opt_text(current)) {
                    None => r is Allow,
                    Some((before, after)) => if !depth_fits_for(kind, before, after) {
                        r is DepthOverflow
                    } else if messages_for(kind, before, after, p@).len() == 0 {
                        r is Allow
                    } else {
                        r matches HookOutcome::Block(m) && m@ == block_message(
                            short_name(p@),
                            messages_for(kind, before, after, p@),
                        )
                    },
                },
            },
        },
{
    let path = match extract_file_path(input) {
        Some(p) => p,
        None => return HookOutcome::Allow,
    };
    let kind = match source_kind(path.as_str()) {
        Some(k) => k,
        None => return HookOutcome::Allow,
    };
    let (before, after) = match resolve_content(input, current) {
        Some(pair) => pair,
        None => return HookOutcome::Allow,
    };
    let before_text: Option<&str> = match &before {
        Some(b) => Some(b.as_str()),
        None => None,
    };
    assert(str_text(before_text) == opt_text(before));
    let messages = match kind {
        SourceKind::Rust => match rust_parser::try_check(after.as_str()) {
            Some(result) => rust_messages_from(before_text, &result),
            None => return HookOutcome::DepthOverflow,
        },
        SourceKind::Php => {
            let is_test_file = is_php_test_path(path.as_str());
            match php_parser::try_check_with_test_flag(after.as_str(), before_text, is_test_file) {
                Some(vs) => php_messages_from(&vs, is_test_file),
                None => return HookOutcome::DepthOverflow,
            }
        },
    };
    if messages.len() == 0 {
        HookOutcome::Allow
    } else {
        HookOutcome::Block(format_block_message(path.as_str(), &messages))
    }
}

} // verus!
