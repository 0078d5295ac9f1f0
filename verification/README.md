# claude_fn_length_hook

An edit hook that keeps Rust and PHP functions short. It reads a tool
payload (`Edit` or `Write`), works out the text the file would hold after
the change, and blocks the change when a function body grows past its
limit (30 countable lines, 200 in tests, legacy PHP functions may stay as
long as they were) or a Rust file grows past 750 lines.

Layout:

- `src/text.rs`: trimming, searching, line splitting and decimal numerals
  over `Seq<char>`.
- `src/brace_scan.rs`: the brace-depth scanner that skips strings and
  comments.
- `src/lines.rs`: which lines count toward a body.
- `src/rust_parser.rs`, `src/php_parser.rs`: finding functions and
  measuring their bodies.
- `src/hook.rs`: simulating the tool call, producing the messages, and
  `hook_decision`, which turns a payload and the file's current text into
  allow, block (with the reason) or a brace-depth overflow.
- `app/main.rs`: reading stdin, reading the file, printing the decision.

The functions in `src/` are verified against specifications of what they
compute. Five small wrappers around std (`char::is_whitespace`,
`char::is_alphanumeric`, `String::push`, `Path::file_name`,
`Path::extension`) are trusted: their contracts are stated, not proved.
The `law_*` proof functions state the properties the hook promises (blank,
brace-only and comment lines never count; reports come in line order and
break their limits; PHP reports name distinct functions; an unchanged PHP
file has no violations; an old version only raises limits; a legacy file
or function may stay as it is but not grow; the brace scanner never is in
a string and a block comment at once).
