//! Checks that edits to Rust and PHP files keep functions short: body-line
//! counting, brace scanning, and the messages of the edit hook.
pub mod brace_scan;
pub mod hook;
pub mod lines;
pub mod php_parser;
pub mod rust_parser;
pub mod text;
