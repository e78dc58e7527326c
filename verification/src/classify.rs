//! Which lines open an error, and which continue one.
use vstd::prelude::*;

use crate::model;
use crate::patterns;
use crate::patterns::{LineFacts, Patterns};
use crate::text;
use crate::text_spec;

verus! {

/// Whether the trimmed `line` opens a Python traceback.
pub fn is_traceback_start(line: &str) -> (b: bool)
    ensures
        b == model::is_traceback_start(line@),
{
    text::starts_with(line, "Traceback ")
}

/// Whether the trimmed `line` opens an error.
pub fn is_error_start(patterns: &Patterns, line: &str) -> (b: bool)
    ensures
        b == model::is_error_start(line@, patterns::line_facts(line@)),
{
    error_start_from(line, patterns.line_facts(line))
}

/// Whether the trimmed `line`, of which the patterns say `facts`, opens an error.
pub fn error_start_from(line: &str, facts: LineFacts) -> (b: bool)
    ensures
        b == model::is_error_start(line@, facts),
{
    if is_traceback_start(line) || facts.python_frame || facts.python_exception || facts.js_frame {
        return true;
    }
    if text::contains(line, "No module named ") {
        return true;
    }
    facts.error_mark
}

/// Whether `line` continues an error that an earlier line opened.
pub fn is_error_continuation(patterns: &Patterns, line: &str) -> (b: bool)
    ensures
        b == model::is_error_continuation(
            line@,
            patterns::line_facts(text_spec::trim(line@)),
        ),
{
    let trimmed = text::trim(line);
    error_continuation_from(line, patterns.line_facts(trimmed.as_str()))
}

/// Whether `line`, of which the patterns say `facts` once it is trimmed, continues an error.
pub fn error_continuation_from(line: &str, facts: LineFacts) -> (b: bool)
    ensures
        b == model::is_error_continuation(line@, facts),
{
    let trimmed = text::trim(line);
    let trimmed = trimmed.as_str();
    text::starts_with(line, " ") || text::starts_with(line, "\t") || text::starts_with(trimmed, ">")
        || text::starts_with(trimmed, "|") || text::starts_with(
        trimmed,
        "During handling of the above exception",
    ) || text::starts_with(trimmed, "The above exception") || text::starts_with(
        trimmed,
        "Caused by:",
    ) || text::starts_with(trimmed, "note:") || text::starts_with(trimmed, "help:")
        || facts.python_frame || facts.python_exception || facts.js_frame
}

/// What the patterns say of each line, trimmed.
pub fn facts_of(patterns: &Patterns, lines: &[String]) -> (r: Vec<LineFacts>)
    ensures
        r@ == model::facts_of(text_spec::texts(lines@)),
{
    let mut out: Vec<LineFacts> = Vec::new();
    let mut i: usize = 0;
    while i < lines.len()
        invariant
            i <= lines@.len(),
            out@ == model::facts_of(text_spec::texts(lines@).take(i as int)),
        decreases lines.len() - i,
    {
        let trimmed = text::trim(lines[i].as_str());
        out.push(patterns.line_facts(trimmed.as_str()));
        i += 1;
        assert(out@ == model::facts_of(text_spec::texts(lines@).take(i as int)));
    }
    assert(text_spec::texts(lines@).take(i as int) == text_spec::texts(lines@));
    out
}

} // verus!
