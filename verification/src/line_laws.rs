//! Laws of single lines: what the patterns are asked, and what opens or continues an error.
use vstd::prelude::*;

use crate::model;
use crate::patterns;
use crate::patterns::{LineFacts, JS_FRAME, PYTHON_EXCEPTION, PYTHON_FRAME, UV_NOISE};
use crate::text_laws;
use crate::text_spec;

verus! {

/// The answer to a pattern is that of the expression compiled from it, for the text as it is.
pub proof fn law_patterns_answer_for_themselves(pattern: Seq<char>, text: Seq<char>)
    ensures
        patterns::matches_pattern(pattern, text) == patterns::regex_is_match(
            patterns::regex_new(pattern),
            text,
        ),
{
}

/// How the patterns for whole lines read.
pub proof fn law_line_patterns()
    ensures
        PYTHON_FRAME@ == r#"^\s*File ".*", line \d+.*$"#@,
        PYTHON_EXCEPTION@ == r"^\s*[A-Za-z_][A-Za-z0-9_.]*(?:Error|Exception):"@,
        JS_FRAME@ == r"^\s*at .+:\d+:\d+.*$"@,
        UV_NOISE@ == r"(?x)
        ^(?:
            Using\s+CPython
          | Using\s+Python
          | Creating\s+virtual\s+environment
          | (?:Resolved|Installed|Audited|Prepared|Uninstalled|Removed)\s+\d+\s+package
          | (?:Downloading|Downloaded|Building|Built|Updating|Cloning)\s+\S
          | [+-]\s+\S+==\S+
        )"@,
{
}

/// Whether uv wrote a line is settled by its pattern.
pub proof fn law_uv_noise(line: Seq<char>)
    ensures
        patterns::is_uv_noise(line) <==> patterns::matches_pattern(UV_NOISE@, line),
{
}

/// Each fact about a line is the answer of its pattern for that line; a line has an error mark
/// exactly if one of the thirteen marks is in it.
pub proof fn law_line_facts(line: Seq<char>)
    ensures
        patterns::line_facts(line).python_frame <==> patterns::matches_pattern(PYTHON_FRAME@, line),
        patterns::line_facts(line).python_exception <==> patterns::matches_pattern(
            PYTHON_EXCEPTION@,
            line,
        ),
        patterns::line_facts(line).js_frame <==> patterns::matches_pattern(JS_FRAME@, line),
        patterns::line_facts(line).error_mark <==> {
            ||| patterns::matches_pattern(r"(?i)\berror\b"@, line)
            ||| patterns::matches_pattern(r"(?i)\bfailed\b"@, line)
            ||| patterns::matches_pattern(r"(?i)\bfailure\b"@, line)
            ||| patterns::matches_pattern(r"(?i)\bexception\b"@, line)
            ||| patterns::matches_pattern(r"(?i)\bpanic\b"@, line)
            ||| patterns::matches_pattern(r"(?i)\bwarn(?:ing)?\b"@, line)
            ||| patterns::matches_pattern(r"(?i)\bassert(?:ion)?\b"@, line)
            ||| patterns::matches_pattern(r"^\s*FAILED\b"@, line)
            ||| patterns::matches_pattern(r"^\s*ERROR\b"@, line)
            ||| patterns::matches_pattern(r"^\s*E\s+"@, line)
            ||| patterns::matches_pattern(r"^\s*Caused by:"@, line)
            ||| patterns::matches_pattern(r"^\s*note:"@, line)
            ||| patterns::matches_pattern(r"^\s*help:"@, line)
        },
{
    let marks = patterns::error_mark_patterns();
    assert(marks.len() == 13);
    let found = patterns::line_facts(line).error_mark;
    assert(forall|i: int|
        0 <= i < 13 && patterns::matches_pattern(#[trigger] marks[i], line) ==> found);
    assert(marks[0] == r"(?i)\berror\b"@ && marks[1] == r"(?i)\bfailed\b"@);
    assert(marks[2] == r"(?i)\bfailure\b"@ && marks[3] == r"(?i)\bexception\b"@);
    assert(marks[4] == r"(?i)\bpanic\b"@ && marks[5] == r"(?i)\bwarn(?:ing)?\b"@);
    assert(marks[6] == r"(?i)\bassert(?:ion)?\b"@ && marks[7] == r"^\s*FAILED\b"@);
    assert(marks[8] == r"^\s*ERROR\b"@ && marks[9] == r"^\s*E\s+"@);
    assert(marks[10] == r"^\s*Caused by:"@ && marks[11] == r"^\s*note:"@);
    assert(marks[12] == r"^\s*help:"@);
}

/// The facts about a list of lines are the facts about each, once it is trimmed.
pub proof fn law_facts_are_of_the_trimmed_lines(all: Seq<Seq<char>>)
    ensures
        model::facts_of(all).len() == all.len(),
        forall|i: int|
            0 <= i < all.len() ==> #[trigger] model::facts_of(all)[i] == patterns::line_facts(
                text_spec::trim(all[i]),
            ),
{
}

/// A line is blank exactly if it holds nothing but white space.
pub proof fn law_blank_lines(line: Seq<char>)
    ensures
        model::is_blank(line) <==> forall|i: int|
            0 <= i < line.len() ==> text_spec::is_white_space(#[trigger] line[i]),
{
    text_laws::law_trim(line);
}

/// Exactly the lines that start with the word `Traceback` and a space open a traceback.
pub proof fn law_what_opens_a_traceback(line: Seq<char>)
    ensures
        model::is_traceback_start(line) <==> exists|rest: Seq<char>|
            line == #[trigger] ("Traceback "@ + rest),
{
    let word = "Traceback "@;
    if model::is_traceback_start(line) {
        assert(line =~= word + line.skip(word.len() as int));
    }
    if exists|rest: Seq<char>| line == #[trigger] (word + rest) {
        let rest = choose|rest: Seq<char>| line == #[trigger] (word + rest);
        assert(word =~= line.subrange(0, word.len() as int));
    }
}

/// What opens an error: the start of a traceback, each of the facts, and a missing module. Any
/// one of these is enough, and nothing else is.
pub proof fn law_what_opens_an_error(line: Seq<char>, facts: LineFacts)
    ensures
        "Traceback "@.is_prefix_of(line) ==> model::is_error_start(line, facts),
        facts.python_frame ==> model::is_error_start(line, facts),
        facts.python_exception ==> model::is_error_start(line, facts),
        facts.js_frame ==> model::is_error_start(line, facts),
        facts.error_mark ==> model::is_error_start(line, facts),
        text_spec::contains(line, "No module named "@) ==> model::is_error_start(line, facts),
        !"Traceback "@.is_prefix_of(line) && !text_spec::contains(line, "No module named "@)
            && !facts.python_frame && !facts.python_exception && !facts.js_frame
            && !facts.error_mark ==> !model::is_error_start(line, facts),
{
}

/// What continues an error: an indented line, a line whose text starts with one of seven marks,
/// and a frame or an exception. Any one of these is enough, and nothing else is; an error mark
/// is not.
pub proof fn law_what_continues_an_error(line: Seq<char>, facts: LineFacts)
    ensures
        line.len() > 0 && (line[0] == ' ' || line[0] == '\t') ==> model::is_error_continuation(
            line,
            facts,
        ),
        ">"@.is_prefix_of(text_spec::trim(line)) ==> model::is_error_continuation(line, facts),
        "|"@.is_prefix_of(text_spec::trim(line)) ==> model::is_error_continuation(line, facts),
        "During handling of the above exception"@.is_prefix_of(text_spec::trim(line))
            ==> model::is_error_continuation(line, facts),
        "The above exception"@.is_prefix_of(text_spec::trim(line)) ==> model::is_error_continuation(
            line,
            facts,
        ),
        "Caused by:"@.is_prefix_of(text_spec::trim(line)) ==> model::is_error_continuation(
            line,
            facts,
        ),
        "note:"@.is_prefix_of(text_spec::trim(line)) ==> model::is_error_continuation(line, facts),
        "help:"@.is_prefix_of(text_spec::trim(line)) ==> model::is_error_continuation(line, facts),
        facts.python_frame ==> model::is_error_continuation(line, facts),
        facts.python_exception ==> model::is_error_continuation(line, facts),
        facts.js_frame ==> model::is_error_continuation(line, facts),
        !(line.len() > 0 && (line[0] == ' ' || line[0] == '\t')) && !">"@.is_prefix_of(
            text_spec::trim(line),
        ) && !"|"@.is_prefix_of(text_spec::trim(line))
            && !"During handling of the above exception"@.is_prefix_of(text_spec::trim(line))
            && !"The above exception"@.is_prefix_of(text_spec::trim(line))
            && !"Caused by:"@.is_prefix_of(text_spec::trim(line)) && !"note:"@.is_prefix_of(
            text_spec::trim(line),
        ) && !"help:"@.is_prefix_of(text_spec::trim(line)) && !facts.python_frame
            && !facts.python_exception && !facts.js_frame ==> !model::is_error_continuation(
            line,
            facts,
        ),
{
    reveal_strlit(" ");
    reveal_strlit("\t");
    if line.len() > 0 {
        text_laws::lemma_prefix_of_one(" "@, line);
        text_laws::lemma_prefix_of_one("\t"@, line);
    }
}

} // verus!
