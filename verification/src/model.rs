//! What the filter computes, over sequences of characters.
//!
//! Lines are sequences of characters without their line endings. What the patterns say of the
//! lines comes in as an argument, one [`LineFacts`] for each line.
use vstd::prelude::*;

use crate::limits::{
    CAP_INVENTORY, MAX_DIAGNOSTIC_CHARS, MAX_ERROR_CONTINUATION_LINES, MAX_FALLBACK_TAIL_LINES,
    MAX_FRAME_CHARS, MAX_PROGRAM_LINE_CHARS, MAX_TRACEBACK_FRAMES, MAX_TRACEBACK_TAIL_LINES,
};
use crate::patterns;
use crate::patterns::LineFacts;
use crate::text_spec;

verus! {

/// A request to save a text that was cut, so that its reader can be pointed to a full copy.
#[verifier::ext_equal]
pub struct Request {
    /// The full text.
    pub content: Seq<char>,
    /// What the copy is named after.
    pub label: Seq<char>,
    /// The line of the full text from which on it was cut, where only its middle was.
    pub from_line: Option<nat>,
}

/// The answer to request number `k`: where the copy is to be found, if there is one.
pub open spec fn hint_at(hints: Seq<Option<Seq<char>>>, k: int) -> Option<Seq<char>> {
    if 0 <= k < hints.len() {
        hints[k]
    } else {
        None
    }
}

// --------------------------------------------------------------------------------------------
// Single lines
// --------------------------------------------------------------------------------------------

/// Whether `line` holds nothing but white space.
pub open spec fn is_blank(line: Seq<char>) -> bool {
    text_spec::trim(line).len() == 0
}

/// Whether the trimmed `line` opens a Python traceback.
pub open spec fn is_traceback_start(line: Seq<char>) -> bool {
    "Traceback "@.is_prefix_of(line)
}

/// Whether the trimmed `line`, of which the patterns say `facts`, opens an error.
pub open spec fn is_error_start(line: Seq<char>, facts: LineFacts) -> bool {
    ||| is_traceback_start(line)
    ||| facts.python_frame
    ||| facts.python_exception
    ||| facts.js_frame
    ||| text_spec::contains(line, "No module named "@)
    ||| facts.error_mark
}

/// Whether `line` continues an error that an earlier line opened. The patterns say `facts` of
/// the trimmed line.
pub open spec fn is_error_continuation(line: Seq<char>, facts: LineFacts) -> bool {
    ||| " "@.is_prefix_of(line)
    ||| "\t"@.is_prefix_of(line)
    ||| ">"@.is_prefix_of(text_spec::trim(line))
    ||| "|"@.is_prefix_of(text_spec::trim(line))
    ||| "During handling of the above exception"@.is_prefix_of(text_spec::trim(line))
    ||| "The above exception"@.is_prefix_of(text_spec::trim(line))
    ||| "Caused by:"@.is_prefix_of(text_spec::trim(line))
    ||| "note:"@.is_prefix_of(text_spec::trim(line))
    ||| "help:"@.is_prefix_of(text_spec::trim(line))
    ||| facts.python_frame
    ||| facts.python_exception
    ||| facts.js_frame
}

/// What the patterns say of each line, trimmed.
pub open spec fn facts_of(all: Seq<Seq<char>>) -> Seq<LineFacts> {
    all.map_values(|line: Seq<char>| patterns::line_facts(text_spec::trim(line)))
}

// --------------------------------------------------------------------------------------------
// Lists of lines
// --------------------------------------------------------------------------------------------

/// The first `n` entries of `s`, or all of them.
pub open spec fn first_n<A>(s: Seq<A>, n: nat) -> Seq<A> {
    if s.len() <= n {
        s
    } else {
        s.take(n as int)
    }
}

/// The last `n` entries of `s`, or all of them.
pub open spec fn last_n<A>(s: Seq<A>, n: nat) -> Seq<A> {
    if s.len() <= n {
        s
    } else {
        s.skip(s.len() - n)
    }
}

/// `all` with each run of equal neighbours reduced to one entry.
pub open spec fn dedupe(all: Seq<Seq<char>>) -> Seq<Seq<char>>
    decreases all.len(),
{
    if all.len() == 0 {
        all
    } else if all.len() > 1 && all[all.len() - 2] == all.last() {
        dedupe(all.drop_last())
    } else {
        dedupe(all.drop_last()).push(all.last())
    }
}

/// Reducing runs of equal neighbours keeps the last entry, and something of anything.
pub proof fn lemma_dedupe_last(all: Seq<Seq<char>>)
    ensures
        all.len() > 0 ==> dedupe(all).len() > 0 && dedupe(all).last() == all.last(),
        all.len() == 0 ==> dedupe(all).len() == 0,
    decreases all.len(),
{
    if all.len() > 0 {
        lemma_dedupe_last(all.drop_last());
    }
}

/// The numbers from `from` up to, but without, `to`.
pub open spec fn range(from: int, to: int) -> Seq<int> {
    Seq::new((if from <= to { to - from } else { 0 }) as nat, |k: int| from + k)
}

/// The line that stands for `n` entries that were left out.
pub open spec fn more_line(n: nat, what: Seq<char>) -> Seq<char> {
    "... +"@ + text_spec::decimal(n) + what
}

/// The line that points to a full copy, if there is one.
pub open spec fn hint_lines(hint: Option<Seq<char>>) -> Seq<Seq<char>> {
    match hint {
        Some(h) => seq!["  "@ + h],
        None => Seq::empty(),
    }
}

// --------------------------------------------------------------------------------------------
// Tracebacks
// --------------------------------------------------------------------------------------------

/// The first blank line at or after `i`, or the end.
pub open spec fn traceback_end(all: Seq<Seq<char>>, i: int) -> int
    decreases all.len() - i,
{
    if i < 0 || i >= all.len() || is_blank(all[i]) {
        i
    } else {
        traceback_end(all, i + 1)
    }
}

/// The frame lines among the lines `from..to`, cut to size.
pub open spec fn frame_lines(
    all: Seq<Seq<char>>,
    facts: Seq<LineFacts>,
    from: int,
    to: int,
) -> Seq<Seq<char>> {
    range(from, to).filter(|i: int| facts[i].python_frame).map_values(
        |i: int| text_spec::truncate(text_spec::trim(all[i]), MAX_FRAME_CHARS as nat),
    )
}

/// The lines among `from..to` that are no frames, cut to size.
pub open spec fn other_lines(
    all: Seq<Seq<char>>,
    facts: Seq<LineFacts>,
    from: int,
    to: int,
) -> Seq<Seq<char>> {
    range(from, to).filter(|i: int| !facts[i].python_frame).map_values(
        |i: int| text_spec::truncate(text_spec::trim(all[i]), MAX_DIAGNOSTIC_CHARS as nat),
    )
}

/// How the frame lines and the other lines grow with the stretch they are taken from.
pub proof fn lemma_split_grows(all: Seq<Seq<char>>, facts: Seq<LineFacts>, from: int, to: int)
    requires
        from <= to,
    ensures
        frame_lines(all, facts, from, to + 1) == if facts[to].python_frame {
            frame_lines(all, facts, from, to).push(
                text_spec::truncate(text_spec::trim(all[to]), MAX_FRAME_CHARS as nat),
            )
        } else {
            frame_lines(all, facts, from, to)
        },
        other_lines(all, facts, from, to + 1) == if facts[to].python_frame {
            other_lines(all, facts, from, to)
        } else {
            other_lines(all, facts, from, to).push(
                text_spec::truncate(text_spec::trim(all[to]), MAX_DIAGNOSTIC_CHARS as nat),
            )
        },
{
    assert(range(from, to + 1) == range(from, to).push(to));
    range(from, to).lemma_filter_push(to, |i: int| facts[i].python_frame);
    range(from, to).lemma_filter_push(to, |i: int| !facts[i].python_frame);
    assert(frame_lines(all, facts, from, to + 1) =~= if facts[to].python_frame {
        frame_lines(all, facts, from, to).push(
            text_spec::truncate(text_spec::trim(all[to]), MAX_FRAME_CHARS as nat),
        )
    } else {
        frame_lines(all, facts, from, to)
    });
    assert(other_lines(all, facts, from, to + 1) =~= if facts[to].python_frame {
        other_lines(all, facts, from, to)
    } else {
        other_lines(all, facts, from, to).push(
            text_spec::truncate(text_spec::trim(all[to]), MAX_DIAGNOSTIC_CHARS as nat),
        )
    });
}

/// What is selected of the traceback that the line `start` opens and that ends before the line
/// `end`: its first line, the first frames, how many frames are left out and where to find them,
/// and the last lines that are no frames.
pub open spec fn traceback_selection(
    all: Seq<Seq<char>>,
    facts: Seq<LineFacts>,
    start: int,
    end: int,
    hint: Option<Seq<char>>,
) -> Seq<Seq<char>> {
    let frames = frame_lines(all, facts, start + 1, end);
    let more = if frames.len() > MAX_TRACEBACK_FRAMES {
        seq![more_line((frames.len() - MAX_TRACEBACK_FRAMES) as nat, " more frames"@)] + hint_lines(
            hint,
        )
    } else {
        Seq::empty()
    };
    seq![text_spec::trim(all[start])] + first_n(frames, MAX_TRACEBACK_FRAMES as nat) + more
        + last_n(other_lines(all, facts, start + 1, end), MAX_TRACEBACK_TAIL_LINES as nat)
}

// --------------------------------------------------------------------------------------------
// Errors
// --------------------------------------------------------------------------------------------

/// The first line at or after `i` that is blank or does not continue an error, or the end.
pub open spec fn error_end(all: Seq<Seq<char>>, facts: Seq<LineFacts>, i: int) -> int
    decreases all.len() - i,
{
    if i < 0 || i >= all.len() || is_blank(all[i]) || !is_error_continuation(all[i], facts[i]) {
        i
    } else {
        error_end(all, facts, i + 1)
    }
}

/// What is selected of the error that the line `start` opens and that ends before the line
/// `end`: its first line, the first continuation lines, and how many are left out and where to
/// find them.
pub open spec fn error_selection(
    all: Seq<Seq<char>>,
    start: int,
    end: int,
    hint: Option<Seq<char>>,
) -> Seq<Seq<char>> {
    let cut = |line: Seq<char>|
        text_spec::truncate(text_spec::trim(line), MAX_DIAGNOSTIC_CHARS as nat);
    let count = end - start - 1;
    let more = if count > MAX_ERROR_CONTINUATION_LINES {
        seq![more_line((count - MAX_ERROR_CONTINUATION_LINES) as nat, " more lines"@)] + hint_lines(
            hint,
        )
    } else {
        Seq::empty()
    };
    seq![cut(all[start])] + first_n(
        all.subrange(start + 1, end).map_values(cut),
        MAX_ERROR_CONTINUATION_LINES as nat,
    ) + more
}

// --------------------------------------------------------------------------------------------
// Diagnostics of a failed run
// --------------------------------------------------------------------------------------------

/// A stretch of lines that is reported together: the lines `start..end`.
pub struct Block {
    pub traceback: bool,
    pub start: int,
    pub end: int,
}

/// The blocks at or after the line `i`. A block starts at a line that opens a traceback or an
/// error, and the search goes on where it ends.
pub open spec fn blocks(all: Seq<Seq<char>>, facts: Seq<LineFacts>, i: int) -> Seq<Block>
    decreases all.len() - i,
    when 0 <= i
    via blocks_decreases
{
    if i >= all.len() {
        Seq::empty()
    } else if is_blank(all[i]) {
        blocks(all, facts, i + 1)
    } else if is_traceback_start(text_spec::trim(all[i])) {
        let end = traceback_end(all, i + 1);
        seq![Block { traceback: true, start: i, end }] + blocks(all, facts, end)
    } else if is_error_start(text_spec::trim(all[i]), facts[i]) {
        let end = error_end(all, facts, i + 1);
        seq![Block { traceback: false, start: i, end }] + blocks(all, facts, end)
    } else {
        blocks(all, facts, i + 1)
    }
}

#[via_fn]
proof fn blocks_decreases(all: Seq<Seq<char>>, facts: Seq<LineFacts>, i: int) {
    if i < all.len() {
        lemma_traceback_end_bounds(all, i + 1);
        lemma_error_end_bounds(all, facts, i + 1);
    }
}

/// A traceback ends where the search for its end started, or later, within the lines.
pub proof fn lemma_traceback_end_bounds(all: Seq<Seq<char>>, i: int)
    requires
        0 <= i <= all.len(),
    ensures
        i <= traceback_end(all, i) <= all.len(),
    decreases all.len() - i,
{
    if i < all.len() && !is_blank(all[i]) {
        lemma_traceback_end_bounds(all, i + 1);
    }
}

/// An error ends where the search for its end started, or later, within the lines.
pub proof fn lemma_error_end_bounds(all: Seq<Seq<char>>, facts: Seq<LineFacts>, i: int)
    requires
        0 <= i <= all.len(),
    ensures
        i <= error_end(all, facts, i) <= all.len(),
    decreases all.len() - i,
{
    if i < all.len() && !is_blank(all[i]) && is_error_continuation(all[i], facts[i]) {
        lemma_error_end_bounds(all, facts, i + 1);
    }
}

/// Whether the report of a block leaves lines out.
pub open spec fn is_cut(all: Seq<Seq<char>>, facts: Seq<LineFacts>, block: Block) -> bool {
    if block.traceback {
        frame_lines(all, facts, block.start + 1, block.end).len() > MAX_TRACEBACK_FRAMES
    } else {
        block.end - block.start - 1 > MAX_ERROR_CONTINUATION_LINES
    }
}

/// The report of a block: what is selected of it, with runs of equal lines reduced.
pub open spec fn block_lines(
    all: Seq<Seq<char>>,
    facts: Seq<LineFacts>,
    block: Block,
    hint: Option<Seq<char>>,
) -> Seq<Seq<char>> {
    if block.traceback {
        dedupe(traceback_selection(all, facts, block.start, block.end, hint))
    } else {
        dedupe(error_selection(all, block.start, block.end, hint))
    }
}

/// The request to save a block whose report leaves lines out.
pub open spec fn block_requests(
    all: Seq<Seq<char>>,
    facts: Seq<LineFacts>,
    block: Block,
) -> Seq<Request> {
    if is_cut(all, facts, block) {
        seq![
            Request {
                content: text_spec::join(all.subrange(block.start, block.end), "\n"@),
                label: if block.traceback {
                    "uv-traceback"@
                } else {
                    "uv-error-block"@
                },
                from_line: None,
            },
        ]
    } else {
        Seq::empty()
    }
}

/// The requests for all of `found`, in order.
pub open spec fn requests_of(
    all: Seq<Seq<char>>,
    facts: Seq<LineFacts>,
    found: Seq<Block>,
) -> Seq<Request>
    decreases found.len(),
{
    if found.len() == 0 {
        Seq::empty()
    } else {
        block_requests(all, facts, found[0]) + requests_of(all, facts, found.skip(1))
    }
}

/// The reports of all of `found`, in order, each followed by an empty line. The first request
/// that is made for one of them is number `k`.
pub open spec fn report_lines(
    all: Seq<Seq<char>>,
    facts: Seq<LineFacts>,
    found: Seq<Block>,
    hints: Seq<Option<Seq<char>>>,
    k: int,
) -> Seq<Seq<char>>
    decreases found.len(),
{
    if found.len() == 0 {
        Seq::empty()
    } else {
        block_lines(all, facts, found[0], hint_at(hints, k)) + seq![Seq::empty()] + report_lines(
            all,
            facts,
            found.skip(1),
            hints,
            k + block_requests(all, facts, found[0]).len(),
        )
    }
}

/// The diagnostics among the lines.
pub open spec fn diagnostics(
    all: Seq<Seq<char>>,
    facts: Seq<LineFacts>,
    hints: Seq<Option<Seq<char>>>,
) -> Seq<char> {
    text_spec::trim(text_spec::join(report_lines(all, facts, blocks(all, facts, 0), hints, 0), "\n"@))
}

/// The requests for the diagnostics among the lines.
pub open spec fn diagnostics_requests(
    all: Seq<Seq<char>>,
    facts: Seq<LineFacts>,
) -> Seq<Request> {
    requests_of(all, facts, blocks(all, facts, 0))
}

/// The first line of the report of a failure without diagnostics.
pub open spec fn failure_header(exit_code: int) -> Seq<char> {
    "[FAIL] uv run failed (exit code: "@ + text_spec::signed_decimal(exit_code) + ")"@
}

/// The lines that are not blank, trimmed and cut to size.
pub open spec fn content_lines(all: Seq<Seq<char>>) -> Seq<Seq<char>> {
    all.map_values(|line: Seq<char>| text_spec::trim(line)).filter(
        |line: Seq<char>| line.len() > 0,
    ).map_values(|line: Seq<char>| text_spec::truncate(line, MAX_DIAGNOSTIC_CHARS as nat))
}

/// How the content lines grow with the lines they are taken from.
pub proof fn lemma_content_grows(all: Seq<Seq<char>>, i: int)
    requires
        0 <= i < all.len(),
    ensures
        content_lines(all.take(i + 1)) == if is_blank(all[i]) {
            content_lines(all.take(i))
        } else {
            content_lines(all.take(i)).push(
                text_spec::truncate(text_spec::trim(all[i]), MAX_DIAGNOSTIC_CHARS as nat),
            )
        },
{
    let trimmed = |line: Seq<char>| text_spec::trim(line);
    let filled = |line: Seq<char>| line.len() > 0;
    let before = all.take(i).map_values(trimmed);
    assert(all.take(i + 1).map_values(trimmed) == before.push(text_spec::trim(all[i])));
    before.lemma_filter_push(text_spec::trim(all[i]), filled);
    if !is_blank(all[i]) {
        assert(content_lines(all.take(i + 1)) == content_lines(all.take(i)).push(
            text_spec::truncate(text_spec::trim(all[i]), MAX_DIAGNOSTIC_CHARS as nat),
        ));
    }
}

/// The report of a failure without diagnostics: the exit code and the last lines.
pub open spec fn failure_text(output: Seq<char>, exit_code: int) -> Seq<char> {
    let kept = content_lines(text_spec::lines(text_spec::strip_ansi(output)));
    if kept.len() == 0 {
        failure_header(exit_code)
    } else {
        failure_header(exit_code) + "\n"@ + text_spec::join(
            last_n(kept, MAX_FALLBACK_TAIL_LINES as nat),
            "\n"@,
        )
    }
}

// --------------------------------------------------------------------------------------------
// A successful run
// --------------------------------------------------------------------------------------------

/// The lines that `noise` does not mark.
pub open spec fn quiet_lines(all: Seq<Seq<char>>, noise: Seq<bool>) -> Seq<Seq<char>> {
    range(0, all.len() as int).filter(|i: int| !noise[i]).map_values(|i: int| all[i])
}

/// Which lines uv itself wrote.
pub open spec fn noise_of(all: Seq<Seq<char>>) -> Seq<bool> {
    all.map_values(|line: Seq<char>| patterns::is_uv_noise(text_spec::trim(line)))
}

/// `stderr` without the lines that uv itself wrote.
pub open spec fn without_noise(stderr: Seq<char>) -> Seq<char> {
    let all = text_spec::lines(text_spec::strip_ansi(stderr));
    text_spec::join(quiet_lines(all, noise_of(all)), "\n"@)
}

/// `all` without its blank lines at the end.
pub open spec fn drop_blank_tail(all: Seq<Seq<char>>) -> Seq<Seq<char>>
    decreases all.len(),
{
    if all.len() > 0 && is_blank(all.last()) {
        drop_blank_tail(all.drop_last())
    } else {
        all
    }
}

/// The lines of a program's output, up to the last one that is not blank.
pub open spec fn output_lines(text: Seq<char>) -> Seq<Seq<char>> {
    drop_blank_tail(text_spec::lines(text_spec::strip_ansi(text)))
}

/// `all` with each line cut to size.
pub open spec fn capped(all: Seq<Seq<char>>) -> Seq<Seq<char>> {
    all.map_values(|line: Seq<char>| text_spec::truncate(line, MAX_PROGRAM_LINE_CHARS as nat))
}

/// How many lines are kept of the start of an output that is too long.
pub open spec fn head_len() -> nat {
    (CAP_INVENTORY / 2) as nat
}

/// How many lines are kept of the end of an output that is too long.
pub open spec fn tail_len() -> nat {
    (CAP_INVENTORY - CAP_INVENTORY / 2) as nat
}

/// The line that stands for the middle of an output that is too long, with its line endings.
pub open spec fn omitted_line(n: nat) -> Seq<char> {
    "\n... ("@ + text_spec::decimal(n) + " lines omitted)\n"@
}

/// `text` followed by a pointer to a full copy, if there is one.
pub open spec fn with_hint(text: Seq<char>, hint: Option<Seq<char>>) -> Seq<char> {
    match hint {
        Some(h) => text + "\n"@ + h,
        None => text,
    }
}

/// What is kept of a program's output.
pub open spec fn program_text(text: Seq<char>, hint: Option<Seq<char>>) -> Seq<char> {
    let all = output_lines(text);
    let cut = capped(all);
    if all.len() == 0 {
        Seq::empty()
    } else if all.len() > CAP_INVENTORY {
        with_hint(
            text_spec::join(cut.take(head_len() as int), "\n"@) + omitted_line(
                (all.len() - CAP_INVENTORY) as nat,
            ) + text_spec::join(cut.skip(all.len() - tail_len()), "\n"@),
            hint,
        )
    } else if cut != all {
        with_hint(text_spec::join(cut, "\n"@), hint)
    } else {
        text_spec::join(cut, "\n"@)
    }
}

/// The request to save a program's output of which something is left out.
pub open spec fn program_requests(text: Seq<char>) -> Seq<Request> {
    let all = output_lines(text);
    if all.len() > CAP_INVENTORY {
        seq![
            Request {
                content: text_spec::strip_ansi(text),
                label: "uv-run"@,
                from_line: Some(head_len() + 1),
            },
        ]
    } else if capped(all) != all {
        seq![Request { content: text_spec::strip_ansi(text), label: "uv-run"@, from_line: None }]
    } else {
        Seq::empty()
    }
}

/// The report of a successful run that wrote `stdout`, and `kept` besides what uv wrote.
pub open spec fn success_text(
    stdout: Seq<char>,
    kept: Seq<char>,
    hints: Seq<Option<Seq<char>>>,
) -> Seq<char> {
    let payload = program_text(stdout, hint_at(hints, 0));
    let messages = program_text(kept, hint_at(hints, program_requests(stdout).len() as int));
    if payload.len() == 0 && messages.len() == 0 {
        "ok"@
    } else if messages.len() == 0 {
        payload
    } else if payload.len() == 0 {
        messages
    } else {
        payload + "\n"@ + messages
    }
}

/// The requests for a successful run.
pub open spec fn success_requests(stdout: Seq<char>, kept: Seq<char>) -> Seq<Request> {
    program_requests(stdout) + program_requests(kept)
}

// --------------------------------------------------------------------------------------------
// A run
// --------------------------------------------------------------------------------------------

/// The report of a run.
pub open spec fn run_text(
    output: Seq<char>,
    stdout: Seq<char>,
    stderr: Seq<char>,
    exit_code: int,
    hints: Seq<Option<Seq<char>>>,
) -> Seq<char> {
    let all = text_spec::lines(text_spec::strip_ansi(output));
    if exit_code == 0 {
        success_text(stdout, without_noise(stderr), hints)
    } else if diagnostics(all, facts_of(all), hints).len() > 0 {
        diagnostics(all, facts_of(all), hints)
    } else {
        failure_text(output, exit_code)
    }
}

/// The requests for a run.
pub open spec fn run_requests(
    output: Seq<char>,
    stdout: Seq<char>,
    stderr: Seq<char>,
    exit_code: int,
) -> Seq<Request> {
    let all = text_spec::lines(text_spec::strip_ansi(output));
    if exit_code == 0 {
        success_requests(stdout, without_noise(stderr))
    } else {
        diagnostics_requests(all, facts_of(all))
    }
}

/// The text that a report is held against before it is shown, and that may be shown in its
/// place.
pub open spec fn guard_text(
    raw: Seq<char>,
    stdout: Seq<char>,
    stderr: Seq<char>,
    exit_code: int,
) -> Seq<char> {
    if exit_code == 0 {
        stdout + without_noise(stderr)
    } else {
        raw
    }
}

/// `prefix` followed by the arguments, if there are any.
pub open spec fn display_command(prefix: Seq<char>, args_display: Seq<char>) -> Seq<char> {
    if is_blank(args_display) {
        prefix
    } else {
        prefix + " "@ + args_display
    }
}

/// A command line as its user would have typed it.
pub open spec fn command_of(prefix: Seq<char>, args: Seq<Seq<char>>) -> Seq<char> {
    display_command(prefix, text_spec::join(args, " "@))
}

/// Whether the output of a command line is filtered.
pub open spec fn is_filtered(args: Seq<Seq<char>>) -> bool {
    args.len() > 0 && args[0] == "run"@
}

} // verus!
