//! Laws of tracebacks, errors and the diagnostics made of them.
//!
//! Where a law speaks of some of the lines, it takes their numbers, in order, as an argument and
//! asks that these are exactly the numbers of such lines.
use vstd::prelude::*;

use crate::laws;
use crate::limits::{
    MAX_DIAGNOSTIC_CHARS, MAX_ERROR_CONTINUATION_LINES, MAX_FRAME_CHARS, MAX_TRACEBACK_FRAMES,
    MAX_TRACEBACK_TAIL_LINES,
};
use crate::line_laws;
use crate::model;
use crate::model::Block;
use crate::patterns;
use crate::patterns::{LineFacts, JS_FRAME, PYTHON_EXCEPTION, PYTHON_FRAME};
use crate::text_laws;
use crate::text_spec;

verus! {

/// Numbers in order that are exactly those of a range that pass a test are what the test picks
/// out of the range.
pub proof fn lemma_picked_in_order(
    picked: Seq<int>,
    from: int,
    to: int,
    test: spec_fn(int) -> bool,
)
    requires
        from <= to,
        forall|k: int|
            0 <= k < picked.len() ==> from <= #[trigger] picked[k] < to && test(picked[k]),
        forall|k: int, l: int| 0 <= k < l < picked.len() ==> picked[k] < picked[l],
        forall|j: int| from <= j < to && test(j) ==> #[trigger] picked.contains(j),
    ensures
        model::range(from, to).filter(test) == picked,
    decreases to - from,
{
    if from == to {
        if picked.len() > 0 {
            assert(from <= picked[0] < to);
        }
        assert(model::range(from, to) =~= Seq::<int>::empty());
        assert(picked =~= Seq::<int>::empty());
    } else {
        let last = to - 1;
        assert(model::range(from, to) =~= model::range(from, last).push(last));
        model::range(from, last).lemma_filter_push(last, test);
        if test(last) {
            assert(picked.contains(last));
            let k = choose|k: int| 0 <= k < picked.len() && picked[k] == last;
            if k < picked.len() - 1 {
                assert(picked[k] < picked[picked.len() - 1]);
            }
            let rest = picked.drop_last();
            assert forall|j: int| from <= j < last && test(j) implies #[trigger] rest.contains(
                j,
            ) by {
                assert(picked.contains(j));
                let m = choose|m: int| 0 <= m < picked.len() && picked[m] == j;
                assert(rest[m] == j);
            }
            assert forall|m: int| 0 <= m < rest.len() implies from <= #[trigger] rest[m] < last
                && test(rest[m]) by {
                assert(picked[m] < picked[picked.len() - 1]);
            }
            lemma_picked_in_order(rest, from, last, test);
            assert(rest.push(last) =~= picked);
        } else {
            assert forall|m: int| 0 <= m < picked.len() implies from <= #[trigger] picked[m] < last
                && test(picked[m]) by {}
            lemma_picked_in_order(picked, from, last, test);
        }
    }
}

// --------------------------------------------------------------------------------------------
// Runs of equal lines
// --------------------------------------------------------------------------------------------

/// Reducing runs looks at one line after the other: a line that equals the one before it is left
/// out, any other is put at the end of what is kept so far.
pub proof fn law_dedupe_line_by_line(all: Seq<Seq<char>>, line: Seq<char>)
    ensures
        model::dedupe(Seq::empty()) == Seq::<Seq<char>>::empty(),
        model::dedupe(seq![line]) == seq![line],
        all.len() > 0 && all.last() == line ==> model::dedupe(all.push(line)) == model::dedupe(all),
        all.len() > 0 && all.last() != line ==> model::dedupe(all.push(line)) == model::dedupe(
            all,
        ).push(line),
{
    assert(all.push(line).drop_last() == all);
    assert(seq![line].drop_last() =~= Seq::<Seq<char>>::empty());
    assert(model::dedupe(Seq::empty()) == Seq::<Seq<char>>::empty());
    assert(model::dedupe(seq![line]) =~= seq![line]);
}

/// A list without equal neighbours is left as it is, in its order.
pub proof fn law_dedupe_leaves_distinct_neighbours(all: Seq<Seq<char>>)
    requires
        forall|i: int| 0 <= i < all.len() - 1 ==> #[trigger] all[i] != all[i + 1],
    ensures
        model::dedupe(all) == all,
{
    laws::lemma_dedupe_of_distinct_neighbours(all);
}

// --------------------------------------------------------------------------------------------
// Where a block ends
// --------------------------------------------------------------------------------------------

/// A traceback goes on up to the first blank line, or to the end of the lines.
pub proof fn law_traceback_goes_on_to_a_blank_line(all: Seq<Seq<char>>, i: int, end: int)
    requires
        0 <= i <= end <= all.len(),
        forall|j: int| i <= j < end ==> text_spec::trim(#[trigger] all[j]).len() > 0,
        end < all.len() ==> text_spec::trim(all[end]).len() == 0,
    ensures
        model::traceback_end(all, i) == end,
    decreases end - i,
{
    if i < end {
        assert(text_spec::trim(all[i]).len() > 0);
        law_traceback_goes_on_to_a_blank_line(all, i + 1, end);
    }
}

/// An error goes on up to the first line that is blank or does not continue it, or to the end of
/// the lines.
pub proof fn law_error_goes_on_while_lines_continue_it(
    all: Seq<Seq<char>>,
    facts: Seq<LineFacts>,
    i: int,
    end: int,
)
    requires
        0 <= i <= end <= all.len(),
        forall|j: int|
            i <= j < end ==> text_spec::trim(#[trigger] all[j]).len() > 0
                && model::is_error_continuation(all[j], facts[j]),
        end < all.len() ==> text_spec::trim(all[end]).len() == 0 || !model::is_error_continuation(
            all[end],
            facts[end],
        ),
    ensures
        model::error_end(all, facts, i) == end,
    decreases end - i,
{
    if i < end {
        assert(text_spec::trim(all[i]).len() > 0);
        law_error_goes_on_while_lines_continue_it(all, facts, i + 1, end);
    }
}

// --------------------------------------------------------------------------------------------
// What is reported of a block
// --------------------------------------------------------------------------------------------

/// A traceback is reported by its opening line, its first frames in their order, how many frames
/// are left out and where they are found, and the last two lines that are no frames in their
/// order. Of all that only runs of equal lines are reduced. `frames` are the frame lines of the
/// traceback, `others` its other lines.
pub proof fn law_traceback_report(
    all: Seq<Seq<char>>,
    facts: Seq<LineFacts>,
    start: int,
    end: int,
    hint: Option<Seq<char>>,
    frames: Seq<int>,
    others: Seq<int>,
)
    requires
        0 <= start < end <= all.len(),
        forall|k: int|
            0 <= k < frames.len() ==> start < #[trigger] frames[k] < end
                && facts[frames[k]].python_frame,
        forall|k: int, l: int| 0 <= k < l < frames.len() ==> frames[k] < frames[l],
        forall|j: int|
            start < j < end && facts[j].python_frame ==> #[trigger] frames.contains(j),
        forall|k: int|
            0 <= k < others.len() ==> start < #[trigger] others[k] < end
                && !facts[others[k]].python_frame,
        forall|k: int, l: int| 0 <= k < l < others.len() ==> others[k] < others[l],
        forall|j: int|
            start < j < end && !facts[j].python_frame ==> #[trigger] others.contains(j),
    ensures
        ({
            let shown = if frames.len() > MAX_TRACEBACK_FRAMES {
                MAX_TRACEBACK_FRAMES as nat
            } else {
                frames.len()
            };
            let ending = if others.len() > MAX_TRACEBACK_TAIL_LINES {
                MAX_TRACEBACK_TAIL_LINES as nat
            } else {
                others.len()
            };
            let more = if frames.len() > MAX_TRACEBACK_FRAMES {
                seq![
                    "... +"@ + text_spec::decimal((frames.len() - MAX_TRACEBACK_FRAMES) as nat)
                        + " more frames"@,
                ] + match hint {
                    Some(h) => seq!["  "@ + h],
                    None => Seq::<Seq<char>>::empty(),
                }
            } else {
                Seq::<Seq<char>>::empty()
            };
            let selection = model::traceback_selection(all, facts, start, end, hint);
            let block = Block { traceback: true, start, end };
            &&& selection == seq![text_spec::trim(all[start])] + Seq::new(
                shown,
                |k: int| text_spec::truncate(text_spec::trim(all[frames[k]]), MAX_FRAME_CHARS as nat),
            ) + more + Seq::new(
                ending,
                |k: int|
                    text_spec::truncate(
                        text_spec::trim(all[others[others.len() - ending + k]]),
                        MAX_DIAGNOSTIC_CHARS as nat,
                    ),
            )
            &&& forall|k: int|
                0 <= k < shown ==> #[trigger] selection[1 + k] == text_spec::truncate(
                    text_spec::trim(all[frames[k]]),
                    MAX_FRAME_CHARS as nat,
                )
            &&& model::block_lines(all, facts, block, hint) == model::dedupe(selection)
            &&& model::is_cut(all, facts, block) <==> frames.len() > MAX_TRACEBACK_FRAMES
        }),
{
    let shown = if frames.len() > MAX_TRACEBACK_FRAMES {
        MAX_TRACEBACK_FRAMES as nat
    } else {
        frames.len()
    };
    let ending = if others.len() > MAX_TRACEBACK_TAIL_LINES {
        MAX_TRACEBACK_TAIL_LINES as nat
    } else {
        others.len()
    };
    lemma_picked_in_order(frames, start + 1, end, |j: int| facts[j].python_frame);
    lemma_picked_in_order(others, start + 1, end, |j: int| !facts[j].python_frame);
    let frame_lines = model::frame_lines(all, facts, start + 1, end);
    let other_lines = model::other_lines(all, facts, start + 1, end);
    let a = Seq::new(
        shown,
        |k: int| text_spec::truncate(text_spec::trim(all[frames[k]]), MAX_FRAME_CHARS as nat),
    );
    let b = Seq::new(
        ending,
        |k: int|
            text_spec::truncate(
                text_spec::trim(all[others[others.len() - ending + k]]),
                MAX_DIAGNOSTIC_CHARS as nat,
            ),
    );
    assert(model::first_n(frame_lines, MAX_TRACEBACK_FRAMES as nat) =~= a);
    assert(model::last_n(other_lines, MAX_TRACEBACK_TAIL_LINES as nat) =~= b);
}

/// Frames keep their order: of two frames that are both shown, the earlier one stands before the
/// later one. `frames` are the frame lines of the traceback.
pub proof fn law_frames_keep_their_order(
    all: Seq<Seq<char>>,
    facts: Seq<LineFacts>,
    start: int,
    end: int,
    hint: Option<Seq<char>>,
    frames: Seq<int>,
    k: int,
    l: int,
)
    requires
        0 <= start < end <= all.len(),
        forall|m: int|
            0 <= m < frames.len() ==> start < #[trigger] frames[m] < end
                && facts[frames[m]].python_frame,
        forall|m: int, n: int| 0 <= m < n < frames.len() ==> frames[m] < frames[n],
        forall|j: int|
            start < j < end && facts[j].python_frame ==> #[trigger] frames.contains(j),
        0 <= k < l < frames.len(),
        l < MAX_TRACEBACK_FRAMES,
    ensures
        exists|p: int, q: int|
            0 <= p < q < model::traceback_selection(all, facts, start, end, hint).len()
                && #[trigger] model::traceback_selection(all, facts, start, end, hint)[p]
                == text_spec::truncate(text_spec::trim(all[frames[k]]), MAX_FRAME_CHARS as nat)
                && #[trigger] model::traceback_selection(all, facts, start, end, hint)[q]
                == text_spec::truncate(text_spec::trim(all[frames[l]]), MAX_FRAME_CHARS as nat),
{
    lemma_picked_in_order(frames, start + 1, end, |j: int| facts[j].python_frame);
    let lines = model::frame_lines(all, facts, start + 1, end);
    let selection = model::traceback_selection(all, facts, start, end, hint);
    assert(lines[k] == text_spec::truncate(text_spec::trim(all[frames[k]]), MAX_FRAME_CHARS as nat));
    assert(lines[l] == text_spec::truncate(text_spec::trim(all[frames[l]]), MAX_FRAME_CHARS as nat));
    assert(selection[1 + k] == lines[k]);
    assert(selection[1 + l] == lines[l]);
}

/// An error is reported by its opening line, its first continuation lines in their order, and how
/// many are left out and where they are found. Of all that only runs of equal lines are reduced.
pub proof fn law_error_report(
    all: Seq<Seq<char>>,
    facts: Seq<LineFacts>,
    start: int,
    end: int,
    hint: Option<Seq<char>>,
)
    requires
        0 <= start < end <= all.len(),
    ensures
        ({
            let count = end - start - 1;
            let shown = if count > MAX_ERROR_CONTINUATION_LINES {
                MAX_ERROR_CONTINUATION_LINES as int
            } else {
                count
            };
            let more = if count > MAX_ERROR_CONTINUATION_LINES {
                seq![
                    "... +"@ + text_spec::decimal((count - MAX_ERROR_CONTINUATION_LINES) as nat)
                        + " more lines"@,
                ] + match hint {
                    Some(h) => seq!["  "@ + h],
                    None => Seq::<Seq<char>>::empty(),
                }
            } else {
                Seq::<Seq<char>>::empty()
            };
            let block = Block { traceback: false, start, end };
            &&& model::block_lines(all, facts, block, hint) == model::dedupe(
                Seq::new(
                    (1 + shown) as nat,
                    |k: int|
                        text_spec::truncate(
                            text_spec::trim(all[start + k]),
                            MAX_DIAGNOSTIC_CHARS as nat,
                        ),
                ) + more,
            )
            &&& model::is_cut(all, facts, block) <==> count > MAX_ERROR_CONTINUATION_LINES
        }),
{
    let cut = |line: Seq<char>|
        text_spec::truncate(text_spec::trim(line), MAX_DIAGNOSTIC_CHARS as nat);
    let count = end - start - 1;
    let shown = if count > MAX_ERROR_CONTINUATION_LINES {
        MAX_ERROR_CONTINUATION_LINES as int
    } else {
        count
    };
    assert(seq![cut(all[start])] + model::first_n(
        all.subrange(start + 1, end).map_values(cut),
        MAX_ERROR_CONTINUATION_LINES as nat,
    ) =~= Seq::new(
        (1 + shown) as nat,
        |k: int| text_spec::truncate(text_spec::trim(all[start + k]), MAX_DIAGNOSTIC_CHARS as nat),
    ));
}

/// A block whose report leaves something out asks for exactly one copy: of its lines as they are,
/// named after its kind, from the first line on. Any other block asks for none.
pub proof fn law_block_request(all: Seq<Seq<char>>, facts: Seq<LineFacts>, block: Block)
    ensures
        !model::is_cut(all, facts, block) ==> model::block_requests(all, facts, block).len() == 0,
        model::is_cut(all, facts, block) ==> model::block_requests(all, facts, block).len() == 1,
        model::is_cut(all, facts, block) ==> ({
            let request = model::block_requests(all, facts, block)[0];
            &&& request.content == text_spec::join(all.subrange(block.start, block.end), "\n"@)
            &&& block.traceback ==> request.label == "uv-traceback"@
            &&& !block.traceback ==> request.label == "uv-error-block"@
            &&& request.from_line is None
        }),
{
}

// --------------------------------------------------------------------------------------------
// Which blocks there are
// --------------------------------------------------------------------------------------------

/// The blocks of a list of lines. Each starts at a line that is not blank and opens an error, is
/// a traceback exactly if that line opens one, and ends where its kind ends. They stand in order
/// without overlap, and a line outside of them that is not blank opens no error.
pub proof fn law_which_blocks(all: Seq<Seq<char>>, facts: Seq<LineFacts>)
    ensures
        forall|k: int|
            0 <= k < model::blocks(all, facts, 0).len() ==> {
                let b = #[trigger] model::blocks(all, facts, 0)[k];
                &&& 0 <= b.start < b.end <= all.len()
                &&& text_spec::trim(all[b.start]).len() > 0
                &&& model::is_error_start(text_spec::trim(all[b.start]), facts[b.start])
                &&& b.traceback <==> "Traceback "@.is_prefix_of(text_spec::trim(all[b.start]))
                &&& b.traceback ==> b.end == model::traceback_end(all, b.start + 1)
                &&& !b.traceback ==> b.end == model::error_end(all, facts, b.start + 1)
            },
        forall|k: int, l: int|
            0 <= k < l < model::blocks(all, facts, 0).len() ==> (#[trigger] model::blocks(
                all,
                facts,
                0,
            )[k]).end <= (#[trigger] model::blocks(all, facts, 0)[l]).start,
        forall|j: int|
            0 <= j < all.len() && text_spec::trim(#[trigger] all[j]).len() > 0
                && model::is_error_start(text_spec::trim(all[j]), facts[j]) ==> exists|k: int|
                0 <= k < model::blocks(all, facts, 0).len() && (#[trigger] model::blocks(
                    all,
                    facts,
                    0,
                )[k]).start <= j < model::blocks(all, facts, 0)[k].end,
{
    laws::law_blocks(all, facts);
    let found = model::blocks(all, facts, 0);
    assert forall|k: int| 0 <= k < found.len() implies {
        let b = #[trigger] found[k];
        &&& b.traceback ==> b.end == model::traceback_end(all, b.start + 1)
        &&& !b.traceback ==> b.end == model::error_end(all, facts, b.start + 1)
    } by {
        lemma_block_end(all, facts, 0, k);
    }
    assert forall|j: int|
        0 <= j < all.len() && text_spec::trim(#[trigger] all[j]).len() > 0
            && model::is_error_start(text_spec::trim(all[j]), facts[j]) implies exists|k: int|
        0 <= k < found.len() && (#[trigger] found[k]).start <= j < found[k].end by {
        assert(laws::opens(all, facts, j));
        assert(laws::in_a_block(found, j));
    }
}

/// A block ends where its kind ends.
proof fn lemma_block_end(all: Seq<Seq<char>>, facts: Seq<LineFacts>, i: int, k: int)
    requires
        0 <= i <= all.len(),
        0 <= k < model::blocks(all, facts, i).len(),
    ensures
        ({
            let b = model::blocks(all, facts, i)[k];
            &&& b.traceback ==> b.end == model::traceback_end(all, b.start + 1)
            &&& !b.traceback ==> b.end == model::error_end(all, facts, b.start + 1)
        }),
    decreases all.len() - i,
{
    let found = model::blocks(all, facts, i);
    if i < all.len() {
        if laws::opens(all, facts, i) {
            model::lemma_traceback_end_bounds(all, i + 1);
            model::lemma_error_end_bounds(all, facts, i + 1);
            let end = found[0].end;
            let rest = model::blocks(all, facts, end);
            assert(found == seq![found[0]] + rest);
            if k > 0 {
                assert(found[k] == rest[k - 1]);
                lemma_block_end(all, facts, end, k - 1);
            }
        } else {
            assert(found == model::blocks(all, facts, i + 1));
            lemma_block_end(all, facts, i + 1, k);
        }
    }
}

/// Every line of an output that is not blank and in which one of the patterns recognises a frame,
/// an exception or an error mark, that starts a traceback or that names a missing module, lies in
/// a block of what is reported, and then the diagnostics are not empty.
pub proof fn law_recognised_lines_are_reported(
    output: Seq<char>,
    hints: Seq<Option<Seq<char>>>,
    j: int,
)
    requires
        0 <= j < text_spec::lines(text_spec::strip_ansi(output)).len(),
        text_spec::trim(text_spec::lines(text_spec::strip_ansi(output))[j]).len() > 0,
        ({
            let line = text_spec::trim(text_spec::lines(text_spec::strip_ansi(output))[j]);
            ||| patterns::matches_pattern(PYTHON_EXCEPTION@, line)
            ||| patterns::matches_pattern(PYTHON_FRAME@, line)
            ||| patterns::matches_pattern(JS_FRAME@, line)
            ||| "Traceback "@.is_prefix_of(line)
            ||| text_spec::contains(line, "No module named "@)
            ||| patterns::matches_pattern(r"(?i)\berror\b"@, line)
            ||| patterns::matches_pattern(r"(?i)\bfailed\b"@, line)
            ||| patterns::matches_pattern(r"(?i)\bfailure\b"@, line)
            ||| patterns::matches_pattern(r"(?i)\bexception\b"@, line)
            ||| patterns::matches_pattern(r"(?i)\bpanic\b"@, line)
            ||| patterns::matches_pattern(r"(?i)\bwarn(?:ing)?\b"@, line)
            ||| patterns::matches_pattern(r"(?i)\bassert(?:ion)?\b"@, line)
            ||| patterns::matches_pattern(r"^\s*FAILED\b"@, line)
            ||| patterns::matches_pattern(r"^\s*ERROR\b"@, line)
            ||| patterns::matches_pattern(r"^\s*E\s+"@, line)
            ||| patterns::matches_pattern(r"^\s*Caused by:"@, line)
            ||| patterns::matches_pattern(r"^\s*note:"@, line)
            ||| patterns::matches_pattern(r"^\s*help:"@, line)
        }),
    ensures
        ({
            let all = text_spec::lines(text_spec::strip_ansi(output));
            let found = model::blocks(all, model::facts_of(all), 0);
            &&& exists|k: int|
                0 <= k < found.len() && (#[trigger] found[k]).start <= j < found[k].end
            &&& model::diagnostics(all, model::facts_of(all), hints).len() > 0
        }),
{
    let all = text_spec::lines(text_spec::strip_ansi(output));
    let facts = model::facts_of(all);
    let line = text_spec::trim(all[j]);
    line_laws::law_line_facts(line);
    line_laws::law_facts_are_of_the_trimmed_lines(all);
    line_laws::law_what_opens_an_error(line, facts[j]);
    law_which_blocks(all, facts);
    assert(text_spec::trim(all[j]).len() > 0);
    assert(laws::opens(all, facts, j));
    laws::law_diagnostics_iff_a_line_opens(all, facts, hints);
}

/// A line of an output that is blank, or in which nothing is recognised, starts no block.
pub proof fn law_other_lines_start_no_block(output: Seq<char>, k: int)
    requires
        0 <= k < model::blocks(
            text_spec::lines(text_spec::strip_ansi(output)),
            model::facts_of(text_spec::lines(text_spec::strip_ansi(output))),
            0,
        ).len(),
    ensures
        ({
            let all = text_spec::lines(text_spec::strip_ansi(output));
            let line = text_spec::trim(all[model::blocks(all, model::facts_of(all), 0)[k].start]);
            &&& line.len() > 0
            &&& {
                ||| patterns::matches_pattern(PYTHON_EXCEPTION@, line)
                ||| patterns::matches_pattern(PYTHON_FRAME@, line)
                ||| patterns::matches_pattern(JS_FRAME@, line)
                ||| "Traceback "@.is_prefix_of(line)
                ||| text_spec::contains(line, "No module named "@)
                ||| patterns::matches_pattern(r"(?i)\berror\b"@, line)
                ||| patterns::matches_pattern(r"(?i)\bfailed\b"@, line)
                ||| patterns::matches_pattern(r"(?i)\bfailure\b"@, line)
                ||| patterns::matches_pattern(r"(?i)\bexception\b"@, line)
                ||| patterns::matches_pattern(r"(?i)\bpanic\b"@, line)
                ||| patterns::matches_pattern(r"(?i)\bwarn(?:ing)?\b"@, line)
                ||| patterns::matches_pattern(r"(?i)\bassert(?:ion)?\b"@, line)
                ||| patterns::matches_pattern(r"^\s*FAILED\b"@, line)
                ||| patterns::matches_pattern(r"^\s*ERROR\b"@, line)
                ||| patterns::matches_pattern(r"^\s*E\s+"@, line)
                ||| patterns::matches_pattern(r"^\s*Caused by:"@, line)
                ||| patterns::matches_pattern(r"^\s*note:"@, line)
                ||| patterns::matches_pattern(r"^\s*help:"@, line)
            }
        }),
{
    let all = text_spec::lines(text_spec::strip_ansi(output));
    let facts = model::facts_of(all);
    let block = model::blocks(all, facts, 0)[k];
    law_which_blocks(all, facts);
    let line = text_spec::trim(all[block.start]);
    line_laws::law_line_facts(line);
    line_laws::law_facts_are_of_the_trimmed_lines(all);
    line_laws::law_what_opens_an_error(line, facts[block.start]);
}

// --------------------------------------------------------------------------------------------
// Diagnostics
// --------------------------------------------------------------------------------------------

/// The diagnostics are the reports of all blocks, in order, with an empty line between each two,
/// trimmed. Block number `k` is reported with the answer number `asked[k]`, which is the number
/// of blocks before it that ask for a copy; `parts[k]` is its report.
pub proof fn law_diagnostics_report_every_block(
    all: Seq<Seq<char>>,
    facts: Seq<LineFacts>,
    hints: Seq<Option<Seq<char>>>,
    asked: Seq<int>,
    parts: Seq<Seq<char>>,
)
    requires
        asked.len() == model::blocks(all, facts, 0).len(),
        asked.len() > 0 ==> asked[0] == 0,
        forall|k: int|
            0 < k < asked.len() ==> #[trigger] asked[k] == asked[k - 1] + if model::is_cut(
                all,
                facts,
                model::blocks(all, facts, 0)[k - 1],
            ) {
                1int
            } else {
                0int
            },
        parts.len() == model::blocks(all, facts, 0).len(),
        forall|k: int|
            0 <= k < parts.len() ==> #[trigger] parts[k] == text_spec::join(
                model::block_lines(
                    all,
                    facts,
                    model::blocks(all, facts, 0)[k],
                    if asked[k] < hints.len() {
                        hints[asked[k]]
                    } else {
                        None
                    },
                ),
                "\n"@,
            ),
    ensures
        model::diagnostics(all, facts, hints) == text_spec::trim(
            text_spec::join(parts, "\n\n"@),
        ),
{
    reveal_strlit("\n");
    reveal_strlit("\n\n");
    let found = model::blocks(all, facts, 0);
    let report = model::report_lines(all, facts, found, hints, 0);
    if found.len() == 0 {
        assert(text_spec::join(report, "\n"@) =~= text_spec::join(parts, "\n\n"@));
    } else {
        assert forall|k: int| 0 <= k < asked.len() implies asked[k] >= 0 by {
            lemma_asked_is_a_number(all, facts, found, asked, k);
        }
        assert forall|k: int| 0 <= k < parts.len() implies #[trigger] parts[k] == text_spec::join(
            model::block_lines(all, facts, found[k], model::hint_at(hints, asked[k])),
            "\n"@,
        ) by {
            assert(asked[k] >= 0);
        }
        lemma_report_text(all, facts, found, hints, asked, parts);
        let s = text_spec::join(report, "\n"@);
        assert(s.drop_last() =~= text_spec::join(parts, "\n\n"@));
        text_laws::lemma_trim_ignores_end(s);
    }
}

proof fn lemma_asked_is_a_number(
    all: Seq<Seq<char>>,
    facts: Seq<LineFacts>,
    found: Seq<Block>,
    asked: Seq<int>,
    k: int,
)
    requires
        asked[0] == 0,
        0 <= k < asked.len(),
        forall|m: int|
            0 < m < asked.len() ==> #[trigger] asked[m] == asked[m - 1] + if model::is_cut(
                all,
                facts,
                found[m - 1],
            ) {
                1int
            } else {
                0int
            },
    ensures
        asked[k] >= 0,
    decreases k,
{
    if k > 0 {
        lemma_asked_is_a_number(all, facts, found, asked, k - 1);
        assert(asked[k] >= asked[k - 1]);
    }
}

/// The lines of a report, joined, are the reports of its blocks with an empty line between each
/// two, and a newline.
proof fn lemma_report_text(
    all: Seq<Seq<char>>,
    facts: Seq<LineFacts>,
    found: Seq<Block>,
    hints: Seq<Option<Seq<char>>>,
    asked: Seq<int>,
    parts: Seq<Seq<char>>,
)
    requires
        found.len() > 0,
        asked.len() == found.len(),
        parts.len() == found.len(),
        forall|k: int|
            0 < k < asked.len() ==> #[trigger] asked[k] == asked[k - 1] + if model::is_cut(
                all,
                facts,
                found[k - 1],
            ) {
                1int
            } else {
                0int
            },
        forall|k: int|
            0 <= k < parts.len() ==> #[trigger] parts[k] == text_spec::join(
                model::block_lines(all, facts, found[k], model::hint_at(hints, asked[k])),
                "\n"@,
            ),
    ensures
        text_spec::join(model::report_lines(all, facts, found, hints, asked[0]), "\n"@)
            == text_spec::join(parts, "\n\n"@) + seq!['\n'],
    decreases found.len(),
{
    reveal_strlit("\n");
    reveal_strlit("\n\n");
    let lines = model::block_lines(all, facts, found[0], model::hint_at(hints, asked[0]));
    let n = model::block_requests(all, facts, found[0]).len() as int;
    let later = model::report_lines(all, facts, found.skip(1), hints, asked[0] + n);
    let report = model::report_lines(all, facts, found, hints, asked[0]);
    laws::law_block_keeps_its_first_line(all, facts, found[0], model::hint_at(hints, asked[0]));
    let head = lines + seq![Seq::<char>::empty()];
    assert(head.drop_last() =~= lines);
    assert(text_spec::join(head, "\n"@) =~= parts[0] + seq!['\n']);
    if found.len() == 1 {
        assert(found.skip(1).len() == 0);
        assert(report =~= head);
        assert(parts =~= seq![parts[0]]);
    } else {
        let rest = found.skip(1);
        assert(asked[1] == asked[0] + n);
        assert forall|k: int| 0 < k < asked.skip(1).len() implies #[trigger] asked.skip(1)[k]
            == asked.skip(1)[k - 1] + if model::is_cut(all, facts, rest[k - 1]) {
            1int
        } else {
            0int
        } by {
            assert(asked.skip(1)[k] == asked[k + 1]);
            assert(rest[k - 1] == found[k]);
        }
        assert forall|k: int| 0 <= k < parts.skip(1).len() implies #[trigger] parts.skip(1)[k]
            == text_spec::join(
            model::block_lines(all, facts, rest[k], model::hint_at(hints, asked.skip(1)[k])),
            "\n"@,
        ) by {
            assert(parts.skip(1)[k] == parts[k + 1]);
            assert(rest[k] == found[k + 1]);
        }
        lemma_report_text(all, facts, rest, hints, asked.skip(1), parts.skip(1));
        laws::law_block_keeps_its_first_line(all, facts, rest[0], model::hint_at(hints, asked[1]));
        assert(later.len() > 0);
        assert(report =~= head + later);
        text_laws::lemma_join_concat(head, later, "\n"@);
        text_laws::lemma_join_first(parts, "\n\n"@);
        assert(text_spec::join(report, "\n"@) =~= text_spec::join(parts, "\n\n"@) + seq!['\n']);
    }
}

/// The requests for the diagnostics are those of the blocks, in order.
pub proof fn law_diagnostics_requests(all: Seq<Seq<char>>, facts: Seq<LineFacts>)
    ensures
        model::diagnostics_requests(all, facts) == model::blocks(all, facts, 0).map_values(
            |block: Block| model::block_requests(all, facts, block),
        ).flatten(),
{
    lemma_requests(all, facts, model::blocks(all, facts, 0));
}

proof fn lemma_requests(all: Seq<Seq<char>>, facts: Seq<LineFacts>, found: Seq<Block>)
    ensures
        model::requests_of(all, facts, found) == found.map_values(
            |block: Block| model::block_requests(all, facts, block),
        ).flatten(),
    decreases found.len(),
{
    let asked = found.map_values(|block: Block| model::block_requests(all, facts, block));
    if found.len() > 0 {
        lemma_requests(all, facts, found.skip(1));
        assert(asked.drop_first() =~= found.skip(1).map_values(
            |block: Block| model::block_requests(all, facts, block),
        ));
    }
}

} // verus!
