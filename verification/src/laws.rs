//! Laws of the filter as a whole, over the model that the functions' contracts use.
use vstd::prelude::*;

use crate::limits::{
    CAP_INVENTORY, MAX_DIAGNOSTIC_CHARS, MAX_ERROR_CONTINUATION_LINES, MAX_FALLBACK_TAIL_LINES,
    MAX_FRAME_CHARS, MAX_PROGRAM_LINE_CHARS, MAX_TRACEBACK_FRAMES, MAX_TRACEBACK_TAIL_LINES,
};
use crate::model;
use crate::model::{Block, Request};
use crate::patterns;
use crate::patterns::LineFacts;
use crate::stretches;
use crate::text_laws;
use crate::text_spec;

verus! {

// --------------------------------------------------------------------------------------------
// Runs of equal lines
// --------------------------------------------------------------------------------------------

/// No two neighbours are equal after runs are reduced, and the first and the last entry stay
/// what they were.
pub proof fn law_dedupe_has_no_equal_neighbours(all: Seq<Seq<char>>)
    ensures
        forall|i: int|
            0 <= i < model::dedupe(all).len() - 1 ==> #[trigger] model::dedupe(all)[i]
                != model::dedupe(all)[i + 1],
        all.len() > 0 ==> model::dedupe(all).len() > 0 && model::dedupe(all)[0] == all[0]
            && model::dedupe(all).last() == all.last(),
        model::dedupe(all).len() <= all.len(),
    decreases all.len(),
{
    if all.len() > 0 {
        let front = all.drop_last();
        law_dedupe_has_no_equal_neighbours(front);
        let d = model::dedupe(front);
        if all.len() > 1 {
            assert(front.last() == all[all.len() - 2]);
            assert(front[0] == all[0]);
            if front.last() != all.last() {
                assert forall|i: int| 0 <= i < model::dedupe(all).len() - 1 implies (
                #[trigger] model::dedupe(all)[i]) != model::dedupe(all)[i + 1] by {
                    if i < d.len() - 1 {
                        assert(d[i] != d[i + 1]);
                    }
                }
            }
        } else {
            assert(d.len() == 0);
        }
    }
}

/// Reducing runs again changes nothing.
pub proof fn law_dedupe_is_idempotent(all: Seq<Seq<char>>)
    ensures
        model::dedupe(model::dedupe(all)) == model::dedupe(all),
{
    law_dedupe_has_no_equal_neighbours(all);
    lemma_dedupe_of_distinct_neighbours(model::dedupe(all));
}

/// A list without equal neighbours is left as it is.
pub proof fn lemma_dedupe_of_distinct_neighbours(all: Seq<Seq<char>>)
    requires
        forall|i: int| 0 <= i < all.len() - 1 ==> #[trigger] all[i] != all[i + 1],
    ensures
        model::dedupe(all) == all,
    decreases all.len(),
{
    if all.len() > 0 {
        let front = all.drop_last();
        assert forall|i: int| 0 <= i < front.len() - 1 implies #[trigger] front[i] != front[i
            + 1] by {
            assert(all[i] != all[i + 1]);
        }
        lemma_dedupe_of_distinct_neighbours(front);
        assert(front.push(all.last()) == all);
        if all.len() > 1 {
            assert(all[all.len() - 2] != all[all.len() - 2 + 1]);
        }
    }
}

/// Reducing runs loses no text and invents none.
pub proof fn law_dedupe_keeps_the_texts(all: Seq<Seq<char>>, line: Seq<char>)
    ensures
        model::dedupe(all).contains(line) <==> all.contains(line),
    decreases all.len(),
{
    if all.len() > 0 {
        let front = all.drop_last();
        let d = model::dedupe(front);
        law_dedupe_keeps_the_texts(front, line);
        if all.contains(line) {
            let i = choose|i: int| 0 <= i < all.len() && all[i] == line;
            if i < front.len() {
                assert(front[i] == line);
                let j = choose|j: int| 0 <= j < d.len() && d[j] == line;
                assert(model::dedupe(all)[j] == line);
            } else if all.len() > 1 && all[all.len() - 2] == all.last() {
                assert(front[front.len() - 1] == line);
            } else {
                assert(model::dedupe(all).last() == line);
                assert(model::dedupe(all)[model::dedupe(all).len() - 1] == line);
            }
        }
        if model::dedupe(all).contains(line) {
            let j = choose|j: int| 0 <= j < model::dedupe(all).len() && model::dedupe(all)[j]
                == line;
            if j < d.len() {
                assert(d[j] == line);
                let i = choose|i: int| 0 <= i < front.len() && front[i] == line;
                assert(all[i] == line);
            } else {
                assert(all[all.len() - 1] == line);
            }
        }
    }
}

// --------------------------------------------------------------------------------------------
// Blocks
// --------------------------------------------------------------------------------------------

/// Whether the line `i` opens a block, if no earlier block holds it.
pub open spec fn opens(all: Seq<Seq<char>>, facts: Seq<LineFacts>, i: int) -> bool {
    !model::is_blank(all[i]) && model::is_error_start(text_spec::trim(all[i]), facts[i])
}

/// Whether no line of `block` is blank.
pub open spec fn has_no_blank(all: Seq<Seq<char>>, block: Block) -> bool {
    forall|j: int| block.start <= j < block.end ==> !model::is_blank(#[trigger] all[j])
}

/// Each block starts at a line that opens one and holds at least that line, and no blank one. The
/// blocks follow one another without overlap, and no line outside of them opens a block: every line that
/// opens a traceback or an error is part of what is reported.
pub proof fn law_blocks(all: Seq<Seq<char>>, facts: Seq<LineFacts>)
    ensures
        forall|k: int|
            0 <= k < model::blocks(all, facts, 0).len() ==> {
                let b = #[trigger] model::blocks(all, facts, 0)[k];
                &&& 0 <= b.start < b.end <= all.len()
                &&& has_no_blank(all, b)
                &&& opens(all, facts, b.start)
                &&& b.traceback == model::is_traceback_start(text_spec::trim(all[b.start]))
            },
        forall|k: int, l: int|
            0 <= k < l < model::blocks(all, facts, 0).len() ==> (#[trigger] model::blocks(
                all,
                facts,
                0,
            )[k]).end <= (#[trigger] model::blocks(all, facts, 0)[l]).start,
        forall|j: int|
            0 <= j < all.len() && #[trigger] opens(all, facts, j) ==> in_a_block(
                model::blocks(all, facts, 0),
                j,
            ),
{
    lemma_blocks(all, facts, 0);
}

/// Whether one of `found` holds the line `j`.
pub open spec fn in_a_block(found: Seq<Block>, j: int) -> bool {
    exists|k: int| 0 <= k < found.len() && (#[trigger] found[k]).start <= j < found[k].end
}

/// The search for the end of a traceback passes no blank line.
proof fn lemma_traceback_holds_no_blank(all: Seq<Seq<char>>, i: int)
    requires
        0 <= i <= all.len(),
    ensures
        forall|j: int|
            i <= j < model::traceback_end(all, i) ==> !model::is_blank(#[trigger] all[j]),
    decreases all.len() - i,
{
    if i < all.len() && !model::is_blank(all[i]) {
        lemma_traceback_holds_no_blank(all, i + 1);
    }
}

/// The search for the end of an error passes no blank line.
proof fn lemma_error_holds_no_blank(all: Seq<Seq<char>>, facts: Seq<LineFacts>, i: int)
    requires
        0 <= i <= all.len(),
    ensures
        forall|j: int|
            i <= j < model::error_end(all, facts, i) ==> !model::is_blank(#[trigger] all[j]),
    decreases all.len() - i,
{
    if i < all.len() && !model::is_blank(all[i]) && model::is_error_continuation(
        all[i],
        facts[i],
    ) {
        lemma_error_holds_no_blank(all, facts, i + 1);
    }
}

proof fn lemma_blocks(all: Seq<Seq<char>>, facts: Seq<LineFacts>, i: int)
    requires
        0 <= i <= all.len(),
    ensures
        forall|k: int|
            0 <= k < model::blocks(all, facts, i).len() ==> {
                let b = #[trigger] model::blocks(all, facts, i)[k];
                &&& i <= b.start < b.end <= all.len()
                &&& has_no_blank(all, b)
                &&& opens(all, facts, b.start)
                &&& b.traceback == model::is_traceback_start(text_spec::trim(all[b.start]))
            },
        forall|k: int, l: int|
            0 <= k < l < model::blocks(all, facts, i).len() ==> (#[trigger] model::blocks(
                all,
                facts,
                i,
            )[k]).end <= (#[trigger] model::blocks(all, facts, i)[l]).start,
        forall|j: int|
            i <= j < all.len() && #[trigger] opens(all, facts, j) ==> in_a_block(
                model::blocks(all, facts, i),
                j,
            ),
    decreases all.len() - i,
{
    if i < all.len() {
        let found = model::blocks(all, facts, i);
        if opens(all, facts, i) {
            let traceback = model::is_traceback_start(text_spec::trim(all[i]));
            let end = if traceback {
                model::traceback_end(all, i + 1)
            } else {
                model::error_end(all, facts, i + 1)
            };
            model::lemma_traceback_end_bounds(all, i + 1);
            model::lemma_error_end_bounds(all, facts, i + 1);
            lemma_blocks(all, facts, end);
            let rest = model::blocks(all, facts, end);
            let first = Block { traceback, start: i, end };
            if traceback {
                lemma_traceback_holds_no_blank(all, i + 1);
            } else {
                lemma_error_holds_no_blank(all, facts, i + 1);
            }
            assert(has_no_blank(all, first));
            assert(found == seq![first] + rest);
            assert(found[0] == first);
            assert forall|k: int| 1 <= k < found.len() implies #[trigger] found[k] == rest[k
                - 1] by {}
            assert forall|j: int| i <= j < all.len() && #[trigger] opens(
                all,
                facts,
                j,
            ) implies in_a_block(found, j) by {
                if j < end {
                    assert(found[0].start <= j < found[0].end);
                } else {
                    let k = choose|k: int|
                        0 <= k < rest.len() && (#[trigger] rest[k]).start <= j < rest[k].end;
                    assert(found[k + 1] == rest[k]);
                }
            }
        } else {
            lemma_blocks(all, facts, i + 1);
            assert(found == model::blocks(all, facts, i + 1));
        }
    }
}

/// A text holds something but white space if it starts with such a text.
proof fn lemma_trim_of_prefix(prefix: Seq<char>, s: Seq<char>)
    requires
        prefix.is_prefix_of(s),
        prefix.len() > 0,
        !text_spec::is_white_space(prefix[0]),
    ensures
        text_spec::trim(s).len() > 0,
{
    text_laws::law_trim(s);
    assert(s[0] == prefix[0]);
}

/// What is selected of a block.
pub open spec fn selection(
    all: Seq<Seq<char>>,
    facts: Seq<LineFacts>,
    block: Block,
    hint: Option<Seq<char>>,
) -> Seq<Seq<char>> {
    if block.traceback {
        model::traceback_selection(all, facts, block.start, block.end, hint)
    } else {
        model::error_selection(all, block.start, block.end, hint)
    }
}

/// The report of a block starts with its first line, cut to size unless it opens a traceback.
pub proof fn law_block_keeps_its_first_line(
    all: Seq<Seq<char>>,
    facts: Seq<LineFacts>,
    block: Block,
    hint: Option<Seq<char>>,
)
    ensures
        model::block_lines(all, facts, block, hint).len() > 0,
        block.traceback ==> model::block_lines(all, facts, block, hint)[0] == text_spec::trim(
            all[block.start],
        ),
        !block.traceback ==> model::block_lines(all, facts, block, hint)[0] == text_spec::truncate(
            text_spec::trim(all[block.start]),
            MAX_DIAGNOSTIC_CHARS as nat,
        ),
{
    law_dedupe_has_no_equal_neighbours(selection(all, facts, block, hint));
}

/// A traceback whose last line is no frame is reported up to that line: the exception that was
/// raised is never lost.
pub proof fn law_traceback_keeps_its_last_line(
    all: Seq<Seq<char>>,
    facts: Seq<LineFacts>,
    block: Block,
    hint: Option<Seq<char>>,
)
    requires
        block.traceback,
        0 <= block.start,
        block.start + 1 < block.end <= all.len(),
        !facts[block.end - 1].python_frame,
    ensures
        model::block_lines(all, facts, block, hint).last() == text_spec::truncate(
            text_spec::trim(all[block.end - 1]),
            MAX_DIAGNOSTIC_CHARS as nat,
        ),
{
    let others = model::other_lines(all, facts, block.start + 1, block.end);
    let last = model::last_n(others, MAX_TRACEBACK_TAIL_LINES as nat);
    model::lemma_split_grows(all, facts, block.start + 1, block.end - 1);
    assert(last.last() == others.last());
    assert(selection(all, facts, block, hint).last() == last.last());
    law_dedupe_has_no_equal_neighbours(selection(all, facts, block, hint));
}

/// The report of a block has at most the lines that the caps allow: the first line, the kept
/// lines, two lines on what is left out, and the end of a traceback.
pub proof fn law_block_report_is_short(
    all: Seq<Seq<char>>,
    facts: Seq<LineFacts>,
    block: Block,
    hint: Option<Seq<char>>,
)
    ensures
        block.traceback ==> model::block_lines(all, facts, block, hint).len() <= 3
            + MAX_TRACEBACK_FRAMES + MAX_TRACEBACK_TAIL_LINES,
        !block.traceback ==> model::block_lines(all, facts, block, hint).len() <= 3
            + MAX_ERROR_CONTINUATION_LINES,
{
    law_dedupe_has_no_equal_neighbours(selection(all, facts, block, hint));
}

/// An error that is not too long is reported whole: every line of it, trimmed and cut to size,
/// with runs of equal lines reduced.
pub proof fn law_short_error_is_reported_whole(
    all: Seq<Seq<char>>,
    facts: Seq<LineFacts>,
    block: Block,
    hint: Option<Seq<char>>,
)
    requires
        !block.traceback,
        0 <= block.start < block.end <= all.len(),
        !model::is_cut(all, facts, block),
    ensures
        model::block_lines(all, facts, block, hint) == model::dedupe(
            all.subrange(block.start, block.end).map_values(
                |line: Seq<char>|
                    text_spec::truncate(text_spec::trim(line), MAX_DIAGNOSTIC_CHARS as nat),
            ),
        ),
{
    let cut = |line: Seq<char>|
        text_spec::truncate(text_spec::trim(line), MAX_DIAGNOSTIC_CHARS as nat);
    assert(seq![cut(all[block.start])] + model::first_n(
        all.subrange(block.start + 1, block.end).map_values(cut),
        MAX_ERROR_CONTINUATION_LINES as nat,
    ) + Seq::<Seq<char>>::empty() == all.subrange(block.start, block.end).map_values(cut));
}

/// A traceback of whose frames none is left out is reported with every frame, cut to size.
pub proof fn law_short_traceback_keeps_every_frame(
    all: Seq<Seq<char>>,
    facts: Seq<LineFacts>,
    block: Block,
    hint: Option<Seq<char>>,
    i: int,
)
    requires
        block.traceback,
        !model::is_cut(all, facts, block),
        0 <= block.start < i < block.end <= all.len(),
        facts[i].python_frame,
    ensures
        model::block_lines(all, facts, block, hint).contains(
            text_spec::truncate(text_spec::trim(all[i]), MAX_FRAME_CHARS as nat),
        ),
{
    let from = block.start + 1;
    let numbers = model::range(from, block.end);
    let is_frame = |j: int| facts[j].python_frame;
    let frames = model::frame_lines(all, facts, from, block.end);
    let line = text_spec::truncate(text_spec::trim(all[i]), MAX_FRAME_CHARS as nat);
    assert(numbers[i - from] == i);
    numbers.lemma_filter_contains(is_frame, i - from);
    let k = choose|k: int|
        0 <= k < numbers.filter(is_frame).len() && numbers.filter(is_frame)[k] == i;
    assert(frames[k] == line);
    let chosen = selection(all, facts, block, hint);
    assert(chosen[1 + k] == line);
    law_dedupe_keeps_the_texts(chosen, line);
}

/// The full text of a block is asked to be saved, once, exactly if its report leaves frames or
/// continuation lines out.
pub proof fn law_what_is_cut_of_a_block_is_saved(
    all: Seq<Seq<char>>,
    facts: Seq<LineFacts>,
    block: Block,
)
    ensures
        model::block_requests(all, facts, block).len() <= 1,
        model::block_requests(all, facts, block).len() == 1 <==> model::is_cut(all, facts, block),
        model::is_cut(all, facts, block) ==> model::block_requests(all, facts, block)[0].content
            == text_spec::join(all.subrange(block.start, block.end), "\n"@),
{
}

/// Diagnostics are found exactly if some line opens a traceback or an error.
pub proof fn law_diagnostics_iff_a_line_opens(
    all: Seq<Seq<char>>,
    facts: Seq<LineFacts>,
    hints: Seq<Option<Seq<char>>>,
)
    ensures
        model::diagnostics(all, facts, hints).len() > 0 <==> exists|i: int|
            0 <= i < all.len() && #[trigger] opens(all, facts, i),
{
    let found = model::blocks(all, facts, 0);
    let reported = model::report_lines(all, facts, found, hints, 0);
    law_blocks(all, facts);
    if found.len() > 0 {
        let first = found[0];
        let line = text_spec::trim(all[first.start]);
        let lines = model::block_lines(all, facts, first, model::hint_at(hints, 0));
        assert(opens(all, facts, first.start));
        law_block_keeps_its_first_line(all, facts, first, model::hint_at(hints, 0));
        text_laws::law_trim(all[first.start]);
        text_laws::lemma_truncate_keeps_start(line, MAX_DIAGNOSTIC_CHARS as nat);
        assert(reported[0] == lines[0]);
        text_laws::lemma_join_first(reported, "\n"@);
        lemma_trim_of_prefix(reported[0], text_spec::join(reported, "\n"@));
    } else {
        assert(text_spec::join(reported, "\n"@).len() == 0);
        assert forall|i: int| 0 <= i < all.len() implies !#[trigger] opens(all, facts, i) by {
            if opens(all, facts, i) {
                assert(in_a_block(found, i));
            }
        }
    }
}

/// Two reports with an empty line between them, or the one that is not empty.
pub open spec fn with_empty_line(a: Seq<char>, b: Seq<char>) -> Seq<char> {
    if a.len() == 0 {
        b
    } else if b.len() == 0 {
        a
    } else {
        a + "\n\n"@ + b
    }
}

/// The diagnostics in `text`.
pub open spec fn diagnostics_in(text: Seq<char>, hints: Seq<Option<Seq<char>>>) -> Seq<char> {
    let all = text_spec::lines(text_spec::strip_ansi(text));
    model::diagnostics(all, model::facts_of(all), hints)
}

/// The requests for the diagnostics in `text`.
pub open spec fn requests_in(text: Seq<char>) -> Seq<Request> {
    let all = text_spec::lines(text_spec::strip_ansi(text));
    model::diagnostics_requests(all, model::facts_of(all))
}

/// Dropping a carriage return at its end makes no difference to whether a line is blank, to what
/// the patterns say of it, or to whether it continues an error.
proof fn lemma_carriage_return_is_no_matter(line: Seq<char>, facts: LineFacts)
    ensures
        text_spec::trim(text_spec::drop_carriage_return(line)) == text_spec::trim(line),
        !model::is_blank(line) ==> model::is_error_continuation(
            text_spec::drop_carriage_return(line),
            facts,
        ) == model::is_error_continuation(line, facts),
{
    reveal_strlit(" ");
    reveal_strlit("\t");
    let dropped = text_spec::drop_carriage_return(line);
    if line.len() > 0 && line.last() == '\r' {
        text_laws::lemma_trim_ignores_end(line);
        text_laws::law_trim(line);
        if !model::is_blank(line) {
            assert(line.len() > 1);
            assert(dropped[0] == line[0]);
            text_laws::lemma_prefix_of_one(" "@, dropped);
            text_laws::lemma_prefix_of_one(" "@, line);
            text_laws::lemma_prefix_of_one("\t"@, dropped);
            text_laws::lemma_prefix_of_one("\t"@, line);
        }
    }
}

/// Diagnostics split at a blank line. A blank line ends every block, and nothing is merged or
/// reduced across blocks: the report of two texts with a blank line between them is the two
/// reports, or the one that is not empty, with an empty line between them. The requests for the
/// first text come first, so that its hints do. (A hint that ends with white space loses it where
/// it ends a report, but not in the middle of one.)
pub proof fn law_diagnostics_split_at_a_blank_line(
    a: Seq<char>,
    b: Seq<char>,
    a_hints: Seq<Option<Seq<char>>>,
    b_hints: Seq<Option<Seq<char>>>,
)
    requires
        a_hints.len() == requests_in(a).len(),
        stretches::are_firm(a_hints),
        stretches::are_firm(b_hints),
    ensures
        diagnostics_in(a + "\n\n"@ + b, a_hints + b_hints) == with_empty_line(
            diagnostics_in(a, a_hints),
            diagnostics_in(b, b_hints),
        ),
        requests_in(a + "\n\n"@ + b).len() == requests_in(a).len() + requests_in(b).len(),
{
    reveal_strlit("\n\n");
    let newline = seq!['\n'];
    let none = Seq::<char>::empty();
    let text = a + "\n\n"@ + b;
    let first = text_spec::strip_ansi(a);
    let second = text_spec::strip_ansi(b);
    assert(text == a + newline + (none + newline + b));
    text_laws::law_control_sequences_stop_at_a_newline(a, none + newline + b);
    text_laws::law_control_sequences_stop_at_a_newline(none, b);
    let clean = text_spec::strip_ansi(text);
    assert(clean == first + newline + (none + newline + second));
    text_laws::law_lines_part_at_a_newline(first, none + newline + second);
    text_laws::law_lines_part_at_a_newline(none, second);
    text_laws::lemma_lines_with_newline(none);
    text_spec::lemma_line_len_is(none.push('\n'), 0);
    assert(text_spec::lines(none.push('\n').skip(1)) == Seq::<Seq<char>>::empty());
    assert(text_spec::lines(none.push('\n')) == seq![none.push('\n').take(0)]);

    let ended = text_spec::lines(first.push('\n'));
    let x = text_spec::lines(first);
    let y = text_spec::lines(second);
    let all = text_spec::lines(clean);
    let off = ended.len() as int + 1;
    assert(all == ended + (seq![none.push('\n').take(0)] + y));
    let facts = model::facts_of(all);
    let x_facts = model::facts_of(x);
    let y_facts = model::facts_of(y);
    text_laws::lemma_lines_with_newline(first);

    assert forall|j: int| x.len() <= j < off implies model::is_blank(#[trigger] all[j]) by {
        assert(all[j].len() == 0);
    }
    assert(stretches::stands_at(all, facts, x, x_facts, 0)) by {
        assert forall|j: int| 0 <= j < x.len() implies {
            &&& text_spec::trim(all[0 + j]) == text_spec::trim(#[trigger] x[j])
            &&& facts[0 + j] == x_facts[j]
            &&& model::is_blank(x[j]) || model::is_error_continuation(all[0 + j], x_facts[j])
                == model::is_error_continuation(x[j], x_facts[j])
        } by {
            assert(all[j] == ended[j]);
            lemma_carriage_return_is_no_matter(x[j], x_facts[j]);
        }
    }
    assert(stretches::stands_at(all, facts, y, y_facts, off)) by {
        assert forall|j: int| 0 <= j < y.len() implies {
            &&& text_spec::trim(all[off + j]) == text_spec::trim(#[trigger] y[j])
            &&& facts[off + j] == y_facts[j]
            &&& model::is_blank(y[j]) || model::is_error_continuation(all[off + j], y_facts[j])
                == model::is_error_continuation(y[j], y_facts[j])
        } by {
            assert(all[off + j] == y[j]);
        }
    }

    let x_found = model::blocks(x, x_facts, 0);
    let y_found = model::blocks(y, y_facts, 0);
    let x_here = stretches::all_shifted(x_found, 0);
    let y_here = stretches::all_shifted(y_found, off);
    stretches::lemma_blocks_of_stretch(all, facts, x, x_facts, 0, 0);
    stretches::lemma_blank_lines_are_passed(all, facts, x.len() as int, off);
    stretches::lemma_blocks_of_stretch(all, facts, y, y_facts, off, 0);
    assert(model::blocks(all, facts, off + y.len()) == Seq::<Block>::empty());
    assert(model::blocks(all, facts, 0) == x_here + y_here);

    let hints = a_hints + b_hints;
    let n = a_hints.len() as int;
    law_blocks(x, x_facts);
    law_blocks(y, y_facts);
    stretches::lemma_report_concat(all, facts, x_here, y_here, hints, 0);
    stretches::lemma_report_of_stretch(all, facts, x, x_facts, 0, x_found, hints, 0);
    stretches::lemma_report_of_stretch(all, facts, y, y_facts, off, y_found, hints, n);
    assert forall|j: int| 0 <= j < n implies model::hint_at(hints, 0 + j)
        == #[trigger] model::hint_at(a_hints, 0 + j) by {}
    stretches::lemma_report_with_other_hints(x, x_facts, x_found, hints, 0, a_hints, 0);
    assert forall|j: int| 0 <= j implies model::hint_at(hints, n + j) == #[trigger] model::hint_at(
        b_hints,
        0 + j,
    ) by {}
    stretches::lemma_report_with_other_hints(y, y_facts, y_found, hints, n, b_hints, 0);
    stretches::lemma_text_of_two_reports(
        x,
        x_facts,
        x_found,
        a_hints,
        y,
        y_facts,
        y_found,
        b_hints,
    );
}

/// Diagnostics of which nothing is left out split at a blank line whatever the hints.
pub proof fn law_uncut_diagnostics_split_at_a_blank_line(
    a: Seq<char>,
    b: Seq<char>,
    hints: Seq<Option<Seq<char>>>,
)
    requires
        requests_in(a).len() == 0,
        requests_in(b).len() == 0,
    ensures
        diagnostics_in(a + "\n\n"@ + b, hints) == with_empty_line(
            diagnostics_in(a, hints),
            diagnostics_in(b, hints),
        ),
        requests_in(a + "\n\n"@ + b).len() == 0,
{
    let none = Seq::<Option<Seq<char>>>::empty();
    law_diagnostics_split_at_a_blank_line(a, b, none, none);
    assert(none + none == none);
    lemma_uncut_diagnostics_need_no_hints(a + "\n\n"@ + b, hints);
    lemma_uncut_diagnostics_need_no_hints(a, hints);
    lemma_uncut_diagnostics_need_no_hints(b, hints);
}

/// Diagnostics of which nothing is left out are the same whatever the hints.
proof fn lemma_uncut_diagnostics_need_no_hints(text: Seq<char>, hints: Seq<Option<Seq<char>>>)
    requires
        requests_in(text).len() == 0,
    ensures
        diagnostics_in(text, hints) == diagnostics_in(text, Seq::empty()),
{
    let all = text_spec::lines(text_spec::strip_ansi(text));
    let facts = model::facts_of(all);
    stretches::lemma_report_with_other_hints(
        all,
        facts,
        model::blocks(all, facts, 0),
        hints,
        0,
        Seq::empty(),
        0,
    );
}

// --------------------------------------------------------------------------------------------
// The output of a program
// --------------------------------------------------------------------------------------------

/// Dropping the blank lines at the end keeps the lines up to the last one that is not blank.
proof fn lemma_drop_blank_tail(all: Seq<Seq<char>>)
    ensures
        model::drop_blank_tail(all).len() <= all.len(),
        model::drop_blank_tail(all) == all.take(model::drop_blank_tail(all).len() as int),
        model::drop_blank_tail(all).len() > 0 ==> !model::is_blank(
            model::drop_blank_tail(all).last(),
        ),
        forall|i: int|
            model::drop_blank_tail(all).len() <= i < all.len() ==> model::is_blank(
                #[trigger] all[i],
            ),
    decreases all.len(),
{
    if all.len() > 0 && model::is_blank(all.last()) {
        let front = all.drop_last();
        lemma_drop_blank_tail(front);
        let n = model::drop_blank_tail(all).len() as int;
        assert(front.take(n) == all.take(n));
        assert forall|i: int| n <= i < all.len() implies model::is_blank(#[trigger] all[i]) by {
            if i < front.len() {
                assert(front[i] == all[i]);
            }
        }
    } else {
        assert(all.take(all.len() as int) == all);
    }
}

/// Whether a line of `all` is longer than a line of a program's output may be.
pub open spec fn has_long_line(all: Seq<Seq<char>>) -> bool {
    exists|i: int| 0 <= i < all.len() && (#[trigger] all[i]).len() > MAX_PROGRAM_LINE_CHARS
}

/// Of a program's output something is left out exactly if it has too many lines or too long a
/// line. Then, and only then, the full text is asked to be saved, once and whole.
pub proof fn law_what_is_cut_is_saved(text: Seq<char>)
    ensures
        model::program_requests(text).len() <= 1,
        model::program_requests(text).len() == 1 <==> model::output_lines(text).len()
            > CAP_INVENTORY || has_long_line(model::output_lines(text)),
        model::program_requests(text).len() == 1 ==> model::program_requests(text)[0].content
            == text_spec::strip_ansi(text),
{
    let all = model::output_lines(text);
    if has_long_line(all) {
        let i = choose|i: int|
            0 <= i < all.len() && (#[trigger] all[i]).len() > MAX_PROGRAM_LINE_CHARS;
        text_laws::law_truncate(all[i], MAX_PROGRAM_LINE_CHARS as nat);
        assert(model::capped(all)[i] != all[i]);
    } else {
        assert(model::capped(all) =~= all);
    }
}

/// If nothing is asked to be saved, every line of a program's output is reported as it is, but
/// for blank lines at the end, whatever the hint.
pub proof fn law_uncut_output_keeps_every_line(text: Seq<char>, hint: Option<Seq<char>>)
    requires
        model::program_requests(text).len() == 0,
    ensures
        model::program_text(text, hint) == text_spec::join(model::output_lines(text), "\n"@),
{
}

/// A program's output that is not cut is passed through: if it holds no control sequences and
/// no carriage return before a newline, the report is the output itself without some of the
/// white space at its end.
pub proof fn law_uncut_output_is_passed_through(text: Seq<char>, hint: Option<Seq<char>>)
    requires
        model::program_requests(text).len() == 0,
        text_spec::strip_ansi(text) == text,
        !text_laws::has_crlf(text),
    ensures
        model::program_text(text, hint).is_prefix_of(text),
        forall|i: int|
            model::program_text(text, hint).len() <= i < text.len() ==> text_spec::is_white_space(
                #[trigger] text[i],
            ),
{
    reveal_strlit("\n");
    let all = text_spec::lines(text);
    let kept = model::output_lines(text);
    let n = kept.len() as int;
    let out = model::program_text(text, hint);
    let joined = text_spec::join(all, "\n"@);
    lemma_drop_blank_tail(all);
    text_laws::law_lines_then_join(text);
    let rest = all.skip(n);
    assert forall|k: int, i: int|
        0 <= k < rest.len() && 0 <= i < rest[k].len() implies text_spec::is_white_space(
        #[trigger] rest[k][i],
    ) by {
        assert(rest[k] == all[n + k]);
        assert(model::is_blank(all[n + k]));
        text_laws::law_trim(all[n + k]);
        assert(text_spec::is_white_space(all[n + k][i]));
    }
    text_laws::lemma_join_of_blank(rest);
    let tail = text_spec::join(rest, "\n"@);
    assert(all == kept + rest);
    if n == 0 {
        assert(out.len() == 0);
        assert(joined == tail);
        assert forall|i: int| 0 <= i < text.len() implies text_spec::is_white_space(
            #[trigger] text[i],
        ) by {
            if i < joined.len() {
                assert(text[i] == tail[i]);
            }
        }
    } else if rest.len() == 0 {
        assert(rest == Seq::<Seq<char>>::empty());
        assert(all == kept);
        assert(joined == out);
    } else {
        text_laws::lemma_join_concat(kept, rest, "\n"@);
        assert(joined == out + "\n"@ + tail);
        assert forall|i: int| out.len() <= i < text.len() implies text_spec::is_white_space(
            #[trigger] text[i],
        ) by {
            if out.len() < i < joined.len() {
                assert(text[i] == tail[i - out.len() - 1]);
            }
        }
    }
    assert(out.is_prefix_of(text));
}

/// Nothing is reported of a program's output exactly if no line of it holds anything but white
/// space.
pub proof fn law_only_blank_output_is_dropped(text: Seq<char>, hint: Option<Seq<char>>)
    ensures
        model::program_text(text, hint).len() == 0 <==> forall|i: int|
            0 <= i < text_spec::lines(text_spec::strip_ansi(text)).len() ==> model::is_blank(
                #[trigger] text_spec::lines(text_spec::strip_ansi(text))[i],
            ),
{
    reveal_strlit("\n... (");
    let raw = text_spec::lines(text_spec::strip_ansi(text));
    let all = model::output_lines(text);
    lemma_drop_blank_tail(raw);
    if all.len() > 0 {
        assert(all.last() == raw[all.len() - 1]);
        assert(!model::is_blank(raw[all.len() - 1]));
        let cut = model::capped(all);
        text_laws::law_trim(all.last());
        text_laws::lemma_truncate_keeps_start(all.last(), MAX_PROGRAM_LINE_CHARS as nat);
        assert(cut.last().len() > 0);
        assert(text_spec::join(cut, "\n"@).len() > 0);
    }
}

/// Of an output with too many lines both ends are reported, and the lines that are left out are
/// counted.
pub proof fn law_long_output_keeps_both_ends(text: Seq<char>, hint: Option<Seq<char>>)
    requires
        model::output_lines(text).len() > CAP_INVENTORY,
    ensures
        text_spec::join(
            model::capped(model::output_lines(text)).take(model::head_len() as int),
            "\n"@,
        ).is_prefix_of(model::program_text(text, hint)),
        text_spec::join(
            model::capped(model::output_lines(text)).skip(
                model::output_lines(text).len() - model::tail_len(),
            ),
            "\n"@,
        ).is_suffix_of(model::program_text(text, None)),
        model::head_len() + model::tail_len() + (model::output_lines(text).len() - CAP_INVENTORY)
            == model::output_lines(text).len(),
{
}

/// Without a hint, the report of a program's output has at most as many characters as the caps
/// allow, besides the line on what is left out.
pub proof fn law_program_report_is_short(text: Seq<char>)
    ensures
        model::program_text(text, None).len() <= CAP_INVENTORY * (MAX_PROGRAM_LINE_CHARS + 1)
            + model::omitted_line(
            (if model::output_lines(text).len() > CAP_INVENTORY {
                model::output_lines(text).len() - CAP_INVENTORY
            } else {
                0
            }) as nat,
        ).len(),
{
    let all = model::output_lines(text);
    let cut = model::capped(all);
    let m = MAX_PROGRAM_LINE_CHARS as nat;
    assert forall|k: int| 0 <= k < cut.len() implies (#[trigger] cut[k]).len() <= m by {
        text_laws::law_truncate(all[k], m);
    }
    if all.len() > CAP_INVENTORY {
        let head = cut.take(model::head_len() as int);
        let tail = cut.skip(all.len() - model::tail_len());
        assert forall|k: int| 0 <= k < head.len() implies (#[trigger] head[k]).len() <= m by {
            assert(head[k] == cut[k]);
        }
        assert forall|k: int| 0 <= k < tail.len() implies (#[trigger] tail[k]).len() <= m by {
            assert(tail[k] == cut[all.len() - model::tail_len() + k]);
        }
        text_laws::lemma_join_len(head, m);
        text_laws::lemma_join_len(tail, m);
    } else if all.len() > 0 {
        text_laws::lemma_join_len(cut, m);
        assert(cut.len() * (m + 1) <= CAP_INVENTORY * (m + 1)) by (nonlinear_arith)
            requires
                cut.len() <= CAP_INVENTORY,
        ;
    }
}

// --------------------------------------------------------------------------------------------
// What uv itself wrote
// --------------------------------------------------------------------------------------------

/// Every line that is kept is one that is not marked as noise.
pub proof fn law_kept_lines_are_quiet(all: Seq<Seq<char>>, noise: Seq<bool>, k: int)
    requires
        0 <= k < model::quiet_lines(all, noise).len(),
    ensures
        exists|i: int|
            0 <= i < all.len() && !noise[i] && #[trigger] all[i] == model::quiet_lines(
                all,
                noise,
            )[k],
{
    let numbers = model::range(0, all.len() as int);
    let quiet = |i: int| !noise[i];
    let picked = numbers.filter(quiet);
    numbers.lemma_filter_pred(quiet, k);
    assert(picked.contains(picked[k]));
    numbers.lemma_filter_contains_rev(quiet, picked[k]);
    let j = choose|j: int| 0 <= j < numbers.len() && numbers[j] == picked[k];
    assert(all[j] == model::quiet_lines(all, noise)[k]);
}

/// Every line that is not marked as noise is kept.
pub proof fn law_quiet_lines_are_kept(all: Seq<Seq<char>>, noise: Seq<bool>, i: int)
    requires
        0 <= i < all.len(),
        !noise[i],
    ensures
        model::quiet_lines(all, noise).contains(all[i]),
{
    let numbers = model::range(0, all.len() as int);
    let quiet = |i: int| !noise[i];
    assert(numbers[i] == i);
    numbers.lemma_filter_contains(quiet, i);
    let picked = numbers.filter(quiet);
    let k = choose|k: int| 0 <= k < picked.len() && picked[k] == i;
    assert(model::quiet_lines(all, noise)[k] == all[i]);
}

/// Lines are kept or dropped one by one, and in order: what is kept of a longer text is what is
/// kept of its start, followed by its next line if that is not marked as noise.
pub proof fn law_noise_is_dropped_line_by_line(
    all: Seq<Seq<char>>,
    noise: Seq<bool>,
    line: Seq<char>,
    is_noise: bool,
)
    requires
        noise.len() == all.len(),
    ensures
        model::quiet_lines(all.push(line), noise.push(is_noise)) == if is_noise {
            model::quiet_lines(all, noise)
        } else {
            model::quiet_lines(all, noise).push(line)
        },
{
    let n = all.len() as int;
    let old_quiet = |i: int| !noise[i];
    let quiet = |i: int| !noise.push(is_noise)[i];
    let numbers = model::range(0, n);
    assert(model::range(0, n + 1) == numbers.push(n));
    numbers.lemma_filter_push(n, quiet);
    lemma_filter_agrees(numbers, old_quiet, quiet);
    let picked = numbers.filter(old_quiet);
    assert forall|k: int| 0 <= k < picked.len() implies 0 <= #[trigger] picked[k] < n by {
        assert(picked.contains(picked[k]));
        numbers.lemma_filter_contains_rev(old_quiet, picked[k]);
    }
    assert(picked.map_values(|i: int| all.push(line)[i]) =~= model::quiet_lines(all, noise));
    if !is_noise {
        assert(picked.push(n).map_values(|i: int| all.push(line)[i]) =~= model::quiet_lines(
            all,
            noise,
        ).push(line));
    }
}

/// Two tests that agree on every entry select the same entries.
proof fn lemma_filter_agrees(s: Seq<int>, p: spec_fn(int) -> bool, q: spec_fn(int) -> bool)
    requires
        forall|k: int| 0 <= k < s.len() ==> p(#[trigger] s[k]) == q(s[k]),
    ensures
        s.filter(p) == s.filter(q),
    decreases s.len(),
{
    reveal(Seq::filter);
    if s.len() > 0 {
        assert forall|k: int| 0 <= k < s.drop_last().len() implies p(
            #[trigger] s.drop_last()[k],
        ) == q(s.drop_last()[k]) by {
            assert(s.drop_last()[k] == s[k]);
        }
        lemma_filter_agrees(s.drop_last(), p, q);
        assert(p(s[s.len() - 1]) == q(s[s.len() - 1]));
    }
}

/// No line of what is kept of stderr was written by uv itself.
pub proof fn law_no_noise_is_left(stderr: Seq<char>, k: int)
    requires
        0 <= k < text_spec::lines(model::without_noise(stderr)).len(),
    ensures
        !patterns::is_uv_noise(
            text_spec::trim(text_spec::lines(model::without_noise(stderr))[k]),
        ),
{
    let clean = text_spec::strip_ansi(stderr);
    let all = text_spec::lines(clean);
    let noise = model::noise_of(all);
    let kept = model::quiet_lines(all, noise);
    assert forall|k: int, i: int| 0 <= k < kept.len() && 0 <= i < kept[k].len() implies (
    #[trigger] kept[k][i]) != '\n' by {
        law_kept_lines_are_quiet(all, noise, k);
        let j = choose|j: int| 0 <= j < all.len() && !noise[j] && #[trigger] all[j] == kept[k];
        text_laws::lemma_lines_hold_no_newline(clean, j, i);
    }
    text_laws::law_join_then_lines(kept);
    law_kept_lines_are_quiet(all, noise, k);
    let line = text_spec::lines(model::without_noise(stderr))[k];
    if line != kept[k] {
        text_laws::lemma_trim_ignores_end(kept[k]);
    }
}

// --------------------------------------------------------------------------------------------
// A run
// --------------------------------------------------------------------------------------------

/// A report is never empty.
pub proof fn law_report_is_never_empty(
    output: Seq<char>,
    stdout: Seq<char>,
    stderr: Seq<char>,
    exit_code: int,
    hints: Seq<Option<Seq<char>>>,
)
    ensures
        model::run_text(output, stdout, stderr, exit_code, hints).len() > 0,
{
    reveal_strlit("ok");
    reveal_strlit(")");
}

/// A successful run is reported from its two streams alone, a failed one from the merged output
/// alone.
pub proof fn law_success_and_failure_read_different_texts(
    output: Seq<char>,
    stdout: Seq<char>,
    stderr: Seq<char>,
    other_output: Seq<char>,
    other_stdout: Seq<char>,
    other_stderr: Seq<char>,
    exit_code: int,
    hints: Seq<Option<Seq<char>>>,
)
    ensures
        exit_code == 0 ==> model::run_text(output, stdout, stderr, exit_code, hints)
            == model::run_text(other_output, stdout, stderr, exit_code, hints),
        exit_code != 0 ==> model::run_text(output, stdout, stderr, exit_code, hints)
            == model::run_text(output, other_stdout, other_stderr, exit_code, hints),
{
}

/// A successful run that wrote nothing but white space, besides what uv wrote, is reported as
/// `ok`.
pub proof fn law_silent_success_is_ok(
    output: Seq<char>,
    stdout: Seq<char>,
    stderr: Seq<char>,
    hints: Seq<Option<Seq<char>>>,
)
    requires
        forall|i: int|
            0 <= i < text_spec::lines(text_spec::strip_ansi(stdout)).len() ==> model::is_blank(
                #[trigger] text_spec::lines(text_spec::strip_ansi(stdout))[i],
            ),
        forall|i: int|
            0 <= i < text_spec::lines(text_spec::strip_ansi(model::without_noise(stderr))).len()
                ==> model::is_blank(
                #[trigger] text_spec::lines(text_spec::strip_ansi(model::without_noise(stderr)))[i],
            ),
    ensures
        model::run_text(output, stdout, stderr, 0, hints) == "ok"@,
{
    let kept = model::without_noise(stderr);
    law_only_blank_output_is_dropped(stdout, model::hint_at(hints, 0));
    law_only_blank_output_is_dropped(
        kept,
        model::hint_at(hints, model::program_requests(stdout).len() as int),
    );
}

/// A successful run is passed through: if nothing is asked to be saved, the report holds every
/// line of stdout, then every line of stderr that uv did not write, but for blank lines at the
/// end of either.
pub proof fn law_success_is_passed_through(
    output: Seq<char>,
    stdout: Seq<char>,
    stderr: Seq<char>,
    hints: Seq<Option<Seq<char>>>,
)
    requires
        model::run_requests(output, stdout, stderr, 0).len() == 0,
    ensures
        ({
            let payload = text_spec::join(model::output_lines(stdout), "\n"@);
            let messages = text_spec::join(
                model::output_lines(model::without_noise(stderr)),
                "\n"@,
            );
            model::run_text(output, stdout, stderr, 0, hints) == if payload.len() == 0
                && messages.len() == 0 {
                "ok"@
            } else if messages.len() == 0 {
                payload
            } else if payload.len() == 0 {
                messages
            } else {
                payload + "\n"@ + messages
            }
        }),
{
    let kept = model::without_noise(stderr);
    law_uncut_output_keeps_every_line(stdout, model::hint_at(hints, 0));
    law_uncut_output_keeps_every_line(
        kept,
        model::hint_at(hints, model::program_requests(stdout).len() as int),
    );
}

/// A failed run in whose output no line opens a traceback or an error is reported with its exit
/// code and its last lines; any other failed run is reported with its diagnostics.
pub proof fn law_fallback_iff_no_line_opens(
    output: Seq<char>,
    stdout: Seq<char>,
    stderr: Seq<char>,
    exit_code: int,
    hints: Seq<Option<Seq<char>>>,
)
    requires
        exit_code != 0,
    ensures
        ({
            let all = text_spec::lines(text_spec::strip_ansi(output));
            let facts = model::facts_of(all);
            model::run_text(output, stdout, stderr, exit_code, hints) == if exists|i: int|
                0 <= i < all.len() && #[trigger] opens(all, facts, i) {
                model::diagnostics(all, facts, hints)
            } else {
                model::failure_text(output, exit_code)
            }
        }),
        model::failure_header(exit_code).is_prefix_of(model::failure_text(output, exit_code)),
{
    let all = text_spec::lines(text_spec::strip_ansi(output));
    law_diagnostics_iff_a_line_opens(all, model::facts_of(all), hints);
}

/// The report of a failure without diagnostics ends with the last line of the output that is
/// not blank, trimmed and cut to size.
pub proof fn law_fallback_keeps_the_last_line(output: Seq<char>, exit_code: int)
    ensures
        ({
            let kept = model::content_lines(text_spec::lines(text_spec::strip_ansi(output)));
            kept.len() > 0 ==> kept.last().is_suffix_of(model::failure_text(output, exit_code))
        }),
{
    let kept = model::content_lines(text_spec::lines(text_spec::strip_ansi(output)));
    if kept.len() > 0 {
        let last = model::last_n(kept, MAX_FALLBACK_TAIL_LINES as nat);
        assert(last.last() == kept.last());
        assert(kept.last().is_suffix_of(text_spec::join(last, "\n"@)));
    }
}

/// Whether two lists of hints give the same answers to the requests `from..to`.
pub open spec fn same_answers(
    a: Seq<Option<Seq<char>>>,
    b: Seq<Option<Seq<char>>>,
    from: int,
    to: int,
) -> bool {
    forall|k: int| from <= k < to ==> #[trigger] model::hint_at(a, k) == model::hint_at(b, k)
}

/// Only the answers to the requests that a report makes can change it. In particular a report
/// that makes no request is the same whatever the hints.
pub proof fn law_only_requested_hints_matter(
    output: Seq<char>,
    stdout: Seq<char>,
    stderr: Seq<char>,
    exit_code: int,
    a: Seq<Option<Seq<char>>>,
    b: Seq<Option<Seq<char>>>,
)
    requires
        same_answers(
            a,
            b,
            0,
            model::run_requests(output, stdout, stderr, exit_code).len() as int,
        ),
    ensures
        model::run_text(output, stdout, stderr, exit_code, a) == model::run_text(
            output,
            stdout,
            stderr,
            exit_code,
            b,
        ),
{
    if exit_code == 0 {
        let kept = model::without_noise(stderr);
        let n = model::program_requests(stdout).len() as int;
        law_what_is_cut_is_saved(stdout);
        law_what_is_cut_is_saved(kept);
        if n > 0 {
            assert(model::hint_at(a, 0) == model::hint_at(b, 0));
        }
        if model::program_requests(kept).len() > 0 {
            assert(model::hint_at(a, n) == model::hint_at(b, n));
        }
        assert(model::program_text(stdout, model::hint_at(a, 0)) == model::program_text(
            stdout,
            model::hint_at(b, 0),
        ));
        assert(model::program_text(kept, model::hint_at(a, n)) == model::program_text(
            kept,
            model::hint_at(b, n),
        ));
    } else {
        let all = text_spec::lines(text_spec::strip_ansi(output));
        let facts = model::facts_of(all);
        let found = model::blocks(all, facts, 0);
        assert forall|j: int|
            0 <= j < model::requests_of(all, facts, found).len() implies model::hint_at(a, 0 + j)
            == #[trigger] model::hint_at(b, 0 + j) by {}
        stretches::lemma_report_with_other_hints(all, facts, found, a, 0, b, 0);
    }
}

/// What stands in for the report of a successful run is its stdout followed by what is kept of
/// its stderr: it does not bring back what uv wrote. For a failed run it is the merged output.
pub proof fn law_guard_brings_back_no_noise(
    raw: Seq<char>,
    stdout: Seq<char>,
    stderr: Seq<char>,
    exit_code: int,
)
    ensures
        exit_code == 0 ==> model::guard_text(raw, stdout, stderr, exit_code) == stdout
            + model::without_noise(stderr),
        exit_code == 0 ==> forall|k: int|
            0 <= k < text_spec::lines(model::without_noise(stderr)).len()
                ==> !patterns::is_uv_noise(
                text_spec::trim(#[trigger] text_spec::lines(model::without_noise(stderr))[k]),
            ),
        exit_code != 0 ==> model::guard_text(raw, stdout, stderr, exit_code) == raw,
{
    assert forall|k: int|
        0 <= k < text_spec::lines(
            model::without_noise(stderr),
        ).len() implies !patterns::is_uv_noise(
        text_spec::trim(#[trigger] text_spec::lines(model::without_noise(stderr))[k]),
    ) by {
        law_no_noise_is_left(stderr, k);
    }
}

} // verus!
