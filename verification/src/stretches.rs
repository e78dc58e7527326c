//! Stretches of lines that blank lines part, and what is reported of each.
use vstd::prelude::*;

use crate::laws;
use crate::limits::{
    MAX_DIAGNOSTIC_CHARS, MAX_ERROR_CONTINUATION_LINES, MAX_FRAME_CHARS, MAX_TRACEBACK_FRAMES,
    MAX_TRACEBACK_TAIL_LINES,
};
use crate::model;
use crate::model::Block;
use crate::patterns::LineFacts;
use crate::text_laws;
use crate::text_spec;

verus! {

/// Whether `part` stands in `all` from the line `off` on, up to a blank line or the end: its
/// lines are the same to the search for blocks.
pub open spec fn stands_at(
    all: Seq<Seq<char>>,
    facts: Seq<LineFacts>,
    part: Seq<Seq<char>>,
    part_facts: Seq<LineFacts>,
    off: int,
) -> bool {
    &&& 0 <= off
    &&& off + part.len() <= all.len()
    &&& off + part.len() < all.len() ==> model::is_blank(all[off + part.len()])
    &&& forall|j: int|
        0 <= j < part.len() ==> {
            &&& text_spec::trim(all[off + j]) == text_spec::trim(#[trigger] part[j])
            &&& facts[off + j] == part_facts[j]
            &&& model::is_blank(part[j]) || model::is_error_continuation(
                all[off + j],
                part_facts[j],
            ) == model::is_error_continuation(part[j], part_facts[j])
        }
}

/// `block`, with its lines counted from `off` lines earlier.
pub open spec fn shifted(block: Block, off: int) -> Block {
    Block { traceback: block.traceback, start: block.start + off, end: block.end + off }
}

/// `found`, with the lines counted from `off` lines earlier.
pub open spec fn all_shifted(found: Seq<Block>, off: int) -> Seq<Block> {
    found.map_values(|b: Block| shifted(b, off))
}

/// A block ends at the same line of a stretch wherever the stretch stands.
proof fn lemma_ends(
    all: Seq<Seq<char>>,
    facts: Seq<LineFacts>,
    part: Seq<Seq<char>>,
    part_facts: Seq<LineFacts>,
    off: int,
    i: int,
)
    requires
        stands_at(all, facts, part, part_facts, off),
        0 <= i <= part.len(),
    ensures
        model::traceback_end(all, off + i) == off + model::traceback_end(part, i),
        model::error_end(all, facts, off + i) == off + model::error_end(part, part_facts, i),
    decreases part.len() - i,
{
    if i < part.len() {
        assert(text_spec::trim(all[off + i]) == text_spec::trim(part[i]));
        lemma_ends(all, facts, part, part_facts, off, i + 1);
    }
}

/// The blocks of a stretch come first, wherever it stands, and then those after it.
pub proof fn lemma_blocks_of_stretch(
    all: Seq<Seq<char>>,
    facts: Seq<LineFacts>,
    part: Seq<Seq<char>>,
    part_facts: Seq<LineFacts>,
    off: int,
    i: int,
)
    requires
        stands_at(all, facts, part, part_facts, off),
        0 <= i <= part.len(),
    ensures
        model::blocks(all, facts, off + i) == all_shifted(
            model::blocks(part, part_facts, i),
            off,
        ) + model::blocks(all, facts, off + part.len()),
    decreases part.len() - i,
{
    let after = model::blocks(all, facts, off + part.len());
    let here = model::blocks(part, part_facts, i);
    if i == part.len() {
        assert(here == Seq::<Block>::empty());
        assert(all_shifted(here, off) + after == after);
    } else {
        assert(text_spec::trim(all[off + i]) == text_spec::trim(part[i]));
        if laws::opens(part, part_facts, i) {
            let traceback = model::is_traceback_start(text_spec::trim(part[i]));
            let end = if traceback {
                model::traceback_end(part, i + 1)
            } else {
                model::error_end(part, part_facts, i + 1)
            };
            lemma_ends(all, facts, part, part_facts, off, i + 1);
            model::lemma_traceback_end_bounds(part, i + 1);
            model::lemma_error_end_bounds(part, part_facts, i + 1);
            lemma_blocks_of_stretch(all, facts, part, part_facts, off, end);
            let first = Block { traceback, start: i, end };
            let rest = model::blocks(part, part_facts, end);
            assert(here == seq![first] + rest);
            assert(all_shifted(here, off) == seq![shifted(first, off)] + all_shifted(rest, off));
            assert(model::blocks(all, facts, off + i) == seq![shifted(first, off)] + model::blocks(
                all,
                facts,
                off + end,
            ));
            assert(seq![shifted(first, off)] + (all_shifted(rest, off) + after) == all_shifted(
                here,
                off,
            ) + after);
        } else {
            lemma_blocks_of_stretch(all, facts, part, part_facts, off, i + 1);
            assert(here == model::blocks(part, part_facts, i + 1));
            assert(model::blocks(all, facts, off + i) == model::blocks(all, facts, off + i + 1));
        }
    }
}

/// Blank lines hold no blocks.
pub proof fn lemma_blank_lines_are_passed(
    all: Seq<Seq<char>>,
    facts: Seq<LineFacts>,
    from: int,
    to: int,
)
    requires
        0 <= from <= to <= all.len(),
        forall|j: int| from <= j < to ==> model::is_blank(#[trigger] all[j]),
    ensures
        model::blocks(all, facts, from) == model::blocks(all, facts, to),
    decreases to - from,
{
    if from < to {
        assert(model::is_blank(all[from]));
        lemma_blank_lines_are_passed(all, facts, from + 1, to);
    }
}

/// The frame lines and the other lines of a stretch are the same wherever it stands.
proof fn lemma_split_of_stretch(
    all: Seq<Seq<char>>,
    facts: Seq<LineFacts>,
    part: Seq<Seq<char>>,
    part_facts: Seq<LineFacts>,
    off: int,
    from: int,
    to: int,
)
    requires
        stands_at(all, facts, part, part_facts, off),
        0 <= from <= to <= part.len(),
    ensures
        model::frame_lines(all, facts, off + from, off + to) == model::frame_lines(
            part,
            part_facts,
            from,
            to,
        ),
        model::other_lines(all, facts, off + from, off + to) == model::other_lines(
            part,
            part_facts,
            from,
            to,
        ),
    decreases to - from,
{
    if from < to {
        lemma_split_of_stretch(all, facts, part, part_facts, off, from, to - 1);
        model::lemma_split_grows(all, facts, off + from, off + to - 1);
        model::lemma_split_grows(part, part_facts, from, to - 1);
        assert(text_spec::trim(all[off + (to - 1)]) == text_spec::trim(part[to - 1]));
    } else {
        assert(model::range(off + from, off + to) == Seq::<int>::empty());
        assert(model::range(from, to) == Seq::<int>::empty());
    }
}

/// A block is reported in the same way wherever its stretch stands.
proof fn lemma_block_of_stretch(
    all: Seq<Seq<char>>,
    facts: Seq<LineFacts>,
    part: Seq<Seq<char>>,
    part_facts: Seq<LineFacts>,
    off: int,
    block: Block,
    hint: Option<Seq<char>>,
)
    requires
        stands_at(all, facts, part, part_facts, off),
        0 <= block.start < block.end <= part.len(),
    ensures
        model::block_lines(all, facts, shifted(block, off), hint) == model::block_lines(
            part,
            part_facts,
            block,
            hint,
        ),
        model::is_cut(all, facts, shifted(block, off)) == model::is_cut(part, part_facts, block),
        model::block_requests(all, facts, shifted(block, off)).len() == model::block_requests(
            part,
            part_facts,
            block,
        ).len(),
{
    assert(text_spec::trim(all[off + block.start]) == text_spec::trim(part[block.start]));
    lemma_split_of_stretch(all, facts, part, part_facts, off, block.start + 1, block.end);
    if !block.traceback {
        let cut = |line: Seq<char>|
            text_spec::truncate(text_spec::trim(line), MAX_DIAGNOSTIC_CHARS as nat);
        let a = all.subrange(off + block.start + 1, off + block.end).map_values(cut);
        let b = part.subrange(block.start + 1, block.end).map_values(cut);
        assert forall|j: int| 0 <= j < b.len() implies a[j] == b[j] by {
            let k = block.start + 1 + j;
            assert(text_spec::trim(all[off + k]) == text_spec::trim(part[k]));
        }
        assert(a == b);
    }
}

/// Blocks are reported in the same way wherever their stretch stands.
pub proof fn lemma_report_of_stretch(
    all: Seq<Seq<char>>,
    facts: Seq<LineFacts>,
    part: Seq<Seq<char>>,
    part_facts: Seq<LineFacts>,
    off: int,
    found: Seq<Block>,
    hints: Seq<Option<Seq<char>>>,
    k: int,
)
    requires
        stands_at(all, facts, part, part_facts, off),
        forall|j: int|
            0 <= j < found.len() ==> 0 <= (#[trigger] found[j]).start < found[j].end <= part.len(),
    ensures
        model::report_lines(all, facts, all_shifted(found, off), hints, k) == model::report_lines(
            part,
            part_facts,
            found,
            hints,
            k,
        ),
        model::requests_of(all, facts, all_shifted(found, off)).len() == model::requests_of(
            part,
            part_facts,
            found,
        ).len(),
    decreases found.len(),
{
    if found.len() > 0 {
        let n = model::block_requests(part, part_facts, found[0]).len() as int;
        lemma_block_of_stretch(
            all,
            facts,
            part,
            part_facts,
            off,
            found[0],
            model::hint_at(hints, k),
        );
        assert(all_shifted(found, off)[0] == shifted(found[0], off));
        assert(all_shifted(found, off).skip(1) == all_shifted(found.skip(1), off));
        assert forall|j: int| 0 <= j < found.skip(1).len() implies 0 <= (
        #[trigger] found.skip(1)[j]).start < found.skip(1)[j].end <= part.len() by {
            assert(found.skip(1)[j] == found[j + 1]);
        }
        lemma_report_of_stretch(
            all,
            facts,
            part,
            part_facts,
            off,
            found.skip(1),
            hints,
            k + n,
        );
    }
}

/// Two lists of blocks are reported one after the other.
pub proof fn lemma_report_concat(
    all: Seq<Seq<char>>,
    facts: Seq<LineFacts>,
    a: Seq<Block>,
    b: Seq<Block>,
    hints: Seq<Option<Seq<char>>>,
    k: int,
)
    ensures
        model::report_lines(all, facts, a + b, hints, k) == model::report_lines(
            all,
            facts,
            a,
            hints,
            k,
        ) + model::report_lines(
            all,
            facts,
            b,
            hints,
            k + model::requests_of(all, facts, a).len(),
        ),
        model::requests_of(all, facts, a + b) == model::requests_of(all, facts, a)
            + model::requests_of(all, facts, b),
    decreases a.len(),
{
    if a.len() == 0 {
        assert(a + b == b);
        let later = model::report_lines(all, facts, b, hints, k);
        assert(Seq::<Seq<char>>::empty() + later == later);
        assert(model::requests_of(all, facts, a) + model::requests_of(all, facts, b)
            == model::requests_of(all, facts, b));
    } else {
        let n = model::block_requests(all, facts, a[0]).len() as int;
        assert((a + b)[0] == a[0]);
        assert((a + b).skip(1) == a.skip(1) + b);
        lemma_report_concat(all, facts, a.skip(1), b, hints, k + n);
        let head = model::block_lines(all, facts, a[0], model::hint_at(hints, k)) + seq![
            Seq::<char>::empty(),
        ];
        let first = model::report_lines(all, facts, a.skip(1), hints, k + n);
        let second = model::report_lines(
            all,
            facts,
            b,
            hints,
            k + model::requests_of(all, facts, a).len(),
        );
        assert(head + (first + second) == head + first + second);
        let asked = model::block_requests(all, facts, a[0]);
        let more = model::requests_of(all, facts, a.skip(1));
        assert(asked + (more + model::requests_of(all, facts, b)) == asked + more
            + model::requests_of(all, facts, b));
    }
}

/// Two lists of hints that answer alike, each from its own number on, give the same report.
pub proof fn lemma_report_with_other_hints(
    all: Seq<Seq<char>>,
    facts: Seq<LineFacts>,
    found: Seq<Block>,
    a: Seq<Option<Seq<char>>>,
    k: int,
    b: Seq<Option<Seq<char>>>,
    l: int,
)
    requires
        forall|j: int|
            0 <= j < model::requests_of(all, facts, found).len() ==> model::hint_at(a, k + j)
                == #[trigger] model::hint_at(b, l + j),
    ensures
        model::report_lines(all, facts, found, a, k) == model::report_lines(
            all,
            facts,
            found,
            b,
            l,
        ),
    decreases found.len(),
{
    if found.len() > 0 {
        let n = model::block_requests(all, facts, found[0]).len() as int;
        let later = model::requests_of(all, facts, found.skip(1)).len();
        assert(model::requests_of(all, facts, found).len() == n + later);
        if model::is_cut(all, facts, found[0]) {
            assert(model::hint_at(a, k + 0) == model::hint_at(b, l + 0));
        } else {
            assert(model::block_lines(all, facts, found[0], model::hint_at(a, k))
                == model::block_lines(all, facts, found[0], model::hint_at(b, l)));
        }
        assert forall|j: int| 0 <= j < later implies model::hint_at(a, k + n + j)
            == #[trigger] model::hint_at(b, l + n + j) by {
            assert(model::hint_at(a, k + (n + j)) == model::hint_at(b, l + (n + j)));
        }
        lemma_report_with_other_hints(all, facts, found.skip(1), a, k + n, b, l + n);
    }
}

// --------------------------------------------------------------------------------------------
// The text of a report
// --------------------------------------------------------------------------------------------

/// Whether a text ends with something but white space.
pub open spec fn ends_firmly(s: Seq<char>) -> bool {
    s.len() > 0 && !text_spec::is_white_space(s.last())
}

/// Whether every hint ends with something but white space.
pub open spec fn are_firm(hints: Seq<Option<Seq<char>>>) -> bool {
    forall|k: int|
        0 <= k < hints.len() ==> ((#[trigger] hints[k]) matches Some(h) ==> ends_firmly(h))
}

/// A line that is not blank ends firmly once it is trimmed and cut to size.
proof fn lemma_cut_line_ends_firmly(line: Seq<char>, max: nat)
    requires
        !model::is_blank(line),
        max > 3,
    ensures
        ends_firmly(text_spec::truncate(text_spec::trim(line), max)),
        ends_firmly(text_spec::trim(line)),
{
    reveal_strlit("...");
    text_laws::law_trim(line);
}

/// The report of a block ends with a line that ends firmly.
proof fn lemma_block_ends_firmly(
    all: Seq<Seq<char>>,
    facts: Seq<LineFacts>,
    block: Block,
    hint: Option<Seq<char>>,
)
    requires
        0 <= block.start < block.end <= all.len(),
        forall|j: int| block.start <= j < block.end ==> !model::is_blank(#[trigger] all[j]),
        hint matches Some(h) ==> ends_firmly(h),
    ensures
        model::block_lines(all, facts, block, hint).len() > 0,
        ends_firmly(model::block_lines(all, facts, block, hint).last()),
{
    reveal_strlit(" more frames");
    reveal_strlit(" more lines");
    let chosen = laws::selection(all, facts, block, hint);
    let from = block.start + 1;
    laws::law_dedupe_has_no_equal_neighbours(chosen);
    assert(!model::is_blank(all[block.start]));
    lemma_cut_line_ends_firmly(all[block.start], MAX_DIAGNOSTIC_CHARS as nat);
    if block.traceback {
        let numbers = model::range(from, block.end);
        let is_frame = |j: int| facts[j].python_frame;
        let is_other = |j: int| !facts[j].python_frame;
        let frames = model::frame_lines(all, facts, from, block.end);
        let others = model::other_lines(all, facts, from, block.end);
        let last = model::last_n(others, MAX_TRACEBACK_TAIL_LINES as nat);
        if others.len() > 0 {
            lemma_picked_in_range(from, block.end, is_other, others.len() - 1);
            lemma_cut_line_ends_firmly(
                all[numbers.filter(is_other)[others.len() - 1]],
                MAX_DIAGNOSTIC_CHARS as nat,
            );
            assert(last.last() == others.last());
            assert(chosen.last() == others.last());
        } else if frames.len() > MAX_TRACEBACK_FRAMES {
            match hint {
                Some(h) => {
                    assert(chosen.last() == "  "@ + h);
                },
                None => {
                    assert(chosen.last() == model::more_line(
                        (frames.len() - MAX_TRACEBACK_FRAMES) as nat,
                        " more frames"@,
                    ));
                },
            }
        } else if frames.len() > 0 {
            lemma_picked_in_range(from, block.end, is_frame, frames.len() - 1);
            lemma_cut_line_ends_firmly(
                all[numbers.filter(is_frame)[frames.len() - 1]],
                MAX_FRAME_CHARS as nat,
            );
            assert(chosen.last() == frames.last());
        } else {
            assert(chosen.last() == text_spec::trim(all[block.start]));
        }
    } else {
        let count = block.end - from;
        if count > MAX_ERROR_CONTINUATION_LINES {
            match hint {
                Some(h) => {
                    assert(chosen.last() == "  "@ + h);
                },
                None => {
                    assert(chosen.last() == model::more_line(
                        (count - MAX_ERROR_CONTINUATION_LINES) as nat,
                        " more lines"@,
                    ));
                },
            }
        } else if count > 0 {
            assert(!model::is_blank(all[block.end - 1]));
            lemma_cut_line_ends_firmly(all[block.end - 1], MAX_DIAGNOSTIC_CHARS as nat);
            assert(chosen.last() == text_spec::truncate(
                text_spec::trim(all[block.end - 1]),
                MAX_DIAGNOSTIC_CHARS as nat,
            ));
        }
    }
}

/// A number that is picked out of a range lies in it.
proof fn lemma_picked_in_range(from: int, to: int, test: spec_fn(int) -> bool, k: int)
    requires
        from <= to,
        0 <= k < model::range(from, to).filter(test).len(),
    ensures
        from <= model::range(from, to).filter(test)[k] < to,
{
    let numbers = model::range(from, to);
    assert(numbers.filter(test).contains(numbers.filter(test)[k]));
    numbers.lemma_filter_contains_rev(test, numbers.filter(test)[k]);
}

/// A report of blocks is an empty line after lines of which the first starts, and the last ends,
/// with something but white space.
proof fn lemma_report_is_firm(
    all: Seq<Seq<char>>,
    facts: Seq<LineFacts>,
    found: Seq<Block>,
    hints: Seq<Option<Seq<char>>>,
    k: int,
)
    requires
        found.len() > 0,
        forall|j: int|
            0 <= j < found.len() ==> 0 <= (#[trigger] found[j]).start < found[j].end <= all.len(),
        forall|j: int| 0 <= j < found.len() ==> laws::has_no_blank(all, #[trigger] found[j]),
        are_firm(hints),
    ensures
        ({
            let report = model::report_lines(all, facts, found, hints, k);
            &&& report.len() >= 2
            &&& report.last().len() == 0
            &&& report[0].len() > 0
            &&& !text_spec::is_white_space(report[0][0])
            &&& ends_firmly(report[report.len() - 2])
        }),
    decreases found.len(),
{
    let first = found[0];
    let hint = model::hint_at(hints, k);
    let lines = model::block_lines(all, facts, first, hint);
    let n = model::block_requests(all, facts, first).len() as int;
    let later = model::report_lines(all, facts, found.skip(1), hints, k + n);
    let report = model::report_lines(all, facts, found, hints, k);
    assert(laws::has_no_blank(all, found[0]));
    lemma_block_ends_firmly(all, facts, first, hint);
    laws::law_block_keeps_its_first_line(all, facts, first, hint);
    assert(!model::is_blank(all[first.start]));
    text_laws::law_trim(all[first.start]);
    text_laws::lemma_truncate_keeps_start(
        text_spec::trim(all[first.start]),
        MAX_DIAGNOSTIC_CHARS as nat,
    );
    assert(report[0] == lines[0]);
    if found.len() == 1 {
        assert(found.skip(1).len() == 0);
        assert(report == lines + seq![Seq::<char>::empty()]);
        assert(report[report.len() - 2] == lines.last());
    } else {
        assert forall|j: int| 0 <= j < found.skip(1).len() implies 0 <= (
        #[trigger] found.skip(1)[j]).start < found.skip(1)[j].end <= all.len()
            && laws::has_no_blank(all, found.skip(1)[j]) by {
            assert(found.skip(1)[j] == found[j + 1]);
        }
        lemma_report_is_firm(all, facts, found.skip(1), hints, k + n);
        assert(report[report.len() - 2] == later[later.len() - 2]);
        assert(report.last() == later.last());
    }
}

/// The lines of a report without the empty one at its end, joined.
spec fn core_of(report: Seq<Seq<char>>) -> Seq<char> {
    text_spec::join(report.drop_last(), "\n"@)
}

/// What is left of a firm report once it is joined and trimmed.
proof fn lemma_text_of_firm_report(report: Seq<Seq<char>>)
    requires
        report.len() >= 2,
        report.last().len() == 0,
        report[0].len() > 0,
        !text_spec::is_white_space(report[0][0]),
        ends_firmly(report[report.len() - 2]),
    ensures
        text_spec::join(report, "\n"@) == core_of(report) + seq!['\n'],
        text_spec::trim(text_spec::join(report, "\n"@)) == core_of(report),
        core_of(report).len() > 0,
        !text_spec::is_white_space(core_of(report)[0]),
        ends_firmly(core_of(report)),
{
    reveal_strlit("\n");
    let front = report.drop_last();
    let core = core_of(report);
    text_laws::lemma_join_first(front, "\n"@);
    assert(front[0] == report[0]);
    assert(core[0] == report[0][0]);
    assert(front.last() == report[report.len() - 2]);
    assert(core.last() == front.last().last());
    assert(text_spec::join(report, "\n"@) == core + seq!['\n']);
    text_laws::lemma_trim_of_padded(core, seq!['\n']);
}

/// Two reports after one another read as the two texts with an empty line between them.
pub proof fn lemma_text_of_two_reports(
    all: Seq<Seq<char>>,
    facts: Seq<LineFacts>,
    found: Seq<Block>,
    hints: Seq<Option<Seq<char>>>,
    other_all: Seq<Seq<char>>,
    other_facts: Seq<LineFacts>,
    other_found: Seq<Block>,
    other_hints: Seq<Option<Seq<char>>>,
)
    requires
        found == model::blocks(all, facts, 0),
        other_found == model::blocks(other_all, other_facts, 0),
        are_firm(hints),
        are_firm(other_hints),
    ensures
        ({
            let a = model::report_lines(all, facts, found, hints, 0);
            let b = model::report_lines(other_all, other_facts, other_found, other_hints, 0);
            text_spec::trim(text_spec::join(a + b, "\n"@)) == laws::with_empty_line(
                text_spec::trim(text_spec::join(a, "\n"@)),
                text_spec::trim(text_spec::join(b, "\n"@)),
            )
        }),
{
    reveal_strlit("\n");
    reveal_strlit("\n\n");
    let a = model::report_lines(all, facts, found, hints, 0);
    let b = model::report_lines(other_all, other_facts, other_found, other_hints, 0);
    laws::law_blocks(all, facts);
    laws::law_blocks(other_all, other_facts);
    if found.len() > 0 {
        lemma_report_is_firm(all, facts, found, hints, 0);
        lemma_text_of_firm_report(a);
    } else {
        assert(a + b == b);
        assert(text_spec::join(a, "\n"@).len() == 0);
    }
    if other_found.len() > 0 {
        lemma_report_is_firm(other_all, other_facts, other_found, other_hints, 0);
        lemma_text_of_firm_report(b);
    } else {
        assert(a + b == a);
        assert(text_spec::join(b, "\n"@).len() == 0);
    }
    if found.len() > 0 && other_found.len() > 0 {
        let x = core_of(a);
        let y = core_of(b);
        text_laws::lemma_join_concat(a, b, "\n"@);
        let core = x + "\n\n"@ + y;
        assert(text_spec::join(a + b, "\n"@) == core + seq!['\n']);
        assert(core[0] == x[0]);
        assert(core.last() == y.last());
        text_laws::lemma_trim_of_padded(core, seq!['\n']);
    }
}

} // verus!
