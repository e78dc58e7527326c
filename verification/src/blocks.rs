//! Tracebacks and errors, each reported as one block of lines.
use vstd::prelude::*;

use crate::classify;
use crate::limits::{
    MAX_DIAGNOSTIC_CHARS, MAX_ERROR_CONTINUATION_LINES, MAX_FRAME_CHARS, MAX_TRACEBACK_FRAMES,
    MAX_TRACEBACK_TAIL_LINES,
};
use crate::model;
use crate::model::Block;
use crate::patterns::{LineFacts, Patterns};
use crate::report;
use crate::report::{BlockReport, SaveRequest};
use crate::text;
use crate::text_spec;

verus! {

/// `lines` with each run of equal neighbours reduced to one line.
pub fn dedupe_preserving_order(lines: Vec<String>) -> (deduped: Vec<String>)
    ensures
        text_spec::texts(deduped@) == model::dedupe(text_spec::texts(lines@)),
{
    let ghost all = text_spec::texts(lines@);
    let mut deduped: Vec<String> = Vec::new();
    let mut i: usize = 0;
    while i < lines.len()
        invariant
            all == text_spec::texts(lines@),
            i <= lines@.len(),
            text_spec::texts(deduped@) == model::dedupe(all.take(i as int)),
        decreases lines.len() - i,
    {
        proof {
            model::lemma_dedupe_last(all.take(i as int));
            assert(all.take(i + 1).drop_last() == all.take(i as int));
            assert(all.take(i + 1).last() == lines@[i as int]@);
            if i > 0 {
                assert(all.take(i as int).last() == all.take(i + 1)[i - 1]);
                assert(text_spec::texts(deduped@).last() == deduped@.last()@);
            }
        }
        if deduped.len() == 0 || deduped[deduped.len() - 1] != lines[i] {
            report::push_line(&mut deduped, lines[i].clone());
        }
        i += 1;
    }
    assert(all.take(i as int) == all);
    deduped
}

/// The line that stands for `n` entries that were left out.
fn more_line(n: usize, what: &str) -> (r: String)
    ensures
        r@ == model::more_line(n as nat, what@),
{
    let mut out = "... +".to_owned();
    out.append(text::decimal(n as u64).as_str());
    out.append(what);
    out
}

/// Appends the line that stands for `n` entries that were left out, and the line that points to
/// a full copy, if there is one.
fn push_more(block: &mut Vec<String>, n: usize, what: &str, hint: Option<&str>)
    ensures
        text_spec::texts(final(block)@) == text_spec::texts(old(block)@) + (seq![
            model::more_line(n as nat, what@),
        ] + model::hint_lines(report::hint_view(hint))),
{
    report::push_line(block, more_line(n, what));
    if let Some(h) = hint {
        let mut line = "  ".to_owned();
        line.append(h);
        report::push_line(block, line);
    }
    assert(text_spec::texts(block@) == text_spec::texts(old(block)@) + (seq![
        model::more_line(n as nat, what@),
    ] + model::hint_lines(report::hint_view(hint))));
}

/// The request to save the lines `start..end`.
fn block_request(lines: &[String], start: usize, end: usize, label: &str) -> (r: SaveRequest)
    requires
        start <= end <= lines@.len(),
    ensures
        r@.content == text_spec::join(
            text_spec::texts(lines@).subrange(start as int, end as int),
            "\n"@,
        ),
        r@.label == label@,
        r@.from_line is None,
{
    SaveRequest {
        content: text::join(lines, start, end, "\n"),
        label: label.to_owned(),
        from_line: None,
    }
}

/// The block of lines that the traceback opened by the line `start_idx` fills, reported. `hint`
/// answers the request that the report makes if it leaves frames out.
pub fn collect_traceback_block(
    patterns: &Patterns,
    lines: &[String],
    start_idx: usize,
    hint: Option<&str>,
) -> (r: BlockReport)
    requires
        start_idx < lines@.len(),
    ensures
        ({
            let all = text_spec::texts(lines@);
            let facts = model::facts_of(all);
            let end = model::traceback_end(all, start_idx + 1);
            let block = Block { traceback: true, start: start_idx as int, end };
            &&& r.next_idx == end
            &&& text_spec::texts(r.lines@) == model::block_lines(
                all,
                facts,
                block,
                report::hint_view(hint),
            )
            &&& report::requests_view(r.requests@) == model::block_requests(all, facts, block)
        }),
        start_idx < r.next_idx <= lines@.len(),
{
    let facts = classify::facts_of(patterns, lines);
    traceback_block_from(lines, facts.as_slice(), start_idx, hint)
}

/// As [`collect_traceback_block`], where the patterns say `facts` of the lines.
pub fn traceback_block_from(
    lines: &[String],
    facts: &[LineFacts],
    start_idx: usize,
    hint: Option<&str>,
) -> (r: BlockReport)
    requires
        start_idx < lines@.len(),
        facts@.len() == lines@.len(),
    ensures
        ({
            let all = text_spec::texts(lines@);
            let end = model::traceback_end(all, start_idx + 1);
            let block = Block { traceback: true, start: start_idx as int, end };
            &&& r.next_idx == end
            &&& text_spec::texts(r.lines@) == model::block_lines(
                all,
                facts@,
                block,
                report::hint_view(hint),
            )
            &&& report::requests_view(r.requests@) == model::block_requests(all, facts@, block)
        }),
        start_idx < r.next_idx <= lines@.len(),
{
    let ghost all = text_spec::texts(lines@);
    let ghost from = start_idx + 1;
    let first_line = text::trim(lines[start_idx].as_str());
    let mut frames: Vec<String> = Vec::new();
    let mut others: Vec<String> = Vec::new();
    let mut idx: usize = start_idx + 1;
    let mut open = true;
    assert(text_spec::texts(frames@) == model::frame_lines(all, facts@, from, from));
    assert(text_spec::texts(others@) == model::other_lines(all, facts@, from, from));
    while open && idx < lines.len()
        invariant
            all == text_spec::texts(lines@),
            facts@.len() == lines@.len(),
            from == start_idx + 1,
            from <= idx <= lines@.len(),
            open ==> model::traceback_end(all, from) == model::traceback_end(all, idx as int),
            !open ==> model::traceback_end(all, from) == idx,
            text_spec::texts(frames@) == model::frame_lines(all, facts@, from, idx as int),
            text_spec::texts(others@) == model::other_lines(all, facts@, from, idx as int),
        decreases lines.len() - idx + if open { 1int } else { 0int },
    {
        let trimmed = text::trim(lines[idx].as_str());
        if trimmed.as_str().is_empty() {
            open = false;
        } else {
            proof {
                model::lemma_split_grows(all, facts@, from, idx as int);
            }
            if facts[idx].python_frame {
                report::push_line(&mut frames, text::truncate(trimmed.as_str(), MAX_FRAME_CHARS));
            } else {
                report::push_line(
                    &mut others,
                    text::truncate(trimmed.as_str(), MAX_DIAGNOSTIC_CHARS),
                );
            }
            idx += 1;
        }
    }
    assert(model::traceback_end(all, from) == idx);
    let ghost frames_view = text_spec::texts(frames@);
    let ghost others_view = text_spec::texts(others@);
    let ghost first = model::first_n(frames_view, MAX_TRACEBACK_FRAMES as nat);
    let ghost last = model::last_n(others_view, MAX_TRACEBACK_TAIL_LINES as nat);
    let mut block: Vec<String> = Vec::new();
    let mut requests: Vec<SaveRequest> = Vec::new();
    report::push_line(&mut block, first_line);
    let kept: usize = if frames.len() > MAX_TRACEBACK_FRAMES {
        MAX_TRACEBACK_FRAMES
    } else {
        frames.len()
    };
    report::append_lines(&mut block, frames.as_slice(), 0, kept);
    proof {
        assert(frames_view.subrange(0, kept as int) == first);
        assert(text_spec::texts(block@) == seq![text_spec::trim(all[start_idx as int])] + first);
    }
    if frames.len() > MAX_TRACEBACK_FRAMES {
        push_more(&mut block, frames.len() - MAX_TRACEBACK_FRAMES, " more frames", hint);
        requests.push(block_request(lines, start_idx, idx, "uv-traceback"));
    }
    let ghost more = if frames.len() > MAX_TRACEBACK_FRAMES {
        seq![
            model::more_line((frames.len() - MAX_TRACEBACK_FRAMES) as nat, " more frames"@),
        ] + model::hint_lines(report::hint_view(hint))
    } else {
        Seq::empty()
    };
    assert(text_spec::texts(block@) == seq![text_spec::trim(all[start_idx as int])] + first + more);
    let tail_from: usize = if others.len() > MAX_TRACEBACK_TAIL_LINES {
        others.len() - MAX_TRACEBACK_TAIL_LINES
    } else {
        0
    };
    report::append_lines(&mut block, others.as_slice(), tail_from, others.len());
    proof {
        assert(others_view.subrange(tail_from as int, others@.len() as int) == last);
        let found = Block { traceback: true, start: start_idx as int, end: idx as int };
        assert(report::requests_view(requests@) == model::block_requests(all, facts@, found));
    }
    BlockReport { lines: dedupe_preserving_order(block), next_idx: idx, requests }
}

/// The block of lines that the error opened by the line `start_idx` fills, reported. `hint`
/// answers the request that the report makes if it leaves lines out.
pub fn collect_error_block(
    patterns: &Patterns,
    lines: &[String],
    start_idx: usize,
    hint: Option<&str>,
) -> (r: BlockReport)
    requires
        start_idx < lines@.len(),
    ensures
        ({
            let all = text_spec::texts(lines@);
            let facts = model::facts_of(all);
            let end = model::error_end(all, facts, start_idx + 1);
            let block = Block { traceback: false, start: start_idx as int, end };
            &&& r.next_idx == end
            &&& text_spec::texts(r.lines@) == model::block_lines(
                all,
                facts,
                block,
                report::hint_view(hint),
            )
            &&& report::requests_view(r.requests@) == model::block_requests(all, facts, block)
        }),
        start_idx < r.next_idx <= lines@.len(),
{
    let facts = classify::facts_of(patterns, lines);
    error_block_from(lines, facts.as_slice(), start_idx, hint)
}

/// As [`collect_error_block`], where the patterns say `facts` of the lines.
pub fn error_block_from(
    lines: &[String],
    facts: &[LineFacts],
    start_idx: usize,
    hint: Option<&str>,
) -> (r: BlockReport)
    requires
        start_idx < lines@.len(),
        facts@.len() == lines@.len(),
    ensures
        ({
            let all = text_spec::texts(lines@);
            let end = model::error_end(all, facts@, start_idx + 1);
            let block = Block { traceback: false, start: start_idx as int, end };
            &&& r.next_idx == end
            &&& text_spec::texts(r.lines@) == model::block_lines(
                all,
                facts@,
                block,
                report::hint_view(hint),
            )
            &&& report::requests_view(r.requests@) == model::block_requests(all, facts@, block)
        }),
        start_idx < r.next_idx <= lines@.len(),
{
    let ghost all = text_spec::texts(lines@);
    let ghost from = start_idx + 1;
    let ghost cut = |line: Seq<char>|
        text_spec::truncate(text_spec::trim(line), MAX_DIAGNOSTIC_CHARS as nat);
    let ghost opening = seq![cut(all[start_idx as int])];
    let mut block: Vec<String> = Vec::new();
    let first = text::trim(lines[start_idx].as_str());
    report::push_line(&mut block, text::truncate(first.as_str(), MAX_DIAGNOSTIC_CHARS));
    let mut idx: usize = start_idx + 1;
    let mut open = true;
    proof {
        assert(model::first_n(
            all.subrange(from, from).map_values(cut),
            MAX_ERROR_CONTINUATION_LINES as nat,
        ) == Seq::<Seq<char>>::empty());
        assert(text_spec::texts(block@) == opening + Seq::<Seq<char>>::empty());
    }
    while open && idx < lines.len()
        invariant
            all == text_spec::texts(lines@),
            facts@.len() == lines@.len(),
            from == start_idx + 1,
            from <= idx <= lines@.len(),
            open ==> model::error_end(all, facts@, from) == model::error_end(
                all,
                facts@,
                idx as int,
            ),
            !open ==> model::error_end(all, facts@, from) == idx,
            cut == (|line: Seq<char>|
                text_spec::truncate(text_spec::trim(line), MAX_DIAGNOSTIC_CHARS as nat)),
            text_spec::texts(block@) == opening + model::first_n(
                all.subrange(from, idx as int).map_values(cut),
                MAX_ERROR_CONTINUATION_LINES as nat,
            ),
        decreases lines.len() - idx + if open { 1int } else { 0int },
    {
        let line = lines[idx].as_str();
        let trimmed = text::trim(line);
        if trimmed.as_str().is_empty() || !classify::error_continuation_from(line, facts[idx]) {
            open = false;
        } else {
            let ghost before = model::first_n(
                all.subrange(from, idx as int).map_values(cut),
                MAX_ERROR_CONTINUATION_LINES as nat,
            );
            let count: usize = idx - start_idx;
            if count <= MAX_ERROR_CONTINUATION_LINES {
                report::push_line(
                    &mut block,
                    text::truncate(trimmed.as_str(), MAX_DIAGNOSTIC_CHARS),
                );
            }
            idx += 1;
            proof {
                let now = all.subrange(from, idx as int).map_values(cut);
                assert(now == all.subrange(from, idx - 1).map_values(cut).push(cut(all[idx - 1])));
                let kept = model::first_n(now, MAX_ERROR_CONTINUATION_LINES as nat);
                if count <= MAX_ERROR_CONTINUATION_LINES {
                    assert(kept == before.push(cut(all[idx - 1])));
                    assert(opening + kept == (opening + before).push(cut(all[idx - 1])));
                } else {
                    assert(kept == before);
                }
            }
        }
    }
    assert(model::error_end(all, facts@, from) == idx);
    let count: usize = idx - start_idx - 1;
    let mut requests: Vec<SaveRequest> = Vec::new();
    if count > MAX_ERROR_CONTINUATION_LINES {
        push_more(&mut block, count - MAX_ERROR_CONTINUATION_LINES, " more lines", hint);
        requests.push(block_request(lines, start_idx, idx, "uv-error-block"));
    }
    proof {
        let kept = model::first_n(
            all.subrange(from, idx as int).map_values(cut),
            MAX_ERROR_CONTINUATION_LINES as nat,
        );
        if count <= MAX_ERROR_CONTINUATION_LINES {
            assert(opening + kept + Seq::<Seq<char>>::empty() == opening + kept);
        }
        let found = Block { traceback: false, start: start_idx as int, end: idx as int };
        assert(report::requests_view(requests@) == model::block_requests(all, facts@, found));
    }
    BlockReport { lines: dedupe_preserving_order(block), next_idx: idx, requests }
}

} // verus!
