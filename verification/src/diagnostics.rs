//! What is reported of a run that failed.
use vstd::prelude::*;

use crate::blocks;
use crate::classify;
use crate::limits::{MAX_DIAGNOSTIC_CHARS, MAX_FALLBACK_TAIL_LINES};
use crate::model;
use crate::model::Block;
use crate::patterns::{LineFacts, Patterns};
use crate::report;
use crate::report::{BlockReport, Filtered, SaveRequest};
use crate::text;
use crate::text_spec;

verus! {

/// The tracebacks and errors in `text`. `hints` answer the requests that the report makes.
pub fn extract_diagnostics(patterns: &Patterns, text: &str, hints: &[Option<String>]) -> (r:
    Filtered)
    ensures
        ({
            let all = text_spec::lines(text_spec::strip_ansi(text@));
            let facts = model::facts_of(all);
            &&& r.text@ == model::diagnostics(all, facts, report::hints_view(hints@))
            &&& report::requests_view(r.requests@) == model::diagnostics_requests(all, facts)
        }),
{
    let clean = text::strip_ansi(text);
    let lines = text::lines(clean.as_str());
    let facts = classify::facts_of(patterns, lines.as_slice());
    diagnostics_from(lines.as_slice(), facts.as_slice(), hints)
}

/// The tracebacks and errors among `lines`, of which the patterns say `facts`.
pub fn diagnostics_from(
    lines: &[String],
    facts: &[LineFacts],
    hints: &[Option<String>],
) -> (r: Filtered)
    requires
        facts@.len() == lines@.len(),
    ensures
        r.text@ == model::diagnostics(
            text_spec::texts(lines@),
            facts@,
            report::hints_view(hints@),
        ),
        report::requests_view(r.requests@) == model::diagnostics_requests(
            text_spec::texts(lines@),
            facts@,
        ),
{
    let ghost all = text_spec::texts(lines@);
    let ghost answers = report::hints_view(hints@);
    let ghost found = model::blocks(all, facts@, 0);
    let mut selected: Vec<String> = Vec::new();
    let mut requests: Vec<SaveRequest> = Vec::new();
    let mut i: usize = 0;
    proof {
        assert(text_spec::texts(selected@) + model::report_lines(all, facts@, found, answers, 0)
            == model::report_lines(all, facts@, found, answers, 0));
        assert(report::requests_view(requests@) + model::requests_of(all, facts@, found)
            == model::requests_of(all, facts@, found));
    }
    while i < lines.len()
        invariant
            all == text_spec::texts(lines@),
            facts@.len() == lines@.len(),
            answers == report::hints_view(hints@),
            found == model::blocks(all, facts@, 0),
            i <= lines@.len(),
            text_spec::texts(selected@) + model::report_lines(
                all,
                facts@,
                model::blocks(all, facts@, i as int),
                answers,
                requests@.len() as int,
            ) == model::report_lines(all, facts@, found, answers, 0),
            report::requests_view(requests@) + model::requests_of(
                all,
                facts@,
                model::blocks(all, facts@, i as int),
            ) == model::requests_of(all, facts@, found),
        decreases lines.len() - i,
    {
        let trimmed = text::trim(lines[i].as_str());
        if trimmed.as_str().is_empty() {
            i += 1;
        } else {
            let traceback = classify::is_traceback_start(trimmed.as_str());
            if traceback || classify::error_start_from(trimmed.as_str(), facts[i]) {
                let hint = report::hint_at(hints, requests.len());
                let block = if traceback {
                    blocks::traceback_block_from(lines, facts, i, hint)
                } else {
                    blocks::error_block_from(lines, facts, i, hint)
                };
                let ghost this = Block { traceback, start: i as int, end: block.next_idx as int };
                let ghost rest = model::blocks(all, facts@, block.next_idx as int);
                let ghost before = text_spec::texts(selected@);
                let ghost asked = report::requests_view(requests@);
                proof {
                    let here = model::blocks(all, facts@, i as int);
                    assert(here == seq![this] + rest);
                    assert(here.skip(1) == rest);
                }
                report::append_lines(&mut selected, block.lines.as_slice(), 0, block.lines.len());
                report::push_line(&mut selected, String::new());
                i = block.next_idx;
                let mut new_requests = block.requests;
                requests.append(&mut new_requests);
                proof {
                    let lines_of = model::block_lines(
                        all,
                        facts@,
                        this,
                        model::hint_at(answers, asked.len() as int),
                    );
                    let later = model::report_lines(
                        all,
                        facts@,
                        rest,
                        answers,
                        requests@.len() as int,
                    );
                    assert(text_spec::texts(block.lines@).subrange(0, block.lines@.len() as int)
                        == lines_of);
                    assert(text_spec::texts(selected@) == before + lines_of + seq![
                        Seq::<char>::empty(),
                    ]);
                    assert(text_spec::texts(selected@) + later == before + (lines_of + seq![
                        Seq::<char>::empty(),
                    ] + later));
                    let new = model::block_requests(all, facts@, this);
                    assert(report::requests_view(requests@) == asked + new);
                    assert(asked + new + model::requests_of(all, facts@, rest) == asked + (new
                        + model::requests_of(all, facts@, rest)));
                }
            } else {
                i += 1;
            }
        }
    }
    proof {
        let end = model::blocks(all, facts@, i as int);
        assert(text_spec::texts(selected@) + model::report_lines(
            all,
            facts@,
            end,
            answers,
            requests@.len() as int,
        ) == text_spec::texts(selected@));
        assert(report::requests_view(requests@) + model::requests_of(all, facts@, end)
            == report::requests_view(requests@));
        assert(text_spec::texts(selected@).subrange(0, selected@.len() as int) == text_spec::texts(
            selected@,
        ));
    }
    let joined = text::join(selected.as_slice(), 0, selected.len(), "\n");
    Filtered { text: text::trim(joined.as_str()), requests }
}

/// The lines that are not blank, trimmed and cut to size.
fn content_lines(lines: &[String]) -> (r: Vec<String>)
    ensures
        text_spec::texts(r@) == model::content_lines(text_spec::texts(lines@)),
{
    let ghost all = text_spec::texts(lines@);
    let mut out: Vec<String> = Vec::new();
    let mut i: usize = 0;
    assert(text_spec::texts(out@) == model::content_lines(all.take(0)));
    while i < lines.len()
        invariant
            all == text_spec::texts(lines@),
            i <= lines@.len(),
            text_spec::texts(out@) == model::content_lines(all.take(i as int)),
        decreases lines.len() - i,
    {
        let trimmed = text::trim(lines[i].as_str());
        proof {
            model::lemma_content_grows(all, i as int);
        }
        if !trimmed.as_str().is_empty() {
            report::push_line(&mut out, text::truncate(trimmed.as_str(), MAX_DIAGNOSTIC_CHARS));
        }
        i += 1;
    }
    assert(all.take(i as int) == all);
    out
}

/// The report of a failure without diagnostics: the exit code and the last lines of `output`.
pub fn failure_text(output: &str, exit_code: i32) -> (r: String)
    ensures
        r@ == model::failure_text(output@, exit_code as int),
{
    let clean = text::strip_ansi(output);
    let lines = text::lines(clean.as_str());
    let kept = content_lines(lines.as_slice());
    let mut out = "[FAIL] uv run failed (exit code: ".to_owned();
    out.append(text::signed_decimal(exit_code).as_str());
    out.append(")");
    if kept.len() > 0 {
        let from: usize = if kept.len() > MAX_FALLBACK_TAIL_LINES {
            kept.len() - MAX_FALLBACK_TAIL_LINES
        } else {
            0
        };
        proof {
            let all = text_spec::texts(kept@);
            assert(all.subrange(from as int, kept@.len() as int) == model::last_n(
                all,
                MAX_FALLBACK_TAIL_LINES as nat,
            ));
        }
        out.append("\n");
        out.append(text::join(kept.as_slice(), from, kept.len(), "\n").as_str());
    }
    out
}

/// The report of a failed run in whose `output` the diagnostics `extracted` were found.
pub fn failed_run_from(extracted: Filtered, output: &str, exit_code: i32) -> (r: Filtered)
    ensures
        r.requests == extracted.requests,
        r.text@ == if extracted.text@.len() > 0 {
            extracted.text@
        } else {
            model::failure_text(output@, exit_code as int)
        },
{
    if extracted.text.as_str().is_empty() {
        Filtered { text: failure_text(output, exit_code), requests: extracted.requests }
    } else {
        extracted
    }
}

} // verus!
