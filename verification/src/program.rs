//! What is reported of a run that succeeded.
use vstd::prelude::*;

use crate::limits::{CAP_INVENTORY, MAX_PROGRAM_LINE_CHARS};
use crate::model;
use crate::patterns::Patterns;
use crate::report;
use crate::report::{Filtered, SaveRequest};
use crate::text;
use crate::text_spec;

verus! {

/// `stderr` without the lines that uv itself wrote.
pub fn strip_uv_noise(patterns: &Patterns, stderr: &str) -> (r: String)
    ensures
        r@ == model::without_noise(stderr@),
{
    let clean = text::strip_ansi(stderr);
    let lines = text::lines(clean.as_str());
    let ghost all = text_spec::texts(lines@);
    let mut noise: Vec<bool> = Vec::new();
    let mut i: usize = 0;
    while i < lines.len()
        invariant
            all == text_spec::texts(lines@),
            i <= lines@.len(),
            noise@ == model::noise_of(all.take(i as int)),
        decreases lines.len() - i,
    {
        let trimmed = text::trim(lines[i].as_str());
        noise.push(patterns.is_uv_noise(trimmed.as_str()));
        i += 1;
        assert(noise@ == model::noise_of(all.take(i as int)));
    }
    assert(all.take(i as int) == all);
    let kept = quiet_lines_from(lines.as_slice(), noise.as_slice());
    proof {
        let view = text_spec::texts(kept@);
        assert(view.subrange(0, view.len() as int) == view);
    }
    text::join(kept.as_slice(), 0, kept.len(), "\n")
}

/// The lines that `noise` does not mark.
pub fn quiet_lines_from(lines: &[String], noise: &[bool]) -> (r: Vec<String>)
    requires
        noise@.len() == lines@.len(),
    ensures
        text_spec::texts(r@) == model::quiet_lines(text_spec::texts(lines@), noise@),
{
    let ghost all = text_spec::texts(lines@);
    let ghost quiet = |i: int| !noise@[i];
    let ghost line_at = |i: int| all[i];
    let mut out: Vec<String> = Vec::new();
    let mut i: usize = 0;
    assert(text_spec::texts(out@) == model::range(0, 0).filter(quiet).map_values(line_at));
    while i < lines.len()
        invariant
            all == text_spec::texts(lines@),
            noise@.len() == lines@.len(),
            quiet == (|i: int| !noise@[i]),
            line_at == (|i: int| all[i]),
            i <= lines@.len(),
            text_spec::texts(out@) == model::range(0, i as int).filter(quiet).map_values(line_at),
        decreases lines.len() - i,
    {
        let ghost before = model::range(0, i as int);
        proof {
            assert(model::range(0, i + 1) == before.push(i as int));
            before.lemma_filter_push(i as int, quiet);
        }
        if !noise[i] {
            report::push_line(&mut out, lines[i].clone());
            assert(before.filter(quiet).push(i as int).map_values(line_at) == before.filter(
                quiet,
            ).map_values(line_at).push(all[i as int]));
        }
        i += 1;
    }
    out
}

/// What is kept of a program's output. `hint` answers the request that is made if anything is
/// left out.
pub fn program_output(stdout: &str, hint: Option<&str>) -> (r: Filtered)
    ensures
        r.text@ == model::program_text(stdout@, report::hint_view(hint)),
        report::requests_view(r.requests@) == model::program_requests(stdout@),
{
    let clean = text::strip_ansi(stdout);
    let lines = text::lines(clean.as_str());
    let ghost raw = text_spec::texts(lines@);
    let mut len: usize = lines.len();
    let mut trailing = true;
    assert(raw.take(len as int) == raw);
    while trailing && len > 0
        invariant
            raw == text_spec::texts(lines@),
            len <= lines@.len(),
            trailing ==> model::drop_blank_tail(raw) == model::drop_blank_tail(
                raw.take(len as int),
            ),
            !trailing ==> model::drop_blank_tail(raw) == raw.take(len as int),
        decreases len + if trailing { 1int } else { 0int },
    {
        assert(raw.take(len as int).last() == raw[len - 1]);
        let trimmed = text::trim(lines[len - 1].as_str());
        if trimmed.as_str().is_empty() {
            assert(raw.take(len as int).drop_last() == raw.take(len - 1));
            len -= 1;
        } else {
            trailing = false;
        }
    }
    let ghost all = model::output_lines(stdout@);
    assert(all == raw.take(len as int));
    if len == 0 {
        let requests: Vec<SaveRequest> = Vec::new();
        assert(model::capped(all) == all);
        assert(report::requests_view(requests@) == Seq::<model::Request>::empty());
        return Filtered { text: String::new(), requests };
    }
    let mut capped: Vec<String> = Vec::new();
    let mut line_was_cut = false;
    let mut i: usize = 0;
    assert(model::capped(all.take(0)) == all.take(0));
    while i < len
        invariant
            raw == text_spec::texts(lines@),
            i <= len <= lines@.len(),
            all == raw.take(len as int),
            text_spec::texts(capped@) == model::capped(all.take(i as int)),
            line_was_cut <==> model::capped(all.take(i as int)) != all.take(i as int),
        decreases len - i,
    {
        let cut = text::truncate(lines[i].as_str(), MAX_PROGRAM_LINE_CHARS);
        proof {
            let before = all.take(i as int);
            let now = all.take(i + 1);
            assert(now == before.push(lines@[i as int]@));
            assert(model::capped(now) == model::capped(before).push(cut@));
            if line_was_cut {
                assert(model::capped(now).drop_last() == model::capped(before));
                assert(now.drop_last() == before);
            } else {
                assert(model::capped(now).last() == cut@ && now.last() == lines@[i as int]@);
            }
        }
        if cut != lines[i] {
            line_was_cut = true;
        }
        report::push_line(&mut capped, cut);
        i += 1;
    }
    assert(all.take(i as int) == all);
    let ghost view = text_spec::texts(capped@);
    assert(view == model::capped(all));
    let mut requests: Vec<SaveRequest> = Vec::new();
    if len <= CAP_INVENTORY {
        assert(view.subrange(0, len as int) == view);
        let mut out = text::join(capped.as_slice(), 0, len, "\n");
        if line_was_cut {
            requests.push(
                SaveRequest { content: clean, label: "uv-run".to_owned(), from_line: None },
            );
            push_hint(&mut out, hint);
        }
        assert(report::requests_view(requests@) == model::program_requests(stdout@));
        return Filtered { text: out, requests };
    }
    // A program's result is usually its last line, so both ends are kept.
    let head: usize = CAP_INVENTORY / 2;
    let tail: usize = CAP_INVENTORY - head;
    let omitted: usize = len - head - tail;
    let mut out = text::join(capped.as_slice(), 0, head, "\n");
    out.append("\n... (");
    out.append(text::decimal(omitted as u64).as_str());
    out.append(" lines omitted)\n");
    out.append(text::join(capped.as_slice(), len - tail, len, "\n").as_str());
    proof {
        assert(view.subrange(0, head as int) == view.take(model::head_len() as int));
        assert(view.subrange(len - tail, len as int) == view.skip(all.len() - model::tail_len()));
        assert(out@ == text_spec::join(view.take(model::head_len() as int), "\n"@)
            + model::omitted_line(omitted as nat) + text_spec::join(
            view.skip(all.len() - model::tail_len()),
            "\n"@,
        ));
    }
    requests.push(
        SaveRequest { content: clean, label: "uv-run".to_owned(), from_line: Some(head + 1) },
    );
    push_hint(&mut out, hint);
    assert(report::requests_view(requests@) == model::program_requests(stdout@));
    Filtered { text: out, requests }
}

/// Appends a pointer to a full copy, if there is one.
fn push_hint(text: &mut String, hint: Option<&str>)
    ensures
        final(text)@ == model::with_hint(old(text)@, report::hint_view(hint)),
{
    if let Some(h) = hint {
        text.append("\n");
        text.append(h);
    }
}

/// The report of a successful run. `hints` answer the requests that it makes.
pub fn filter_successful_run(
    patterns: &Patterns,
    stdout: &str,
    stderr: &str,
    hints: &[Option<String>],
) -> (r: Filtered)
    ensures
        r.text@ == model::success_text(
            stdout@,
            model::without_noise(stderr@),
            report::hints_view(hints@),
        ),
        report::requests_view(r.requests@) == model::success_requests(
            stdout@,
            model::without_noise(stderr@),
        ),
{
    let kept = strip_uv_noise(patterns, stderr);
    successful_run_from(stdout, kept.as_str(), hints)
}

/// The report of a successful run that wrote `stdout`, and `kept` besides what uv wrote.
pub fn successful_run_from(stdout: &str, kept: &str, hints: &[Option<String>]) -> (r: Filtered)
    ensures
        r.text@ == model::success_text(stdout@, kept@, report::hints_view(hints@)),
        report::requests_view(r.requests@) == model::success_requests(stdout@, kept@),
{
    let payload = program_output(stdout, report::hint_at(hints, 0));
    let messages = program_output(kept, report::hint_at(hints, payload.requests.len()));
    let mut requests = payload.requests;
    let mut more = messages.requests;
    requests.append(&mut more);
    proof {
        assert(report::requests_view(requests@) == model::success_requests(stdout@, kept@));
    }
    let text = match (payload.text.as_str().is_empty(), messages.text.as_str().is_empty()) {
        (true, true) => "ok".to_owned(),
        (false, true) => payload.text,
        (true, false) => messages.text,
        (false, false) => {
            let mut both = payload.text;
            both.append("\n");
            both.append(messages.text.as_str());
            both
        },
    };
    Filtered { text, requests }
}

} // verus!
