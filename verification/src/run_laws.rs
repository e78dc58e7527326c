//! Laws of whole runs: what is kept of a program's output, what is reported of a failure without
//! diagnostics, and which command lines are filtered at all.
//!
//! Where a law speaks of some of the lines, it takes their numbers, in order, as an argument and
//! asks that these are exactly the numbers of such lines.
use vstd::prelude::*;

use crate::block_laws;
use crate::limits::{
    CAP_INVENTORY, MAX_DIAGNOSTIC_CHARS, MAX_FALLBACK_TAIL_LINES, MAX_PROGRAM_LINE_CHARS,
};
use crate::model;
use crate::model::Request;
use crate::patterns;
use crate::patterns::UV_NOISE;
use crate::report;
use crate::report::SaveRequest;
use crate::text_laws;
use crate::text_spec;

verus! {

// --------------------------------------------------------------------------------------------
// Failures without diagnostics
// --------------------------------------------------------------------------------------------

/// A failure without diagnostics is reported with its exit code and, line by line and in order,
/// every one of the last ten lines of its output that are not blank, or all of them where there
/// are no more. `kept` are the lines that are not blank.
pub proof fn law_fallback_report(output: Seq<char>, exit_code: int, kept: Seq<int>)
    requires
        forall|k: int|
            0 <= k < kept.len() ==> 0 <= #[trigger] kept[k] < text_spec::lines(
                text_spec::strip_ansi(output),
            ).len() && text_spec::trim(
                text_spec::lines(text_spec::strip_ansi(output))[kept[k]],
            ).len() > 0,
        forall|k: int, l: int| 0 <= k < l < kept.len() ==> kept[k] < kept[l],
        forall|j: int|
            0 <= j < text_spec::lines(text_spec::strip_ansi(output)).len() && text_spec::trim(
                text_spec::lines(text_spec::strip_ansi(output))[j],
            ).len() > 0 ==> #[trigger] kept.contains(j),
    ensures
        ({
            let all = text_spec::lines(text_spec::strip_ansi(output));
            let n = kept.len();
            let header = "[FAIL] uv run failed (exit code: "@ + text_spec::signed_decimal(exit_code)
                + ")"@;
            &&& n == 0 ==> model::failure_text(output, exit_code) == header
            &&& 0 < n <= MAX_FALLBACK_TAIL_LINES ==> model::failure_text(output, exit_code)
                == header + "\n"@ + text_spec::join(
                Seq::new(
                    n,
                    |k: int|
                        text_spec::truncate(
                            text_spec::trim(all[kept[k]]),
                            MAX_DIAGNOSTIC_CHARS as nat,
                        ),
                ),
                "\n"@,
            )
            &&& n > MAX_FALLBACK_TAIL_LINES ==> model::failure_text(output, exit_code) == header
                + "\n"@ + text_spec::join(
                Seq::new(
                    MAX_FALLBACK_TAIL_LINES as nat,
                    |k: int|
                        text_spec::truncate(
                            text_spec::trim(all[kept[n - MAX_FALLBACK_TAIL_LINES + k]]),
                            MAX_DIAGNOSTIC_CHARS as nat,
                        ),
                ),
                "\n"@,
            )
        }),
{
    let all = text_spec::lines(text_spec::strip_ansi(output));
    let n = kept.len();
    let filled = |j: int| text_spec::trim(all[j]).len() > 0;
    block_laws::lemma_picked_in_order(kept, 0, all.len() as int, filled);
    lemma_content_lines(all);
    let lines = model::content_lines(all);
    assert(lines.len() == n);
    assert forall|k: int| 0 <= k < n implies #[trigger] lines[k] == text_spec::truncate(
        text_spec::trim(all[kept[k]]),
        MAX_DIAGNOSTIC_CHARS as nat,
    ) by {}
    let last = model::last_n(lines, MAX_FALLBACK_TAIL_LINES as nat);
    if 0 < n <= MAX_FALLBACK_TAIL_LINES {
        assert(last =~= Seq::new(
            n,
            |k: int|
                text_spec::truncate(text_spec::trim(all[kept[k]]), MAX_DIAGNOSTIC_CHARS as nat),
        ));
    } else if n > 0 {
        assert(last =~= Seq::new(
            MAX_FALLBACK_TAIL_LINES as nat,
            |k: int|
                text_spec::truncate(
                    text_spec::trim(all[kept[n - MAX_FALLBACK_TAIL_LINES + k]]),
                    MAX_DIAGNOSTIC_CHARS as nat,
                ),
        ));
    }
}

/// The content lines are the lines that are not blank, each trimmed and cut.
proof fn lemma_content_lines(all: Seq<Seq<char>>)
    ensures
        model::content_lines(all) == model::range(0, all.len() as int).filter(
            |j: int| text_spec::trim(all[j]).len() > 0,
        ).map_values(
            |j: int| text_spec::truncate(text_spec::trim(all[j]), MAX_DIAGNOSTIC_CHARS as nat),
        ),
{
    lemma_content_lines_upto(all, all.len() as int);
    assert(all.take(all.len() as int) =~= all);
}

proof fn lemma_content_lines_upto(all: Seq<Seq<char>>, n: int)
    requires
        0 <= n <= all.len(),
    ensures
        model::content_lines(all.take(n)) == model::range(0, n).filter(
            |j: int| text_spec::trim(all[j]).len() > 0,
        ).map_values(
            |j: int| text_spec::truncate(text_spec::trim(all[j]), MAX_DIAGNOSTIC_CHARS as nat),
        ),
    decreases n,
{
    let filled = |j: int| text_spec::trim(all[j]).len() > 0;
    let cut = |j: int| text_spec::truncate(text_spec::trim(all[j]), MAX_DIAGNOSTIC_CHARS as nat);
    if n == 0 {
        assert(model::range(0, 0) =~= Seq::<int>::empty());
        assert(all.take(0) =~= Seq::<Seq<char>>::empty());
        assert(model::content_lines(all.take(0)) =~= model::range(0, 0).filter(filled).map_values(
            cut,
        ));
    } else {
        lemma_content_lines_upto(all, n - 1);
        model::lemma_content_grows(all, n - 1);
        let before = model::range(0, n - 1);
        assert(model::range(0, n) =~= before.push(n - 1));
        before.lemma_filter_push(n - 1, filled);
        if filled(n - 1) {
            assert(before.filter(filled).push(n - 1).map_values(cut) =~= before.filter(
                filled,
            ).map_values(cut).push(cut(n - 1)));
        }
    }
}

// --------------------------------------------------------------------------------------------
// What uv itself wrote
// --------------------------------------------------------------------------------------------

/// What is kept of marked lines is exactly the lines without a mark, in order. `kept` are the
/// lines without a mark.
pub proof fn law_quiet_lines(all: Seq<Seq<char>>, noise: Seq<bool>, kept: Seq<int>)
    requires
        forall|k: int| 0 <= k < kept.len() ==> 0 <= #[trigger] kept[k] < all.len() && !noise[kept[k]],
        forall|k: int, l: int| 0 <= k < l < kept.len() ==> kept[k] < kept[l],
        forall|j: int| 0 <= j < all.len() && !noise[j] ==> #[trigger] kept.contains(j),
    ensures
        model::quiet_lines(all, noise) == Seq::new(kept.len(), |k: int| all[kept[k]]),
{
    block_laws::lemma_picked_in_order(kept, 0, all.len() as int, |j: int| !noise[j]);
    assert(model::quiet_lines(all, noise) =~= Seq::new(kept.len(), |k: int| all[kept[k]]));
}

/// Only what uv wrote is stripped from stderr: what is kept is exactly the lines whose trimmed
/// text the pattern for uv's own lines does not match, as they are, in order, joined by newlines.
/// `kept` are those lines.
pub proof fn law_only_uv_noise_is_stripped(stderr: Seq<char>, kept: Seq<int>)
    requires
        forall|k: int|
            0 <= k < kept.len() ==> 0 <= #[trigger] kept[k] < text_spec::lines(
                text_spec::strip_ansi(stderr),
            ).len() && !patterns::matches_pattern(
                UV_NOISE@,
                text_spec::trim(text_spec::lines(text_spec::strip_ansi(stderr))[kept[k]]),
            ),
        forall|k: int, l: int| 0 <= k < l < kept.len() ==> kept[k] < kept[l],
        forall|j: int|
            0 <= j < text_spec::lines(text_spec::strip_ansi(stderr)).len()
                && !patterns::matches_pattern(
                UV_NOISE@,
                text_spec::trim(text_spec::lines(text_spec::strip_ansi(stderr))[j]),
            ) ==> #[trigger] kept.contains(j),
    ensures
        model::without_noise(stderr) == text_spec::join(
            Seq::new(
                kept.len(),
                |k: int| text_spec::lines(text_spec::strip_ansi(stderr))[kept[k]],
            ),
            "\n"@,
        ),
{
    let all = text_spec::lines(text_spec::strip_ansi(stderr));
    let noise = model::noise_of(all);
    assert forall|j: int| 0 <= j < all.len() implies noise[j] == patterns::matches_pattern(
        UV_NOISE@,
        text_spec::trim(#[trigger] all[j]),
    ) by {}
    law_quiet_lines(all, noise, kept);
}

// --------------------------------------------------------------------------------------------
// The output of a program
// --------------------------------------------------------------------------------------------

/// What is reported of a program's output, and what is asked to be saved of it. `n` is the number
/// of its lines up to the last one that is not blank.
///
/// Up to fifty lines are all reported, in order; of more, the first and the last twenty-five and
/// the number of those between. A line of more than five hundred characters is cut. If anything
/// is left out, the whole text is asked to be saved and the report ends with the answer.
pub proof fn law_program_report(text: Seq<char>, hint: Option<Seq<char>>, n: int)
    requires
        0 <= n <= text_spec::lines(text_spec::strip_ansi(text)).len(),
        n > 0 ==> text_spec::trim(
            text_spec::lines(text_spec::strip_ansi(text))[n - 1],
        ).len() > 0,
        forall|j: int|
            n <= j < text_spec::lines(text_spec::strip_ansi(text)).len() ==> text_spec::trim(
                #[trigger] text_spec::lines(text_spec::strip_ansi(text))[j],
            ).len() == 0,
    ensures
        ({
            let all = text_spec::lines(text_spec::strip_ansi(text));
            let long = exists|j: int|
                0 <= j < n && (#[trigger] all[j]).len() > MAX_PROGRAM_LINE_CHARS;
            let pointer = match hint {
                Some(h) => "\n"@ + h,
                None => Seq::<char>::empty(),
            };
            let half = CAP_INVENTORY / 2;
            let other_half = CAP_INVENTORY - half;
            &&& n <= CAP_INVENTORY && !long ==> model::program_text(text, hint) == text_spec::join(
                all.take(n),
                "\n"@,
            )
            &&& n <= CAP_INVENTORY && !long ==> model::program_requests(text).len() == 0
            &&& n <= CAP_INVENTORY && long ==> model::program_text(text, hint) == text_spec::join(
                Seq::new(
                    n as nat,
                    |k: int| text_spec::truncate(all[k], MAX_PROGRAM_LINE_CHARS as nat),
                ),
                "\n"@,
            ) + pointer
            &&& n <= CAP_INVENTORY && long ==> model::program_requests(text) == seq![
                Request {
                    content: text_spec::strip_ansi(text),
                    label: "uv-run"@,
                    from_line: None,
                },
            ]
            &&& n > CAP_INVENTORY ==> model::program_text(text, hint) == text_spec::join(
                Seq::new(
                    half as nat,
                    |k: int| text_spec::truncate(all[k], MAX_PROGRAM_LINE_CHARS as nat),
                ),
                "\n"@,
            ) + "\n... ("@ + text_spec::decimal((n - CAP_INVENTORY) as nat) + " lines omitted)\n"@
                + text_spec::join(
                Seq::new(
                    other_half as nat,
                    |k: int|
                        text_spec::truncate(
                            all[n - other_half + k],
                            MAX_PROGRAM_LINE_CHARS as nat,
                        ),
                ),
                "\n"@,
            ) + pointer
            &&& n > CAP_INVENTORY ==> model::program_requests(text) == seq![
                Request {
                    content: text_spec::strip_ansi(text),
                    label: "uv-run"@,
                    from_line: Some((half + 1) as nat),
                },
            ]
        }),
{
    let all = text_spec::lines(text_spec::strip_ansi(text));
    lemma_blank_tail(all, n);
    let kept = model::output_lines(text);
    assert(kept == all.take(n));
    let cut = model::capped(kept);
    let long = exists|j: int| 0 <= j < n && (#[trigger] all[j]).len() > MAX_PROGRAM_LINE_CHARS;
    let half = CAP_INVENTORY / 2;
    let other_half = CAP_INVENTORY - half;
    let out = model::program_text(text, hint);
    if long {
        let j = choose|j: int| 0 <= j < n && (#[trigger] all[j]).len() > MAX_PROGRAM_LINE_CHARS;
        text_laws::law_truncate(all[j], MAX_PROGRAM_LINE_CHARS as nat);
        assert(cut[j] != kept[j]);
    } else {
        assert forall|j: int| 0 <= j < n implies cut[j] == kept[j] by {
            assert(all[j].len() <= MAX_PROGRAM_LINE_CHARS);
        }
        assert(cut =~= kept);
    }
    assert(cut =~= Seq::new(
        n as nat,
        |k: int| text_spec::truncate(all[k], MAX_PROGRAM_LINE_CHARS as nat),
    ));
    if n > CAP_INVENTORY {
        assert(cut.take(half as int) =~= Seq::new(
            half as nat,
            |k: int| text_spec::truncate(all[k], MAX_PROGRAM_LINE_CHARS as nat),
        ));
        assert(cut.skip(n - other_half) =~= Seq::new(
            other_half as nat,
            |k: int| text_spec::truncate(all[n - other_half + k], MAX_PROGRAM_LINE_CHARS as nat),
        ));
        let head = text_spec::join(cut.take(half as int), "\n"@);
        let tail = text_spec::join(cut.skip(n - other_half), "\n"@);
        let pointer = match hint {
            Some(h) => "\n"@ + h,
            None => Seq::<char>::empty(),
        };
        assert(out =~= head + "\n... ("@ + text_spec::decimal((n - CAP_INVENTORY) as nat)
            + " lines omitted)\n"@ + tail + pointer);
    } else if long {
        let body = text_spec::join(cut, "\n"@);
        match hint {
            Some(h) => {
                assert(out =~= body + ("\n"@ + h));
            },
            None => {
                assert(out =~= body + Seq::<char>::empty());
            },
        }
    } else if n == 0 {
        assert(out =~= text_spec::join(all.take(n), "\n"@));
    }
}

/// Dropping the blank lines at the end leaves the lines up to the last one that is not blank.
proof fn lemma_blank_tail(all: Seq<Seq<char>>, n: int)
    requires
        0 <= n <= all.len(),
        n > 0 ==> text_spec::trim(all[n - 1]).len() > 0,
        forall|j: int| n <= j < all.len() ==> text_spec::trim(#[trigger] all[j]).len() == 0,
    ensures
        model::drop_blank_tail(all) == all.take(n),
    decreases all.len() - n,
{
    if n < all.len() {
        let front = all.drop_last();
        assert(text_spec::trim(all[all.len() - 1]).len() == 0);
        lemma_blank_tail(front, n);
        assert(front.take(n) =~= all.take(n));
    } else {
        assert(all.take(n) =~= all);
    }
}

// --------------------------------------------------------------------------------------------
// A run
// --------------------------------------------------------------------------------------------

/// A successful run is reported by what is kept of its stdout and of the rest of its stderr, in
/// this order, each if there is any, and by `ok` if there is none. Each asks for its own copy and
/// gets the answer to its own request.
pub proof fn law_success_report(
    stdout: Seq<char>,
    kept: Seq<char>,
    hints: Seq<Option<Seq<char>>>,
    first: Option<Seq<char>>,
    second: Option<Seq<char>>,
)
    requires
        first == if hints.len() > 0 {
            hints[0]
        } else {
            None
        },
        second == if model::program_requests(stdout).len() < hints.len() {
            hints[model::program_requests(stdout).len() as int]
        } else {
            None
        },
    ensures
        ({
            let payload = model::program_text(stdout, first);
            let messages = model::program_text(kept, second);
            let report = model::success_text(stdout, kept, hints);
            &&& payload.len() == 0 && messages.len() == 0 ==> report == "ok"@
            &&& payload.len() > 0 && messages.len() == 0 ==> report == payload
            &&& payload.len() == 0 && messages.len() > 0 ==> report == messages
            &&& payload.len() > 0 && messages.len() > 0 ==> report == payload + "\n"@ + messages
        }),
        model::success_requests(stdout, kept) == model::program_requests(stdout)
            + model::program_requests(kept),
{
}

/// A run that ends with zero is reported as a success, from its stdout and what uv did not write
/// of its stderr; any other is reported by the diagnostics in its merged output, or by its exit
/// code and last lines where there are none.
pub proof fn law_run_report(
    output: Seq<char>,
    stdout: Seq<char>,
    stderr: Seq<char>,
    exit_code: int,
    hints: Seq<Option<Seq<char>>>,
)
    ensures
        exit_code == 0 ==> model::run_text(output, stdout, stderr, exit_code, hints)
            == model::success_text(stdout, model::without_noise(stderr), hints),
        exit_code == 0 ==> model::run_requests(output, stdout, stderr, exit_code)
            == model::success_requests(stdout, model::without_noise(stderr)),
        exit_code != 0 ==> ({
            let all = text_spec::lines(text_spec::strip_ansi(output));
            let found = model::diagnostics(all, model::facts_of(all), hints);
            &&& found.len() > 0 ==> model::run_text(output, stdout, stderr, exit_code, hints)
                == found
            &&& found.len() == 0 ==> model::run_text(output, stdout, stderr, exit_code, hints)
                == model::failure_text(output, exit_code)
            &&& model::run_requests(output, stdout, stderr, exit_code)
                == model::diagnostics_requests(all, model::facts_of(all))
        }),
{
}

/// The answer to a request is the hint with its number, and there is none beyond the last hint.
pub proof fn law_hint_at(hints: Seq<Option<Seq<char>>>, k: int)
    requires
        0 <= k,
    ensures
        k < hints.len() ==> model::hint_at(hints, k) == hints[k],
        k >= hints.len() ==> model::hint_at(hints, k) is None,
{
}

/// The model of a request and of a list of requests, and that of hints, hold what these hold.
pub proof fn law_views(
    requests: Seq<SaveRequest>,
    hints: Seq<Option<String>>,
    hint: Option<&str>,
    i: int,
)
    requires
        0 <= i < requests.len(),
        0 <= i < hints.len(),
    ensures
        report::requests_view(requests).len() == requests.len(),
        report::requests_view(requests)[i].content == requests[i].content@,
        report::requests_view(requests)[i].label == requests[i].label@,
        requests[i].from_line matches Some(n) ==> report::requests_view(requests)[i].from_line
            == Some(n as nat),
        requests[i].from_line is None ==> report::requests_view(requests)[i].from_line is None,
        report::hints_view(hints).len() == hints.len(),
        hints[i] matches Some(h) ==> report::hints_view(hints)[i] == Some(h@),
        hints[i] is None ==> report::hints_view(hints)[i] is None,
        hint matches Some(h) ==> report::hint_view(hint) == Some(h@),
        hint is None ==> report::hint_view(hint) is None,
{
}

// --------------------------------------------------------------------------------------------
// Command lines
// --------------------------------------------------------------------------------------------

/// Whether a command line is filtered depends on its first argument alone: `run` is, whatever
/// follows it.
pub proof fn law_run_is_filtered_whatever_follows(rest: Seq<Seq<char>>)
    ensures
        model::is_filtered(seq!["run"@] + rest),
{
}

/// A command line without arguments, or with any other first argument, is not filtered.
pub proof fn law_nothing_else_is_filtered(first: Seq<char>, rest: Seq<Seq<char>>)
    requires
        first != "run"@,
    ensures
        !model::is_filtered(Seq::empty()),
        !model::is_filtered(seq![first] + rest),
{
    assert((seq![first] + rest)[0] == first);
}

/// A command is displayed as its name, followed by a space and its arguments as they are if they
/// hold anything but white space.
pub proof fn law_display_command(prefix: Seq<char>, args_display: Seq<char>)
    ensures
        text_spec::trim(args_display).len() == 0 ==> model::display_command(prefix, args_display)
            == prefix,
        text_spec::trim(args_display).len() > 0 ==> model::display_command(prefix, args_display)
            == prefix + " "@ + args_display,
{
}

/// A command line is displayed with its arguments in order, a space between each two.
pub proof fn law_command_line(prefix: Seq<char>, args: Seq<Seq<char>>)
    ensures
        model::command_of(prefix, args) == model::display_command(
            prefix,
            text_spec::join(args, " "@),
        ),
{
}

} // verus!
