//! A run of uv, from its arguments to its report.
use vstd::prelude::*;

use crate::diagnostics;
use crate::model;
use crate::patterns::Patterns;
use crate::program;
use crate::report;
use crate::report::Filtered;
use crate::text;
use crate::text_spec;

verus! {

/// `prefix` followed by the arguments, if there are any.
pub fn display_command(prefix: &str, args_display: &str) -> (r: String)
    ensures
        r@ == model::display_command(prefix@, args_display@),
{
    let mut out = prefix.to_owned();
    if !text::trim(args_display).as_str().is_empty() {
        out.append(" ");
        out.append(args_display);
    }
    out
}

/// What is done with a command line of uv.
pub struct RunPlan {
    /// The command as its user would have typed it.
    pub original_cmd: String,
    /// The command under which the run is recorded.
    pub recorded_cmd: String,
    /// Whether the output is captured and filtered. Otherwise uv writes to the terminal itself.
    pub filtered: bool,
    /// What is announced before the run.
    pub announcement: Option<String>,
}

/// What is done with the command line `args`: only `uv run` is filtered.
pub fn plan_run(args: &[String], verbose: u8) -> (plan: RunPlan)
    ensures
        plan.original_cmd@ == model::command_of("uv"@, text_spec::texts(args@)),
        plan.filtered == model::is_filtered(text_spec::texts(args@)),
        plan.recorded_cmd@ == if plan.filtered {
            model::command_of("rtk uv"@, text_spec::texts(args@))
        } else {
            model::command_of("rtk uv"@, text_spec::texts(args@)) + " (passthrough)"@
        },
        plan.announcement is Some <==> verbose > 0,
        plan.announcement matches Some(a) ==> a@ == "Running: "@ + plan.original_cmd@,
{
    proof {
        let all = text_spec::texts(args@);
        assert(all.subrange(0, all.len() as int) == all);
    }
    let args_display = text::join(args, 0, args.len(), " ");
    let original_cmd = display_command("uv", args_display.as_str());
    let mut recorded_cmd = display_command("rtk uv", args_display.as_str());
    let filtered = args.len() > 0 && args[0] == "run".to_owned();
    if !filtered {
        recorded_cmd.append(" (passthrough)");
    }
    let announcement = if verbose > 0 {
        let mut line = "Running: ".to_owned();
        line.append(original_cmd.as_str());
        Some(line)
    } else {
        None
    };
    RunPlan { original_cmd, recorded_cmd, filtered, announcement }
}

/// The report of a run that wrote `output`, of which `stdout` and `stderr` are the two streams,
/// and ended with `exit_code`. `hints` answer the requests that the report makes.
///
/// A failure is reported from the merged output: a traceback is spread over both streams, and
/// splitting it would break the order of its frames.
pub fn filter_uv_run_output(
    patterns: &Patterns,
    output: &str,
    stdout: &str,
    stderr: &str,
    exit_code: i32,
    hints: &[Option<String>],
) -> (r: Filtered)
    ensures
        r.text@ == model::run_text(
            output@,
            stdout@,
            stderr@,
            exit_code as int,
            report::hints_view(hints@),
        ),
        report::requests_view(r.requests@) == model::run_requests(
            output@,
            stdout@,
            stderr@,
            exit_code as int,
        ),
{
    if exit_code == 0 {
        return program::filter_successful_run(patterns, stdout, stderr, hints);
    }
    let extracted = diagnostics::extract_diagnostics(patterns, output, hints);
    diagnostics::failed_run_from(extracted, output, exit_code)
}

/// The text that a report is held against before it is shown, and that may be shown in its
/// place. For a successful run it is free of what uv itself wrote.
pub fn guard_text(
    patterns: &Patterns,
    raw: &str,
    stdout: &str,
    stderr: &str,
    exit_code: i32,
) -> (r: String)
    ensures
        r@ == model::guard_text(raw@, stdout@, stderr@, exit_code as int),
{
    if exit_code == 0 {
        let mut out = stdout.to_owned();
        out.append(program::strip_uv_noise(patterns, stderr).as_str());
        out
    } else {
        raw.to_owned()
    }
}

} // verus!
