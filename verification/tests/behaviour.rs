use uv_cmd::blocks;
use uv_cmd::classify;
use uv_cmd::diagnostics;
use uv_cmd::limits::{CAP_INVENTORY, MAX_FALLBACK_TAIL_LINES};
use uv_cmd::patterns::{LineFacts, Patterns};
use uv_cmd::program;
use uv_cmd::report;
use uv_cmd::run;

const NOTHING: LineFacts = LineFacts {
    python_frame: false,
    python_exception: false,
    js_frame: false,
    error_mark: false,
};

fn strings(lines: &[&str]) -> Vec<String> {
    lines.iter().map(|l| l.to_string()).collect()
}

fn numbered(n: usize) -> String {
    (0..n).map(|i| format!("line{i}\n")).collect()
}

// Patterns

#[test]
fn frames_and_exceptions_are_recognised() {
    let patterns = Patterns::new();
    let frame = patterns.line_facts(r#"File "/tmp/a.py", line 10, in <module>"#);
    assert!(frame.python_frame && !frame.python_exception && !frame.js_frame);
    assert!(!patterns.line_facts(r#"File "/tmp/a.py", line x"#).python_frame);
    assert!(patterns.line_facts("json.decoder.JSONDecodeError: bad").python_exception);
    assert!(patterns.line_facts("MyException: bad").python_exception);
    assert!(!patterns.line_facts("KeyboardInterrupt: bad").python_exception);
    assert!(patterns.line_facts("at foo (/a/b.js:10:5)").js_frame);
    assert!(!patterns.line_facts("at foo (/a/b.js)").js_frame);
    assert_eq!(patterns.line_facts("all is well"), NOTHING);
}

#[test]
fn each_error_mark_is_recognised() {
    let patterns = Patterns::new();
    let marked = [
        "an Error here",
        "it FAILED",
        "a failure",
        "an exception",
        "panic at the disco",
        "a warning",
        "WARN x",
        "assert x",
        "assertion x",
        "FAILED tests",
        "ERROR tests",
        "E   x == y",
        "Caused by: x",
        "note: x",
        "help: x",
    ];
    for line in marked {
        assert!(patterns.line_facts(line).error_mark, "{}", line);
    }
    for line in ["terrors", "unfailed", "a note: x", "Every line", "warned"] {
        assert!(!patterns.line_facts(line).error_mark, "{}", line);
    }
}

#[test]
fn uv_noise_is_recognised() {
    let patterns = Patterns::new();
    let noise = [
        "Using CPython 3.12.2",
        "Using Python 3.12",
        "Creating virtual environment at: .venv",
        "Resolved 12 packages in 48ms",
        "Installed 1 package in 5ms",
        "Audited 3 packages",
        "Prepared 2 packages",
        "Uninstalled 1 package",
        "Removed 1 package",
        "Downloading cpython-3.12",
        "Built x",
        "+ requests==2.32.0",
        "- requests==2.31.0",
    ];
    for line in noise {
        assert!(patterns.is_uv_noise(line), "{}", line);
    }
    for line in ["", "Using x", "Resolved packages", "Building", "+ x", "I am Using CPython"] {
        assert!(!patterns.is_uv_noise(line), "{}", line);
    }
}

// Single lines

#[test]
fn what_opens_an_error() {
    let patterns = Patterns::new();
    assert!(classify::is_traceback_start("Traceback (most recent call last):"));
    assert!(!classify::is_traceback_start("Traceback"));
    assert!(classify::is_error_start(&patterns, "Traceback (most recent call last):"));
    assert!(classify::is_error_start(&patterns, "sh: No module named pip here"));
    assert!(classify::is_error_start(&patterns, "error: x"));
    assert!(!classify::is_error_start(&patterns, "all is well"));
    assert!(!classify::error_start_from("all is well", NOTHING));
    assert!(classify::error_start_from("x", LineFacts { error_mark: true, ..NOTHING }));
    assert!(classify::error_start_from("x", LineFacts { js_frame: true, ..NOTHING }));
}

#[test]
fn what_continues_an_error() {
    let patterns = Patterns::new();
    let yes = [
        " x",
        "\tx",
        "> x",
        "| x",
        "During handling of the above exception, another",
        "The above exception was",
        "Caused by: x",
        "note: x",
        "help: x",
        "ValueError: x",
    ];
    for line in yes {
        assert!(classify::is_error_continuation(&patterns, line), "{}", line);
    }
    for line in ["", "x", "error: x", "\u{a0}x"] {
        assert!(!classify::is_error_continuation(&patterns, line), "{}", line);
    }
    // An error mark opens an error, but does not continue one.
    assert!(!classify::error_continuation_from("x", LineFacts { error_mark: true, ..NOTHING }));
    assert!(classify::error_continuation_from("x", LineFacts { python_frame: true, ..NOTHING }));
}

// Blocks

#[test]
fn runs_of_equal_lines_are_reduced() {
    let deduped = blocks::dedupe_preserving_order(strings(&["a", "a", "b", "a", "a", "a"]));
    assert_eq!(deduped, strings(&["a", "b", "a"]));
    assert_eq!(blocks::dedupe_preserving_order(deduped.clone()), deduped);
    assert!(blocks::dedupe_preserving_order(vec![]).is_empty());
}

fn long_traceback() -> (Vec<String>, Vec<LineFacts>) {
    let mut lines = strings(&["before", "Traceback (most recent call last):"]);
    let mut facts = vec![NOTHING, NOTHING];
    for i in 0..12 {
        lines.push(format!("  File \"m{i}.py\", line {i}"));
        facts.push(LineFacts { python_frame: true, ..NOTHING });
        lines.push(format!("    call_{i}()"));
        facts.push(NOTHING);
    }
    lines.push("ValueError: x".to_string());
    facts.push(NOTHING);
    lines.push("  ".to_string());
    facts.push(NOTHING);
    (lines, facts)
}

#[test]
fn long_traceback_is_cut_and_pointed_to() {
    let (lines, facts) = long_traceback();
    let r = blocks::traceback_block_from(&lines, &facts, 1, Some("see /tmp/x"));
    assert_eq!(r.next_idx, 27);
    assert_eq!(r.lines.len(), 15);
    assert_eq!(r.lines[0], "Traceback (most recent call last):");
    assert_eq!(r.lines[1], "File \"m0.py\", line 0");
    assert_eq!(r.lines[10], "File \"m9.py\", line 9");
    assert_eq!(r.lines[11], "... +2 more frames");
    assert_eq!(r.lines[12], "  see /tmp/x");
    assert_eq!(r.lines[13], "call_11()");
    assert_eq!(r.lines[14], "ValueError: x");
    assert_eq!(r.requests.len(), 1);
    assert_eq!(r.requests[0].content, lines[1..27].join("\n"));
    assert_eq!(r.requests[0].label, "uv-traceback");
    assert_eq!(r.requests[0].from_line, None);

    let raw = blocks::collect_traceback_block(&Patterns::new(), &lines, 1, None);
    assert_eq!(raw.next_idx, 27);
    assert_eq!(raw.lines.len(), 14);
    assert_eq!(raw.requests.len(), 1);
}

#[test]
fn short_traceback_makes_no_request() {
    let lines = strings(&["Traceback (most recent call last):", "  File \"a\", line 1", "E: x"]);
    let r = blocks::collect_traceback_block(&Patterns::new(), &lines, 0, Some("unused"));
    assert_eq!(
        r.lines,
        strings(&["Traceback (most recent call last):", "File \"a\", line 1", "E: x"])
    );
    assert_eq!(r.next_idx, 3);
    assert!(r.requests.is_empty());
}

#[test]
fn long_error_is_cut_and_pointed_to() {
    let mut lines = strings(&["error: x"]);
    for i in 0..13 {
        lines.push(format!("  detail {i}"));
    }
    lines.push("done".to_string());
    let facts = vec![NOTHING; lines.len()];
    let r = blocks::error_block_from(&lines, &facts, 0, Some("see /tmp/y"));
    assert_eq!(r.next_idx, 14);
    assert_eq!(r.lines.len(), 13);
    assert_eq!(r.lines[0], "error: x");
    assert_eq!(r.lines[10], "detail 9");
    assert_eq!(r.lines[11], "... +3 more lines");
    assert_eq!(r.lines[12], "  see /tmp/y");
    assert_eq!(r.requests[0].content, lines[0..14].join("\n"));
    assert_eq!(r.requests[0].label, "uv-error-block");

    let raw = blocks::collect_error_block(&Patterns::new(), &lines, 0, None);
    assert_eq!(raw.next_idx, 14);
    assert_eq!(raw.lines.len(), 12);
}

#[test]
fn short_error_is_reported_whole() {
    let lines = strings(&["error: x", "  a", "  a", "> b", "c"]);
    let r = blocks::collect_error_block(&Patterns::new(), &lines, 0, Some("unused"));
    assert_eq!(r.lines, strings(&["error: x", "a", "> b"]));
    assert_eq!(r.next_idx, 4);
    assert!(r.requests.is_empty());
}

#[test]
fn long_diagnostic_lines_are_cut() {
    let lines = strings(&[&format!("error: {}", "x".repeat(300))]);
    let r = blocks::collect_error_block(&Patterns::new(), &lines, 0, None);
    assert_eq!(r.lines[0].chars().count(), 200);
    assert!(r.lines[0].ends_with("..."));
    let lines = strings(&[
        "Traceback (most recent call last):",
        &format!("File \"{}\", line 1", "x".repeat(300)),
        &"y".repeat(300),
    ]);
    let r = blocks::collect_traceback_block(&Patterns::new(), &lines, 0, None);
    assert_eq!(r.lines[1].chars().count(), 160);
    assert_eq!(r.lines[2].chars().count(), 200);
}

// Diagnostics

#[test]
fn blocks_are_separated_by_an_empty_line() {
    let text = "fine\nerror: a\n  b\nfine\nwarning: c\n";
    let r = diagnostics::extract_diagnostics(&Patterns::new(), text, &[]);
    assert_eq!(r.text, "error: a\nb\n\nwarning: c");
    assert!(r.requests.is_empty());
}

#[test]
fn diagnostics_follow_the_given_facts() {
    let lines = strings(&["a", "b", "", "c"]);
    let mark = LineFacts { error_mark: true, ..NOTHING };
    let r = diagnostics::diagnostics_from(&lines, &[NOTHING, mark, mark, mark], &[]);
    assert_eq!(r.text, "b\n\nc");
    let r = diagnostics::diagnostics_from(&lines, &[NOTHING; 4], &[]);
    assert_eq!(r.text, "");
}

#[test]
fn control_sequences_do_not_hide_errors() {
    let r = diagnostics::extract_diagnostics(&Patterns::new(), "\u{1b}[31merror\u{1b}[0m: x", &[]);
    assert_eq!(r.text, "error: x");
}

#[test]
fn hints_answer_requests_in_order() {
    let mut text = String::new();
    for name in ["one", "two"] {
        text.push_str(&format!("error: {name}\n"));
        for i in 0..11 {
            text.push_str(&format!("  {name} {i}\n"));
        }
        text.push_str("error: short\n\n");
    }
    let patterns = Patterns::new();
    let first = run::filter_uv_run_output(&patterns, &text, "", "", 1, &[]);
    assert_eq!(first.requests.len(), 2);
    assert!(first.requests[0].content.contains("one 10"));
    assert!(first.requests[1].content.contains("two 10"));
    let hints = vec![Some("HINT-1".to_string()), Some("HINT-2".to_string())];
    let second = run::filter_uv_run_output(&patterns, &text, "", "", 1, &hints);
    assert_eq!(second.requests.len(), 2);
    let one = second.text.find("HINT-1").unwrap();
    let two = second.text.find("HINT-2").unwrap();
    assert!(one < second.text.find("two 0").unwrap());
    assert!(two > second.text.find("two 9").unwrap());
    // A copy that could not be saved leaves no trace, and spare answers change nothing.
    let hints = vec![None, Some("HINT-2".to_string()), Some("SPARE".to_string())];
    let third = run::filter_uv_run_output(&patterns, &text, "", "", 1, &hints);
    assert!(!third.text.contains("HINT-1") && !third.text.contains("SPARE"));
    assert!(third.text.contains("HINT-2"));
    assert_eq!(report::hint_at(&hints, 0), None);
    assert_eq!(report::hint_at(&hints, 1), Some("HINT-2"));
    assert_eq!(report::hint_at(&hints, 9), None);
}

// The fallback of a failure

#[test]
fn failure_without_output_gives_the_exit_code() {
    let expected = "[FAIL] uv run failed (exit code: -9)";
    assert_eq!(diagnostics::failure_text("", -9), expected);
    assert_eq!(diagnostics::failure_text(" \n\t\n", -9), expected);
}

#[test]
fn failure_without_diagnostics_gives_the_last_lines() {
    let mut output = String::new();
    for i in 0..15 {
        output.push_str(&format!("  step {i}  \n\n"));
    }
    let text = diagnostics::failure_text(&output, 3);
    let lines: Vec<&str> = text.lines().collect();
    assert_eq!(lines.len(), 1 + MAX_FALLBACK_TAIL_LINES);
    assert_eq!(lines[0], "[FAIL] uv run failed (exit code: 3)");
    assert_eq!(lines[1], "step 5");
    assert_eq!(lines[10], "step 14");
    assert_eq!(
        diagnostics::failure_text(&"x".repeat(300), 1),
        format!("[FAIL] uv run failed (exit code: 1)\n{}...", "x".repeat(197))
    );
}

#[test]
fn diagnostics_come_before_the_fallback() {
    let found = report::Filtered { text: "error: x".to_string(), requests: vec![] };
    assert_eq!(diagnostics::failed_run_from(found, "y", 1).text, "error: x");
    let none = report::Filtered { text: String::new(), requests: vec![] };
    assert_eq!(
        diagnostics::failed_run_from(none, "y", 1).text,
        "[FAIL] uv run failed (exit code: 1)\ny"
    );
}

// The output of a program

#[test]
fn output_within_the_caps_is_passed_through() {
    for text in ["a", "a\n", "\n\n  a\n\nb  \n\n \n", "日本語\n"] {
        let r = program::program_output(text, Some("unused"));
        assert_eq!(r.text.trim_end(), text.trim_end());
        assert!(text.starts_with(&r.text));
        assert!(r.requests.is_empty());
    }
}

#[test]
fn blank_output_is_dropped() {
    for text in ["", "\n", " \n\t\n", "\u{1b}[0m\n"] {
        let r = program::program_output(text, None);
        assert_eq!(r.text, "");
        assert!(r.requests.is_empty());
    }
}

#[test]
fn long_output_keeps_both_ends() {
    let text = numbered(CAP_INVENTORY + 10);
    let r = program::program_output(&text, Some("see /tmp/z"));
    let lines: Vec<&str> = r.text.lines().collect();
    assert_eq!(lines.len(), CAP_INVENTORY + 2);
    assert_eq!(lines[0], "line0");
    assert_eq!(lines[24], "line24");
    assert_eq!(lines[25], "... (10 lines omitted)");
    assert_eq!(lines[26], "line35");
    assert_eq!(lines[50], "line59");
    assert_eq!(lines[51], "see /tmp/z");
    assert_eq!(r.requests.len(), 1);
    assert_eq!(r.requests[0].content, text);
    assert_eq!(r.requests[0].label, "uv-run");
    assert_eq!(r.requests[0].from_line, Some(26));
}

#[test]
fn one_line_over_the_cap_is_omitted() {
    let r = program::program_output(&numbered(CAP_INVENTORY + 1), None);
    assert!(r.text.contains("\n... (1 lines omitted)\n"));
    assert!(!r.text.contains("line25\n"));
    assert!(r.text.contains("line24\n") && r.text.contains("line26\n"));
}

#[test]
fn long_line_is_cut_and_saved() {
    let text = format!("a\n{}\n", "x".repeat(501));
    let r = program::program_output(&text, Some("see /tmp/z"));
    assert_eq!(r.text, format!("a\n{}...\nsee /tmp/z", "x".repeat(497)));
    assert_eq!(r.requests.len(), 1);
    assert_eq!(r.requests[0].content, text);
    assert_eq!(r.requests[0].from_line, None);
    let fits = format!("{}\n", "x".repeat(500));
    assert!(program::program_output(&fits, None).requests.is_empty());
}

#[test]
fn quiet_lines_are_kept_in_order() {
    let lines = strings(&["a", "b", "c", "d"]);
    let kept = program::quiet_lines_from(&lines, &[true, false, true, false]);
    assert_eq!(kept, strings(&["b", "d"]));
}

#[test]
fn no_noise_is_left() {
    let patterns = Patterns::new();
    let stderr = "a\n  Resolved 12 packages in 48ms\r\nb\nUsing CPython 3.12.2";
    let kept = program::strip_uv_noise(&patterns, stderr);
    assert_eq!(kept, "a\nb");
    assert!(kept.lines().all(|l| !patterns.is_uv_noise(l.trim())));
}

// A run

#[test]
fn success_reports_stdout_then_stderr() {
    let patterns = Patterns::new();
    let r = program::filter_successful_run(&patterns, "out\n", "Built x\nerr\n", &[]);
    assert_eq!(r.text, "out\nerr");
    assert_eq!(program::successful_run_from("", "err", &[]).text, "err");
    assert_eq!(program::successful_run_from("out", "", &[]).text, "out");
    assert_eq!(program::successful_run_from(" \n", "\n", &[]).text, "ok");
}

#[test]
fn success_hands_each_stream_its_own_hint() {
    let long = numbered(60);
    let hints = vec![Some("FIRST".to_string()), Some("SECOND".to_string())];
    let both = program::successful_run_from(&long, &long, &hints);
    assert_eq!(both.requests.len(), 2);
    assert!(both.text.contains("line59\nFIRST\nline0"));
    assert!(both.text.ends_with("\nSECOND"));
    // Where only stderr is cut, the first answer is its own.
    let one = program::successful_run_from("short", &long, &hints);
    assert_eq!(one.requests.len(), 1);
    assert!(one.text.ends_with("\nFIRST"));
}

#[test]
fn success_and_failure_read_different_texts() {
    let patterns = Patterns::new();
    let ok = run::filter_uv_run_output(&patterns, "error: merged", "out", "", 0, &[]);
    assert_eq!(ok.text, "out");
    let failed = run::filter_uv_run_output(&patterns, "error: merged", "out", "", 1, &[]);
    assert_eq!(failed.text, "error: merged");
}

#[test]
fn guard_brings_back_no_noise() {
    let patterns = Patterns::new();
    let stderr = "Resolved 2 packages in 1ms\nwarn\n";
    assert_eq!(run::guard_text(&patterns, "raw", "out\n", stderr, 0), "out\nwarn");
    assert_eq!(run::guard_text(&patterns, "raw", "out\n", stderr, 1), "raw");
}

#[test]
fn commands_are_displayed_with_their_arguments() {
    assert_eq!(run::display_command("uv", ""), "uv");
    assert_eq!(run::display_command("uv", "  "), "uv");
    assert_eq!(run::display_command("uv", "run x.py"), "uv run x.py");
}

#[test]
fn only_uv_run_is_filtered() {
    let plan = run::plan_run(&strings(&["run", "x.py"]), 1);
    assert!(plan.filtered);
    assert_eq!(plan.original_cmd, "uv run x.py");
    assert_eq!(plan.recorded_cmd, "rtk uv run x.py");
    assert_eq!(plan.announcement, Some("Running: uv run x.py".to_string()));
    let plan = run::plan_run(&strings(&["sync", "run"]), 0);
    assert!(!plan.filtered);
    assert_eq!(plan.recorded_cmd, "rtk uv sync run (passthrough)");
    assert_eq!(plan.announcement, None);
    let plan = run::plan_run(&[], 0);
    assert!(!plan.filtered);
    assert_eq!(plan.original_cmd, "uv");
    assert_eq!(plan.recorded_cmd, "rtk uv (passthrough)");
    assert!(!run::plan_run(&strings(&["runx"]), 0).filtered);
}

#[test]
fn report_is_never_empty() {
    let patterns = Patterns::new();
    for text in ["", "\n", " ", "x", "error: x"] {
        for exit_code in [0, 1, -1] {
            let r = run::filter_uv_run_output(&patterns, text, text, text, exit_code, &[]);
            assert!(!r.text.is_empty());
        }
    }
}

#[test]
fn every_line_that_opens_an_error_is_reported() {
    let text = "ok\nerror: a\n\nfine\n  warning: b\nTraceback (most recent call last):\nx\n\npanic c";
    let r = diagnostics::extract_diagnostics(&Patterns::new(), text, &[]);
    for line in ["error: a", "warning: b", "Traceback (most recent call last):", "panic c"] {
        assert!(r.text.lines().any(|l| l == line), "{}", line);
    }
    assert!(!r.text.contains("fine") && !r.text.contains("ok"));
}

fn with_empty_line(a: &str, b: &str) -> String {
    let parts: Vec<&str> = [a, b].into_iter().filter(|p| !p.is_empty()).collect();
    parts.join("\n\n")
}

#[test]
fn diagnostics_split_at_a_blank_line() {
    let patterns = Patterns::new();
    let texts = [
        "",
        "fine",
        "\n",
        "error: x",
        "error: x\n  y\n",
        "error: x\r",
        "error: x\r\n  y\r",
        "  y\nnote: z",
        "\u{1b}[31merror\u{1b}[0m: x\n\u{1b}[3",
        "Traceback (most recent call last):\n  File \"a\", line 1\nValueError: x",
        "warning: w\n\nok\nerror: x",
    ];
    for a in texts {
        for b in texts {
            let whole = format!("{a}\n\n{b}");
            let r = diagnostics::extract_diagnostics(&patterns, &whole, &[]);
            let x = diagnostics::extract_diagnostics(&patterns, a, &[]);
            let y = diagnostics::extract_diagnostics(&patterns, b, &[]);
            assert_eq!(r.text, with_empty_line(&x.text, &y.text), "{:?} {:?}", a, b);
        }
    }
    let r = diagnostics::extract_diagnostics(&patterns, "error: x\n\nerror: x", &[]);
    assert_eq!(r.text, "error: x\n\nerror: x");
}

#[test]
fn cut_diagnostics_split_with_their_hints() {
    let patterns = Patterns::new();
    let long = |name: &str| {
        let mut text = format!("error: {name}\n");
        for i in 0..11 {
            text.push_str(&format!("  {name} {i}\n"));
        }
        text
    };
    let (a, b) = (long("one"), long("two"));
    let (h, i) = (vec![Some("H".to_string())], vec![Some("I".to_string())]);
    let both = vec![h[0].clone(), i[0].clone()];
    let r = diagnostics::extract_diagnostics(&patterns, &format!("{a}\n\n{b}"), &both);
    let x = diagnostics::extract_diagnostics(&patterns, &a, &h);
    let y = diagnostics::extract_diagnostics(&patterns, &b, &i);
    assert_eq!(r.requests.len(), 2);
    assert_eq!(r.text, with_empty_line(&x.text, &y.text));
    assert!(x.text.ends_with("\n  H") && r.text.ends_with("\n  I"));
}
