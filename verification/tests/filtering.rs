use uv_cmd::limits::{CAP_INVENTORY, MAX_TRACEBACK_FRAMES};
use uv_cmd::patterns::Patterns;
use uv_cmd::program;
use uv_cmd::run;

/// The report of a run of which no full copies were saved.
fn filter_uv_run_output(output: &str, stdout: &str, stderr: &str, exit_code: i32) -> String {
    run::filter_uv_run_output(&Patterns::new(), output, stdout, stderr, exit_code, &[]).text
}

fn program_output(stdout: &str) -> String {
    program::program_output(stdout, None).text
}

fn count_tokens(text: &str) -> usize {
    text.split_whitespace().count()
}

#[test]
fn test_filter_uv_run_suppresses_uv_noise_but_keeps_program_output() {
    let stderr = r#"
Using CPython 3.12.2
Resolved 12 packages in 48ms
Installed 1 package in 5ms
"#;
    let stdout = "hello from script\n";
    let raw = format!("{stderr}{stdout}");

    assert_eq!(
        filter_uv_run_output(&raw, stdout, stderr, 0),
        "hello from script"
    );
}

#[test]
fn test_filter_uv_run_keeps_data_producing_stdout() {
    let stdout = "{\n  \"users\": 42,\n  \"active\": 37\n}\n";
    let stderr = "Resolved 12 packages in 48ms\n";
    let raw = format!("{stderr}{stdout}");

    let result = filter_uv_run_output(&raw, stdout, stderr, 0);

    assert!(result.contains("\"users\": 42"));
    assert!(result.contains("\"active\": 37"));
    assert!(!result.contains("Resolved 12 packages"));
}

#[test]
fn test_filter_uv_run_keeps_non_error_stderr_on_success() {
    let stderr = "Resolved 12 packages in 48ms\nINFO:root:connected to db\n";
    let stdout = "done\n";
    let raw = format!("{stderr}{stdout}");

    let result = filter_uv_run_output(&raw, stdout, stderr, 0);

    assert!(result.contains("done"));
    assert!(result.contains("INFO:root:connected to db"));
    assert!(!result.contains("Resolved 12 packages"));
}

#[test]
fn test_strip_uv_noise_drops_resolution_chatter_only() {
    let stderr = "Using CPython 3.12.2\nCreating virtual environment at: .venv\nResolved 12 packages in 48ms\nInstalled 1 package in 5ms\n + requests==2.32.0\nDownloading cpython-3.12\napp: listening on :8080\n";

    let kept = program::strip_uv_noise(&Patterns::new(), stderr);

    assert_eq!(kept.trim(), "app: listening on :8080");
}

#[test]
fn test_program_output_truncates_over_line_cap_keeping_both_ends() {
    let stdout: String = (0..120).map(|i| format!("line{i}\n")).collect();

    let result = program_output(&stdout);

    assert!(result.contains("line0"), "head must survive");
    assert!(result.contains("line119"), "tail must survive");
    assert!(result.contains("lines omitted"));
    assert!(result.lines().count() < 120);
}

#[test]
fn test_program_output_caps_a_single_huge_line() {
    let stdout = format!("{}\n", "x".repeat(50_000));

    let result = program_output(&stdout);

    assert!(
        result.len() < 2_000,
        "one huge line must be capped, got {} bytes",
        result.len()
    );
    assert!(result.contains("..."));
}

#[test]
fn test_program_output_exact_cap_is_untouched() {
    let stdout: String = (0..CAP_INVENTORY).map(|i| format!("line{i}\n")).collect();

    let result = program_output(&stdout);

    assert!(!result.contains("lines omitted"));
    assert_eq!(result.lines().count(), CAP_INVENTORY);
}

#[test]
fn test_program_output_handles_multibyte_without_panic() {
    let stdout: String = (0..80).map(|i| format!("日本語 🎉 line{i}\n")).collect();

    let result = program_output(&stdout);

    assert!(result.contains("日本語"));
    assert!(result.contains("lines omitted"));
}

#[test]
fn test_filter_uv_run_silent_success_is_ok() {
    let stderr = "Resolved 12 packages in 48ms\n";

    assert_eq!(filter_uv_run_output(stderr, "", stderr, 0), "ok");
}

#[test]
fn test_filter_uv_run_success_keeps_stderr_warnings_with_payload() {
    let stdout = "result: 7\n";
    let stderr = "Resolved 12 packages in 48ms\nWARNING: deprecated api\n";
    let raw = format!("{stderr}{stdout}");

    let result = filter_uv_run_output(&raw, stdout, stderr, 0);

    assert!(result.contains("result: 7"));
    assert!(result.contains("WARNING: deprecated api"));
    assert!(!result.contains("Resolved 12 packages"));
}

#[test]
fn test_filter_uv_run_truncates_python_tracebacks() {
    let output = r#"
Traceback (most recent call last):
  File "/tmp/project/main.py", line 10, in <module>
    run()
  File "/tmp/project/app.py", line 22, in run
    inner()
  File "/tmp/project/lib.py", line 33, in inner
    boom()
  File "/tmp/project/helpers.py", line 44, in boom
    raise RuntimeError("kaboom")
RuntimeError: kaboom
"#;

    let result = filter_uv_run_output(output, "", "", 1);
    assert!(result.contains("Traceback (most recent call last):"));
    assert!(result.contains(r#"File "/tmp/project/main.py", line 10, in <module>"#));
    assert!(result.contains("RuntimeError: kaboom"));
    assert!(!result.contains("run()"));
}

#[test]
fn test_filter_uv_run_truncates_many_python_frames() {
    let mut output = String::from("Traceback (most recent call last):\n");
    for i in 0..(MAX_TRACEBACK_FRAMES + 2) {
        output.push_str(&format!(
            "  File \"/tmp/project/module_{i}.py\", line {i}, in call_{i}\n"
        ));
        output.push_str("    call_next()\n");
    }
    output.push_str("RuntimeError: kaboom\n");

    let result = filter_uv_run_output(&output, "", "", 1);
    assert!(result.contains("Traceback (most recent call last):"));
    assert!(result.contains("... +2 more frames"));
}

#[test]
fn test_filter_uv_run_keeps_failure_summary_lines() {
    let output = r#"
Resolved 8 packages in 30ms
============================= test session starts =============================
FAILED tests/test_api.py::test_healthcheck - AssertionError: expected 200
1 failed, 12 passed in 0.31s
"#;

    let result = filter_uv_run_output(output, "", "", 1);
    assert!(result.contains("FAILED tests/test_api.py::test_healthcheck"));
    assert!(result.contains("1 failed, 12 passed in 0.31s"));
    assert!(!result.contains("Resolved 8 packages"));
}

#[test]
fn test_filter_uv_run_has_failure_fallback() {
    let output = "sync aborted by signal";
    let result = filter_uv_run_output(output, "", "", 2);

    assert!(result.contains("[FAIL] uv run failed (exit code: 2)"));
    assert!(result.contains("sync aborted by signal"));
}

/// A failing `uv run pytest`.
const PYTEST_FAILURE: &str = r#"Downloading cpython-3.12.2-linux-x86_64-gnu (28.5MiB)
Using CPython 3.12.2
Creating virtual environment at: .venv
Resolved 8 packages in 30ms
Prepared 6 packages in 210ms
Installed 6 packages in 12ms
 + iniconfig==2.0.0
 + packaging==24.0
 + pluggy==1.5.0
 + pytest==8.2.0
============================= test session starts ==============================
platform linux -- Python 3.12.2, pytest-8.2.0, pluggy-1.5.0 -- /work/.venv/bin/python
cachedir: .pytest_cache
rootdir: /work
configfile: pyproject.toml
plugins: anyio-4.3.0, cov-5.0.0, mock-3.14.0
collecting ... collected 2 items

tests/test_users.py::test_normalize_user_trims PASSED                    [ 50%]
tests/test_users.py::test_normalize_user_rejects_empty F                 [100%]

=================================== SUMMARY ====================================
______________________ test_normalize_user_rejects_empty _______________________

    def test_normalize_user_rejects_empty():
        user = normalize_user({"name": "", "email": "someone at example dot org"})
        print("normalised the user", user, "and went on to compare the two names")
        print("the first name is", user.first, "and the second name is", user.second)
        print("these lines are what the test prints while it is running to its end")
        print("they are long, and there are many of them, and nobody reads them")

----------------------------- Captured stdout call -----------------------------
normalised the user and went on to compare the two names of the given record
the first name is empty and the second name is empty as well in this record
these lines are what the test prints while it is running to its very end here
they are long, and there are many of them, and nobody reads them when it fails
the record was read from the fixture that the session had set up beforehand
the session had set up the fixture from the table of people in the test data
the table of people in the test data has four columns and a handful of rows
each of the rows has a name, an address, a town and a date in that very order
=========================== short test summary info ============================
FAILED tests/test_users.py::test_normalize_user_rejects_empty - assert '' is None
========================= 1 failed, 1 passed in 0.12s ==========================
"#;

#[test]
fn test_filter_uv_run_pytest_fixture_token_savings() {
    let input = PYTEST_FAILURE;
    let output = filter_uv_run_output(input, "", "", 1);
    let input_tokens = count_tokens(input);
    let output_tokens = count_tokens(&output);
    let savings = 100.0 - (output_tokens as f64 / input_tokens as f64 * 100.0);

    assert!(
        savings >= 70.0,
        "uv run pytest: expected >=70% savings, got {:.1}% ({} -> {} tokens)",
        savings,
        input_tokens,
        output_tokens
    );
    assert!(output.contains("FAILED tests/test_users.py::test_normalize_user_rejects_empty"));
    assert!(output.contains("1 failed, 1 passed"));
    assert!(!output.contains("Downloading cpython"));
}
