# uv_cmd

A filter for the output of `uv run`, verified with Verus.

A successful run is passed through, without the lines that uv itself writes; of a failed run the
tracebacks and errors are reported, or the exit code and the last lines where there are none.
Whatever is cut is named in a request, so that a full copy can be saved and the report can point
to it.

- `src/run.rs` plans a command line and turns the output of a run into its report.
- `src/program.rs` and `src/diagnostics.rs` report successes and failures, `src/blocks.rs` the
  single tracebacks and errors, `src/classify.rs` the single lines.
- `src/patterns.rs` holds the regular expressions. What they match is left to the `regex` crate;
  everything else is proved for whatever they say.
- `src/text.rs` holds the text functions, `src/text_spec.rs` what they mean.
- `src/model.rs` defines what the filter computes, `src/laws.rs` and `src/text_laws.rs` state
  what holds of it; `src/stretches.rs` holds the lemmas on lines that blank lines part.
- `app/` runs uv, saves the copies and shows the report.
