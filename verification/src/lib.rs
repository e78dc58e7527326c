//! Filters the output of `uv run`.
//!
//! `uv run` executes arbitrary programs. What a successful program writes is what its caller
//! asked for, so it is passed through and only uv's own chatter is stripped. Of a failed run the
//! tracebacks and errors are reported. Whatever is cut is named in a request, so that a full
//! copy can be saved and the report can point to it.
//!
//! [`run::plan_run`] says what is done with a command line, [`run::filter_uv_run_output`] turns
//! the output of a run into its report. What they compute is defined in [`model`], and the laws
//! of the whole stand in [`laws`].
pub mod block_laws;
pub mod blocks;
pub mod classify;
pub mod diagnostics;
pub mod laws;
pub mod limits;
pub mod line_laws;
pub mod model;
pub mod patterns;
pub mod program;
pub mod report;
pub mod run;
pub mod run_laws;
pub mod stretches;
pub mod text;
pub mod text_laws;
pub mod text_spec;
