//! How much of a run's output is kept.
use vstd::prelude::*;

verus! {

/// The cap on entries of a list of diagnostics.
pub const CAP_WARNINGS: usize = 10;

/// The cap on the lines of a program's own output.
pub const CAP_INVENTORY: usize = 50;

/// How many frames of a traceback are kept.
pub const MAX_TRACEBACK_FRAMES: usize = CAP_WARNINGS;

/// How many continuation lines of an error are kept.
pub const MAX_ERROR_CONTINUATION_LINES: usize = CAP_WARNINGS;

/// How many trailing lines a failure without diagnostics is reported with.
pub const MAX_FALLBACK_TAIL_LINES: usize = CAP_WARNINGS;

/// How many lines that are no frames a traceback ends with.
pub const MAX_TRACEBACK_TAIL_LINES: usize = 2;

/// The cap on the characters of a line of a program's own output.
pub const MAX_PROGRAM_LINE_CHARS: usize = 500;

/// The cap on the characters of a frame line.
pub const MAX_FRAME_CHARS: usize = 160;

/// The cap on the characters of any other diagnostic line.
pub const MAX_DIAGNOSTIC_CHARS: usize = 200;

} // verus!
