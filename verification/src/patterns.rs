//! The line shapes that the filter recognises, as regular expressions of the `regex` crate.
//!
//! What a pattern matches is settled by that crate: here the answer has a name
//! ([`regex_is_match`] of [`regex_new`]), and everything the filter does with the answers is
//! specified and proved over [`LineFacts`], whatever they are.
use vstd::prelude::*;

verus! {

/// A frame line of a Python traceback.
pub const PYTHON_FRAME: &'static str = r#"^\s*File ".*", line \d+.*$"#;

/// The line that names a Python exception.
pub const PYTHON_EXCEPTION: &'static str = r"^\s*[A-Za-z_][A-Za-z0-9_.]*(?:Error|Exception):";

/// A frame line of a JavaScript stack trace.
pub const JS_FRAME: &'static str = r"^\s*at .+:\d+:\d+.*$";

/// A line in which uv reports on its own work: interpreter, environment, resolution, downloads
/// and package changes.
pub const UV_NOISE: &'static str = r"(?x)
        ^(?:
            Using\s+CPython
          | Using\s+Python
          | Creating\s+virtual\s+environment
          | (?:Resolved|Installed|Audited|Prepared|Uninstalled|Removed)\s+\d+\s+package
          | (?:Downloading|Downloaded|Building|Built|Updating|Cloning)\s+\S
          | [+-]\s+\S+==\S+
        )";

/// The patterns any one of which marks a line as the start of an error.
pub open spec fn error_mark_patterns() -> Seq<Seq<char>> {
    seq![
        r"(?i)\berror\b"@,
        r"(?i)\bfailed\b"@,
        r"(?i)\bfailure\b"@,
        r"(?i)\bexception\b"@,
        r"(?i)\bpanic\b"@,
        r"(?i)\bwarn(?:ing)?\b"@,
        r"(?i)\bassert(?:ion)?\b"@,
        r"^\s*FAILED\b"@,
        r"^\s*ERROR\b"@,
        r"^\s*E\s+"@,
        r"^\s*Caused by:"@,
        r"^\s*note:"@,
        r"^\s*help:"@,
    ]
}

/// The patterns that this library compiles.
pub open spec fn is_known_pattern(pattern: Seq<char>) -> bool {
    ||| pattern == PYTHON_FRAME@
    ||| pattern == PYTHON_EXCEPTION@
    ||| pattern == JS_FRAME@
    ||| pattern == UV_NOISE@
    ||| error_mark_patterns().contains(pattern)
}

/// A compiled regular expression of the `regex` crate, carried as an opaque value.
#[verifier::external_type_specification]
#[verifier::external_body]
pub struct ExRegex(regex::Regex);

/// The expression that `regex::Regex::new` builds from a pattern it accepts.
pub uninterp spec fn regex_new(pattern: Seq<char>) -> regex::Regex;

/// The answer of `regex::Regex::is_match` for an expression and a text.
pub uninterp spec fn regex_is_match(re: regex::Regex, text: Seq<char>) -> bool;

/// `regex::Regex::is_match`: whether the expression matches anywhere in the text. The answer
/// is a function of the expression and the text; which texts match is left to that crate.
pub assume_specification[ regex::Regex::is_match ](
    re: &regex::Regex,
    haystack: &str,
) -> (found: bool)
    ensures
        found == regex_is_match(*re, haystack@),
;

/// `regex::Regex::new`: compiles a pattern. The expression is a function of the pattern. Only
/// the patterns of this library are admitted; all of them are valid, so that the call yields
/// an expression for each.
#[verifier::external_body]
fn compile(pattern: &str) -> (re: regex::Regex)
    requires
        is_known_pattern(pattern@),
    ensures
        re == regex_new(pattern@),
{
    regex::Regex::new(pattern).unwrap()
}

/// Whether `pattern` matches anywhere in `text`.
pub open spec fn matches_pattern(pattern: Seq<char>, text: Seq<char>) -> bool {
    regex_is_match(regex_new(pattern), text)
}

/// Whether uv itself wrote `line`.
pub open spec fn is_uv_noise(line: Seq<char>) -> bool {
    matches_pattern(UV_NOISE@, line)
}

/// Whether one of the first `n` error marks is in `line`.
pub open spec fn has_error_mark(line: Seq<char>, n: int) -> bool {
    exists|i: int| 0 <= i < n && matches_pattern(#[trigger] error_mark_patterns()[i], line)
}

/// What the patterns say of one line.
#[derive(Clone, Copy, Debug, PartialEq, Eq, Structural)]
pub struct LineFacts {
    /// The line is a frame of a Python traceback.
    pub python_frame: bool,
    /// The line names a Python exception.
    pub python_exception: bool,
    /// The line is a frame of a JavaScript stack trace.
    pub js_frame: bool,
    /// The line carries one of the error marks.
    pub error_mark: bool,
}

/// What the patterns say of `line`.
pub open spec fn line_facts(line: Seq<char>) -> LineFacts {
    LineFacts {
        python_frame: matches_pattern(PYTHON_FRAME@, line),
        python_exception: matches_pattern(PYTHON_EXCEPTION@, line),
        js_frame: matches_pattern(JS_FRAME@, line),
        error_mark: has_error_mark(line, error_mark_patterns().len() as int),
    }
}

/// The compiled patterns. Compiling is slow, so one value is built and passed along.
pub struct Patterns {
    python_frame: regex::Regex,
    python_exception: regex::Regex,
    js_frame: regex::Regex,
    uv_noise: regex::Regex,
    error_marks: Vec<regex::Regex>,
}

impl Patterns {
    /// Each field holds what its pattern compiles to.
    #[verifier::type_invariant]
    pub closed spec fn wf(self) -> bool {
        &&& self.python_frame == regex_new(PYTHON_FRAME@)
        &&& self.python_exception == regex_new(PYTHON_EXCEPTION@)
        &&& self.js_frame == regex_new(JS_FRAME@)
        &&& self.uv_noise == regex_new(UV_NOISE@)
        &&& self.error_marks@ == error_mark_patterns().map_values(|p: Seq<char>| regex_new(p))
    }

    /// Compiles every pattern. What the compiled patterns answer is stated by
    /// [`Patterns::line_facts`] and [`Patterns::is_uv_noise`].
    pub fn new() -> (patterns: Patterns)
        ensures
            patterns.wf(),
    {
        let sources: [&str; 13] = [
            r"(?i)\berror\b",
            r"(?i)\bfailed\b",
            r"(?i)\bfailure\b",
            r"(?i)\bexception\b",
            r"(?i)\bpanic\b",
            r"(?i)\bwarn(?:ing)?\b",
            r"(?i)\bassert(?:ion)?\b",
            r"^\s*FAILED\b",
            r"^\s*ERROR\b",
            r"^\s*E\s+",
            r"^\s*Caused by:",
            r"^\s*note:",
            r"^\s*help:",
        ];
        let ghost wanted = error_mark_patterns();
        assert(forall|i: int| 0 <= i < 13 ==> (#[trigger] sources@[i])@ == wanted[i]);
        let mut error_marks: Vec<regex::Regex> = Vec::new();
        let mut i: usize = 0;
        while i < 13
            invariant
                i <= 13,
                wanted == error_mark_patterns(),
                wanted.len() == 13,
                forall|k: int| 0 <= k < 13 ==> (#[trigger] sources@[k])@ == wanted[k],
                error_marks@.len() == i,
                forall|k: int| 0 <= k < i ==> #[trigger] error_marks@[k] == regex_new(wanted[k]),
            decreases 13 - i,
        {
            assert(sources@[i as int]@ == wanted[i as int]);
            error_marks.push(compile(sources[i]));
            i += 1;
        }
        assert(error_marks@ == wanted.map_values(|p: Seq<char>| regex_new(p)));
        Patterns {
            python_frame: compile(PYTHON_FRAME),
            python_exception: compile(PYTHON_EXCEPTION),
            js_frame: compile(JS_FRAME),
            uv_noise: compile(UV_NOISE),
            error_marks,
        }
    }

    /// What the patterns say of `line`.
    pub fn line_facts(&self, line: &str) -> (facts: LineFacts)
        ensures
            facts == line_facts(line@),
    {
        proof {
            use_type_invariant(self);
        }
        LineFacts {
            python_frame: self.python_frame.is_match(line),
            python_exception: self.python_exception.is_match(line),
            js_frame: self.js_frame.is_match(line),
            error_mark: self.has_error_mark(line),
        }
    }

    fn has_error_mark(&self, line: &str) -> (found: bool)
        ensures
            found == has_error_mark(line@, error_mark_patterns().len() as int),
    {
        proof {
            use_type_invariant(self);
        }
        let mut i: usize = 0;
        while i < self.error_marks.len()
            invariant
                i <= self.error_marks@.len(),
                self.error_marks@ == error_mark_patterns().map_values(
                    |p: Seq<char>| regex_new(p),
                ),
                !has_error_mark(line@, i as int),
            decreases self.error_marks.len() - i,
        {
            if self.error_marks[i].is_match(line) {
                assert(matches_pattern(error_mark_patterns()[i as int], line@));
                return true;
            }
            i += 1;
        }
        false
    }

    /// Whether uv itself wrote `line`.
    pub fn is_uv_noise(&self, line: &str) -> (b: bool)
        ensures
            b == is_uv_noise(line@),
    {
        proof {
            use_type_invariant(self);
        }
        self.uv_noise.is_match(line)
    }
}

} // verus!
