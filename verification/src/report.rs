//! Reports, and the requests for full copies that come with them.
use vstd::prelude::*;

use crate::model;
use crate::model::Request;
use crate::text_spec;

verus! {

/// A request to save a text that was cut, so that its reader can be pointed to a full copy.
///
/// The library saves nothing itself. It is first called without hints, and names in its
/// requests what it has cut; whoever calls it saves the copies, and calls again with one hint
/// for each request, in order.
pub struct SaveRequest {
    /// The full text.
    pub content: String,
    /// What the copy is named after.
    pub label: String,
    /// The line of the full text from which on it was cut, where only its middle was.
    pub from_line: Option<usize>,
}

impl View for SaveRequest {
    type V = Request;

    open spec fn view(&self) -> Request {
        Request {
            content: self.content@,
            label: self.label@,
            from_line: match self.from_line {
                Some(n) => Some(n as nat),
                None => None,
            },
        }
    }
}

/// The views of a sequence of requests.
pub open spec fn requests_view(v: Seq<SaveRequest>) -> Seq<Request> {
    v.map_values(|r: SaveRequest| r@)
}

/// The view of one hint.
pub open spec fn hint_view(hint: Option<&str>) -> Option<Seq<char>> {
    match hint {
        Some(h) => Some(h@),
        None => None,
    }
}

/// The views of a sequence of hints.
pub open spec fn hints_view(hints: Seq<Option<String>>) -> Seq<Option<Seq<char>>> {
    hints.map_values(
        |hint: Option<String>|
            match hint {
                Some(h) => Some(h@),
                None => None,
            },
    )
}

/// The answer to request number `k`, if there is one.
pub fn hint_at(hints: &[Option<String>], k: usize) -> (hint: Option<&str>)
    ensures
        hint_view(hint) == model::hint_at(hints_view(hints@), k as int),
{
    if k < hints.len() {
        match &hints[k] {
            Some(h) => Some(h.as_str()),
            None => None,
        }
    } else {
        None
    }
}

/// A report, with the requests for what it leaves out.
pub struct Filtered {
    pub text: String,
    pub requests: Vec<SaveRequest>,
}

/// The report of one block of lines.
pub struct BlockReport {
    /// The lines that are kept.
    pub lines: Vec<String>,
    /// The first line after the block.
    pub next_idx: usize,
    /// At most one request, for the whole block.
    pub requests: Vec<SaveRequest>,
}

/// Appends copies of `source[from..to]` to `target`.
pub(crate) fn append_lines(target: &mut Vec<String>, source: &[String], from: usize, to: usize)
    requires
        from <= to <= source@.len(),
    ensures
        text_spec::texts(final(target)@) == text_spec::texts(old(target)@) + text_spec::texts(
            source@,
        ).subrange(from as int, to as int),
{
    let ghost before = target@;
    let mut i: usize = from;
    assert(text_spec::texts(target@) == text_spec::texts(before) + text_spec::texts(
        source@,
    ).subrange(from as int, i as int));
    while i < to
        invariant
            from <= i <= to <= source@.len(),
            text_spec::texts(target@) == text_spec::texts(before) + text_spec::texts(
                source@,
            ).subrange(from as int, i as int),
        decreases to - i,
    {
        push_line(target, source[i].clone());
        i += 1;
        assert(text_spec::texts(source@).subrange(from as int, i as int) == text_spec::texts(
            source@,
        ).subrange(from as int, i - 1).push(source@[i - 1]@));
    }
}

/// Appends one line to `target`.
pub(crate) fn push_line(target: &mut Vec<String>, line: String)
    ensures
        text_spec::texts(final(target)@) == text_spec::texts(old(target)@).push(line@),
{
    target.push(line);
    assert(text_spec::texts(target@) == text_spec::texts(old(target)@).push(line@));
}

} // verus!
