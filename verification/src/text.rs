//! Text as sequences of characters: whitespace, lines, prefixes, joins and numbers.
//!
//! A `&str` or `String` is modelled by its characters (`@`). Each executable function here
//! is proved against the specification function of the same name in [`crate::text_spec`].
use vstd::prelude::*;

use crate::text_spec;

verus! {

/// `String::push`: appends the given character to the end of the string and changes
/// nothing else.
pub assume_specification[ String::push ](s: &mut String, c: char)
    ensures
        final(s)@ == old(s)@.push(c),
;

/// The characters of `s`, in order.
pub fn chars_of(s: &str) -> (r: Vec<char>)
    ensures
        r@ == s@,
{
    let mut out: Vec<char> = Vec::new();
    for c in it: s.chars()
        invariant
            it.seq() == s@,
            out@ == s@.take(it.index()),
    {
        out.push(c);
        assert(s@.take(it.index() + 1) == s@.take(it.index()).push(s@[it.index()]));
    }
    assert(s@.take(s@.len() as int) == s@);
    out
}

/// The string made of `chars[from..to]`.
pub fn string_of(chars: &[char], from: usize, to: usize) -> (r: String)
    requires
        from <= to <= chars@.len(),
    ensures
        r@ == chars@.subrange(from as int, to as int),
{
    let mut out = String::new();
    let mut i: usize = from;
    while i < to
        invariant
            from <= i <= to <= chars@.len(),
            out@ == chars@.subrange(from as int, i as int),
        decreases to - i,
    {
        out.push(chars[i]);
        i += 1;
        assert(chars@.subrange(from as int, i as int) == chars@.subrange(from as int, i - 1).push(
            chars@[i - 1],
        ));
    }
    out
}

/// Whether `c` has the Unicode property `White_Space`.
pub fn is_white_space(c: char) -> (b: bool)
    ensures
        b == text_spec::is_white_space(c),
{
    let n: u32 = c as u32;
    (0x09 <= n && n <= 0x0d) || n == 0x20 || n == 0x85 || n == 0xa0 || n == 0x1680 || (0x2000 <= n
        && n <= 0x200a) || n == 0x2028 || n == 0x2029 || n == 0x202f || n == 0x205f || n == 0x3000
}

/// `s` without leading and trailing white space.
pub fn trim(s: &str) -> (r: String)
    ensures
        r@ == text_spec::trim(s@),
{
    let chars = chars_of(s);
    let mut from: usize = 0;
    while from < chars.len() && is_white_space(chars[from])
        invariant
            from <= chars@.len(),
            forall|i: int| 0 <= i < from ==> text_spec::is_white_space(chars@[i]),
        decreases chars.len() - from,
    {
        from += 1;
    }
    proof {
        text_spec::lemma_trim_start_is(s@, from as int);
    }
    let mut to: usize = chars.len();
    while to > from && is_white_space(chars[to - 1])
        invariant
            from <= to <= chars@.len(),
            forall|i: int| to <= i < chars@.len() ==> text_spec::is_white_space(chars@[i]),
        decreases to,
    {
        to -= 1;
    }
    proof {
        text_spec::lemma_trim_end_is(s@.skip(from as int), to - from);
        assert(s@.skip(from as int).take(to - from) == s@.subrange(from as int, to as int));
    }
    string_of(chars.as_slice(), from, to)
}

/// The lines of `s`, without their line endings.
pub fn lines(s: &str) -> (r: Vec<String>)
    ensures
        text_spec::texts(r@) == text_spec::lines(s@),
{
    let chars = chars_of(s);
    let mut out: Vec<String> = Vec::new();
    let mut from: usize = 0;
    assert(s@.skip(0) == s@);
    assert(text_spec::texts(out@) + text_spec::lines(s@) == text_spec::lines(s@));
    while from < chars.len()
        invariant
            chars@ == s@,
            from <= chars@.len(),
            text_spec::texts(out@) + text_spec::lines(s@.skip(from as int)) == text_spec::lines(s@),
        decreases chars.len() - from,
    {
        let mut end: usize = from;
        while end < chars.len() && chars[end] != '\n'
            invariant
                from <= end <= chars@.len(),
                forall|i: int| from <= i < end ==> chars@[i] != '\n',
            decreases chars.len() - end,
        {
            end += 1;
        }
        let ghost rest = s@.skip(from as int);
        let ghost before = out@;
        proof {
            text_spec::lemma_line_len_is(rest, end - from);
        }
        let terminated = end < chars.len();
        let stop: usize = if terminated && end > from && chars[end - 1] == '\r' {
            end - 1
        } else {
            end
        };
        let line = string_of(chars.as_slice(), from, stop);
        proof {
            assert(rest.take(end - from) == s@.subrange(from as int, end as int));
            if end > from {
                assert(rest.take(end - from).drop_last() == s@.subrange(from as int, end - 1));
            }
            if terminated {
                assert(rest.skip(end - from + 1) == s@.skip(end + 1));
                assert(text_spec::lines(rest) == seq![line@] + text_spec::lines(s@.skip(end + 1)));
            } else {
                assert(rest.take(end - from) == rest);
                assert(text_spec::lines(s@.skip(end as int)) == Seq::<Seq<char>>::empty());
                assert(text_spec::lines(rest) == seq![line@] + text_spec::lines(s@.skip(end as int)));
            }
        }
        out.push(line);
        proof {
            assert(text_spec::texts(out@) == text_spec::texts(before).push(line@));
        }
        from = if terminated {
            end + 1
        } else {
            end
        };
        assert(text_spec::texts(out@) + text_spec::lines(s@.skip(from as int)) == text_spec::texts(
            before,
        ) + text_spec::lines(rest));
    }
    assert(text_spec::lines(s@.skip(from as int)) == Seq::<Seq<char>>::empty());
    assert(text_spec::texts(out@) + Seq::<Seq<char>>::empty() == text_spec::texts(out@));
    out
}

/// The texts of `parts[from..to]`, with `sep` between each two.
pub fn join(parts: &[String], from: usize, to: usize, sep: &str) -> (r: String)
    requires
        from <= to <= parts@.len(),
    ensures
        r@ == text_spec::join(text_spec::texts(parts@).subrange(from as int, to as int), sep@),
{
    let ghost all = text_spec::texts(parts@);
    let mut out = String::new();
    let mut i: usize = from;
    while i < to
        invariant
            from <= i <= to <= parts@.len(),
            all == text_spec::texts(parts@),
            out@ == text_spec::join(all.subrange(from as int, i as int), sep@),
        decreases to - i,
    {
        if i > from {
            out.append(sep);
        }
        out.append(parts[i].as_str());
        i += 1;
        proof {
            let now = all.subrange(from as int, i as int);
            assert(now.drop_last() == all.subrange(from as int, i - 1));
            assert(now.last() == parts@[i - 1]@);
            if i == from + 1 {
                assert(now == seq![parts@[i - 1]@]);
            }
        }
    }
    out
}

/// Whether `s` starts with `prefix`.
pub fn starts_with(s: &str, prefix: &str) -> (b: bool)
    ensures
        b == prefix@.is_prefix_of(s@),
{
    let chars = chars_of(s);
    let wanted = chars_of(prefix);
    wanted.len() <= chars.len() && matches_at(chars.as_slice(), wanted.as_slice(), 0)
}

/// Whether `wanted` stands in `chars` at position `at`.
fn matches_at(chars: &[char], wanted: &[char], at: usize) -> (b: bool)
    requires
        at + wanted@.len() <= chars@.len(),
    ensures
        b == (chars@.subrange(at as int, at + wanted@.len()) == wanted@),
{
    let available: usize = chars.len();
    let mut i: usize = 0;
    while i < wanted.len()
        invariant
            i <= wanted@.len(),
            available == chars@.len(),
            at + wanted@.len() <= chars@.len(),
            forall|k: int| 0 <= k < i ==> chars@[at + k] == wanted@[k],
        decreases wanted.len() - i,
    {
        if chars[at + i] != wanted[i] {
            assert(chars@.subrange(at as int, at + wanted@.len())[i as int] != wanted@[i as int]);
            return false;
        }
        i += 1;
    }
    assert(chars@.subrange(at as int, at + wanted@.len()) == wanted@);
    true
}

/// Whether `needle` occurs in `s`.
pub fn contains(s: &str, needle: &str) -> (b: bool)
    ensures
        b == text_spec::contains(s@, needle@),
{
    let chars = chars_of(s);
    let wanted = chars_of(needle);
    if wanted.len() > chars.len() {
        return false;
    }
    let last: usize = chars.len() - wanted.len();
    let mut at: usize = 0;
    while at <= last
        invariant
            chars@ == s@,
            wanted@ == needle@,
            last == s@.len() - needle@.len(),
            at <= last + 1,
            forall|i: int| i < at ==> !text_spec::occurs_at(s@, needle@, i),
        decreases last + 1 - at,
    {
        if matches_at(chars.as_slice(), wanted.as_slice(), at) {
            assert(text_spec::occurs_at(s@, needle@, at as int));
            return true;
        }
        if at == last {
            return false;
        }
        at += 1;
    }
    false
}

/// `s` itself where it has at most `max` characters. A longer text is cut to `max` characters,
/// the last three of which are dots; where `max` is below three, only the three dots are left.
pub fn truncate(s: &str, max: usize) -> (r: String)
    ensures
        r@ == text_spec::truncate(s@, max as nat),
{
    let chars = chars_of(s);
    if chars.len() <= max {
        return s.to_owned();
    }
    if max < 3 {
        return "...".to_owned();
    }
    let mut out = string_of(chars.as_slice(), 0, max - 3);
    out.append("...");
    out
}

/// `n` in decimal.
pub fn decimal(n: u64) -> (r: String)
    ensures
        r@ == text_spec::decimal(n as nat),
    decreases n,
{
    let mut out = if n < 10 {
        String::new()
    } else {
        decimal(n / 10)
    };
    let d: u8 = (n % 10) as u8;
    out.push((48 + d) as char);
    assert(n < 10 ==> out@ == seq![text_spec::digit(n as nat)]);
    out
}

/// `n` in decimal, with a minus sign where it is negative.
pub fn signed_decimal(n: i32) -> (r: String)
    ensures
        r@ == text_spec::signed_decimal(n as int),
{
    if n < 0 {
        let mut out = String::new();
        out.push('-');
        let m: i64 = -(n as i64);
        out.append(decimal(m as u64).as_str());
        assert(out@ == seq!['-'] + text_spec::decimal((-n) as nat));
        out
    } else {
        decimal(n as u64)
    }
}

/// `s` without its terminal control sequences.
pub fn strip_ansi(s: &str) -> (r: String)
    ensures
        r@ == text_spec::strip_ansi(s@),
{
    let chars = chars_of(s);
    let mut out = String::new();
    let mut i: usize = 0;
    assert(s@.skip(0) == s@);
    assert(out@ + text_spec::strip_ansi(s@) == text_spec::strip_ansi(s@));
    while i < chars.len()
        invariant
            chars@ == s@,
            i <= chars@.len(),
            out@ + text_spec::strip_ansi(s@.skip(i as int)) == text_spec::strip_ansi(s@),
        decreases chars.len() - i,
    {
        let ghost rest = s@.skip(i as int);
        let ghost before = out@;
        let n = ansi_len(chars.as_slice(), i);
        if n > 0 {
            assert(rest.skip(n as int) == s@.skip(i + n));
            i += n;
        } else {
            out.push(chars[i]);
            assert(rest.skip(1) == s@.skip(i + 1));
            assert(out@ + text_spec::strip_ansi(s@.skip(i + 1)) == before + (seq![rest[0]]
                + text_spec::strip_ansi(rest.skip(1))));
            i += 1;
        }
    }
    assert(out@ + text_spec::strip_ansi(s@.skip(i as int)) == out@);
    out
}

/// The length of the terminal control sequence that starts at `chars[at]`, or 0.
fn ansi_len(chars: &[char], at: usize) -> (n: usize)
    requires
        at < chars@.len(),
    ensures
        n == text_spec::ansi_len(chars@.skip(at as int)),
        at + n <= chars@.len(),
{
    let ghost rest = chars@.skip(at as int);
    if chars.len() - at < 3 || chars[at] != '\u{1b}' || chars[at + 1] != '[' {
        return 0;
    }
    let mut end: usize = at + 2;
    while end < chars.len() && is_ansi_parameter(chars[end])
        invariant
            at + 2 <= end <= chars@.len(),
            forall|k: int| at + 2 <= k < end ==> text_spec::is_ansi_parameter(chars@[k]),
        decreases chars.len() - end,
    {
        end += 1;
    }
    proof {
        text_spec::lemma_ansi_parameters_is(rest.skip(2), end - at - 2);
    }
    if end < chars.len() && is_ansi_final(chars[end]) {
        end - at + 1
    } else {
        0
    }
}

/// Whether `c` may stand between the bracket and the final letter of a control sequence.
fn is_ansi_parameter(c: char) -> (b: bool)
    ensures
        b == text_spec::is_ansi_parameter(c),
{
    ('0' <= c && c <= '9') || c == ';'
}

/// Whether `c` may end a control sequence.
fn is_ansi_final(c: char) -> (b: bool)
    ensures
        b == text_spec::is_ansi_final(c),
{
    ('a' <= c && c <= 'z') || ('A' <= c && c <= 'Z')
}

} // verus!
