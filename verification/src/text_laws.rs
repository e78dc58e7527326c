//! Laws of the text functions.
use vstd::prelude::*;

use crate::text_spec;

verus! {

// --------------------------------------------------------------------------------------------
// White space
// --------------------------------------------------------------------------------------------

/// Trimming the start leaves a suffix that does not start with white space.
proof fn lemma_trim_start(s: Seq<char>)
    ensures
        exists|n: int| 0 <= n <= s.len() && text_spec::trim_start(s) == #[trigger] s.skip(n),
        text_spec::trim_start(s).len() > 0 ==> !text_spec::is_white_space(
            text_spec::trim_start(s)[0],
        ),
        text_spec::trim_start(s).len() == 0 ==> forall|i: int|
            0 <= i < s.len() ==> text_spec::is_white_space(s[i]),
    decreases s.len(),
{
    if s.len() > 0 && text_spec::is_white_space(s[0]) {
        lemma_trim_start(s.skip(1));
        let n = choose|n: int|
            0 <= n <= s.skip(1).len() && text_spec::trim_start(s.skip(1)) == #[trigger] s.skip(
                1,
            ).skip(n);
        assert(s.skip(1).skip(n) == s.skip(n + 1));
        if text_spec::trim_start(s).len() == 0 {
            assert forall|i: int| 0 <= i < s.len() implies text_spec::is_white_space(s[i]) by {
                if i > 0 {
                    assert(s.skip(1)[i - 1] == s[i]);
                }
            }
        }
    } else {
        assert(s.skip(0) == s);
    }
}

/// Trimming the end leaves a prefix that does not end with white space.
proof fn lemma_trim_end(s: Seq<char>)
    ensures
        text_spec::trim_end(s).len() <= s.len(),
        text_spec::trim_end(s) == s.take(text_spec::trim_end(s).len() as int),
        text_spec::trim_end(s).len() > 0 ==> !text_spec::is_white_space(
            text_spec::trim_end(s).last(),
        ),
        forall|i: int|
            text_spec::trim_end(s).len() <= i < s.len() ==> text_spec::is_white_space(s[i]),
    decreases s.len(),
{
    if s.len() > 0 && text_spec::is_white_space(s.last()) {
        lemma_trim_end(s.drop_last());
        let n = text_spec::trim_end(s).len() as int;
        assert(s.drop_last().take(n) == s.take(n));
        assert forall|i: int| n <= i < s.len() implies text_spec::is_white_space(s[i]) by {
            if i < s.len() - 1 {
                assert(s.drop_last()[i] == s[i]);
            }
        }
    } else {
        assert(s.take(s.len() as int) == s);
    }
}

/// A trimmed text neither starts nor ends with white space, and trimming it again changes
/// nothing. Nothing is left of a text exactly if it holds nothing but white space.
pub proof fn law_trim(s: Seq<char>)
    ensures
        text_spec::trim(s).len() > 0 ==> !text_spec::is_white_space(text_spec::trim(s)[0]),
        text_spec::trim(s).len() > 0 ==> !text_spec::is_white_space(text_spec::trim(s).last()),
        text_spec::trim(text_spec::trim(s)) == text_spec::trim(s),
        text_spec::trim(s).len() == 0 <==> forall|i: int|
            0 <= i < s.len() ==> text_spec::is_white_space(#[trigger] s[i]),
{
    let t = text_spec::trim_start(s);
    lemma_trim_start(s);
    lemma_trim_end(t);
    let n = choose|n: int| 0 <= n <= s.len() && t == #[trigger] s.skip(n);
    if text_spec::trim(s).len() > 0 {
        assert(text_spec::trim(s)[0] == t[0]);
        assert(t[0] == s[n]);
    } else if t.len() > 0 {
        assert(text_spec::is_white_space(t[0]));
    }
}

/// White space at the end makes no difference to what trimming leaves.
pub proof fn lemma_trim_ignores_end(s: Seq<char>)
    requires
        s.len() > 0,
        text_spec::is_white_space(s.last()),
    ensures
        text_spec::trim(s.drop_last()) == text_spec::trim(s),
    decreases s.len(),
{
    let d = s.drop_last();
    if d.len() > 0 && text_spec::is_white_space(s[0]) {
        assert(d[0] == s[0]);
        assert(d.skip(1) == s.skip(1).drop_last());
        lemma_trim_ignores_end(s.skip(1));
    } else if d.len() > 0 {
        assert(d[0] == s[0]);
    } else {
        assert(s.skip(1).len() == 0);
        assert(text_spec::trim_start(s) == text_spec::trim_start(s.skip(1)));
        assert(d == s.skip(1));
    }
}

/// A text that is cut to more than the three dots starts with the same character as before.
pub proof fn lemma_truncate_keeps_start(s: Seq<char>, max: nat)
    requires
        s.len() > 0,
        max > 3,
    ensures
        text_spec::truncate(s, max).len() > 0,
        text_spec::truncate(s, max)[0] == s[0],
{
}

/// Cutting a text leaves at most `max` characters, leaves a text that fits as it is, and gives
/// a start of any other followed by three dots. Cutting again changes nothing.
pub proof fn law_truncate(s: Seq<char>, max: nat)
    requires
        max >= 3,
    ensures
        text_spec::truncate(s, max).len() <= max,
        text_spec::truncate(s, max) == s <==> s.len() <= max,
        s.len() > max ==> text_spec::truncate(s, max) == s.take(max - 3) + "..."@,
        text_spec::truncate(text_spec::truncate(s, max), max) == text_spec::truncate(s, max),
{
    reveal_strlit("...");
}

// --------------------------------------------------------------------------------------------
// Control sequences
// --------------------------------------------------------------------------------------------

/// A text without the escape character is left as it is.
pub proof fn law_plain_text_has_no_control_sequences(s: Seq<char>)
    requires
        forall|i: int| 0 <= i < s.len() ==> #[trigger] s[i] != '\u{1b}',
    ensures
        text_spec::strip_ansi(s) == s,
    decreases s.len(),
{
    if s.len() > 0 {
        assert forall|i: int| 0 <= i < s.skip(1).len() implies #[trigger] s.skip(1)[i] != '\u{1b}' by {
            assert(s.skip(1)[i] == s[i + 1]);
        }
        law_plain_text_has_no_control_sequences(s.skip(1));
        assert(seq![s[0]] + s.skip(1) == s);
    }
}

/// A control sequence in front of a text is removed, and what follows it is treated as if it
/// stood alone.
pub proof fn law_control_sequence_is_removed(parameters: Seq<char>, letter: char, rest: Seq<char>)
    requires
        forall|i: int|
            0 <= i < parameters.len() ==> text_spec::is_ansi_parameter(#[trigger] parameters[i]),
        text_spec::is_ansi_final(letter),
    ensures
        text_spec::strip_ansi(seq!['\u{1b}', '['] + parameters + seq![letter] + rest)
            == text_spec::strip_ansi(rest),
{
    let s = seq!['\u{1b}', '['] + parameters + seq![letter] + rest;
    let n = parameters.len() as int;
    assert forall|i: int| 0 <= i < n implies text_spec::is_ansi_parameter(s.skip(2)[i]) by {
        assert(s.skip(2)[i] == parameters[i]);
    }
    assert(s.skip(2)[n] == letter);
    text_spec::lemma_ansi_parameters_is(s.skip(2), n);
    assert(s[2 + n] == letter);
    assert(s.skip(3 + n) == rest);
}

// --------------------------------------------------------------------------------------------
// Lines
// --------------------------------------------------------------------------------------------

/// The first line of a text ends at its first newline, or at its end.
pub proof fn lemma_line_len(s: Seq<char>)
    ensures
        text_spec::line_len(s) <= s.len(),
        forall|i: int| 0 <= i < text_spec::line_len(s) ==> #[trigger] s[i] != '\n',
        text_spec::line_len(s) < s.len() ==> s[text_spec::line_len(s) as int] == '\n',
    decreases s.len(),
{
    if s.len() > 0 && s[0] != '\n' {
        lemma_line_len(s.skip(1));
        assert forall|i: int| 0 <= i < text_spec::line_len(s) implies #[trigger] s[i] != '\n' by {
            if i > 0 {
                assert(s.skip(1)[i - 1] == s[i]);
            }
        }
    }
}

/// No line holds a newline.
pub proof fn lemma_lines_hold_no_newline(s: Seq<char>, k: int, i: int)
    requires
        0 <= k < text_spec::lines(s).len(),
        0 <= i < text_spec::lines(s)[k].len(),
    ensures
        text_spec::lines(s)[k][i] != '\n',
    decreases s.len(),
{
    lemma_line_len(s);
    let n = text_spec::line_len(s) as int;
    if n < s.len() {
        if k == 0 {
            assert(text_spec::lines(s)[0] == text_spec::drop_carriage_return(s.take(n)));
            assert(s.take(n)[i] == s[i]);
        } else {
            assert(text_spec::lines(s)[k] == text_spec::lines(s.skip(n + 1))[k - 1]);
            lemma_lines_hold_no_newline(s.skip(n + 1), k - 1, i);
        }
    } else {
        assert(text_spec::lines(s) == seq![s]);
        assert(s[i] != '\n');
    }
}

/// A joined list starts with its first part.
pub proof fn lemma_join_first(parts: Seq<Seq<char>>, sep: Seq<char>)
    requires
        parts.len() > 0,
    ensures
        parts[0].is_prefix_of(text_spec::join(parts, sep)),
        parts.len() > 1 ==> text_spec::join(parts, sep) == parts[0] + sep + text_spec::join(
            parts.skip(1),
            sep,
        ),
    decreases parts.len(),
{
    if parts.len() > 1 {
        let front = parts.drop_last();
        lemma_join_first(front, sep);
        assert(front[0] == parts[0]);
        if parts.len() == 2 {
            assert(parts.skip(1) == seq![parts[1]]);
            assert(text_spec::join(front, sep) == parts[0]);
        } else {
            assert(front.skip(1) == parts.skip(1).drop_last());
            assert(parts.skip(1).last() == parts.last());
            assert(text_spec::join(parts.skip(1), sep) == text_spec::join(front.skip(1), sep) + sep
                + parts.last());
            assert(text_spec::join(parts, sep) == parts[0] + sep + text_spec::join(
                parts.skip(1),
                sep,
            ));
        }
    }
}

/// Two lists are joined by joining each and the results.
pub proof fn lemma_join_concat(a: Seq<Seq<char>>, b: Seq<Seq<char>>, sep: Seq<char>)
    requires
        a.len() > 0,
        b.len() > 0,
    ensures
        text_spec::join(a + b, sep) == text_spec::join(a, sep) + sep + text_spec::join(b, sep),
    decreases b.len(),
{
    if b.len() == 1 {
        assert((a + b).drop_last() == a);
    } else {
        lemma_join_concat(a, b.drop_last(), sep);
        assert((a + b).drop_last() == a + b.drop_last());
        assert(text_spec::join(a + b, sep) == text_spec::join(a, sep) + sep + text_spec::join(
            b,
            sep,
        ));
    }
}

/// Whether a carriage return stands directly before a newline somewhere in `s`.
pub open spec fn has_crlf(s: Seq<char>) -> bool {
    exists|i: int| 0 <= i < s.len() - 1 && #[trigger] s[i] == '\r' && s[i + 1] == '\n'
}

/// Splitting a text into lines and joining these with newlines gives the text back, but for one
/// newline at its end. (Where a line ends with a carriage return and a newline, the carriage
/// return is lost.)
pub proof fn law_lines_then_join(s: Seq<char>)
    requires
        !has_crlf(s),
    ensures
        s == text_spec::join(text_spec::lines(s), "\n"@) || s == text_spec::join(
            text_spec::lines(s),
            "\n"@,
        ).push('\n'),
    decreases s.len(),
{
    reveal_strlit("\n");
    lemma_line_len(s);
    let n = text_spec::line_len(s) as int;
    let all = text_spec::lines(s);
    if s.len() == 0 {
    } else if n < s.len() {
        let first = s.take(n);
        let rest = s.skip(n + 1);
        if n > 0 {
            assert(first.last() == s[n - 1]);
        }
        assert(text_spec::drop_carriage_return(first) == first);
        assert(all == seq![first] + text_spec::lines(rest));
        if rest.len() == 0 {
            assert(all == seq![first]);
            assert(s == first.push('\n'));
        } else {
            assert forall|i: int| 0 <= i < rest.len() - 1 implies !(#[trigger] rest[i] == '\r'
                && rest[i + 1] == '\n') by {
                assert(rest[i] == s[i + n + 1]);
                assert(rest[i + 1] == s[i + n + 2]);
            }
            law_lines_then_join(rest);
            lemma_join_first(all, "\n"@);
            assert(all.skip(1) == text_spec::lines(rest));
            let tail = text_spec::join(text_spec::lines(rest), "\n"@);
            assert(text_spec::join(all, "\n"@) == first + "\n"@ + tail);
            assert(s == first + "\n"@ + rest);
            if rest == tail.push('\n') {
                assert(s == (first + "\n"@ + tail).push('\n'));
            }
        }
    }
}

/// Joining lines with newlines and splitting the result gives the lines back, but for a
/// carriage return at the end of a line and for an empty line at the end.
pub proof fn law_join_then_lines(all: Seq<Seq<char>>)
    requires
        forall|k: int, i: int|
            0 <= k < all.len() && 0 <= i < all[k].len() ==> #[trigger] all[k][i] != '\n',
    ensures
        text_spec::lines(text_spec::join(all, "\n"@)).len() == all.len() || (all.len() > 0
            && all.last().len() == 0 && text_spec::lines(text_spec::join(all, "\n"@)).len()
            == all.len() - 1),
        forall|k: int|
            0 <= k < text_spec::lines(text_spec::join(all, "\n"@)).len() ==> {
                ||| #[trigger] text_spec::lines(text_spec::join(all, "\n"@))[k] == all[k]
                ||| text_spec::lines(text_spec::join(all, "\n"@))[k]
                    == text_spec::drop_carriage_return(all[k])
            },
    decreases all.len(),
{
    reveal_strlit("\n");
    let s = text_spec::join(all, "\n"@);
    if all.len() == 1 {
        let x = all[0];
        assert forall|i: int| 0 <= i < x.len() implies x[i] != '\n' by {
            assert(all[0][i] != '\n');
        }
        text_spec::lemma_line_len_is(x, x.len() as int);
        if x.len() > 0 {
            assert(text_spec::lines(s) == seq![x]);
        }
    } else if all.len() > 1 {
        let x = all[0];
        let rest = all.skip(1);
        lemma_join_first(all, "\n"@);
        assert forall|k: int, i: int| 0 <= k < rest.len() && 0 <= i < rest[k].len() implies (
        #[trigger] rest[k][i]) != '\n' by {
            assert(rest[k] == all[k + 1]);
            assert(all[k + 1][i] != '\n');
        }
        law_join_then_lines(rest);
        let tail = text_spec::join(rest, "\n"@);
        assert(s == x + "\n"@ + tail);
        assert forall|i: int| 0 <= i < x.len() implies s[i] != '\n' by {
            assert(all[0][i] != '\n');
        }
        text_spec::lemma_line_len_is(s, x.len() as int);
        assert(s.take(x.len() as int) == x);
        assert(s.skip(x.len() as int + 1) == tail);
        let split = text_spec::lines(s);
        assert(split == seq![text_spec::drop_carriage_return(x)] + text_spec::lines(tail));
        assert(rest.last() == all.last());
        assert forall|k: int| 0 <= k < split.len() implies #[trigger] split[k] == all[k] || split[k]
            == text_spec::drop_carriage_return(all[k]) by {
            if k > 0 {
                assert(split[k] == text_spec::lines(tail)[k - 1]);
                assert(rest[k - 1] == all[k]);
            }
        }
    }
}

/// A list of texts that hold nothing but white space, joined with newlines, holds nothing else.
pub proof fn lemma_join_of_blank(parts: Seq<Seq<char>>)
    requires
        forall|k: int, i: int|
            0 <= k < parts.len() && 0 <= i < parts[k].len() ==> text_spec::is_white_space(
                #[trigger] parts[k][i],
            ),
    ensures
        forall|i: int|
            0 <= i < text_spec::join(parts, "\n"@).len() ==> text_spec::is_white_space(
                #[trigger] text_spec::join(parts, "\n"@)[i],
            ),
    decreases parts.len(),
{
    reveal_strlit("\n");
    if parts.len() == 1 {
        assert forall|i: int| 0 <= i < parts[0].len() implies text_spec::is_white_space(
            #[trigger] text_spec::join(parts, "\n"@)[i],
        ) by {
            assert(text_spec::is_white_space(parts[0][i]));
        }
    } else if parts.len() > 1 {
        let front = parts.drop_last();
        assert forall|k: int, i: int|
            0 <= k < front.len() && 0 <= i < front[k].len() implies text_spec::is_white_space(
            #[trigger] front[k][i],
        ) by {
            assert(text_spec::is_white_space(parts[k][i]));
        }
        lemma_join_of_blank(front);
        let a = text_spec::join(front, "\n"@);
        let whole = text_spec::join(parts, "\n"@);
        assert forall|i: int| 0 <= i < whole.len() implies text_spec::is_white_space(
            #[trigger] whole[i],
        ) by {
            if i < a.len() {
                assert(whole[i] == a[i]);
            } else if i > a.len() {
                assert(whole[i] == parts[parts.len() - 1][i - a.len() - 1]);
            }
        }
    }
}

/// A list of `n` texts of at most `m` characters each, joined with newlines, has at most
/// `n * (m + 1)` characters.
pub proof fn lemma_join_len(parts: Seq<Seq<char>>, m: nat)
    requires
        forall|k: int| 0 <= k < parts.len() ==> (#[trigger] parts[k]).len() <= m,
    ensures
        text_spec::join(parts, "\n"@).len() <= parts.len() * (m + 1),
    decreases parts.len(),
{
    reveal_strlit("\n");
    if parts.len() == 1 {
    } else if parts.len() > 1 {
        assert forall|k: int| 0 <= k < parts.drop_last().len() implies (
        #[trigger] parts.drop_last()[k]).len() <= m by {
            assert(parts.drop_last()[k] == parts[k]);
        }
        lemma_join_len(parts.drop_last(), m);
        assert(parts.len() * (m + 1) == (parts.len() - 1) * (m + 1) + (m + 1)) by (nonlinear_arith);
    }
}

// --------------------------------------------------------------------------------------------
// Texts that a newline parts
// --------------------------------------------------------------------------------------------

/// A newline ends the leading parameters of a text, and is none of them.
proof fn lemma_ansi_parameters_at_newline(p: Seq<char>, q: Seq<char>)
    ensures
        text_spec::ansi_parameters(p + seq!['\n'] + q) == text_spec::ansi_parameters(p),
        text_spec::ansi_parameters(p) <= p.len(),
    decreases p.len(),
{
    let s = p + seq!['\n'] + q;
    if p.len() > 0 {
        assert(s[0] == p[0]);
        assert(s.skip(1) == p.skip(1) + seq!['\n'] + q);
        lemma_ansi_parameters_at_newline(p.skip(1), q);
    } else {
        assert(s[0] == '\n');
    }
}

/// No control sequence reaches beyond a newline: the two sides of one are stripped on their own.
pub proof fn law_control_sequences_stop_at_a_newline(p: Seq<char>, q: Seq<char>)
    ensures
        text_spec::strip_ansi(p + seq!['\n'] + q) == text_spec::strip_ansi(p) + seq!['\n']
            + text_spec::strip_ansi(q),
    decreases p.len(),
{
    let s = p + seq!['\n'] + q;
    if p.len() == 0 {
        assert(s[0] == '\n');
        assert(s.skip(1) == q);
        assert(text_spec::strip_ansi(p) + seq!['\n'] + text_spec::strip_ansi(q) == seq!['\n']
            + text_spec::strip_ansi(q));
    } else {
        assert(s[0] == p[0]);
        assert(s[p.len() as int] == '\n');
        if p.len() >= 2 {
            assert(s[1] == p[1]);
            lemma_ansi_parameters_at_newline(p.skip(2), q);
            assert(s.skip(2) == p.skip(2) + seq!['\n'] + q);
            let n = text_spec::ansi_parameters(p.skip(2)) as int;
            if 2 + n < p.len() {
                assert(s[2 + n] == p[2 + n]);
            }
        }
        let n = text_spec::ansi_len(s) as int;
        assert(n == text_spec::ansi_len(p));
        if n > 0 {
            assert(s.skip(n) == p.skip(n) + seq!['\n'] + q);
            law_control_sequences_stop_at_a_newline(p.skip(n), q);
        } else {
            assert(s.skip(1) == p.skip(1) + seq!['\n'] + q);
            law_control_sequences_stop_at_a_newline(p.skip(1), q);
            assert(text_spec::strip_ansi(s) == text_spec::strip_ansi(p) + seq!['\n']
                + text_spec::strip_ansi(q));
        }
    }
}

/// The lines of a text that a newline parts are the lines of its two sides, the first of which
/// ends with that newline.
pub proof fn law_lines_part_at_a_newline(p: Seq<char>, q: Seq<char>)
    ensures
        text_spec::lines(p + seq!['\n'] + q) == text_spec::lines(p.push('\n')) + text_spec::lines(q),
    decreases p.len(),
{
    let s = p + seq!['\n'] + q;
    let t = p.push('\n');
    lemma_line_len(p);
    let n = text_spec::line_len(p) as int;
    text_spec::lemma_line_len_is(s, n);
    text_spec::lemma_line_len_is(t, n);
    assert(s.take(n) == p.take(n));
    assert(t.take(n) == p.take(n));
    if n < p.len() {
        let rest = p.skip(n + 1);
        assert(s.skip(n + 1) == rest + seq!['\n'] + q);
        assert(t.skip(n + 1) == rest.push('\n'));
        law_lines_part_at_a_newline(rest, q);
        assert(text_spec::lines(s) == text_spec::lines(t) + text_spec::lines(q));
    } else {
        assert(s.skip(n + 1) == q);
        assert(text_spec::lines(t.skip(n + 1)) == Seq::<Seq<char>>::empty());
        assert(text_spec::lines(s) == text_spec::lines(t) + text_spec::lines(q));
    }
}

/// A newline at the end of a text drops a carriage return before it and may add an empty line;
/// other than that the lines stay what they are.
pub proof fn lemma_lines_with_newline(p: Seq<char>)
    ensures
        text_spec::lines(p).len() <= text_spec::lines(p.push('\n')).len(),
        forall|k: int|
            0 <= k < text_spec::lines(p).len() ==> {
                ||| #[trigger] text_spec::lines(p.push('\n'))[k] == text_spec::lines(p)[k]
                ||| text_spec::lines(p.push('\n'))[k] == text_spec::drop_carriage_return(
                    text_spec::lines(p)[k],
                )
            },
        forall|k: int|
            text_spec::lines(p).len() <= k < text_spec::lines(p.push('\n')).len() ==> (
            #[trigger] text_spec::lines(p.push('\n'))[k]).len() == 0,
    decreases p.len(),
{
    let t = p.push('\n');
    lemma_line_len(p);
    let n = text_spec::line_len(p) as int;
    text_spec::lemma_line_len_is(t, n);
    assert(t.take(n) == p.take(n));
    if n < p.len() {
        let rest = p.skip(n + 1);
        assert(t.skip(n + 1) == rest.push('\n'));
        lemma_lines_with_newline(rest);
        let head = seq![text_spec::drop_carriage_return(p.take(n))];
        let x = text_spec::lines(t);
        let y = text_spec::lines(p);
        assert(x == head + text_spec::lines(rest.push('\n')));
        assert(y == head + text_spec::lines(rest));
        assert forall|k: int| 0 <= k < y.len() implies #[trigger] x[k] == y[k] || x[k]
            == text_spec::drop_carriage_return(y[k]) by {
            if k > 0 {
                assert(x[k] == text_spec::lines(rest.push('\n'))[k - 1]);
            }
        }
        assert forall|k: int| y.len() <= k < x.len() implies (#[trigger] x[k]).len() == 0 by {
            assert(x[k] == text_spec::lines(rest.push('\n'))[k - 1]);
        }
    } else {
        assert(p.take(n) == p);
        assert(text_spec::lines(t.skip(n + 1)) == Seq::<Seq<char>>::empty());
        assert(text_spec::lines(t) == seq![text_spec::drop_carriage_return(p)]);
    }
}

/// White space around a text that neither starts nor ends with any is what trimming removes.
pub proof fn lemma_trim_of_padded(core: Seq<char>, tail: Seq<char>)
    requires
        core.len() > 0,
        !text_spec::is_white_space(core[0]),
        !text_spec::is_white_space(core.last()),
        forall|i: int| 0 <= i < tail.len() ==> text_spec::is_white_space(#[trigger] tail[i]),
    ensures
        text_spec::trim(core + tail) == core,
{
    let s = core + tail;
    text_spec::lemma_trim_start_is(s, 0);
    assert(s.skip(0) == s);
    assert forall|i: int| core.len() <= i < s.len() implies text_spec::is_white_space(s[i]) by {
        assert(s[i] == tail[i - core.len()]);
    }
    text_spec::lemma_trim_end_is(s, core.len() as int);
    assert(s.take(core.len() as int) == core);
}

// --------------------------------------------------------------------------------------------
// What settles each function
// --------------------------------------------------------------------------------------------

/// Trimming takes away the white space around a text and nothing else: whatever white space
/// stands before and after a text that neither starts nor ends with any, the text is left.
pub proof fn law_trim_takes_away_the_padding(pre: Seq<char>, core: Seq<char>, post: Seq<char>)
    requires
        forall|i: int| 0 <= i < pre.len() ==> text_spec::is_white_space(#[trigger] pre[i]),
        forall|i: int| 0 <= i < post.len() ==> text_spec::is_white_space(#[trigger] post[i]),
        core.len() > 0 ==> !text_spec::is_white_space(core[0]) && !text_spec::is_white_space(
            core.last(),
        ),
    ensures
        text_spec::trim(pre + core + post) == core,
{
    let s = pre + core + post;
    if core.len() > 0 {
        let n = pre.len() as int;
        assert forall|i: int| 0 <= i < n implies text_spec::is_white_space(s[i]) by {
            assert(s[i] == pre[i]);
        }
        assert(s[n] == core[0]);
        text_spec::lemma_trim_start_is(s, n);
        assert(s.skip(n) == core + post);
        assert forall|i: int| core.len() <= i < (core + post).len() implies
            text_spec::is_white_space((core + post)[i]) by {
            assert((core + post)[i] == post[i - core.len()]);
        }
        text_spec::lemma_trim_end_is(core + post, core.len() as int);
        assert((core + post).take(core.len() as int) == core);
    } else {
        assert forall|i: int| 0 <= i < s.len() implies text_spec::is_white_space(
            #[trigger] s[i],
        ) by {
            if i < pre.len() {
                assert(s[i] == pre[i]);
            } else {
                assert(s[i] == post[i - pre.len()]);
            }
        }
        law_trim(s);
        assert(text_spec::trim(s) == core);
    }
}

/// A line ends at the first newline, and what follows is split on its own. A carriage return
/// directly before the newline belongs to the ending; any other character belongs to the line.
pub proof fn law_first_line(line: Seq<char>, rest: Seq<char>)
    requires
        forall|i: int| 0 <= i < line.len() ==> #[trigger] line[i] != '\n',
    ensures
        line.len() == 0 || line.last() != '\r' ==> text_spec::lines(line + seq!['\n'] + rest)
            == seq![line] + text_spec::lines(rest),
        text_spec::lines(line + seq!['\r', '\n'] + rest) == seq![line] + text_spec::lines(rest),
{
    let n = line.len() as int;
    let s = line + seq!['\n'] + rest;
    assert forall|i: int| 0 <= i < n implies s[i] != '\n' by {
        assert(s[i] == line[i]);
    }
    text_spec::lemma_line_len_is(s, n);
    assert(s.take(n) == line);
    assert(s.skip(n + 1) == rest);
    let t = line + seq!['\r', '\n'] + rest;
    assert forall|i: int| 0 <= i < n + 1 implies t[i] != '\n' by {
        if i < n {
            assert(t[i] == line[i]);
        }
    }
    text_spec::lemma_line_len_is(t, n + 1);
    assert(t.take(n + 1) == line.push('\r'));
    assert(line.push('\r').drop_last() == line);
    assert(t.skip(n + 2) == rest);
}

/// Text after the last newline is a line as it stands, and there are no lines in no text.
pub proof fn law_last_line(line: Seq<char>)
    requires
        forall|i: int| 0 <= i < line.len() ==> #[trigger] line[i] != '\n',
    ensures
        line.len() > 0 ==> text_spec::lines(line) == seq![line],
        line.len() == 0 ==> text_spec::lines(line).len() == 0,
{
    text_spec::lemma_line_len_is(line, line.len() as int);
}

/// Joining puts the separator between each two parts and nowhere else, and keeps the order.
pub proof fn law_join(parts: Seq<Seq<char>>, part: Seq<char>, sep: Seq<char>)
    ensures
        text_spec::join(Seq::empty(), sep) == Seq::<char>::empty(),
        text_spec::join(seq![part], sep) == part,
        parts.len() > 0 ==> text_spec::join(parts.push(part), sep) == text_spec::join(parts, sep)
            + sep + part,
{
    assert(parts.push(part).drop_last() == parts);
}

/// A text contains exactly the texts that stand in it, wherever.
pub proof fn law_contains(s: Seq<char>, needle: Seq<char>)
    ensures
        text_spec::contains(s, needle) <==> exists|pre: Seq<char>, post: Seq<char>|
            s == #[trigger] (pre + needle + post),
{
    if text_spec::contains(s, needle) {
        let i = choose|i: int| text_spec::occurs_at(s, needle, i);
        let pre = s.take(i);
        let post = s.skip(i + needle.len());
        assert(s =~= pre + needle + post);
    }
    if exists|pre: Seq<char>, post: Seq<char>| s == #[trigger] (pre + needle + post) {
        let (pre, post) = choose|pre: Seq<char>, post: Seq<char>|
            s == #[trigger] (pre + needle + post);
        assert(s.subrange(pre.len() as int, pre.len() as int + needle.len()) =~= needle);
        assert(text_spec::occurs_at(s, needle, pre.len() as int));
    }
}

/// A text that is cut to fewer than three characters is three dots.
pub proof fn law_truncate_to_almost_nothing(s: Seq<char>, max: nat)
    requires
        max < 3,
    ensures
        s.len() <= max ==> text_spec::truncate(s, max) == s,
        s.len() > max ==> text_spec::truncate(s, max) == "..."@,
{
}

/// Numbers are written digit by digit: one more digit is one more character at the end.
pub proof fn law_decimal(n: nat, d: nat)
    requires
        d < 10,
    ensures
        text_spec::decimal(d) == seq!["0123456789"@[d as int]],
        n > 0 ==> text_spec::decimal(10 * n + d) == text_spec::decimal(n).push(
            "0123456789"@[d as int],
        ),
{
    reveal_strlit("0123456789");
    assert(text_spec::digit(d) == "0123456789"@[d as int]);
    if n > 0 {
        assert((10 * n + d) / 10 == n);
        assert((10 * n + d) % 10 == d);
    }
}

/// A negative number is written as its amount after a minus sign, any other as it is.
pub proof fn law_signed_decimal(n: nat)
    ensures
        text_spec::signed_decimal(n as int) == text_spec::decimal(n),
        n > 0 ==> text_spec::signed_decimal(-(n as int)) == seq!['-'] + text_spec::decimal(n),
{
}

/// The alphabet of a control sequence: digits and semicolons between, and an ASCII letter at the
/// end.
pub proof fn law_control_sequence_alphabet(c: char)
    ensures
        text_spec::is_ansi_parameter(c) <==> ('0' <= c <= '9' || c == ';'),
        text_spec::is_ansi_final(c) <==> ('a' <= c <= 'z' || 'A' <= c <= 'Z'),
{
}

/// A character with which no control sequence starts is kept, and what follows it is treated as
/// if it stood alone.
pub proof fn law_other_characters_are_kept(s: Seq<char>)
    requires
        s.len() > 0,
        forall|n: int|
            2 <= n < s.len() && s[0] == '\u{1b}' && s[1] == '[' && (forall|i: int|
                2 <= i < n ==> ('0' <= #[trigger] s[i] <= '9' || s[i] == ';')) ==> !('a'
                <= #[trigger] s[n] <= 'z' || 'A' <= s[n] <= 'Z'),
    ensures
        text_spec::strip_ansi(s) == seq![s[0]] + text_spec::strip_ansi(s.skip(1)),
{
    if text_spec::ansi_len(s) > 0 {
        let n = text_spec::ansi_parameters(s.skip(2)) as int;
        assert forall|i: int| 2 <= i < 2 + n implies ('0' <= #[trigger] s[i] <= '9' || s[i]
            == ';') by {
            lemma_leading_parameters(s.skip(2), i - 2);
            assert(s[i] == s.skip(2)[i - 2]);
        }
        assert(text_spec::is_ansi_final(s[2 + n]));
    }
}

/// The leading parameters of a text are parameters.
proof fn lemma_leading_parameters(s: Seq<char>, i: int)
    requires
        0 <= i < text_spec::ansi_parameters(s),
    ensures
        i < s.len(),
        text_spec::is_ansi_parameter(s[i]),
    decreases s.len(),
{
    if i > 0 {
        lemma_leading_parameters(s.skip(1), i - 1);
        assert(s.skip(1)[i - 1] == s[i]);
    }
}

/// The model of a list of strings is the list of their characters.
pub proof fn law_texts(v: Seq<String>)
    ensures
        text_spec::texts(v).len() == v.len(),
        forall|i: int| 0 <= i < v.len() ==> #[trigger] text_spec::texts(v)[i] == v[i]@,
{
}

/// A text starts with a text of one character exactly if that is its first character.
pub proof fn lemma_prefix_of_one(prefix: Seq<char>, s: Seq<char>)
    requires
        prefix.len() == 1,
        s.len() > 0,
    ensures
        prefix.is_prefix_of(s) <==> s[0] == prefix[0],
{
    if prefix.is_prefix_of(s) {
        assert(prefix[0] == s.subrange(0, 1)[0]);
    } else if s[0] == prefix[0] {
        assert(prefix =~= s.subrange(0, 1));
    }
}

} // verus!
