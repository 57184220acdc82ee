//! What reading text gives of text that was put together.

use vstd::prelude::*;
use vstd::arithmetic::div_mod;
use vstd::arithmetic::power;
use crate::text;

verus! {

// ------------------------------------------------------------------- letters

/// The capitals of ASCII become the small letters, and nothing else changes.
pub proof fn law_only_capitals_are_lowered(c: char)
    ensures
        65 <= c as u32 <= 90 ==> text::ascii_lower(c) as u32 == c as u32 + 32,
        !(65 <= c as u32 <= 90) ==> text::ascii_lower(c) == c,
{
}

/// The digits are those of ASCII.
pub proof fn law_digits_are_ascii(c: char)
    ensures
        text::is_digit(c) <==> 48 <= c as u32 <= 57,
{
}

/// White space is found in ASCII where it is, and ink is never white.
pub proof fn law_white_of_ascii(c: char)
    requires
        c as u32 <= 0x7f,
    ensures
        text::is_white(c) <==> (c == ' ' || 9 <= c as u32 <= 13),
{
}

// --------------------------------------------------------------------- lines

/// Lines, each with its end.
pub open spec fn ended_lines(lines: Seq<Seq<char>>, end: Seq<char>) -> Seq<char>
    decreases lines.len(),
{
    if lines.len() == 0 {
        Seq::empty()
    } else {
        ended_lines(lines.drop_last(), end) + lines.last() + end
    }
}

/// A line: neither of the characters that end one is in it.
pub open spec fn is_line(s: Seq<char>) -> bool {
    forall|i: int| 0 <= i < s.len() ==> #[trigger] s[i] != '\n' && s[i] != '\r'
}

pub open spec fn are_lines(lines: Seq<Seq<char>>) -> bool {
    forall|i: int| 0 <= i < lines.len() ==> is_line(#[trigger] lines[i])
}

pub proof fn lemma_split_append(s: Seq<char>, t: Seq<char>, sep: char)
    requires
        forall|i: int| 0 <= i < t.len() ==> #[trigger] t[i] != sep,
    ensures
        text::split_on(s + t, sep) == text::split_on(s, sep).drop_last().push(
            text::split_on(s, sep).last() + t,
        ),
        text::split_on(s, sep).len() > 0,
    decreases t.len(),
{
    text::lemma_split_nonempty(s, sep);
    let old_pieces = text::split_on(s, sep);
    if t.len() == 0 {
        assert(s + t =~= s);
        assert(old_pieces.last() + t =~= old_pieces.last());
        assert(old_pieces.drop_last().push(old_pieces.last()) =~= old_pieces);
    } else {
        lemma_split_append(s, t.drop_last(), sep);
        assert((s + t).drop_last() =~= s + t.drop_last());
        assert((s + t).last() == t[t.len() - 1]);
        let before = text::split_on(s + t.drop_last(), sep);
        assert(before.drop_last() =~= old_pieces.drop_last());
        assert((old_pieces.last() + t.drop_last()).push(t.last()) =~= old_pieces.last() + t);
    }
}

pub proof fn lemma_split_end(s: Seq<char>, sep: char)
    ensures
        text::split_on(s + seq![sep], sep) == text::split_on(s, sep).push(Seq::empty()),
{
    assert((s + seq![sep]).drop_last() =~= s);
    assert((s + seq![sep]).last() == sep);
}

/// The line end of one system or of the other.
pub open spec fn line_end(cr: bool) -> Seq<char> {
    if cr {
        seq!['\r', '\n']
    } else {
        seq!['\n']
    }
}

pub open spec fn with_cr(lines: Seq<Seq<char>>, cr: bool) -> Seq<Seq<char>> {
    lines.map_values(
        |l: Seq<char>|
            if cr {
                l.push('\r')
            } else {
                l
            },
    )
}

proof fn lemma_split_lines(lines: Seq<Seq<char>>, cr: bool)
    requires
        are_lines(lines),
    ensures
        text::split_on(ended_lines(lines, line_end(cr)), '\n') == with_cr(lines, cr).push(
            Seq::empty(),
        ),
    decreases lines.len(),
{
    let s = ended_lines(lines, line_end(cr));
    if lines.len() == 0 {
        assert(with_cr(lines, cr).push(Seq::empty()) =~= seq![Seq::<char>::empty()]);
        assert(s =~= Seq::empty());
    } else {
        let front = ended_lines(lines.drop_last(), line_end(cr));
        assert(are_lines(lines.drop_last()));
        lemma_split_lines(lines.drop_last(), cr);
        let line = lines.last();
        assert(is_line(lines[lines.len() - 1]));
        let own = if cr {
            line.push('\r')
        } else {
            line
        };
        assert forall|i: int| 0 <= i < own.len() implies #[trigger] own[i] != '\n' by {
            if i < line.len() {
                assert(own[i] == line[i]);
            }
        }
        lemma_split_append(front, own, '\n');
        lemma_split_end(front + own, '\n');
        assert(s =~= front + own + seq!['\n']);
        let pieces = text::split_on(front, '\n');
        assert(pieces.drop_last() =~= with_cr(lines.drop_last(), cr));
        assert(Seq::<char>::empty() + own =~= own);
        assert(with_cr(lines.drop_last(), cr).push(own) =~= with_cr(lines, cr));
    }
}

/// A text put together out of lines reads as those lines, with either line end,
/// and whether the last line is ended or not.
pub proof fn law_lines_read_back(lines: Seq<Seq<char>>, cr: bool, tail: Seq<char>)
    requires
        are_lines(lines),
        is_line(tail),
    ensures
        text::lines_of(ended_lines(lines, line_end(cr)) + tail) == (if tail.len() == 0 {
            lines
        } else {
            lines.push(tail)
        }),
{
    let s = ended_lines(lines, line_end(cr));
    lemma_split_lines(lines, cr);
    lemma_split_append(s, tail, '\n');
    let pieces = text::split_on(s + tail, '\n');
    assert(pieces.drop_last() =~= with_cr(lines, cr));
    assert(pieces.last() =~= tail);
    let ended = pieces.drop_last().map_values(|p: Seq<char>| text::without_cr(p));
    assert(ended =~= lines) by {
        assert forall|i: int| 0 <= i < lines.len() implies #[trigger] ended[i] == lines[i] by {
            assert(is_line(lines[i]));
            if cr {
                assert(lines[i].push('\r').drop_last() =~= lines[i]);
            } else if lines[i].len() > 0 {
                assert(lines[i][lines[i].len() - 1] != '\r');
            }
        }
    }
}

// ------------------------------------------------------------------- numbers

/// The decimal digits of a number stand for it: the `k`-th from the right is its
/// digit of that power of ten, and there are no more of them than needed.
pub proof fn law_decimal_digits(n: nat, k: nat)
    requires
        k < text::dec_text(n).len(),
    ensures
        text::dec_text(n)[text::dec_text(n).len() - 1 - k] as u32 == 48 + n as int / power::pow(10, k) % 10,
        n >= 10 ==> text::dec_text(n)[0] != '0',
        (n as int) < power::pow(10, text::dec_text(n).len()),
    decreases n,
{
    let t = text::dec_text(n);
    power::lemma_pow_positive(10, k);
    if n < 10 {
        assert(t.len() == 1);
        assert(k == 0);
        lemma_digit_char(n);
        assert(power::pow(10, 0) == 1) by {
            reveal(power::pow);
        }
        power::lemma_pow1(10);
    } else {
        let f = text::dec_text(n / 10);
        assert(t == f.push(text::digit_char(n % 10)));
        assert(f.len() > 0) by {
            reveal_with_fuel(text::dec_text, 2);
        }
        law_decimal_digits(n / 10, 0);
        power::lemma_pow_adds(10, f.len(), 1);
        power::lemma_pow1(10);
        assert(t[0] == f[0]);
        assert((n as int) < power::pow(10, t.len())) by (nonlinear_arith)
            requires
                (n / 10) as int + 1 <= power::pow(10, f.len()),
                power::pow(10, t.len()) == power::pow(10, f.len()) * 10,
        ;
        if n / 10 < 10 {
            assert(f[0] == text::digit_char(n / 10));
        }
        if k == 0 {
            assert(power::pow(10, 0) == 1) by {
                reveal(power::pow);
            }
            assert(t[t.len() - 1] == text::digit_char(n % 10));
            lemma_digit_char(n % 10);
        } else {
            let j = (k - 1) as nat;
            law_decimal_digits(n / 10, j);
            assert(t[t.len() - 1 - k] == f[f.len() - 1 - j]);
            power::lemma_pow_adds(10, 1, j);
            power::lemma_pow_positive(10, j);
            let p = power::pow(10, j);
            div_mod::lemma_div_denominator(n as int, 10, p);
            assert(power::pow(10, k) == 10 * p);
            assert(n as int / power::pow(10, k) == (n / 10) as int / p);
        }
    }
}

proof fn lemma_digit_char(d: nat)
    requires
        d < 10,
    ensures
        text::digit_char(d) as u32 == 48 + d,
{
}

/// A decimal number that was written is read back, up to the first character
/// that is no digit.
pub proof fn law_decimal_reads_back(n: nat, rest: Seq<char>)
    requires
        rest.len() > 0 ==> !(48 <= rest[0] as u32 <= 57),
    ensures
        text::leading_digits(text::dec_text(n) + rest) == text::dec_text(n),
        text::digits_value(text::dec_text(n)) == n,
        text::dec_text(n).len() > 0,
        text::all_digits(text::dec_text(n)),
{
    lemma_decimal_value(n);
    if rest.len() > 0 {
        law_digits_are_ascii(rest[0]);
    }
    lemma_leading_all(text::dec_text(n), rest);
}

proof fn lemma_decimal_value(n: nat)
    ensures
        text::digits_value(text::dec_text(n)) == n,
        text::dec_text(n).len() > 0,
        text::all_digits(text::dec_text(n)),
    decreases n,
{
    let t = text::dec_text(n);
    if n < 10 {
        assert(t.drop_last() =~= Seq::empty());
        assert(text::digits_value(t.drop_last()) == 0);
        assert(t.last() == text::digit_char(n));
    } else {
        lemma_decimal_value(n / 10);
        assert(t.drop_last() =~= text::dec_text(n / 10));
        assert forall|i: int| 0 <= i < t.len() implies text::is_digit(#[trigger] t[i]) by {
            if i < t.len() - 1 {
                assert(t[i] == text::dec_text(n / 10)[i]);
            }
        }
    }
}

pub proof fn lemma_leading_all(digits: Seq<char>, rest: Seq<char>)
    requires
        text::all_digits(digits),
        rest.len() > 0 ==> !text::is_digit(rest[0]),
    ensures
        text::leading_digits(digits + rest) == digits,
    decreases digits.len(),
{
    if digits.len() > 0 {
        assert((digits + rest).first() == digits[0]);
        assert((digits + rest).drop_first() =~= digits.drop_first() + rest);
        lemma_leading_all(digits.drop_first(), rest);
        assert(seq![digits[0]] + digits.drop_first() =~= digits);
    } else {
        assert(digits + rest =~= rest);
    }
}

/// The hexadecimal digits of a number stand for it: the `k`-th from the right is
/// its digit of that power of sixteen.
pub proof fn law_hexadecimal_digits(n: nat, width: nat, upper: bool, k: nat)
    requires
        k < width,
    ensures
        text::hex_text(n, width, upper).len() == width,
        text::hex_text(n, width, upper)[width - 1 - k] == (if upper {
            "0123456789ABCDEF"@
        } else {
            "0123456789abcdef"@
        })[n as int / power::pow(16, k) % 16],
    decreases width,
{
    let t = text::hex_text(n, width, upper);
    let f = text::hex_text(n / 16, (width - 1) as nat, upper);
    lemma_hex_len(n / 16, (width - 1) as nat, upper);
    power::lemma_pow_positive(16, k);
    if k == 0 {
        assert(power::pow(16, 0) == 1) by {
            reveal(power::pow);
        }
        lemma_hex_digit(n % 16, upper);
    } else {
        let j = (k - 1) as nat;
        law_hexadecimal_digits(n / 16, (width - 1) as nat, upper, j);
        assert(t[width - 1 - k] == f[width - 2 - j]);
        power::lemma_pow_adds(16, 1, j);
        power::lemma_pow1(16);
        power::lemma_pow_positive(16, j);
        div_mod::lemma_div_denominator(n as int, 16, power::pow(16, j));
    }
}

proof fn lemma_hex_len(n: nat, width: nat, upper: bool)
    ensures
        text::hex_text(n, width, upper).len() == width,
    decreases width,
{
    if width > 0 {
        lemma_hex_len(n / 16, (width - 1) as nat, upper);
    }
}

proof fn lemma_hex_digit(d: nat, upper: bool)
    requires
        d < 16,
    ensures
        text::hex_digit(d, upper) == (if upper {
            "0123456789ABCDEF"@
        } else {
            "0123456789abcdef"@
        })[d as int],
{
    reveal_strlit("0123456789ABCDEF");
    reveal_strlit("0123456789abcdef");
}

} // verus!
