//! JSON string literals.

use vstd::prelude::*;
use crate::text;

verus! {

/// How a character is written inside a JSON string. With `short`, the line
/// feed, carriage return and tab take their two-character forms; every other
/// control character takes four hexadecimal digits.
pub open spec fn escaped_char(c: char, short: bool) -> Seq<char> {
    if c == '"' {
        seq!['\\', '"']
    } else if c == '\\' {
        seq!['\\', '\\']
    } else if short && c == '\n' {
        seq!['\\', 'n']
    } else if short && c == '\r' {
        seq!['\\', 'r']
    } else if short && c == '\t' {
        seq!['\\', 't']
    } else if (c as u32) < 0x20 {
        seq!['\\', 'u'] + text::hex_text(c as nat, 4, false)
    } else {
        seq![c]
    }
}

pub open spec fn escaped(s: Seq<char>, short: bool) -> Seq<char>
    decreases s.len(),
{
    if s.len() == 0 {
        Seq::empty()
    } else {
        escaped(s.drop_last(), short) + escaped_char(s.last(), short)
    }
}

fn push_escaped(out: &mut String, c: char, short: bool)
    ensures
        final(out)@ == old(out)@ + escaped_char(c, short),
{
    if c == '"' {
        out.push('\\');
        out.push('"');
    } else if c == '\\' {
        out.push('\\');
        out.push('\\');
    } else if short && c == '\n' {
        out.push('\\');
        out.push('n');
    } else if short && c == '\r' {
        out.push('\\');
        out.push('r');
    } else if short && c == '\t' {
        out.push('\\');
        out.push('t');
    } else if (c as u32) < 0x20 {
        out.push('\\');
        out.push('u');
        let digits = text::hex_fixed(c as u64, 4, false);
        out.append(digits.as_str());
    } else {
        out.push(c);
    }
    assert(out@ =~= old(out)@ + escaped_char(c, short));
}

fn push_all_escaped(out: &mut String, s: &str, short: bool)
    ensures
        final(out)@ == old(out)@ + escaped(s@, short),
{
    let cs = text::chars_of(s);
    let mut i: usize = 0;
    assert(cs@.take(0) == Seq::<char>::empty());
    while i < cs.len()
        invariant
            i <= cs@.len(),
            cs@ == s@,
            out@ =~= old(out)@ + escaped(cs@.take(i as int), short),
        decreases cs.len() - i,
    {
        push_escaped(out, cs[i], short);
        assert(cs@.take(i + 1).drop_last() == cs@.take(i as int));
        i += 1;
    }
    assert(cs@.take(i as int) == s@);
}

/// The text as it stands inside a JSON string, with the short control escapes.
pub fn json_escape(s: &str) -> (r: String)
    ensures
        r@ == escaped(s@, true),
{
    let mut out = String::new();
    push_all_escaped(&mut out, s, true);
    assert(out@ =~= escaped(s@, true));
    out
}

/// Appends the text as it stands inside a JSON string; every control character
/// takes its four-digit form.
pub fn push_json_str(out: &mut String, s: &str)
    ensures
        final(out)@ == old(out)@ + escaped(s@, false),
{
    push_all_escaped(out, s, false);
}

// ---------------------------------------------------------------------- laws

pub open spec fn hex_value(c: char) -> nat {
    if '0' <= c <= '9' {
        (c as nat - 48) as nat
    } else if 'a' <= c <= 'f' {
        (c as nat - 87) as nat
    } else {
        (c as nat - 55) as nat
    }
}

/// What a JSON reader makes of the inside of a string literal.
pub open spec fn unescaped(s: Seq<char>) -> Seq<char>
    decreases s.len(),
{
    if s.len() == 0 {
        Seq::empty()
    } else if s[0] != '\\' {
        seq![s[0]] + unescaped(s.skip(1))
    } else if s.len() >= 6 && s[1] == 'u' {
        let v = hex_value(s[2]) * 0x1000 + hex_value(s[3]) * 0x100 + hex_value(s[4]) * 0x10
            + hex_value(s[5]);
        seq![v as char] + unescaped(s.skip(6))
    } else if s.len() >= 2 {
        let c = if s[1] == 'n' {
            '\n'
        } else if s[1] == 'r' {
            '\r'
        } else if s[1] == 't' {
            '\t'
        } else {
            s[1]
        };
        seq![c] + unescaped(s.skip(2))
    } else {
        seq![s[0]]
    }
}

proof fn lemma_unescape_one(c: char, short: bool, rest: Seq<char>)
    ensures
        unescaped(escaped_char(c, short) + rest) == seq![c] + unescaped(rest),
{
    let e = escaped_char(c, short);
    let s = e + rest;
    reveal_with_fuel(text::hex_text, 5);
    let n = c as nat;
    if c == '"' || c == '\\' || (short && (c == '\n' || c == '\r' || c == '\t')) {
        assert(s.skip(2) =~= rest);
    } else if (c as u32) < 0x20 {
        let h = text::hex_text(n, 4, false);
        assert(h.len() == 4);
        assert(n / 16 / 16 == 0);
        assert(n / 16 < 2);
        assert(h[0] == '0' && h[1] == '0');
        assert(h[2] == text::hex_digit(n / 16, false));
        assert(h[3] == text::hex_digit(n % 16, false));
        assert(s[2] == h[0] && s[3] == h[1] && s[4] == h[2] && s[5] == h[3]);
        assert(hex_value(s[4]) == n / 16);
        assert(hex_value(s[5]) == n % 16);
        assert(s.skip(6) =~= rest);
    } else {
        assert(s.skip(1) =~= rest);
    }
}

proof fn lemma_escaped_concat(a: Seq<char>, b: Seq<char>, short: bool)
    ensures
        escaped(a + b, short) == escaped(a, short) + escaped(b, short),
    decreases b.len(),
{
    if b.len() == 0 {
        assert(a + b == a);
        assert(escaped(a, short) + Seq::<char>::empty() =~= escaped(a, short));
    } else {
        lemma_escaped_concat(a, b.drop_last(), short);
        assert((a + b).drop_last() == a + b.drop_last());
        assert(escaped(a + b, short) =~= escaped(a, short) + escaped(b, short));
    }
}

/// Reading back what was written gives the text.
pub proof fn law_unescape_escaped(s: Seq<char>, short: bool)
    ensures
        unescaped(escaped(s, short)) == s,
    decreases s.len(),
{
    if s.len() > 0 {
        let first = seq![s[0]];
        let rest = s.skip(1);
        assert(s =~= first + rest);
        lemma_escaped_concat(first, rest, short);
        assert(first.drop_last() == Seq::<char>::empty());
        assert(escaped(first, short) =~= escaped_char(s[0], short)) by {
            assert(escaped(first.drop_last(), short) == Seq::<char>::empty());
        }
        lemma_unescape_one(s[0], short, escaped(rest, short));
        law_unescape_escaped(rest, short);
        assert(seq![s[0]] + rest =~= s);
    }
}

proof fn lemma_escaped_char_no_control(c: char, short: bool)
    ensures
        forall|i: int|
            0 <= i < escaped_char(c, short).len() ==> #[trigger] escaped_char(c, short)[i] >= ' ',
{
    reveal_with_fuel(text::hex_text, 5);
    let e = escaped_char(c, short);
    let n = c as nat;
    if (c as u32) < 0x20 {
        let h = text::hex_text(n, 4, false);
        assert(h.len() == 4);
        assert(n / 16 / 16 == 0);
        assert(h[0] == '0' && h[1] == '0');
        assert(h[2] == text::hex_digit(n / 16, false));
        assert(h[3] == text::hex_digit(n % 16, false));
        assert forall|i: int| 0 <= i < e.len() implies #[trigger] e[i] >= ' ' by {
            if e.len() == 6 {
                assert(e[0] == '\\' && e[1] == 'u' && e[2] == h[0] && e[3] == h[1] && e[4] == h[2]
                    && e[5] == h[3]);
            }
        }
    }
}

/// No control character survives escaping.
pub proof fn law_escaped_has_no_control(s: Seq<char>, short: bool)
    ensures
        forall|i: int|
            0 <= i < escaped(s, short).len() ==> #[trigger] escaped(s, short)[i] >= ' ',
    decreases s.len(),
{
    if s.len() > 0 {
        law_escaped_has_no_control(s.drop_last(), short);
        lemma_escaped_char_no_control(s.last(), short);
        let a = escaped(s.drop_last(), short);
        let b = escaped_char(s.last(), short);
        assert forall|i: int| 0 <= i < escaped(s, short).len() implies #[trigger] escaped(
            s,
            short,
        )[i] >= ' ' by {
            if i < a.len() {
                assert(escaped(s, short)[i] == a[i]);
            } else {
                assert(escaped(s, short)[i] == b[i - a.len()]);
            }
        }
    }
}

/// Quotes and backslashes are marked; printing characters stand as they are; the
/// three common control characters have letters in the short form, and every
/// control character has its number otherwise.
pub proof fn law_characters_are_escaped(c: char)
    ensures
        escaped(seq![c], true) == escaped_char(c, true),
        c == '"' ==> escaped_char(c, true) == seq!['\\', '"'] && escaped_char(c, false) == seq![
            '\\',
            '"',
        ],
        c == '\\' ==> escaped_char(c, true) == seq!['\\', '\\'] && escaped_char(c, false) == seq![
            '\\',
            '\\',
        ],
        32 <= c && c != '"' && c != '\\' ==> escaped_char(c, true) == seq![c] && escaped_char(c, false)
            == seq![c],
        c == '\n' ==> escaped_char(c, true) == seq!['\\', 'n'],
        c == '\r' ==> escaped_char(c, true) == seq!['\\', 'r'],
        c == '\t' ==> escaped_char(c, true) == seq!['\\', 't'],
        c < 32 ==> escaped_char(c, false) == seq!['\\', 'u'] + text::hex_text(c as nat, 4, false),
        c < 32 && c != '\n' && c != '\r' && c != '\t' ==> escaped_char(c, true) == seq!['\\', 'u']
            + text::hex_text(c as nat, 4, false),
{
    assert(seq![c].drop_last() =~= Seq::empty());
    assert(escaped(Seq::empty(), true) =~= Seq::<char>::empty());
}

/// Text is escaped character by character.
pub proof fn law_escaping_goes_by_characters(a: Seq<char>, b: Seq<char>, short: bool)
    ensures
        escaped(a + b, short) == escaped(a, short) + escaped(b, short),
{
    lemma_escaped_concat(a, b, short);
}

} // verus!
