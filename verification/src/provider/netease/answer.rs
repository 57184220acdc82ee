//! Picking single values out of the server's JSON.

use vstd::prelude::*;
use crate::text;

verus! {

/// `"key":`
pub open spec fn key_pattern(key: Seq<char>) -> Seq<char> {
    seq!['"'] + key + seq!['"', ':']
}

/// `"key":"`
pub open spec fn string_pattern(key: Seq<char>) -> Seq<char> {
    seq!['"'] + key + seq!['"', ':', '"']
}

/// What stands behind the first occurrence of `pat`.
pub open spec fn behind(s: Seq<char>, pat: Seq<char>) -> Option<Seq<char>> {
    match text::find(s, pat) {
        Some(i) => Some(s.skip(i + pat.len())),
        None => None,
    }
}

/// The inside of a string up to its closing quote; a backslash makes the next
/// character stand for itself.
pub open spec fn string_body(s: Seq<char>) -> Seq<char>
    decreases s.len(),
{
    if s.len() == 0 || s[0] == '"' {
        Seq::empty()
    } else if s[0] != '\\' {
        seq![s[0]] + string_body(s.skip(1))
    } else if s.len() >= 2 {
        seq![s[1]] + string_body(s.skip(2))
    } else {
        Seq::empty()
    }
}

/// The string under a key; an empty one counts as missing.
pub open spec fn string_of(s: Seq<char>, key: Seq<char>) -> Option<Seq<char>> {
    match behind(s, string_pattern(key)) {
        Some(rest) => if string_body(rest).len() > 0 {
            Some(string_body(rest))
        } else {
            None
        },
        None => None,
    }
}

/// The number that a run of digits stands for, if it is at most `limit`.
pub open spec fn number_of(digits: Seq<char>, limit: nat) -> Option<nat> {
    if digits.len() == 0 || text::digits_value(digits) > limit {
        None
    } else {
        Some(text::digits_value(digits))
    }
}

/// The integer under a key.
pub open spec fn i32_of(s: Seq<char>, key: Seq<char>) -> Option<int> {
    match behind(s, key_pattern(key)) {
        None => None,
        Some(rest) => {
            let t = text::trim_start(rest);
            let neg = t.len() > 0 && t[0] == '-';
            let digits = text::leading_digits(
                if neg {
                    t.skip(1)
                } else {
                    t
                },
            );
            match number_of(digits, i32::MAX as nat) {
                Some(n) => Some(
                    if neg {
                        -(n as int)
                    } else {
                        n as int
                    },
                ),
                None => None,
            }
        },
    }
}

/// The count under a key.
pub open spec fn u64_of(s: Seq<char>, key: Seq<char>) -> Option<nat> {
    match behind(s, key_pattern(key)) {
        None => None,
        Some(rest) => number_of(text::leading_digits(text::trim_start(rest)), u64::MAX as nat),
    }
}

fn pattern(key: &str, open: bool) -> (r: Vec<char>)
    ensures
        r@ == (if open {
            string_pattern(key@)
        } else {
            key_pattern(key@)
        }),
{
    let mut p: Vec<char> = Vec::new();
    p.push('"');
    let k = text::chars_of(key);
    let mut i: usize = 0;
    while i < k.len()
        invariant
            i <= k@.len(),
            p@ =~= seq!['"'] + k@.take(i as int),
        decreases k.len() - i,
    {
        p.push(k[i]);
        i += 1;
    }
    assert(k@.take(i as int) =~= k@);
    p.push('"');
    p.push(':');
    if open {
        p.push('"');
    }
    assert(p@ =~= if open {
        string_pattern(key@)
    } else {
        key_pattern(key@)
    });
    p
}

fn find_behind(s: &str, pat: &[char]) -> (r: Option<Vec<char>>)
    ensures
        match r {
            Some(v) => behind(s@, pat@) == Some(v@),
            None => behind(s@, pat@) is None,
        },
{
    let cs = text::chars_of(s);
    let n: usize = cs.len();
    match text::find_chars(cs.as_slice(), pat) {
        Some(i) => {
            let v = vstd::slice::slice_to_vec(
                vstd::slice::slice_subrange(cs.as_slice(), i + pat.len(), n),
            );
            assert(v@ =~= cs@.skip(i + pat@.len()));
            Some(v)
        },
        None => None,
    }
}

pub fn json_string(json: &str, key: &str) -> (r: Option<String>)
    ensures
        match r {
            Some(v) => string_of(json@, key@) == Some(v@),
            None => string_of(json@, key@) is None,
        },
{
    let rest = match find_behind(json, pattern(key, true).as_slice()) {
        Some(v) => v,
        None => {
            return None;
        },
    };
    let n: usize = rest.len();
    let mut out = String::new();
    let mut i: usize = 0;
    let ghost want = string_body(rest@);
    assert(rest@.skip(0) == rest@);
    assert(want =~= out@ + string_body(rest@.skip(0)));
    while i < n
        invariant
            n == rest@.len(),
            i <= n,
            want == out@ + string_body(rest@.skip(i as int)),
        ensures
            want == out@,
        decreases n - i,
    {
        let c = rest[i];
        let ghost tail = rest@.skip(i as int);
        let ghost before = out@;
        if c == '\\' {
            if n - i >= 2 {
                out.push(rest[i + 1]);
                assert(tail.skip(2) == rest@.skip(i + 2));
                i += 2;
            } else {
                i += 1;
                assert(rest@.skip(i as int).len() == 0);
            }
        } else if c == '"' {
            assert(want =~= out@);
            break ;
        } else {
            out.push(c);
            assert(tail.skip(1) == rest@.skip(i + 1));
            i += 1;
        }
        assert(want =~= out@ + string_body(rest@.skip(i as int)));
        if i >= n {
            assert(want =~= out@);
        }
    }
    if out.as_str().is_empty() {
        None
    } else {
        Some(out)
    }
}

fn read_number(digits: &[char], limit: u64) -> (r: Option<u64>)
    requires
        text::all_digits(digits@),
    ensures
        match r {
            Some(v) => number_of(digits@, limit as nat) == Some(v as nat) && v <= limit,
            None => number_of(digits@, limit as nat) is None,
        },
{
    if digits.len() == 0 {
        return None;
    }
    text::parse_digits(digits, limit)
}

/// The digits that `cs` begins with at `from`, as a number.
fn number_at(cs: &[char], from: usize, limit: u64) -> (r: Option<u64>)
    requires
        from <= cs@.len(),
    ensures
        match r {
            Some(v) => number_of(text::leading_digits(cs@.skip(from as int)), limit as nat) == Some(
                v as nat,
            ) && v <= limit,
            None => number_of(text::leading_digits(cs@.skip(from as int)), limit as nat) is None,
        },
{
    let len: usize = cs.len();
    let n = text::digit_run(cs, from);
    proof {
        text::lemma_leading_digits(cs@.skip(from as int));
    }
    read_number(vstd::slice::slice_subrange(cs, from, from + n), limit)
}

pub fn json_i32(json: &str, key: &str) -> (r: Option<i32>)
    ensures
        match r {
            Some(v) => i32_of(json@, key@) == Some(v as int),
            None => i32_of(json@, key@) is None,
        },
{
    let rest = match find_behind(json, pattern(key, false).as_slice()) {
        Some(v) => v,
        None => {
            return None;
        },
    };
    let t = text::trim_left(rest.as_slice());
    let neg: bool = t.len() > 0 && t[0] == '-';
    let from: usize = if neg {
        1
    } else {
        0
    };
    assert(t@.skip(0) == t@);
    match number_at(t.as_slice(), from, 0x7fff_ffff) {
        Some(v) => {
            let n: i32 = v as i32;
            Some(
                if neg {
                    -n
                } else {
                    n
                },
            )
        },
        None => None,
    }
}

pub fn json_u64(json: &str, key: &str) -> (r: Option<u64>)
    ensures
        match r {
            Some(v) => u64_of(json@, key@) == Some(v as nat),
            None => u64_of(json@, key@) is None,
        },
{
    let rest = match find_behind(json, pattern(key, false).as_slice()) {
        Some(v) => v,
        None => {
            return None;
        },
    };
    let t = text::trim_left(rest.as_slice());
    assert(t@.skip(0) == t@);
    number_at(t.as_slice(), 0, u64::MAX)
}

} // verus!
