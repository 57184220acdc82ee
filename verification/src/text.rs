//! Text: character sequences, searching, splitting, trimming, number formats.

use vstd::prelude::*;

verus! {

/// `String::push` appends exactly the given character.
pub assume_specification[ String::push ](s: &mut String, c: char)
    ensures
        final(s)@ == old(s)@.push(c),
;

/// The error of a strict UTF-8 conversion; only its presence matters here.
#[verifier::external_type_specification]
#[verifier::external_body]
pub struct ExUtf8Error(core::str::Utf8Error);

/// `core::str::from_utf8` accepts exactly the well-formed byte sequences and
/// gives the characters they encode.
pub assume_specification[ core::str::from_utf8 ](v: &[u8]) -> (r: Result<
    &str,
    core::str::Utf8Error,
>)
    ensures
        match r {
            Ok(s) => vstd::utf8::valid_utf8(v@) && s@ == vstd::utf8::decode_utf8(v@),
            Err(_) => !vstd::utf8::valid_utf8(v@),
        },
;

/// `char::from_u32` gives the character with that scalar value, and nothing for
/// surrogates and values beyond the last one.
pub assume_specification[ char::from_u32 ](i: u32) -> (r: Option<char>)
    ensures
        match r {
            Some(c) => vstd::utf8::is_scalar(i) && c as u32 == i,
            None => !vstd::utf8::is_scalar(i),
        },
;

/// What `String::from_utf8_lossy` makes of bytes.
pub uninterp spec fn lossy_text(bytes: Seq<u8>) -> Seq<char>;

/// `String::from_utf8_lossy`, named by its result. Well-formed input gives the
/// characters it encodes; where the replacement characters go otherwise is left
/// to the name.
#[verifier::external_body]
pub(crate) fn from_utf8_lossy(bytes: &[u8]) -> (r: String)
    ensures
        r@ == lossy_text(bytes@),
        vstd::utf8::valid_utf8(bytes@) ==> r@ == vstd::utf8::decode_utf8(bytes@),
{
    String::from_utf8_lossy(bytes).into_owned()
}

/// What `str::to_lowercase` makes of text.
pub uninterp spec fn lowercase_text(s: Seq<char>) -> Seq<char>;

/// `str::to_lowercase`, named by its result. On ASCII text it lowers the letters
/// and keeps the rest; the mapping of other characters is left to the name.
#[verifier::external_body]
pub(crate) fn to_lowercase(s: &str) -> (r: String)
    ensures
        r@ == lowercase_text(s@),
        (forall|i: int| 0 <= i < s@.len() ==> s@[i] < '\u{80}') ==> r@ == s@.map_values(
            |c: char| ascii_lower(c),
        ),
{
    s.to_lowercase()
}

// ---------------------------------------------------------------- characters

/// The Unicode `White_Space` property.
pub open spec fn is_white(c: char) -> bool {
    let u = c as u32;
    ||| 0x09 <= u <= 0x0d
    ||| u == 0x20
    ||| u == 0x85
    ||| u == 0xa0
    ||| u == 0x1680
    ||| 0x2000 <= u <= 0x200a
    ||| u == 0x2028
    ||| u == 0x2029
    ||| u == 0x202f
    ||| u == 0x205f
    ||| u == 0x3000
}

pub open spec fn is_digit(c: char) -> bool {
    '0' <= c <= '9'
}

pub open spec fn is_alnum(c: char) -> bool {
    is_digit(c) || 'a' <= c <= 'z' || 'A' <= c <= 'Z'
}

pub fn white(c: char) -> (r: bool)
    ensures
        r == is_white(c),
{
    let u: u32 = c as u32;
    (0x09 <= u && u <= 0x0d) || u == 0x20 || u == 0x85 || u == 0xa0 || u == 0x1680 || (0x2000 <= u
        && u <= 0x200a) || u == 0x2028 || u == 0x2029 || u == 0x202f || u == 0x205f || u == 0x3000
}

pub fn digit(c: char) -> (r: bool)
    ensures
        r == is_digit(c),
{
    '0' <= c && c <= '9'
}

pub fn alnum(c: char) -> (r: bool)
    ensures
        r == is_alnum(c),
{
    digit(c) || ('a' <= c && c <= 'z') || ('A' <= c && c <= 'Z')
}

pub open spec fn all_digits(s: Seq<char>) -> bool {
    forall|i: int| 0 <= i < s.len() ==> is_digit(#[trigger] s[i])
}

/// ASCII upper case letters become lower case; every other character stays.
pub open spec fn ascii_lower(c: char) -> char {
    if 'A' <= c <= 'Z' {
        ((c as u8) + 32) as u8 as char
    } else {
        c
    }
}

pub fn to_ascii_lower(c: char) -> (r: char)
    ensures
        r == ascii_lower(c),
{
    if 'A' <= c && c <= 'Z' {
        ((c as u8) + 32) as char
    } else {
        c
    }
}

/// Equality up to the case of ASCII letters.
pub open spec fn same_ignoring_ascii_case(a: Seq<char>, b: Seq<char>) -> bool {
    &&& a.len() == b.len()
    &&& forall|i: int| 0 <= i < a.len() ==> ascii_lower(#[trigger] a[i]) == ascii_lower(b[i])
}

pub fn eq_ignore_ascii_case(a: &[char], b: &[char]) -> (r: bool)
    ensures
        r == same_ignoring_ascii_case(a@, b@),
{
    if a.len() != b.len() {
        return false;
    }
    let mut i: usize = 0;
    while i < a.len()
        invariant
            i <= a.len(),
            a.len() == b.len(),
            forall|j: int| 0 <= j < i ==> ascii_lower(#[trigger] a@[j]) == ascii_lower(b@[j]),
        decreases a.len() - i,
    {
        if to_ascii_lower(a[i]) != to_ascii_lower(b[i]) {
            assert(ascii_lower(a@[i as int]) != ascii_lower(b@[i as int]));
            return false;
        }
        i += 1;
    }
    true
}

// --------------------------------------------------------------- conversions

/// The characters of a string.
pub fn chars_of(s: &str) -> (r: Vec<char>)
    ensures
        r@ == s@,
{
    let mut v: Vec<char> = Vec::new();
    for c in it: s.chars()
        invariant
            v@ == it.seq().take(it.index()),
            it.seq() == s@,
    {
        v.push(c);
    }
    v
}

/// A string made of the given characters.
pub fn text_of(cs: &[char]) -> (r: String)
    ensures
        r@ == cs@,
{
    let mut s = String::new();
    let mut i: usize = 0;
    while i < cs.len()
        invariant
            i <= cs.len(),
            s@ == cs@.take(i as int),
        decreases cs.len() - i,
    {
        s.push(cs[i]);
        assert(cs@.take(i + 1) == cs@.take(i as int).push(cs@[i as int]));
        i += 1;
    }
    assert(cs@.take(cs@.len() as int) == cs@);
    s
}

pub fn text_of_range(cs: &[char], from: usize, to: usize) -> (r: String)
    requires
        from <= to <= cs@.len(),
    ensures
        r@ == cs@.subrange(from as int, to as int),
{
    text_of(vstd::slice::slice_subrange(cs, from, to))
}

/// The characters of each string in a list.
pub open spec fn texts(v: Seq<String>) -> Seq<Seq<char>> {
    v.map_values(|s: String| s@)
}

pub fn same_chars(a: &[char], b: &[char]) -> (r: bool)
    ensures
        r == (a@ == b@),
{
    if a.len() != b.len() {
        return false;
    }
    let mut i: usize = 0;
    while i < a.len()
        invariant
            i <= a.len(),
            a.len() == b.len(),
            forall|j: int| 0 <= j < i ==> a@[j] == b@[j],
        decreases a.len() - i,
    {
        if a[i] != b[i] {
            return false;
        }
        i += 1;
    }
    assert(a@ =~= b@);
    true
}

pub fn same_text(a: &str, b: &str) -> (r: bool)
    ensures
        r == (a@ == b@),
{
    same_chars(chars_of(a).as_slice(), chars_of(b).as_slice())
}

pub fn same_bytes(a: &[u8], b: &[u8]) -> (r: bool)
    ensures
        r == (a@ == b@),
{
    if a.len() != b.len() {
        return false;
    }
    let mut i: usize = 0;
    while i < a.len()
        invariant
            i <= a.len(),
            a.len() == b.len(),
            forall|j: int| 0 <= j < i ==> a@[j] == b@[j],
        decreases a.len() - i,
    {
        if a[i] != b[i] {
            return false;
        }
        i += 1;
    }
    assert(a@ =~= b@);
    true
}

// ----------------------------------------------------------------- searching

/// `pat` stands in `s` at position `at`.
pub open spec fn occurs_at<T>(s: Seq<T>, pat: Seq<T>, at: int) -> bool {
    0 <= at && at + pat.len() <= s.len() && s.subrange(at, at + pat.len()) == pat
}

/// `pat` stands somewhere in `s`.
pub open spec fn occurs<T>(s: Seq<T>, pat: Seq<T>) -> bool {
    exists|at: int| occurs_at(s, pat, at)
}

pub open spec fn begins<T>(s: Seq<T>, pat: Seq<T>) -> bool {
    occurs_at(s, pat, 0)
}

/// The leftmost position at or after `from` where `pat` stands.
pub open spec fn find_from<T>(s: Seq<T>, pat: Seq<T>, from: int) -> Option<int>
    decreases s.len() + 1 - from,
{
    if from + pat.len() > s.len() {
        None
    } else if occurs_at(s, pat, from) {
        Some(from)
    } else {
        find_from(s, pat, from + 1)
    }
}

pub open spec fn find<T>(s: Seq<T>, pat: Seq<T>) -> Option<int> {
    find_from(s, pat, 0)
}

/// `find_from` gives the leftmost occurrence, and gives one whenever there is one.
pub proof fn lemma_find_from<T>(s: Seq<T>, pat: Seq<T>, from: int)
    requires
        0 <= from,
    ensures
        match find_from(s, pat, from) {
            Some(at) => {
                &&& from <= at
                &&& occurs_at(s, pat, at)
                &&& forall|j: int| from <= j < at ==> !occurs_at(s, pat, j)
            },
            None => forall|j: int| from <= j ==> !occurs_at(s, pat, j),
        },
    decreases s.len() + 1 - from,
{
    if from + pat.len() <= s.len() && !occurs_at(s, pat, from) {
        lemma_find_from(s, pat, from + 1);
    }
}

pub proof fn lemma_occurs_iff_found<T>(s: Seq<T>, pat: Seq<T>)
    ensures
        occurs(s, pat) <==> find(s, pat) is Some,
{
    lemma_find_from(s, pat, 0);
    if occurs(s, pat) {
        let at = choose|at: int| occurs_at(s, pat, at);
        assert(occurs_at(s, pat, at));
    }
}

pub fn chars_at(cs: &[char], pat: &[char], at: usize) -> (r: bool)
    ensures
        r == occurs_at(cs@, pat@, at as int),
{
    if at > cs.len() || pat.len() > cs.len() - at {
        return false;
    }
    let r = same_chars(vstd::slice::slice_subrange(cs, at, at + pat.len()), pat);
    r
}

pub fn bytes_at(bs: &[u8], pat: &[u8], at: usize) -> (r: bool)
    ensures
        r == occurs_at(bs@, pat@, at as int),
{
    if at > bs.len() || pat.len() > bs.len() - at {
        return false;
    }
    let r = same_bytes(vstd::slice::slice_subrange(bs, at, at + pat.len()), pat);
    r
}

pub fn find_chars(cs: &[char], pat: &[char]) -> (r: Option<usize>)
    ensures
        match r {
            Some(i) => find(cs@, pat@) == Some(i as int),
            None => find(cs@, pat@) is None,
        },
        r matches Some(i) ==> i + pat@.len() <= cs@.len(),
{
    let mut i: usize = 0;
    while i <= cs.len() && pat.len() <= cs.len() - i
        invariant
            i <= cs@.len() + 1,
            find(cs@, pat@) == find_from(cs@, pat@, i as int),
        decreases cs.len() + 1 - i,
    {
        if chars_at(cs, pat, i) {
            return Some(i);
        }
        if i == cs.len() {
            assert(cs@.subrange(i as int, i as int) =~= pat@);
            return None;
        }
        i += 1;
    }
    None
}

pub fn contains_chars(cs: &[char], pat: &[char]) -> (r: bool)
    ensures
        r == occurs(cs@, pat@),
{
    proof {
        lemma_occurs_iff_found(cs@, pat@);
    }
    find_chars(cs, pat).is_some()
}

pub fn contains_text(s: &str, pat: &str) -> (r: bool)
    ensures
        r == occurs(s@, pat@),
{
    contains_chars(chars_of(s).as_slice(), chars_of(pat).as_slice())
}

pub fn starts_with(s: &str, pat: &str) -> (r: bool)
    ensures
        r == begins(s@, pat@),
{
    chars_at(chars_of(s).as_slice(), chars_of(pat).as_slice(), 0)
}

pub fn contains_bytes(bs: &[u8], pat: &[u8]) -> (r: bool)
    ensures
        r == occurs(bs@, pat@),
{
    let mut i: usize = 0;
    while i <= bs.len() && pat.len() <= bs.len() - i
        invariant
            i <= bs@.len() + 1,
            forall|j: int| 0 <= j < i ==> !occurs_at(bs@, pat@, j),
        decreases bs.len() + 1 - i,
    {
        if bytes_at(bs, pat, i) {
            return true;
        }
        if i == bs.len() {
            assert(bs@.subrange(i as int, i as int) =~= pat@);
            return false;
        }
        i += 1;
    }
    false
}

/// Whether a zero character stands in the text: C strings end there.
pub open spec fn has_zero(s: Seq<char>) -> bool {
    occurs(s, seq!['\0'])
}

pub fn contains_zero(s: &str) -> (r: bool)
    ensures
        r == has_zero(s@),
{
    let mut z: Vec<char> = Vec::new();
    z.push('\0');
    assert(z@ =~= seq!['\0']);
    let cs = chars_of(s);
    contains_chars(cs.as_slice(), z.as_slice())
}

// ------------------------------------------------------------------ trimming

pub open spec fn trim_start(s: Seq<char>) -> Seq<char>
    decreases s.len(),
{
    if s.len() > 0 && is_white(s.first()) {
        trim_start(s.drop_first())
    } else {
        s
    }
}

pub open spec fn trim_end(s: Seq<char>) -> Seq<char>
    decreases s.len(),
{
    if s.len() > 0 && is_white(s.last()) {
        trim_end(s.drop_last())
    } else {
        s
    }
}

/// `s` without leading and trailing white space.
pub open spec fn trimmed(s: Seq<char>) -> Seq<char> {
    trim_end(trim_start(s))
}

/// Where the text begins once leading white space is skipped.
pub fn skip_white(cs: &[char]) -> (r: usize)
    ensures
        r <= cs@.len(),
        cs@.skip(r as int) == trim_start(cs@),
        r < cs@.len() ==> !is_white(cs@[r as int]),
{
    let mut i: usize = 0;
    assert(cs@.skip(0) == cs@);
    while i < cs.len() && white(cs[i])
        invariant
            i <= cs@.len(),
            trim_start(cs@) == trim_start(cs@.skip(i as int)),
        decreases cs.len() - i,
    {
        assert(cs@.skip(i as int).drop_first() == cs@.skip(i + 1));
        i += 1;
    }
    i
}

/// The bounds of the text once white space on both sides is dropped.
pub fn trim_bounds(cs: &[char]) -> (r: (usize, usize))
    ensures
        r.0 <= r.1 <= cs@.len(),
        cs@.subrange(r.0 as int, r.1 as int) == trimmed(cs@),
{
    let lo = skip_white(cs);
    let mut hi: usize = cs.len();
    assert(cs@.skip(lo as int) == cs@.subrange(lo as int, hi as int));
    while hi > lo && white(cs[hi - 1])
        invariant
            lo <= hi <= cs@.len(),
            trimmed(cs@) == trim_end(cs@.subrange(lo as int, hi as int)),
        decreases hi,
    {
        assert(cs@.subrange(lo as int, hi as int).drop_last() == cs@.subrange(lo as int, hi - 1));
        hi -= 1;
    }
    (lo, hi)
}

pub fn trim_chars(cs: &[char]) -> (r: String)
    ensures
        r@ == trimmed(cs@),
{
    let (lo, hi) = trim_bounds(cs);
    text_of_range(cs, lo, hi)
}

pub fn trim(s: &str) -> (r: String)
    ensures
        r@ == trimmed(s@),
{
    trim_chars(chars_of(s).as_slice())
}

/// `s` without trailing white space.
pub fn trim_right(s: &str) -> (r: String)
    ensures
        r@ == trim_end(s@),
{
    let cs = chars_of(s);
    let mut hi: usize = cs.len();
    assert(cs@.subrange(0, hi as int) == cs@);
    while hi > 0 && white(cs[hi - 1])
        invariant
            hi <= cs@.len(),
            trim_end(cs@) == trim_end(cs@.subrange(0, hi as int)),
        decreases hi,
    {
        assert(cs@.subrange(0, hi as int).drop_last() == cs@.subrange(0, hi - 1));
        hi -= 1;
    }
    text_of_range(cs.as_slice(), 0, hi)
}

/// `s` without the leading characters `c`.
pub open spec fn strip_start(s: Seq<char>, c: char) -> Seq<char>
    decreases s.len(),
{
    if s.len() > 0 && s.first() == c {
        strip_start(s.drop_first(), c)
    } else {
        s
    }
}

pub open spec fn strip_end(s: Seq<char>, c: char) -> Seq<char>
    decreases s.len(),
{
    if s.len() > 0 && s.last() == c {
        strip_end(s.drop_last(), c)
    } else {
        s
    }
}

/// The text without the characters `c` at its ends, and then without white
/// space there.
pub fn strip_and_trim(s: &str, c: char) -> (r: String)
    ensures
        r@ == trimmed(strip_end(strip_start(s@, c), c)),
{
    let cs = chars_of(s);
    let mut lo: usize = 0;
    assert(cs@.skip(0) == cs@);
    while lo < cs.len() && cs[lo] == c
        invariant
            lo <= cs@.len(),
            strip_start(cs@, c) == strip_start(cs@.skip(lo as int), c),
        decreases cs.len() - lo,
    {
        assert(cs@.skip(lo as int).drop_first() == cs@.skip(lo + 1));
        lo += 1;
    }
    let mut hi: usize = cs.len();
    assert(cs@.skip(lo as int) == cs@.subrange(lo as int, hi as int));
    let ghost left = strip_start(cs@, c);
    assert(left == cs@.skip(lo as int));
    while hi > lo && cs[hi - 1] == c
        invariant
            lo <= hi <= cs@.len(),
            strip_end(left, c) == strip_end(cs@.subrange(lo as int, hi as int), c),
        decreases hi,
    {
        assert(cs@.subrange(lo as int, hi as int).drop_last() == cs@.subrange(lo as int, hi - 1));
        hi -= 1;
    }
    trim_chars(vstd::slice::slice_subrange(cs.as_slice(), lo, hi))
}

/// `s` without leading white space.
pub fn trim_left(s: &[char]) -> (r: Vec<char>)
    ensures
        r@ == trim_start(s@),
{
    let lo = skip_white(s);
    assert(s@.skip(lo as int) == s@.subrange(lo as int, s@.len() as int));
    vstd::slice::slice_to_vec(vstd::slice::slice_subrange(s, lo, s.len()))
}

/// A character that leaves ink: of the printing ASCII characters, or behind the
/// last of the spaces.
pub open spec fn is_inked(c: char) -> bool {
    '\u{20}' < c < '\u{7f}' || '\u{3000}' < c
}

/// Text that begins and ends with ink.
pub open spec fn has_inked_ends(t: Seq<char>) -> bool {
    t.len() > 0 && is_inked(t.first()) && is_inked(t.last())
}

/// What lies around a text in files: spaces, tabs and line ends.
pub open spec fn is_blank(t: Seq<char>) -> bool {
    forall|i: int|
        0 <= i < t.len() ==> (#[trigger] t[i] == ' ' || t[i] == '\t' || t[i] == '\n' || t[i] == '\r')
}

pub proof fn lemma_ink_is_not_white(c: char)
    requires
        is_inked(c),
    ensures
        !is_white(c),
{
}

proof fn lemma_trim_start_blank(before: Seq<char>, t: Seq<char>)
    requires
        is_blank(before),
        t.len() > 0 ==> is_inked(t.first()),
    ensures
        trim_start(before + t) == t,
    decreases before.len(),
{
    if before.len() > 0 {
        assert((before + t).first() == before[0]);
        assert((before + t).drop_first() =~= before.drop_first() + t);
        lemma_trim_start_blank(before.drop_first(), t);
    } else {
        assert(before + t =~= t);
        if t.len() > 0 {
            lemma_ink_is_not_white(t.first());
        }
    }
}

proof fn lemma_trim_end_blank(t: Seq<char>, after: Seq<char>)
    requires
        is_blank(after),
        t.len() > 0 ==> is_inked(t.last()),
    ensures
        trim_end(t + after) == t,
    decreases after.len(),
{
    if after.len() > 0 {
        assert((t + after).last() == after[after.len() - 1]);
        assert((t + after).drop_last() =~= t + after.drop_last());
        lemma_trim_end_blank(t, after.drop_last());
    } else {
        assert(t + after =~= t);
        if t.len() > 0 {
            lemma_ink_is_not_white(t.last());
        }
    }
}

/// Trimming takes the white space around a text, and nothing of the text.
pub proof fn law_trimmed_is_the_text(before: Seq<char>, t: Seq<char>, after: Seq<char>)
    requires
        is_blank(before),
        has_inked_ends(t),
        is_blank(after),
    ensures
        trimmed(before + t + after) == t,
        trimmed(t) == t,
        trimmed(before) == Seq::<char>::empty(),
{
    assert(before + t + after =~= before + (t + after));
    lemma_trim_start_blank(before, t + after);
    lemma_trim_end_blank(t, after);
    lemma_trim_start_blank(Seq::empty(), t);
    lemma_trim_end_blank(t, Seq::empty());
    assert(Seq::<char>::empty() + t =~= t);
    assert(t + Seq::<char>::empty() =~= t);
    lemma_trim_start_blank(before, Seq::empty());
    assert(before + Seq::<char>::empty() =~= before);
}

/// Trimming at the left takes the blanks in front, and nothing behind the first
/// character with ink.
pub proof fn law_leading_blanks_go(before: Seq<char>, t: Seq<char>)
    requires
        is_blank(before),
        t.len() > 0 ==> is_inked(t.first()),
    ensures
        trim_start(before + t) == t,
{
    lemma_trim_start_blank(before, t);
}

proof fn lemma_strip_keeps(t: Seq<char>, c: char)
    requires
        has_inked_ends(t),
        !is_inked(c),
    ensures
        strip_end(strip_start(t, c), c) == t,
{
}

/// A text with ink at its ends is what stripping and trimming leave of it.
pub proof fn law_clean_text_stays(t: Seq<char>, c: char)
    requires
        has_inked_ends(t),
        !is_inked(c),
    ensures
        trimmed(strip_end(strip_start(t, c), c)) == t,
{
    lemma_strip_keeps(t, c);
    law_trimmed_is_the_text(Seq::empty(), t, Seq::empty());
}

// ----------------------------------------------------------------- splitting

/// The pieces of `s` between the characters `sep`; always at least one piece.
pub open spec fn split_on(s: Seq<char>, sep: char) -> Seq<Seq<char>>
    decreases s.len(),
{
    if s.len() == 0 {
        seq![s]
    } else {
        let before = split_on(s.drop_last(), sep);
        if s.last() == sep {
            before.push(Seq::empty())
        } else {
            before.drop_last().push(before.last().push(s.last()))
        }
    }
}

pub proof fn lemma_split_nonempty(s: Seq<char>, sep: char)
    ensures
        split_on(s, sep).len() > 0,
    decreases s.len(),
{
    if s.len() > 0 {
        lemma_split_nonempty(s.drop_last(), sep);
    }
}

pub fn split(cs: &[char], sep: char) -> (r: Vec<String>)
    ensures
        texts(r@) == split_on(cs@, sep),
        r@.len() > 0,
{
    let mut out: Vec<String> = Vec::new();
    let mut cur = String::new();
    let mut i: usize = 0;
    assert(cs@.take(0) == Seq::<char>::empty());
    assert(texts(out@).push(cur@) =~= split_on(cs@.take(0), sep));
    while i < cs.len()
        invariant
            i <= cs@.len(),
            texts(out@).push(cur@) == split_on(cs@.take(i as int), sep),
        decreases cs.len() - i,
    {
        let ghost before = texts(out@).push(cur@);
        assert(cs@.take(i + 1).drop_last() == cs@.take(i as int));
        assert(before.drop_last() =~= texts(out@));
        if cs[i] == sep {
            let ghost o = out@;
            out.push(cur);
            assert(texts(out@) =~= before);
            cur = String::new();
        } else {
            cur.push(cs[i]);
        }
        i += 1;
    }
    assert(cs@.take(cs@.len() as int) == cs@);
    let ghost o = texts(out@).push(cur@);
    out.push(cur);
    assert(texts(out@) =~= o);
    out
}

/// A line without the carriage return in front of its line feed.
pub open spec fn without_cr(s: Seq<char>) -> Seq<char> {
    if s.len() > 0 && s.last() == '\r' {
        s.drop_last()
    } else {
        s
    }
}

/// The lines of `s`: the pieces between line feeds, where the piece after the
/// last line feed counts only if it is not empty, and a line that a line feed
/// ends loses one carriage return in front of it.
pub open spec fn lines_of(s: Seq<char>) -> Seq<Seq<char>> {
    let pieces = split_on(s, '\n');
    let ended = pieces.drop_last().map_values(|p: Seq<char>| without_cr(p));
    if pieces.last().len() == 0 {
        ended
    } else {
        ended.push(pieces.last())
    }
}

pub fn lines(s: &str) -> (r: Vec<String>)
    ensures
        texts(r@) == lines_of(s@),
{
    let cs = chars_of(s);
    let pieces = split(cs.as_slice(), '\n');
    let ghost all = split_on(s@, '\n');
    let mut out: Vec<String> = Vec::new();
    let mut i: usize = 0;
    let n: usize = pieces.len();
    while i + 1 < n
        invariant
            n == pieces@.len(),
            n > 0,
            i + 1 <= n,
            texts(pieces@) == all,
            texts(out@) =~= all.drop_last().map_values(|p: Seq<char>| without_cr(p)).take(i as int),
        decreases n - i,
    {
        let line = chars_of(pieces[i].as_str());
        assert(line@ == all[i as int]);
        let ghost o = out@;
        if line.len() > 0 && line[line.len() - 1] == '\r' {
            let t = text_of_range(line.as_slice(), 0, line.len() - 1);
            assert(t@ =~= without_cr(line@));
            out.push(t);
        } else {
            out.push(text_of(line.as_slice()));
        }
        assert(texts(out@) =~= texts(o).push(without_cr(all[i as int])));
        i += 1;
    }
    let ghost ended = all.drop_last().map_values(|p: Seq<char>| without_cr(p));
    assert(ended.take(ended.len() as int) =~= ended);
    assert(pieces@[n - 1]@ == all.last());
    let ghost o = out@;
    let last = chars_of(pieces[n - 1].as_str());
    if last.len() > 0 {
        out.push(text_of(last.as_slice()));
        assert(texts(out@) =~= texts(o).push(all.last()));
    }
    out
}

/// The longest prefix of digits.
pub open spec fn leading_digits(s: Seq<char>) -> Seq<char>
    decreases s.len(),
{
    if s.len() > 0 && is_digit(s.first()) {
        seq![s.first()] + leading_digits(s.drop_first())
    } else {
        Seq::empty()
    }
}

pub proof fn lemma_leading_digits(s: Seq<char>)
    ensures
        all_digits(leading_digits(s)),
        leading_digits(s).len() <= s.len(),
        leading_digits(s) == s.take(leading_digits(s).len() as int),
    decreases s.len(),
{
    if s.len() > 0 && is_digit(s.first()) {
        lemma_leading_digits(s.drop_first());
        let d = leading_digits(s.drop_first());
        assert(leading_digits(s) =~= s.take(leading_digits(s).len() as int)) by {
            assert forall|i: int| 0 <= i < leading_digits(s).len() implies leading_digits(s)[i] == s[i] by {
                if i > 0 {
                    assert(d[i - 1] == s.drop_first().take(d.len() as int)[i - 1]);
                }
            }
        }
    } else {
        assert(s.take(0) =~= Seq::<char>::empty());
    }
}

/// How many digits stand at `from`.
pub fn digit_run(cs: &[char], from: usize) -> (r: usize)
    requires
        from <= cs@.len(),
    ensures
        from + r <= cs@.len(),
        cs@.subrange(from as int, from + r) == leading_digits(cs@.skip(from as int)),
        r as nat == leading_digits(cs@.skip(from as int)).len(),
{
    let mut n: usize = 0;
    let ghost tail = cs@.skip(from as int);
    assert(tail.skip(0) == tail);
    while n < cs.len() - from && digit(cs[from + n])
        invariant
            from + n <= cs@.len(),
            tail == cs@.skip(from as int),
            leading_digits(tail) =~= cs@.subrange(from as int, from + n) + leading_digits(
                tail.skip(n as int),
            ),
        decreases cs.len() - from - n,
    {
        assert(tail.skip(n as int).drop_first() == tail.skip(n + 1));
        n += 1;
    }
    n
}

// ------------------------------------------------------------------- numbers

pub open spec fn digit_char(d: nat) -> char
    recommends
        d < 10,
{
    (48 + d) as u8 as char
}

/// Decimal notation.
pub open spec fn dec_text(n: nat) -> Seq<char>
    decreases n,
{
    if n < 10 {
        seq![digit_char(n)]
    } else {
        dec_text(n / 10).push(digit_char(n % 10))
    }
}

pub open spec fn int_text(n: int) -> Seq<char> {
    if n < 0 {
        seq!['-'] + dec_text((-n) as nat)
    } else {
        dec_text(n as nat)
    }
}

pub fn dec(n: u64) -> (r: String)
    ensures
        r@ == dec_text(n as nat),
    decreases n,
{
    if n < 10 {
        let mut s = String::new();
        s.push((48 + n as u8) as char);
        assert(s@ =~= dec_text(n as nat));
        s
    } else {
        let mut s = dec(n / 10);
        s.push((48 + (n % 10) as u8) as char);
        s
    }
}

pub fn dec_i64(n: i64) -> (r: String)
    ensures
        r@ == int_text(n as int),
{
    if n >= 0 {
        dec(n as u64)
    } else {
        let mut s = String::new();
        s.push('-');
        let m: u64 = if n == i64::MIN {
            0x8000_0000_0000_0000
        } else {
            (-n) as u64
        };
        let d = dec(m);
        s.append(d.as_str());
        assert(s@ =~= int_text(n as int));
        s
    }
}

pub open spec fn hex_digit(d: nat, upper: bool) -> char {
    if d < 10 {
        (48 + d) as u8 as char
    } else if upper {
        (55 + d) as u8 as char
    } else {
        (87 + d) as u8 as char
    }
}

/// The lowest `width` hexadecimal digits of `n`, most significant first.
pub open spec fn hex_text(n: nat, width: nat, upper: bool) -> Seq<char>
    decreases width,
{
    if width == 0 {
        Seq::empty()
    } else {
        hex_text(n / 16, (width - 1) as nat, upper).push(hex_digit(n % 16, upper))
    }
}

pub fn hex_char(d: u8, upper: bool) -> (r: char)
    requires
        d < 16,
    ensures
        r == hex_digit(d as nat, upper),
{
    if d < 10 {
        (48 + d) as char
    } else if upper {
        (55 + d) as char
    } else {
        (87 + d) as char
    }
}

/// Fixed-width hexadecimal notation.
pub fn hex_fixed(n: u64, width: usize, upper: bool) -> (r: String)
    ensures
        r@ == hex_text(n as nat, width as nat, upper),
    decreases width,
{
    if width == 0 {
        String::new()
    } else {
        let mut s = hex_fixed(n / 16, width - 1, upper);
        s.push(hex_char((n % 16) as u8, upper));
        s
    }
}

pub open spec fn bool_text(b: bool) -> Seq<char> {
    if b {
        "true"@
    } else {
        "false"@
    }
}

pub fn yes_no(b: bool) -> (r: &'static str)
    ensures
        r@ == bool_text(b),
{
    if b {
        "true"
    } else {
        "false"
    }
}

/// The number that a run of decimal digits stands for.
pub open spec fn digits_value(s: Seq<char>) -> nat
    decreases s.len(),
{
    if s.len() == 0 {
        0
    } else {
        digits_value(s.drop_last()) * 10 + ((s.last() as u32 - 48) as nat)
    }
}

/// A run of digits as a number, unless it is larger than `limit`.
pub fn parse_digits(cs: &[char], limit: u64) -> (r: Option<u64>)
    requires
        all_digits(cs@),
    ensures
        match r {
            Some(v) => v == digits_value(cs@) && v <= limit,
            None => digits_value(cs@) > limit,
        },
{
    let mut v: u64 = 0;
    let mut i: usize = 0;
    assert(cs@.take(0) == Seq::<char>::empty());
    while i < cs.len()
        invariant
            i <= cs@.len(),
            all_digits(cs@),
            v == digits_value(cs@.take(i as int)),
            v <= limit,
        decreases cs.len() - i,
    {
        assert(is_digit(cs@[i as int]));
        let d: u64 = cs[i] as u64 - 48;
        assert(cs@.take(i + 1).drop_last() == cs@.take(i as int));
        assert(digits_value(cs@.take(i + 1)) == v * 10 + d);
        proof {
            lemma_digits_value_monotone(cs@, i + 1);
        }
        if v > limit / 10 {
            assert(v * 10 >= (limit / 10 + 1) * 10);
            return None;
        }
        if d > limit || v * 10 > limit - d {
            return None;
        }
        v = v * 10 + d;
        i += 1;
    }
    assert(cs@.take(cs@.len() as int) == cs@);
    Some(v)
}

proof fn lemma_digits_value_monotone(s: Seq<char>, k: int)
    requires
        0 <= k <= s.len(),
        all_digits(s),
    ensures
        digits_value(s.take(k)) <= digits_value(s),
    decreases s.len(),
{
    if k < s.len() {
        assert(is_digit(s.last()));
        lemma_digits_value_monotone(s.drop_last(), k);
        assert(s.drop_last().take(k) == s.take(k));
    } else {
        assert(s.take(k) == s);
    }
}

} // verus!
