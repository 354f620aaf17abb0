//! Byte- and character-level utilities shared by the codec: searching a
//! buffer, taking one CRLF-terminated line, ASCII case folding, and the
//! conversions between byte buffers and strings.

use vstd::prelude::*;
use vstd::utf8::{decode_utf8, valid_utf8};

verus! {

/// Line feed, the byte that ends every wire line.
pub const LF: u8 = 10;

/// Carriage return, the byte before the line feed in a wire line ending.
pub const CR: u8 = 13;

/// The space byte separating the tokens of a request or status line.
pub const SP: u8 = 32;

/// Horizontal tab, optional whitespace before a header value.
pub const HTAB: u8 = 9;

/// The colon byte separating a header name from its value.
pub const COLON: u8 = 58;

/// ASCII case folding of one character: `'A'..='Z'` map to the corresponding
/// lower-case letter, everything else is unchanged.
pub open spec fn lower_char(c: char) -> char {
    if 'A' <= c && c <= 'Z' {
        ((c as u8) + 32) as char
    } else {
        c
    }
}

/// ASCII case folding of a character sequence.
pub open spec fn lower(s: Seq<char>) -> Seq<char> {
    s.map_values(|c: char| lower_char(c))
}

/// The UTF-8 bytes of an ASCII character sequence: one byte per character,
/// each the character's code.
pub proof fn lemma_ascii_bytes(s: Seq<char>)
    requires
        forall|i: int| 0 <= i < s.len() ==> '\0' <= #[trigger] s[i] && s[i] <= '\u{7f}',
    ensures
        vstd::utf8::encode_utf8(s).len() == s.len(),
        forall|i: int|
            0 <= i < s.len() ==> #[trigger] vstd::utf8::encode_utf8(s)[i] == s[i] as u8,
{
    assert(vstd::utf8::is_ascii_chars(s));
    vstd::utf8::is_ascii_chars_encode_utf8(s);
    assert(vstd::utf8::encode_utf8(s) =~= Seq::new(s.len(), |i: int| s[i] as u8));
}

/// Case folding changes nothing on an already folded sequence.
pub proof fn lemma_lower_idempotent(s: Seq<char>)
    ensures
        lower(lower(s)) == lower(s),
{
    assert(lower(lower(s)) =~= lower(s)) by {
        assert(forall|i: int|
            0 <= i < s.len() ==> lower_char(#[trigger] lower_char(s[i])) == lower_char(s[i]));
    }
}

/// Relies on str::to_ascii_lowercase: it maps `'A'..='Z'` to the
/// corresponding lower-case letter and leaves every other character
/// unchanged.
#[verifier::external_body]
pub(crate) fn ascii_lowercase(s: &str) -> (r: String)
    ensures
        r@ == lower(s@),
{
    s.to_ascii_lowercase()
}

/// Relies on String::from_utf8: it succeeds exactly on valid UTF-8 input and
/// returns the characters that the bytes encode, as vstd's UTF-8 model
/// states them.
#[verifier::external_body]
pub(crate) fn string_from_utf8(v: Vec<u8>) -> (r: Option<String>)
    ensures
        r is Some <==> valid_utf8(v@),
        r matches Some(s) ==> s@ == decode_utf8(v@),
{
    String::from_utf8(v).ok()
}

/// `i` is the first position at or after `from` where `b` occurs in `s`.
pub open spec fn is_first_at(s: Seq<u8>, from: int, b: u8, i: int) -> bool {
    &&& from <= i < s.len()
    &&& s[i] == b
    &&& forall|k: int| from <= k < i ==> s[k] != b
}

/// The first position at or after `from` where `b` occurs in `s`, if any.
pub open spec fn spec_find(s: Seq<u8>, from: int, b: u8) -> Option<int> {
    if exists|i: int| is_first_at(s, from, b, i) {
        Some(choose|i: int| is_first_at(s, from, b, i))
    } else {
        None
    }
}

/// A first occurrence is unique, so `spec_find` is pinned down by the
/// predicate `is_first_at`.
pub proof fn lemma_first_at_unique(s: Seq<u8>, from: int, b: u8, i: int, j: int)
    requires
        is_first_at(s, from, b, i),
        is_first_at(s, from, b, j),
    ensures
        i == j,
{
    if i < j {
        assert(s[i] != b);
    }
    if j < i {
        assert(s[j] != b);
    }
}

/// `spec_find` returns exactly the witness of `is_first_at`.
pub proof fn lemma_find_some(s: Seq<u8>, from: int, b: u8, i: int)
    requires
        is_first_at(s, from, b, i),
    ensures
        spec_find(s, from, b) == Some(i),
{
    let j = choose|j: int| is_first_at(s, from, b, j);
    lemma_first_at_unique(s, from, b, i, j);
}

/// Finds the first occurrence of `b` in `s` at or after `from`.
pub(crate) fn find_byte(s: &[u8], from: usize, b: u8) -> (r: Option<usize>)
    requires
        from <= s@.len(),
    ensures
        match r {
            Some(i) => is_first_at(s@, from as int, b, i as int) && spec_find(
                s@,
                from as int,
                b,
            ) == Some(i as int),
            None => spec_find(s@, from as int, b) is None,
        },
{
    let mut i = from;
    while i < s.len()
        invariant
            from <= i <= s@.len(),
            forall|k: int| from <= k < i ==> s@[k] != b,
        decreases s@.len() - i,
    {
        if s[i] == b {
            proof {
                lemma_find_some(s@, from as int, b, i as int);
            }
            return Some(i);
        }
        i = i + 1;
    }
    proof {
        if exists|j: int| is_first_at(s@, from as int, b, j) {
            let j = choose|j: int| is_first_at(s@, from as int, b, j);
            assert(s@[j] != b);
        }
    }
    None
}

/// The outcome of taking one line from a buffer.
pub enum LineStep {
    /// No line feed in the buffer yet: the line is still incomplete.
    More,
    /// A line feed not preceded by a carriage return: a malformed line.
    Bad,
    /// One complete line: its content without the CRLF, and the position
    /// just past the line feed.
    Line(Seq<u8>, int),
}

/// Takes one CRLF-terminated line from `s` starting at `from`.
pub open spec fn spec_take_line(s: Seq<u8>, from: int) -> LineStep {
    match spec_find(s, from, LF) {
        Option::None => LineStep::More,
        Option::Some(i) => {
            if i >= from + 1 && s[i - 1] == CR {
                LineStep::Line(s.subrange(from, i - 1), i + 1)
            } else {
                LineStep::Bad
            }
        },
    }
}

/// A taken line sits inside the buffer: it ends past `from` and within `s`,
/// and its content is the bytes between `from` and its CRLF.
pub proof fn lemma_take_line_bounds(s: Seq<u8>, from: int)
    requires
        0 <= from <= s.len(),
    ensures
        spec_take_line(s, from) matches LineStep::Line(c, n) ==> from + 2 <= n <= s.len()
            && c == s.subrange(from, n - 2),
{
    if exists|i: int| is_first_at(s, from, LF, i) {
        let i = choose|i: int| is_first_at(s, from, LF, i);
        assert(is_first_at(s, from, LF, i));
    }
}

/// The executable mirror of [`LineStep`], carrying the line content.
pub enum TakenLine {
    More,
    Bad,
    Line(Vec<u8>, usize),
}

/// What a [`TakenLine`] stands for.
pub open spec fn taken_line_view(r: TakenLine) -> LineStep {
    match r {
        TakenLine::More => LineStep::More,
        TakenLine::Bad => LineStep::Bad,
        TakenLine::Line(content, next) => LineStep::Line(content@, next as int),
    }
}

/// Takes one CRLF-terminated line from `s` starting at `from`: the content
/// without its CRLF, and the position just past it.
pub(crate) fn take_line(s: &[u8], from: usize) -> (r: TakenLine)
    requires
        from <= s@.len(),
    ensures
        taken_line_view(r) == spec_take_line(s@, from as int),
{
    match find_byte(s, from, LF) {
        None => TakenLine::More,
        Some(i) => {
            if i > from && s[i - 1] == CR {
                let content = vstd::slice::slice_to_vec(vstd::slice::slice_subrange(s, from, i - 1));
                TakenLine::Line(content, i + 1)
            } else {
                TakenLine::Bad
            }
        },
    }
}

/// Compares two byte slices for equality of their contents.
pub(crate) fn bytes_eq(a: &[u8], b: &[u8]) -> (r: bool)
    ensures
        r == (a@ == b@),
{
    if a.len() != b.len() {
        return false;
    }
    let mut i: usize = 0;
    while i < a.len()
        invariant
            0 <= i <= a@.len(),
            a@.len() == b@.len(),
            forall|k: int| 0 <= k < i ==> a@[k] == b@[k],
        decreases a@.len() - i,
    {
        if a[i] != b[i] {
            return false;
        }
        i = i + 1;
    }
    proof {
        assert(a@ =~= b@);
    }
    true
}

/// Compares two string slices for equality of their characters.
pub(crate) fn str_eq(a: &str, b: &str) -> (r: bool)
    ensures
        r == (a@ == b@),
{
    let r = bytes_eq(a.as_bytes(), b.as_bytes());
    proof {
        vstd::utf8::encode_utf8_decode_utf8(a@);
        vstd::utf8::encode_utf8_decode_utf8(b@);
    }
    r
}

/// Appends the bytes of `s` to `out`.
pub(crate) fn push_bytes(out: &mut Vec<u8>, s: &[u8])
    ensures
        final(out)@ == old(out)@ + s@,
{
    let mut i: usize = 0;
    while i < s.len()
        invariant
            0 <= i <= s@.len(),
            out@ == old(out)@ + s@.subrange(0, i as int),
        decreases s@.len() - i,
    {
        out.push(s[i]);
        proof {
            assert(out@ =~= old(out)@ + s@.subrange(0, i + 1));
        }
        i = i + 1;
    }
    proof {
        assert(s@.subrange(0, s@.len() as int) =~= s@);
    }
}

/// Appends the UTF-8 bytes of `s` to `out`.
pub(crate) fn push_str(out: &mut Vec<u8>, s: &str)
    ensures
        final(out)@ == old(out)@ + vstd::utf8::encode_utf8(s@),
{
    push_bytes(out, s.as_bytes());
}

} // verus!
