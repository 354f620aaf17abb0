//! Decimal numerals: printing a length as digit characters and parsing a
//! digit string back, as the `content-length` header needs.

use vstd::prelude::*;

verus! {

/// The character of one decimal digit value.
pub open spec fn digit_char(d: int) -> char {
    ((48 + d) as u8) as char
}

/// The decimal numeral of `n`, most significant digit first, no sign and no
/// leading zeros (the numeral of zero is `"0"`).
pub open spec fn dec_chars(n: nat) -> Seq<char>
    decreases n,
{
    if n < 10 {
        seq![digit_char(n as int)]
    } else {
        dec_chars(n / 10).push(digit_char((n % 10) as int))
    }
}

/// Whether `c` is a decimal digit.
pub open spec fn is_digit(c: char) -> bool {
    '0' <= c && c <= '9'
}

/// The value of one digit character.
pub open spec fn digit_val(c: char) -> int {
    c as int - 48
}

/// Whether `s` consists of decimal digits only.
pub open spec fn all_digits(s: Seq<char>) -> bool {
    forall|i: int| 0 <= i < s.len() ==> is_digit(s[i])
}

/// The value of a digit string, read in base ten.
pub open spec fn dec_val(s: Seq<char>) -> int
    decreases s.len(),
{
    if s.len() == 0 {
        0
    } else {
        dec_val(s.drop_last()) * 10 + digit_val(s.last())
    }
}

/// A digit string has a non-negative value.
pub proof fn lemma_dec_val_nonneg(s: Seq<char>)
    requires
        all_digits(s),
    ensures
        dec_val(s) >= 0,
    decreases s.len(),
{
    if s.len() > 0 {
        assert(all_digits(s.drop_last())) by {
            assert(forall|i: int|
                0 <= i < s.len() - 1 ==> s.drop_last()[i] == s[i] && is_digit(s[i]));
        }
        lemma_dec_val_nonneg(s.drop_last());
    }
}

/// Reading one more digit multiplies the value by ten and adds the digit.
pub proof fn lemma_dec_val_step(s: Seq<char>, i: int)
    requires
        0 <= i < s.len(),
    ensures
        dec_val(s.take(i + 1)) == dec_val(s.take(i)) * 10 + digit_val(s[i]),
{
    assert(s.take(i + 1).drop_last() =~= s.take(i));
    assert(s.take(i + 1).last() == s[i]);
}

/// The value of a prefix never exceeds the value of the whole digit string.
pub proof fn lemma_dec_val_prefix(s: Seq<char>, i: int)
    requires
        all_digits(s),
        0 <= i <= s.len(),
    ensures
        dec_val(s.take(i)) <= dec_val(s),
    decreases s.len() - i,
{
    if i < s.len() {
        lemma_dec_val_step(s, i);
        assert(all_digits(s.take(i))) by {
            assert(forall|k: int| 0 <= k < i ==> s.take(i)[k] == s[k] && is_digit(s[k]));
        }
        lemma_dec_val_nonneg(s.take(i));
        assert(dec_val(s.take(i)) <= dec_val(s.take(i + 1)));
        lemma_dec_val_prefix(s, i + 1);
    } else {
        assert(s.take(i) =~= s);
    }
}

/// A decimal numeral consists of digits and reads back as the number it
/// prints.
pub proof fn lemma_dec_chars_val(n: nat)
    ensures
        all_digits(dec_chars(n)),
        dec_val(dec_chars(n)) == n,
        dec_chars(n).len() >= 1,
    decreases n,
{
    if n < 10 {
        assert(dec_chars(n) =~= seq![digit_char(n as int)]);
        assert(dec_val(dec_chars(n)) == dec_val(seq![digit_char(n as int)].drop_last()) * 10
            + digit_val(digit_char(n as int)));
        assert(seq![digit_char(n as int)].drop_last() =~= Seq::<char>::empty());
    } else {
        lemma_dec_chars_val(n / 10);
        let s = dec_chars(n);
        assert(s.drop_last() =~= dec_chars(n / 10));
        assert(s.last() == digit_char((n % 10) as int));
        assert(digit_val(digit_char((n % 10) as int)) == n % 10);
        assert(dec_val(s) == (n / 10) * 10 + n % 10);
        assert((n / 10) * 10 + n % 10 == n) by (nonlinear_arith);
        assert(forall|i: int| 0 <= i < s.len() - 1 ==> s[i] == dec_chars(n / 10)[i]);
    }
}

/// The numerals of the two status codes this engine speaks, written out.
pub proof fn lemma_status_code_chars()
    ensures
        dec_chars(200) == seq!['2', '0', '0'],
        dec_chars(404) == seq!['4', '0', '4'],
{
    assert(dec_chars(2) =~= seq![digit_char(2)]);
    assert(dec_chars(20) =~= dec_chars(2).push(digit_char(0)));
    assert(dec_chars(200) =~= dec_chars(20).push(digit_char(0)));
    assert(dec_chars(200) =~= seq!['2', '0', '0']);
    assert(dec_chars(4) =~= seq![digit_char(4)]);
    assert(dec_chars(40) =~= dec_chars(4).push(digit_char(0)));
    assert(dec_chars(404) =~= dec_chars(40).push(digit_char(4)));
    assert(dec_chars(404) =~= seq!['4', '0', '4']);
}

/// Appends the decimal numeral of `n`, as bytes, to `out`.
pub(crate) fn push_dec(out: &mut Vec<u8>, n: usize)
    ensures
        final(out)@ == old(out)@ + vstd::utf8::encode_utf8(dec_chars(n as nat)),
    decreases n,
{
    if n >= 10 {
        push_dec(out, n / 10);
    }
    let d: u8 = 48 + (n % 10) as u8;
    out.push(d);
    proof {
        lemma_dec_chars_ascii(n as nat);
        if n < 10 {
            assert(vstd::utf8::encode_utf8(dec_chars(n as nat)) =~= seq![d]);
        } else {
            lemma_dec_chars_ascii((n / 10) as nat);
            assert(vstd::utf8::encode_utf8(dec_chars(n as nat)) =~= vstd::utf8::encode_utf8(
                dec_chars((n / 10) as nat),
            ) + seq![d]);
        }
        assert(out@ =~= old(out)@ + vstd::utf8::encode_utf8(dec_chars(n as nat)));
    }
}

/// The bytes of a decimal numeral are its digit characters, one byte each.
pub proof fn lemma_dec_chars_ascii(n: nat)
    ensures
        vstd::utf8::encode_utf8(dec_chars(n)) =~= dec_chars(n).map_values(|c: char| c as u8),
        vstd::utf8::is_ascii_chars(dec_chars(n)),
    decreases n,
{
    lemma_dec_chars_val(n);
    let s = dec_chars(n);
    assert(vstd::utf8::is_ascii_chars(s)) by {
        assert(forall|i: int| 0 <= i < s.len() ==> is_digit(s[i]) && (s[i] as nat) < 128);
    }
    vstd::utf8::is_ascii_chars_encode_utf8(s);
}

/// Parses a string as a decimal length: defined exactly when the string is
/// non-empty, all digits, and its value fits in `usize`.
pub(crate) fn parse_dec(s: &str) -> (r: Option<usize>)
    ensures
        r is Some <==> s@.len() > 0 && all_digits(s@) && dec_val(s@) <= usize::MAX,
        r matches Some(v) ==> v == dec_val(s@),
{
    let n = s.unicode_len();
    if n == 0 {
        return None;
    }
    let mut acc: usize = 0;
    let mut i: usize = 0;
    while i < n
        invariant
            0 <= i <= n,
            n == s@.len(),
            forall|k: int| 0 <= k < i ==> is_digit(s@[k]),
            acc == dec_val(s@.take(i as int)),
        decreases n - i,
    {
        let c = s.get_char(i);
        let u = c as u32;
        if u < 48 || u > 57 {
            proof {
                assert(!is_digit(s@[i as int]));
            }
            return None;
        }
        let d: usize = (u - 48) as usize;
        proof {
            lemma_dec_val_step(s@, i as int);
        }
        if acc > (usize::MAX - d) / 10 {
            proof {
                assert(acc * 10 + d > usize::MAX) by (nonlinear_arith)
                    requires
                        acc > (usize::MAX - d) / 10,
                        d <= usize::MAX,
                ;
                if all_digits(s@) {
                    lemma_dec_val_prefix(s@, i + 1);
                    assert(dec_val(s@) > usize::MAX);
                }
            }
            return None;
        }
        proof {
            assert(acc * 10 + d <= usize::MAX) by (nonlinear_arith)
                requires
                    acc <= (usize::MAX - d) / 10,
                    d <= usize::MAX,
            ;
        }
        acc = acc * 10 + d;
        i = i + 1;
    }
    proof {
        assert(s@.take(n as int) =~= s@);
    }
    Some(acc)
}

} // verus!
