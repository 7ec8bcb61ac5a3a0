//! Building strings one character at a time.

use vstd::prelude::*;

verus! {

/// `String::push` of the standard library: the string afterwards is the
/// string before with `ch` appended. Taken from its documentation, not proved.
pub assume_specification[ String::push ](s: &mut String, ch: char)
    ensures
        final(s)@ == old(s)@.push(ch),
;

/// The characters that stand for a sequence of bytes, one character per
/// byte, each with the byte's value as its code point.
pub open spec fn bytes_as_chars(bytes: Seq<u8>) -> Seq<char> {
    Seq::new(bytes.len(), |i: int| bytes[i] as char)
}

/// The character of a decimal digit `0..=9`.
pub open spec fn digit_char(d: nat) -> char {
    ((48 + d) as u8) as char
}

/// The decimal notation of a natural number, without leading zeros.
pub open spec fn decimal_digits(n: nat) -> Seq<char>
    decreases n,
{
    if n < 10 {
        seq![digit_char(n)]
    } else {
        decimal_digits(n / 10).push(digit_char(n % 10))
    }
}

/// The string made of the bytes `text[start..end]`, read as characters.
pub fn bytes_to_string(text: &[u8], start: usize, end: usize) -> (r: String)
    requires
        start <= end <= text@.len(),
    ensures
        r@ == bytes_as_chars(text@.subrange(start as int, end as int)),
{
    let mut out = String::new();
    let mut k: usize = start;
    while k < end
        invariant
            start <= k <= end <= text@.len(),
            out@ == bytes_as_chars(text@.subrange(start as int, k as int)),
        decreases end - k,
    {
        out.push(text[k] as char);
        assert(out@ =~= bytes_as_chars(text@.subrange(start as int, k + 1)));
        k += 1;
    }
    out
}

/// Appends the decimal notation of `value` to `out`.
pub fn push_decimal(out: &mut String, value: u8)
    ensures
        final(out)@ == old(out)@ + decimal_digits(value as nat),
{
    let ghost before = out@;
    if value >= 100 {
        out.push((48 + value / 100) as char);
    }
    if value >= 10 {
        out.push((48 + (value / 10) % 10) as char);
    }
    out.push((48 + value % 10) as char);
    proof {
        let n = value as nat;
        reveal_with_fuel(decimal_digits, 3);
        if n >= 100 {
            assert(n / 10 / 10 == n / 100);
            assert(decimal_digits(n) =~= seq![
                digit_char(n / 100),
                digit_char((n / 10) % 10),
                digit_char(n % 10),
            ]);
        } else if n >= 10 {
            assert(decimal_digits(n) =~= seq![digit_char(n / 10), digit_char(n % 10)]);
            assert((n / 10) % 10 == n / 10);
        }
        assert(out@ =~= before + decimal_digits(n));
    }
}

} // verus!
