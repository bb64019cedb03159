//! Verified text rendering: decimal numbers, uppercase hex escapes, and the
//! concatenation helpers the upload engine uses to compose messages.

use vstd::prelude::*;

verus! {

/// The one-character string a base-16 digit prints as (uppercase).
pub open spec fn spec_digit_str(n: int) -> Seq<char> {
    if n == 0 {
        "0"@
    } else if n == 1 {
        "1"@
    } else if n == 2 {
        "2"@
    } else if n == 3 {
        "3"@
    } else if n == 4 {
        "4"@
    } else if n == 5 {
        "5"@
    } else if n == 6 {
        "6"@
    } else if n == 7 {
        "7"@
    } else if n == 8 {
        "8"@
    } else if n == 9 {
        "9"@
    } else if n == 10 {
        "A"@
    } else if n == 11 {
        "B"@
    } else if n == 12 {
        "C"@
    } else if n == 13 {
        "D"@
    } else if n == 14 {
        "E"@
    } else if n == 15 {
        "F"@
    } else {
        Seq::empty()
    }
}

/// The decimal rendering of a non-negative number, most significant digit
/// first, with no sign and no padding.
pub open spec fn spec_dec(n: int) -> Seq<char>
    decreases n,
{
    if n < 10 {
        spec_digit_str(n)
    } else {
        spec_dec(n / 10) + spec_digit_str(n % 10)
    }
}

/// The two-digit uppercase hex escape `\HH` of one byte.
pub open spec fn spec_byte_hex(b: u8) -> Seq<char> {
    "\\"@ + spec_digit_str(b as int / 16) + spec_digit_str(b as int % 16)
}

/// The hex escapes of all bytes of `data`, in order.
pub open spec fn spec_hex_escapes(data: Seq<u8>) -> Seq<char>
    decreases data.len(),
{
    if data.len() == 0 {
        Seq::empty()
    } else {
        spec_hex_escapes(data.drop_last()) + spec_byte_hex(data.last())
    }
}

/// The one-character string a base-16 digit prints as (uppercase).
pub fn digit_str(n: u8) -> (s: &'static str)
    requires
        n < 16,
    ensures
        s@ == spec_digit_str(n as int),
{
    match n {
        0 => "0",
        1 => "1",
        2 => "2",
        3 => "3",
        4 => "4",
        5 => "5",
        6 => "6",
        7 => "7",
        8 => "8",
        9 => "9",
        10 => "A",
        11 => "B",
        12 => "C",
        13 => "D",
        14 => "E",
        _ => "F",
    }
}

/// Appends the decimal rendering of `n` to `s`.
pub fn push_dec(s: &mut String, n: u64)
    ensures
        final(s)@ == old(s)@ + spec_dec(n as int),
    decreases n,
{
    if n >= 10 {
        push_dec(s, n / 10);
        let d = digit_str((n % 10) as u8);
        s.append(d);
        proof {
            assert((old(s)@ + spec_dec(n as int / 10)) + spec_digit_str(n as int % 10)
                =~= old(s)@ + spec_dec(n as int));
        }
    } else {
        let d = digit_str(n as u8);
        s.append(d);
    }
}

/// The decimal rendering of `n` as a fresh string.
pub fn dec_string(n: u64) -> (s: String)
    ensures
        s@ == spec_dec(n as int),
{
    let mut s = String::new();
    push_dec(&mut s, n);
    proof {
        assert(Seq::<char>::empty() + spec_dec(n as int) =~= spec_dec(n as int));
    }
    s
}

/// Appends the hex escape `\HH` of one byte to `s`.
pub fn push_byte_hex(s: &mut String, b: u8)
    ensures
        final(s)@ == old(s)@ + spec_byte_hex(b),
{
    s.append("\\");
    s.append(digit_str(b / 16));
    s.append(digit_str(b % 16));
    proof {
        assert(((old(s)@ + "\\"@) + spec_digit_str(b as int / 16)) + spec_digit_str(b as int % 16)
            =~= old(s)@ + spec_byte_hex(b));
    }
}

/// Appends the hex escapes of all bytes of `data` to `s`.
pub fn push_hex_escapes(s: &mut String, data: &[u8])
    ensures
        final(s)@ == old(s)@ + spec_hex_escapes(data@),
{
    let n = data.len();
    let mut i: usize = 0;
    while i < n
        invariant
            n == data@.len(),
            i <= n,
            s@ == old(s)@ + spec_hex_escapes(data@.take(i as int)),
        decreases n - i,
    {
        let b = data[i];
        push_byte_hex(s, b);
        proof {
            assert(data@.take(i + 1 as int).drop_last() =~= data@.take(i as int));
            assert(data@.take(i + 1 as int).last() == data@[i as int]);
            assert((old(s)@ + spec_hex_escapes(data@.take(i as int))) + spec_byte_hex(data@[i as int])
                =~= old(s)@ + spec_hex_escapes(data@.take(i + 1 as int)));
        }
        i = i + 1;
    }
    proof {
        assert(data@.take(n as int) =~= data@);
    }
}

} // verus!
