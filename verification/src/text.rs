//! The ASCII text of payloads: the digits of numeric fields and the
//! characters of text fields.

use vstd::prelude::*;

verus! {

/// `String::push` of the standard library: the character is appended to the
/// end of the string and nothing else changes.
pub assume_specification[ String::push ](s: &mut String, c: char)
    ensures
        final(s)@ == old(s)@.push(c),
;

/// Whether a byte is an ASCII decimal digit.
pub open spec fn is_digit(b: u8) -> bool {
    0x30 <= b <= 0x39
}

/// The digit that a byte of a numeric field stands for: its own value when
/// it is a decimal digit, zero for every other byte.
pub open spec fn digit_or_zero(b: u8) -> nat {
    if is_digit(b) {
        (b - 0x30) as nat
    } else {
        0
    }
}

/// The number written in a numeric field, most significant digit first,
/// every byte that is no digit counting as `0`.
pub open spec fn field_value(field: Seq<u8>) -> nat
    decreases field.len(),
{
    if field.len() == 0 {
        0
    } else {
        10 * field_value(field.drop_last()) + digit_or_zero(field.last())
    }
}

/// Ten to the power `n`.
pub open spec fn pow10(n: nat) -> nat
    decreases n,
{
    if n == 0 {
        1
    } else {
        10 * pow10((n - 1) as nat)
    }
}

/// Ten to the power `n` grows with `n`.
proof fn lemma_pow10_grows(a: nat, b: nat)
    requires
        a <= b,
    ensures
        pow10(a) <= pow10(b),
    decreases b,
{
    if a < b {
        lemma_pow10_grows(a, (b - 1) as nat);
    }
}

/// Fields that read alike, byte by byte, hold the same number.
pub proof fn lemma_field_value_by_digits(a: Seq<u8>, b: Seq<u8>)
    requires
        a.len() == b.len(),
        forall|i: int| 0 <= i < a.len() ==> digit_or_zero(a[i]) == digit_or_zero(b[i]),
    ensures
        field_value(a) == field_value(b),
    decreases a.len(),
{
    if a.len() > 0 {
        lemma_field_value_by_digits(a.drop_last(), b.drop_last());
    }
}

/// The number `n` written in exactly `width` decimal digits, most
/// significant first, with leading zeros; of a number too large for the
/// width, the lowest `width` digits.
pub open spec fn fixed_decimal(n: nat, width: nat) -> Seq<u8>
    decreases width,
{
    if width == 0 {
        Seq::empty()
    } else {
        fixed_decimal(n / 10, (width - 1) as nat).push((0x30 + n % 10) as u8)
    }
}

/// A number written in `width` digits is read back as itself, provided it
/// has no more digits than that.
pub proof fn lemma_fixed_decimal_reads_back(n: nat, width: nat)
    requires
        n < pow10(width),
    ensures
        fixed_decimal(n, width).len() == width,
        field_value(fixed_decimal(n, width)) == n,
    decreases width,
{
    if width > 0 {
        lemma_fixed_decimal_reads_back(n / 10, (width - 1) as nat);
        let written = fixed_decimal(n, width);
        assert(written.drop_last() == fixed_decimal(n / 10, (width - 1) as nat));
    }
}

/// The byte of a numeric field as it is read: a digit stays, any other byte
/// becomes `'0'`.
pub open spec fn digit_or_zero_char(b: u8) -> char {
    if is_digit(b) {
        b as char
    } else {
        '0'
    }
}

/// A numeric field as text, with every byte that is no digit replaced by
/// `'0'`.
pub open spec fn digit_text(field: Seq<u8>) -> Seq<char> {
    Seq::new(field.len(), |i: int| digit_or_zero_char(field[i]))
}

/// Whether a byte is a printable ASCII character: the space and everything
/// up to the tilde, control bytes excluded.
pub open spec fn is_printable(b: u8) -> bool {
    0x20 <= b <= 0x7e
}

/// The character shown for a byte of a text field: the byte itself when it
/// is printable ASCII, a full stop otherwise.
pub open spec fn printable_or_dot(b: u8) -> char {
    if is_printable(b) {
        b as char
    } else {
        '.'
    }
}

/// A text field with every byte that is not printable ASCII replaced by a
/// full stop.
pub open spec fn printable_text(field: Seq<u8>) -> Seq<char> {
    Seq::new(field.len(), |i: int| printable_or_dot(field[i]))
}

/// Whether every character of a text is printable ASCII.
pub open spec fn all_printable(text: Seq<char>) -> bool {
    forall|i: int| 0 <= i < text.len() ==> ' ' <= #[trigger] text[i] <= '~'
}

/// Reads the `width` bytes of `data` from `start` on as a decimal number,
/// taking every byte that is no digit for `0`.
pub(crate) fn read_number(data: &[u8], start: usize, width: usize) -> (r: u64)
    requires
        start + width <= data.len(),
        width <= 19,
    ensures
        r == field_value(data@.subrange(start as int, start + width)),
{
    let mut value: u64 = 0;
    let mut i: usize = 0;
    while i < width
        invariant
            i <= width <= 19,
            start + width <= data.len(),
            value == field_value(data@.subrange(start as int, start + i)),
            value < pow10(i as nat),
        decreases width - i,
    {
        let b = data[start + i];
        let d: u64 = if b >= 0x30 && b <= 0x39 {
            (b - 0x30) as u64
        } else {
            0
        };
        proof {
            let next = data@.subrange(start as int, start + i + 1);
            assert(next.drop_last() == data@.subrange(start as int, start + i));
            assert(next.last() == b);
            lemma_pow10_grows(i as nat, 18);
            assert(pow10(18) == 1_000_000_000_000_000_000) by {
                reveal_with_fuel(pow10, 19);
            }
        }
        value = value * 10 + d;
        i += 1;
    }
    value
}

/// Copies the `width` bytes of `data` from `start` on into a text, each
/// byte that is no digit becoming `'0'`.
pub(crate) fn read_digit_text(data: &[u8], start: usize, width: usize) -> (r: String)
    requires
        start + width <= data.len(),
    ensures
        r@ == digit_text(data@.subrange(start as int, start + width)),
{
    let mut out = String::new();
    let mut i: usize = 0;
    while i < width
        invariant
            i <= width,
            start + width <= data.len(),
            out@ == digit_text(data@.subrange(start as int, start + i)),
        decreases width - i,
    {
        let b = data[start + i];
        let c = if b >= 0x30 && b <= 0x39 {
            b as char
        } else {
            '0'
        };
        out.push(c);
        i += 1;
    }
    out
}

/// Copies the `width` bytes of `data` from `start` on into a text, each
/// byte that is not printable ASCII becoming a full stop.
pub(crate) fn read_printable_text(data: &[u8], start: usize, width: usize) -> (r: String)
    requires
        start + width <= data.len(),
    ensures
        r@ == printable_text(data@.subrange(start as int, start + width)),
        all_printable(r@),
{
    let mut out = String::new();
    let mut i: usize = 0;
    while i < width
        invariant
            i <= width,
            start + width <= data.len(),
            out@ == printable_text(data@.subrange(start as int, start + i)),
            all_printable(out@),
        decreases width - i,
    {
        let b = data[start + i];
        let c = if b >= 0x20 && b <= 0x7e {
            b as char
        } else {
            '.'
        };
        out.push(c);
        i += 1;
    }
    out
}

} // verus!
