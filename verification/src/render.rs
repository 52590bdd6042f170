//! Quote messages as text: one line for each message, compact or
//! labelled.

use vstd::prelude::*;
use vstd::string::StringExecFns;
use crate::quote::{PriceLevel, QuoteMessage, QuoteView};
use crate::text::all_printable;
use crate::time::Timestamp;

verus! {

/// How a message is written out.
#[derive(Clone, Copy, Debug, PartialEq, Eq, Structural)]
pub enum OutputFormat {
    /// One compact line: the two times, the issue code and the levels.
    Default,
    /// Two lines in which every part carries a label.
    Formatted,
}

/// The character of a decimal digit.
pub open spec fn digit_char(d: nat) -> char {
    ((0x30 + d) as u8) as char
}

/// A number in decimal, without leading zeros.
pub open spec fn decimal_text(n: nat) -> Seq<char>
    decreases n,
{
    if n < 10 {
        seq![digit_char(n)]
    } else {
        decimal_text(n / 10).push(digit_char(n % 10))
    }
}

/// The lowest `width` decimal digits of a number, with leading zeros.
pub open spec fn fixed_decimal_text(n: nat, width: nat) -> Seq<char>
    decreases width,
{
    if width == 0 {
        Seq::empty()
    } else {
        fixed_decimal_text(n / 10, (width - 1) as nat).push(digit_char(n % 10))
    }
}

/// An instant as seconds since the epoch, a full stop, and the microseconds
/// of the second in six digits.
pub open spec fn timestamp_text(t: Timestamp) -> Seq<char> {
    decimal_text(t@ / 1_000_000) + seq!['.'] + fixed_decimal_text(t@ % 1_000_000, 6)
}

/// A price level as `quantity@price`.
pub open spec fn level_text(level: PriceLevel) -> Seq<char> {
    decimal_text(level.quantity as nat) + seq!['@'] + decimal_text(level.price as nat)
}

/// The number of spaces with which a text begins.
pub open spec fn leading_spaces(text: Seq<char>) -> nat
    decreases text.len(),
{
    if text.len() > 0 && text[0] == ' ' {
        1 + leading_spaces(text.drop_first())
    } else {
        0
    }
}

/// The number of spaces with which a text ends.
pub open spec fn trailing_spaces(text: Seq<char>) -> nat
    decreases text.len(),
{
    if text.len() > 0 && text.last() == ' ' {
        1 + trailing_spaces(text.drop_last())
    } else {
        0
    }
}

/// A text without the spaces at its two ends.
pub open spec fn trimmed(text: Seq<char>) -> Seq<char> {
    if leading_spaces(text) == text.len() {
        Seq::empty()
    } else {
        text.subrange(leading_spaces(text) as int, text.len() - trailing_spaces(text))
    }
}

/// Price levels in a row, a space before each.
pub open spec fn spaced_levels(levels: Seq<PriceLevel>) -> Seq<char>
    decreases levels.len(),
{
    if levels.len() == 0 {
        Seq::empty()
    } else {
        spaced_levels(levels.drop_last()) + seq![' '] + level_text(levels.last())
    }
}

/// Price levels in a row, a comma and a space between every two.
pub open spec fn listed_levels(levels: Seq<PriceLevel>) -> Seq<char>
    decreases levels.len(),
{
    if levels.len() == 0 {
        Seq::empty()
    } else if levels.len() == 1 {
        level_text(levels[0])
    } else {
        listed_levels(levels.drop_last()) + seq![',', ' '] + level_text(levels.last())
    }
}

/// The compact line of a message: arrival time, event time, the issue code
/// without the spaces at its ends, the bids from the fifth level to the
/// best, then the asks from the best to the fifth level.
pub open spec fn compact_text(m: QuoteView) -> Seq<char> {
    timestamp_text(m.arrival_time) + seq![' '] + timestamp_text(m.event_time) + seq![' ']
        + trimmed(m.issue_code) + spaced_levels(m.bids.reverse()) + spaced_levels(m.asks)
}

/// The labelled text of a message, two lines: the times and the issue code,
/// then the bids from the fifth level to the best and the asks from the
/// best to the fifth level.
pub open spec fn labelled_text(m: QuoteView) -> Seq<char> {
    "Packet-Time: "@ + timestamp_text(m.arrival_time) + " | Accept-Time: "@ + timestamp_text(
        m.event_time,
    ) + " | Issue-Code: "@ + trimmed(m.issue_code) + seq!['\n'] + "Bids: "@ + listed_levels(
        m.bids.reverse(),
    ) + " | Asks: "@ + listed_levels(m.asks)
}

/// The text of a message in the given format.
pub open spec fn message_text(m: QuoteView, format: OutputFormat) -> Seq<char> {
    match format {
        OutputFormat::Default => compact_text(m),
        OutputFormat::Formatted => labelled_text(m),
    }
}

/// Appends a number in decimal.
fn push_decimal(out: &mut String, n: u64)
    ensures
        final(out)@ == old(out)@ + decimal_text(n as nat),
    decreases n,
{
    if n >= 10 {
        push_decimal(out, n / 10);
    }
    let d: u8 = (n % 10) as u8;
    out.push((0x30 + d) as char);
    assert(out@ =~= old(out)@ + decimal_text(n as nat));
}

/// Appends the lowest `width` decimal digits of a number.
fn push_fixed_decimal(out: &mut String, n: u64, width: usize)
    ensures
        final(out)@ == old(out)@ + fixed_decimal_text(n as nat, width as nat),
    decreases width,
{
    if width > 0 {
        push_fixed_decimal(out, n / 10, width - 1);
        let d: u8 = (n % 10) as u8;
        out.push((0x30 + d) as char);
    }
    assert(out@ =~= old(out)@ + fixed_decimal_text(n as nat, width as nat));
}

/// Appends an instant.
fn push_timestamp(out: &mut String, t: Timestamp)
    ensures
        final(out)@ == old(out)@ + timestamp_text(t),
{
    push_decimal(out, t.secs());
    out.push('.');
    push_fixed_decimal(out, t.subsec_micros() as u64, 6);
    assert(out@ =~= old(out)@ + timestamp_text(t));
}

/// Appends a price level.
fn push_level(out: &mut String, level: PriceLevel)
    ensures
        final(out)@ == old(out)@ + level_text(level),
{
    push_decimal(out, level.quantity);
    out.push('@');
    push_decimal(out, level.price);
    assert(out@ =~= old(out)@ + level_text(level));
}

/// A text that begins with `n` spaces and then goes on otherwise, or
/// ends, has `n` leading spaces.
proof fn lemma_leading_spaces(text: Seq<char>, n: nat)
    requires
        n <= text.len(),
        forall|i: int| 0 <= i < n ==> text[i] == ' ',
        n < text.len() ==> text[n as int] != ' ',
    ensures
        leading_spaces(text) == n,
    decreases n,
{
    if n > 0 {
        lemma_leading_spaces(text.drop_first(), (n - 1) as nat);
    }
}

/// A text that ends with `n` spaces, before which stands another
/// character or nothing, has `n` trailing spaces.
proof fn lemma_trailing_spaces(text: Seq<char>, n: nat)
    requires
        n <= text.len(),
        forall|i: int| text.len() - n <= i < text.len() ==> text[i] == ' ',
        n < text.len() ==> text[text.len() - n - 1] != ' ',
    ensures
        trailing_spaces(text) == n,
    decreases n,
{
    if n > 0 {
        lemma_trailing_spaces(text.drop_last(), (n - 1) as nat);
    }
}

/// Appends a printable ASCII text without the spaces at its two ends.
fn push_trimmed(out: &mut String, text: &str)
    requires
        all_printable(text@),
    ensures
        final(out)@ == old(out)@ + trimmed(text@),
{
    broadcast use vstd::string::is_ascii_spec_bytes;

    assert(vstd::string::is_ascii(text));
    let bytes = text.as_bytes();
    let len = bytes.len();
    assert(forall|i: int| 0 <= i < len ==> bytes@[i] < 0x80 && bytes@[i] as char == text@[i]);
    let mut start: usize = 0;
    while start < len && bytes[start] == 0x20
        invariant
            start <= len == bytes@.len() == text@.len(),
            forall|i: int| 0 <= i < len ==> bytes@[i] < 0x80 && bytes@[i] as char == text@[i],
            forall|i: int| 0 <= i < start ==> text@[i] == ' ',
        decreases len - start,
    {
        start += 1;
    }
    proof {
        lemma_leading_spaces(text@, start as nat);
    }
    if start == len {
        assert(out@ =~= old(out)@ + trimmed(text@));
        return ;
    }
    let mut end: usize = len;
    while end > start + 1 && bytes[end - 1] == 0x20
        invariant
            start < end <= len == bytes@.len() == text@.len(),
            text@[start as int] != ' ',
            forall|i: int| 0 <= i < len ==> bytes@[i] < 0x80 && bytes@[i] as char == text@[i],
            forall|i: int| end <= i < len ==> text@[i] == ' ',
        decreases end,
    {
        end -= 1;
    }
    proof {
        lemma_trailing_spaces(text@, (len - end) as nat);
    }
    let mut i: usize = start;
    while i < end
        invariant
            start <= i <= end <= len == bytes@.len() == text@.len(),
            forall|i: int| 0 <= i < len ==> bytes@[i] < 0x80 && bytes@[i] as char == text@[i],
            out@ == old(out)@ + text@.subrange(start as int, i as int),
        decreases end - i,
    {
        out.push(bytes[i] as char);
        i += 1;
    }
}

/// An instant as text: the seconds since the epoch, a full stop, and the
/// microseconds of the second in six digits.
pub fn format_system_time(t: Timestamp) -> (r: String)
    ensures
        r@ == timestamp_text(t),
{
    let mut out = String::new();
    push_timestamp(&mut out, t);
    out
}

/// Appends the levels from the last to the first, a space before each.
fn push_spaced_reversed(out: &mut String, levels: &[PriceLevel])
    ensures
        final(out)@ == old(out)@ + spaced_levels(levels@.reverse()),
{
    let n = levels.len();
    let ghost backwards = levels@.reverse();
    let mut i: usize = 0;
    while i < n
        invariant
            i <= n == levels@.len(),
            backwards == levels@.reverse(),
            out@ == old(out)@ + spaced_levels(backwards.take(i as int)),
        decreases n - i,
    {
        out.push(' ');
        push_level(out, levels[n - 1 - i]);
        proof {
            let done = backwards.take(i + 1);
            assert(done.drop_last() == backwards.take(i as int));
            assert(done.last() == levels@[n - 1 - i]);
            assert(out@ =~= old(out)@ + spaced_levels(done));
        }
        i += 1;
    }
    assert(backwards.take(n as int) == backwards);
}

/// Appends the levels from the first to the last, a space before each.
fn push_spaced(out: &mut String, levels: &[PriceLevel])
    ensures
        final(out)@ == old(out)@ + spaced_levels(levels@),
{
    let n = levels.len();
    let mut i: usize = 0;
    while i < n
        invariant
            i <= n == levels@.len(),
            out@ == old(out)@ + spaced_levels(levels@.take(i as int)),
        decreases n - i,
    {
        out.push(' ');
        push_level(out, levels[i]);
        proof {
            let done = levels@.take(i + 1);
            assert(done.drop_last() == levels@.take(i as int));
            assert(out@ =~= old(out)@ + spaced_levels(done));
        }
        i += 1;
    }
    assert(levels@.take(n as int) == levels@);
}

/// Appends the levels from the last to the first, a comma and a space
/// between every two.
fn push_listed_reversed(out: &mut String, levels: &[PriceLevel])
    ensures
        final(out)@ == old(out)@ + listed_levels(levels@.reverse()),
{
    let n = levels.len();
    let ghost backwards = levels@.reverse();
    let mut i: usize = 0;
    while i < n
        invariant
            i <= n == levels@.len(),
            backwards == levels@.reverse(),
            out@ == old(out)@ + listed_levels(backwards.take(i as int)),
        decreases n - i,
    {
        if i > 0 {
            out.append(", ");
        }
        push_level(out, levels[n - 1 - i]);
        proof {
            reveal_strlit(", ");
            let done = backwards.take(i + 1);
            assert(done.drop_last() == backwards.take(i as int));
            assert(done.last() == levels@[n - 1 - i]);
            assert(", "@ =~= seq![',', ' ']);
            assert(out@ =~= old(out)@ + listed_levels(done));
        }
        i += 1;
    }
    assert(backwards.take(n as int) == backwards);
}

/// Appends the levels from the first to the last, a comma and a space
/// between every two.
fn push_listed(out: &mut String, levels: &[PriceLevel])
    ensures
        final(out)@ == old(out)@ + listed_levels(levels@),
{
    let n = levels.len();
    let mut i: usize = 0;
    while i < n
        invariant
            i <= n == levels@.len(),
            out@ == old(out)@ + listed_levels(levels@.take(i as int)),
        decreases n - i,
    {
        if i > 0 {
            out.append(", ");
        }
        push_level(out, levels[i]);
        proof {
            reveal_strlit(", ");
            let done = levels@.take(i + 1);
            assert(done.drop_last() == levels@.take(i as int));
            assert(", "@ =~= seq![',', ' ']);
            assert(out@ =~= old(out)@ + listed_levels(done));
        }
        i += 1;
    }
    assert(levels@.take(n as int) == levels@);
}

/// Writes a message out in the given format, without a line end after it.
///
/// The compact form is one line. The labelled form is two lines, with a
/// line feed between them.
pub fn render_message(msg: &QuoteMessage, format: OutputFormat) -> (r: String)
    ensures
        r@ == message_text(msg@, format),
{
    let mut out = String::new();
    match format {
        OutputFormat::Default => {
            push_timestamp(&mut out, msg.arrival_time());
            out.push(' ');
            push_timestamp(&mut out, msg.event_time());
            out.push(' ');
            push_trimmed(&mut out, msg.issue_code());
            push_spaced_reversed(&mut out, msg.bids());
            push_spaced(&mut out, msg.asks());
            assert(out@ =~= compact_text(msg@));
        },
        OutputFormat::Formatted => {
            out.append("Packet-Time: ");
            push_timestamp(&mut out, msg.arrival_time());
            out.append(" | Accept-Time: ");
            push_timestamp(&mut out, msg.event_time());
            out.append(" | Issue-Code: ");
            push_trimmed(&mut out, msg.issue_code());
            out.push('\n');
            out.append("Bids: ");
            push_listed_reversed(&mut out, msg.bids());
            out.append(" | Asks: ");
            push_listed(&mut out, msg.asks());
            assert(out@ =~= labelled_text(msg@));
        },
    }
    out
}

} // verus!
