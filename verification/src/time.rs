//! Instants at microsecond resolution, counted from the Unix epoch.

use vstd::prelude::*;

verus! {

/// Microseconds in one second.
pub const MICROS_PER_SECOND: u64 = 1_000_000;

/// Microseconds in one 24-hour day.
pub const MICROS_PER_DAY: u64 = 86_400_000_000;

/// A wall-clock instant: the number of microseconds since the Unix epoch.
#[derive(Clone, Copy, Debug, PartialEq, Eq, Structural)]
pub struct Timestamp {
    pub micros: u64,
}

impl View for Timestamp {
    type V = nat;

    open spec fn view(&self) -> nat {
        self.micros as nat
    }
}

/// The instant `secs` seconds and `micros` microseconds after the epoch, as
/// a count of microseconds.
pub open spec fn micros_of_parts(secs: nat, micros: nat) -> nat {
    secs * 1_000_000 + micros
}

impl Timestamp {
    /// Whether an instant can be held: its microsecond count fits in 64 bits.
    pub open spec fn representable(micros: nat) -> bool {
        micros <= u64::MAX
    }

    /// The instant `secs` whole seconds and `micros` further microseconds
    /// after the epoch; `micros` may exceed one second and is carried over.
    /// `None` when the instant lies beyond the representable range.
    pub fn from_parts(secs: u64, micros: u64) -> (r: Option<Timestamp>)
        ensures
            match r {
                Some(t) => t@ == micros_of_parts(secs as nat, micros as nat),
                None => !Self::representable(micros_of_parts(secs as nat, micros as nat)),
            },
    {
        match secs.checked_mul(MICROS_PER_SECOND) {
            Some(whole) => match whole.checked_add(micros) {
                Some(total) => Some(Timestamp { micros: total }),
                None => None,
            },
            None => None,
        }
    }

    /// Whole seconds since the epoch.
    pub fn secs(&self) -> (r: u64)
        ensures
            r == self@ / 1_000_000,
    {
        self.micros / MICROS_PER_SECOND
    }

    /// The fraction of the current second, in microseconds.
    pub fn subsec_micros(&self) -> (r: u32)
        ensures
            r == self@ % 1_000_000,
    {
        (self.micros % MICROS_PER_SECOND) as u32
    }
}

/// Whether a character is an ASCII decimal digit.
pub open spec fn is_digit_char(c: char) -> bool {
    '0' <= c <= '9'
}

/// The value of a decimal digit.
pub open spec fn digit_char_value(c: char) -> nat {
    (c as u32 - 0x30) as nat
}

/// What a two-character sub-field of a time of day reads as: a non-negative
/// integer written as two decimal digits, or as a plus sign and one digit.
/// Anything else is no number.
pub open spec fn sub_field_value(a: char, b: char) -> Option<nat> {
    if is_digit_char(a) && is_digit_char(b) {
        Some(10 * digit_char_value(a) + digit_char_value(b))
    } else if a == '+' && is_digit_char(b) {
        Some(digit_char_value(b))
    } else {
        None
    }
}

/// The microseconds after midnight that hours, minutes, seconds and
/// hundredths of a second add up to.
pub open spec fn time_of_day_micros(hours: nat, minutes: nat, seconds: nat, hundredths: nat) -> nat {
    (hours * 3600 + minutes * 60 + seconds) * 1_000_000 + hundredths * 10_000
}

/// The microseconds after midnight that an accept time `HHMMSSCC` stands
/// for (`CC` being hundredths of a second), or nothing when the text is not
/// exactly eight characters or one of its four sub-fields is no number.
pub open spec fn accept_time_of_day(text: Seq<char>) -> Option<nat> {
    if text.len() != 8 {
        None
    } else {
        match (
            sub_field_value(text[0], text[1]),
            sub_field_value(text[2], text[3]),
            sub_field_value(text[4], text[5]),
            sub_field_value(text[6], text[7]),
        ) {
            (Some(h), Some(m), Some(s), Some(c)) => Some(time_of_day_micros(h, m, s, c)),
            _ => None,
        }
    }
}

/// The start of the 24-hour day, counted from the epoch, in which an
/// instant lies.
pub open spec fn day_start(micros: nat) -> nat {
    (micros / (MICROS_PER_DAY as nat)) * (MICROS_PER_DAY as nat)
}

/// The absolute event time of an accept time `HHMMSSCC`: the start of the
/// day in which the packet arrived, plus the time of day. Nothing when the
/// text is no time of day, or when the instant cannot be held.
///
/// The day is always that of the arrival: an accept time that belongs to
/// the day before or after is anchored to the arrival's day all the same.
pub open spec fn resolve_accept_time(text: Seq<char>, arrival: Timestamp) -> Option<Timestamp> {
    match accept_time_of_day(text) {
        Some(offset) => if Timestamp::representable(day_start(arrival@) + offset) {
            Some(Timestamp { micros: (day_start(arrival@) + offset) as u64 })
        } else {
            None
        },
        None => None,
    }
}

/// Reads two ASCII bytes as a sub-field of a time of day.
fn read_sub_field(a: u8, b: u8) -> (r: Option<u64>)
    requires
        a < 0x80,
        b < 0x80,
    ensures
        match r {
            Some(v) => sub_field_value(a as char, b as char) == Some(v as nat) && v <= 99,
            None => sub_field_value(a as char, b as char) is None,
        },
{
    if b < 0x30 || b > 0x39 {
        None
    } else if a >= 0x30 && a <= 0x39 {
        Some(((a - 0x30) as u64) * 10 + ((b - 0x30) as u64))
    } else if a == 0x2b {
        Some((b - 0x30) as u64)
    } else {
        None
    }
}

/// A text with a character outside ASCII is no time of day.
proof fn lemma_time_of_day_is_ascii(text: Seq<char>)
    requires
        !vstd::utf8::is_ascii_chars(text),
    ensures
        accept_time_of_day(text) is None,
{
    if text.len() == 8 {
        let i = choose|i: int| 0 <= i < text.len() && !('\0' <= #[trigger] text[i] <= '\u{7f}');
        assert(sub_field_value(text[0], text[1]) is None || sub_field_value(text[2], text[3])
            is None || sub_field_value(text[4], text[5]) is None || sub_field_value(
            text[6],
            text[7],
        ) is None);
    }
}

/// Resolves the accept time of a quote, an eight-character time of day
/// `HHMMSSCC`, to an absolute instant on the day on which the packet
/// arrived.
///
/// Each of the four sub-fields is read as a non-negative integer and none
/// is held to a range: `99` hours or minutes are taken as they are.
pub fn parse_accept_time(s: &str, packet_time: Timestamp) -> (r: Option<Timestamp>)
    ensures
        r == resolve_accept_time(s@, packet_time),
{
    broadcast use vstd::string::is_ascii_spec_bytes;

    if s.len() != 8 || !s.is_ascii() {
        proof {
            if !vstd::string::is_ascii(s) {
                lemma_time_of_day_is_ascii(s@);
            }
        }
        return None;
    }
    let bytes = s.as_bytes();
    assert(forall|i: int| 0 <= i < 8 ==> bytes@[i] < 0x80 && bytes@[i] as char == s@[i]);
    let hours = match read_sub_field(bytes[0], bytes[1]) {
        Some(v) => v,
        None => {
            return None;
        },
    };
    let minutes = match read_sub_field(bytes[2], bytes[3]) {
        Some(v) => v,
        None => {
            return None;
        },
    };
    let seconds = match read_sub_field(bytes[4], bytes[5]) {
        Some(v) => v,
        None => {
            return None;
        },
    };
    let hundredths = match read_sub_field(bytes[6], bytes[7]) {
        Some(v) => v,
        None => {
            return None;
        },
    };
    let offset: u64 = (hours * 3600 + minutes * 60 + seconds) * MICROS_PER_SECOND + hundredths
        * 10_000;
    let midnight: u64 = (packet_time.micros / MICROS_PER_DAY) * MICROS_PER_DAY;
    match midnight.checked_add(offset) {
        Some(micros) => Some(Timestamp { micros }),
        None => None,
    }
}

} // verus!
