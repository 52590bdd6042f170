//! The wire format of a quote message, and its decoder.
//!
//! A payload is a run of fixed-width ASCII fields:
//!
//! | offset | length | field                                      |
//! |--------|--------|--------------------------------------------|
//! | 0      | 5      | marker, the bytes `B6034`                  |
//! | 5      | 12     | issue code                                 |
//! | 17     | 12     | not read                                   |
//! | 29     | 60     | five bid levels: price (5), quantity (7)   |
//! | 89     | 7      | not read                                   |
//! | 96     | 60     | five ask levels: price (5), quantity (7)   |
//! | 156    | 50     | not read                                   |
//! | 206    | 8      | accept time, `HHMMSSCC`                    |

use vstd::prelude::*;
use crate::quote::{
    Decoded, PriceLevel, QuoteMessage, QuoteView, ISSUE_CODE_LEN, LEVELS_PER_SIDE,
};
use crate::text::{
    all_printable, digit_or_zero, digit_or_zero_char, digit_text, field_value, fixed_decimal,
    is_digit, lemma_field_value_by_digits, lemma_fixed_decimal_reads_back, pow10,
    printable_text, read_digit_text, read_number, read_printable_text,
};
use crate::time::{
    accept_time_of_day, day_start, is_digit_char, parse_accept_time, resolve_accept_time,
    sub_field_value, time_of_day_micros, Timestamp,
};

verus! {

/// Where the issue code starts.
pub const ISSUE_CODE_OFFSET: usize = 5;

/// Where the five bid levels start.
pub const BIDS_OFFSET: usize = 29;

/// Where the five ask levels start.
pub const ASKS_OFFSET: usize = 96;

/// Where the accept time starts.
pub const ACCEPT_TIME_OFFSET: usize = 206;

/// Width of the accept time.
pub const ACCEPT_TIME_LEN: usize = 8;

/// Width of a price.
pub const PRICE_LEN: usize = 5;

/// Width of a quantity.
pub const QUANTITY_LEN: usize = 7;

/// Width of one price level: a price, then a quantity.
pub const LEVEL_LEN: usize = 12;

/// The shortest payload that holds a whole quote message.
pub const MIN_PAYLOAD_LEN: usize = 214;

/// Whether a payload starts with the marker of a quote message, the five
/// bytes `B6034`.
pub open spec fn has_magic(payload: Seq<u8>) -> bool {
    &&& payload.len() >= 5
    &&& payload[0] == 0x42
    &&& payload[1] == 0x36
    &&& payload[2] == 0x30
    &&& payload[3] == 0x33
    &&& payload[4] == 0x34
}

/// The price level written at `offset`: a price of five digits, then a
/// quantity of seven.
pub open spec fn level_at(payload: Seq<u8>, offset: int) -> PriceLevel {
    PriceLevel {
        price: field_value(payload.subrange(offset, offset + PRICE_LEN)) as u64,
        quantity: field_value(payload.subrange(offset + PRICE_LEN, offset + LEVEL_LEN)) as u64,
    }
}

/// The five price levels written from `offset` on, in the order in which
/// they stand in the payload.
pub open spec fn ladder_at(payload: Seq<u8>, offset: int) -> Seq<PriceLevel> {
    Seq::new(LEVELS_PER_SIDE as nat, |i: int| level_at(payload, offset + LEVEL_LEN * i))
}

/// The accept time of a payload as text, bytes that are no digits read as
/// `'0'`.
pub open spec fn accept_time_text(payload: Seq<u8>) -> Seq<char> {
    digit_text(payload.subrange(ACCEPT_TIME_OFFSET as int, ACCEPT_TIME_OFFSET + ACCEPT_TIME_LEN))
}

/// The message that a payload holds, if it holds one.
///
/// A payload holds a message when it starts with the marker, is long enough
/// for every field, and its accept time resolves against the arrival time.
/// In the issue code a byte that is not printable ASCII shows as a full
/// stop; in a numeric field a byte that is no digit counts as `0`.
pub open spec fn decode(payload: Seq<u8>, arrival: Timestamp) -> Option<QuoteView> {
    if has_magic(payload) && payload.len() >= MIN_PAYLOAD_LEN {
        match resolve_accept_time(accept_time_text(payload), arrival) {
            Some(event_time) => Some(
                QuoteView {
                    arrival_time: arrival,
                    event_time,
                    issue_code: printable_text(
                        payload.subrange(ISSUE_CODE_OFFSET as int, ISSUE_CODE_OFFSET + ISSUE_CODE_LEN),
                    ),
                    bids: ladder_at(payload, BIDS_OFFSET as int),
                    asks: ladder_at(payload, ASKS_OFFSET as int),
                },
            ),
            None => None,
        }
    } else {
        None
    }
}

/// Reads the five price levels that start at `offset`.
fn read_ladder(data: &[u8], offset: usize) -> (r: Vec<PriceLevel>)
    requires
        offset + LEVELS_PER_SIDE * LEVEL_LEN <= data.len(),
    ensures
        r@ == ladder_at(data@, offset as int),
{
    let mut levels: Vec<PriceLevel> = Vec::new();
    let mut i: usize = 0;
    while i < LEVELS_PER_SIDE
        invariant
            i <= LEVELS_PER_SIDE,
            offset + LEVELS_PER_SIDE * LEVEL_LEN <= data.len(),
            levels@.len() == i,
            forall|j: int| 0 <= j < i ==> levels@[j] == level_at(data@, offset + LEVEL_LEN * j),
        decreases LEVELS_PER_SIDE - i,
    {
        let at: usize = offset + LEVEL_LEN * i;
        let price = read_number(data, at, PRICE_LEN);
        let quantity = read_number(data, at + PRICE_LEN, QUANTITY_LEN);
        levels.push(PriceLevel { quantity, price });
        i += 1;
    }
    levels
}

/// Decodes one payload, as it arrived at `packet_time`, into a quote
/// message.
///
/// Nothing is decoded in part: the result is a whole message or none.
pub fn parse_quote_message(packet_data: &[u8], packet_time: Timestamp) -> (r: Decoded)
    ensures
        match r {
            Decoded::Message(m) => decode(packet_data@, packet_time) == Some(m@),
            Decoded::NoMessage => decode(packet_data@, packet_time) is None,
        },
        packet_data@.len() < MIN_PAYLOAD_LEN || !has_magic(packet_data@) ==> r is NoMessage,
{
    if packet_data.len() < 5 || packet_data[0] != 0x42 || packet_data[1] != 0x36 || packet_data[2]
        != 0x30 || packet_data[3] != 0x33 || packet_data[4] != 0x34 {
        return Decoded::NoMessage;
    }
    if packet_data.len() < MIN_PAYLOAD_LEN {
        return Decoded::NoMessage;
    }
    let issue_code = read_printable_text(packet_data, ISSUE_CODE_OFFSET, ISSUE_CODE_LEN);
    let bids = read_ladder(packet_data, BIDS_OFFSET);
    let asks = read_ladder(packet_data, ASKS_OFFSET);
    let time_text = read_digit_text(packet_data, ACCEPT_TIME_OFFSET, ACCEPT_TIME_LEN);
    match parse_accept_time(time_text.as_str(), packet_time) {
        Some(event_time) => Decoded::Message(
            QuoteMessage::assemble(packet_time, event_time, issue_code, bids, asks),
        ),
        None => Decoded::NoMessage,
    }
}

/// Whatever a payload decodes to is a whole message: an issue code of
/// twelve printable characters, five bid levels and five ask levels.
pub proof fn lemma_decoded_is_well_formed(payload: Seq<u8>, arrival: Timestamp)
    ensures
        decode(payload, arrival) is Some ==> decode(payload, arrival)->0.well_formed(),
{
}

/// Whether position `i` of a payload lies in a numeric field that the
/// decoder reads: a price, a quantity or the accept time.
pub open spec fn in_numeric_field(i: int) -> bool {
    ||| BIDS_OFFSET <= i < BIDS_OFFSET + LEVELS_PER_SIDE * LEVEL_LEN
    ||| ASKS_OFFSET <= i < ASKS_OFFSET + LEVELS_PER_SIDE * LEVEL_LEN
    ||| ACCEPT_TIME_OFFSET <= i < ACCEPT_TIME_OFFSET + ACCEPT_TIME_LEN
}

/// Whether `cleaned` is `payload` with some of the bytes that are no digits,
/// in numeric fields, replaced by the digit `0`, and nothing else changed.
pub open spec fn zeroes_non_digits(payload: Seq<u8>, cleaned: Seq<u8>) -> bool {
    &&& cleaned.len() == payload.len()
    &&& forall|i: int|
        0 <= i < payload.len() ==> #[trigger] cleaned[i] == payload[i] || (in_numeric_field(i)
            && !is_digit(payload[i]) && cleaned[i] == 0x30)
}

/// The latest time of day that eight digits can spell, `99:99:99.99`, in
/// microseconds after midnight.
pub open spec fn max_time_of_day() -> nat {
    time_of_day_micros(99, 99, 99, 99)
}

/// The accept time of a payload is always a time of day: whatever bytes the
/// field holds, they are read as digits.
pub proof fn lemma_accept_time_reads(payload: Seq<u8>)
    requires
        payload.len() >= MIN_PAYLOAD_LEN,
    ensures
        accept_time_of_day(accept_time_text(payload)) is Some,
        accept_time_of_day(accept_time_text(payload))->0 <= max_time_of_day(),
{
    let text = accept_time_text(payload);
    assert(forall|i: int| 0 <= i < 8 ==> is_digit_char(#[trigger] text[i]));
    assert(sub_field_value(text[0], text[1]) is Some);
    assert(sub_field_value(text[2], text[3]) is Some);
    assert(sub_field_value(text[4], text[5]) is Some);
    assert(sub_field_value(text[6], text[7]) is Some);
}

/// A byte that is no digit, in a numeric field, decodes as if it were the
/// digit `0`: the payload and its cleaned form hold the same message, or
/// both hold none.
pub proof fn lemma_non_digit_reads_as_zero(payload: Seq<u8>, cleaned: Seq<u8>, arrival: Timestamp)
    requires
        zeroes_non_digits(payload, cleaned),
    ensures
        decode(payload, arrival) == decode(cleaned, arrival),
{
    assert(has_magic(payload) == has_magic(cleaned)) by {
        if payload.len() >= 5 {
            assert(cleaned[0] == payload[0]);
            assert(cleaned[1] == payload[1]);
            assert(cleaned[2] == payload[2]);
            assert(cleaned[3] == payload[3]);
            assert(cleaned[4] == payload[4]);
        }
    }
    if has_magic(payload) && payload.len() >= MIN_PAYLOAD_LEN {
        assert forall|i: int| 0 <= i < payload.len() implies digit_or_zero(#[trigger] cleaned[i])
            == digit_or_zero(payload[i]) && digit_or_zero_char(cleaned[i]) == digit_or_zero_char(
            payload[i],
        ) by {}
        assert(accept_time_text(payload) =~= accept_time_text(cleaned));
        let code = payload.subrange(ISSUE_CODE_OFFSET as int, ISSUE_CODE_OFFSET + ISSUE_CODE_LEN);
        let cleaned_code = cleaned.subrange(ISSUE_CODE_OFFSET as int, ISSUE_CODE_OFFSET + ISSUE_CODE_LEN);
        assert(code =~= cleaned_code) by {
            assert forall|i: int| 0 <= i < 12 implies code[i] == cleaned_code[i] by {
                assert(cleaned[ISSUE_CODE_OFFSET + i] == payload[ISSUE_CODE_OFFSET + i]);
            }
        }
        lemma_same_ladder(payload, cleaned, BIDS_OFFSET as int);
        lemma_same_ladder(payload, cleaned, ASKS_OFFSET as int);
    }
}

/// Payloads that read alike, byte by byte, hold the same price levels.
proof fn lemma_same_ladder(a: Seq<u8>, b: Seq<u8>, offset: int)
    requires
        a.len() == b.len(),
        0 <= offset,
        offset + LEVELS_PER_SIDE * LEVEL_LEN <= a.len(),
        forall|i: int| 0 <= i < a.len() ==> digit_or_zero(#[trigger] b[i]) == digit_or_zero(a[i]),
    ensures
        ladder_at(a, offset) == ladder_at(b, offset),
{
    assert forall|k: int| 0 <= k < 5 implies #[trigger] ladder_at(a, offset)[k] == ladder_at(
        b,
        offset,
    )[k] by {
        let at = offset + LEVEL_LEN * k;
        lemma_field_value_by_digits(
            a.subrange(at, at + PRICE_LEN),
            b.subrange(at, at + PRICE_LEN),
        );
        lemma_field_value_by_digits(
            a.subrange(at + PRICE_LEN, at + LEVEL_LEN),
            b.subrange(at + PRICE_LEN, at + LEVEL_LEN),
        );
    }
    assert(ladder_at(a, offset) =~= ladder_at(b, offset));
}

/// A payload with the marker and of full length always holds a message,
/// whatever bytes its fields are made of, as long as the latest time of the
/// arrival's day can be held.
pub proof fn lemma_decode_succeeds(payload: Seq<u8>, arrival: Timestamp)
    requires
        has_magic(payload),
        payload.len() >= MIN_PAYLOAD_LEN,
        Timestamp::representable(day_start(arrival@) + max_time_of_day()),
    ensures
        decode(payload, arrival) is Some,
{
    lemma_accept_time_reads(payload);
}

/// Whether `payload` holds the five `levels` from `offset` on, each price
/// written in five decimal digits and each quantity in seven.
pub open spec fn holds_ladder(payload: Seq<u8>, offset: int, levels: Seq<PriceLevel>) -> bool {
    &&& levels.len() == LEVELS_PER_SIDE
    &&& forall|i: int|
        0 <= i < LEVELS_PER_SIDE ==> {
            &&& (#[trigger] levels[i]).price < 100_000
            &&& levels[i].quantity < 10_000_000
            &&& payload.subrange(offset + LEVEL_LEN * i, offset + LEVEL_LEN * i + PRICE_LEN)
                == fixed_decimal(levels[i].price as nat, PRICE_LEN as nat)
            &&& payload.subrange(
                offset + LEVEL_LEN * i + PRICE_LEN,
                offset + LEVEL_LEN * i + LEVEL_LEN,
            ) == fixed_decimal(levels[i].quantity as nat, QUANTITY_LEN as nat)
        }
}

/// Whether `payload` holds the accept time `hours:minutes:seconds` and
/// `hundredths` of a second, each written in two decimal digits.
pub open spec fn holds_accept_time(
    payload: Seq<u8>,
    hours: nat,
    minutes: nat,
    seconds: nat,
    hundredths: nat,
) -> bool {
    &&& hours < 100 && minutes < 100 && seconds < 100 && hundredths < 100
    &&& payload.subrange(ACCEPT_TIME_OFFSET as int, ACCEPT_TIME_OFFSET + 2) == fixed_decimal(
        hours,
        2,
    )
    &&& payload.subrange(ACCEPT_TIME_OFFSET + 2, ACCEPT_TIME_OFFSET + 4) == fixed_decimal(
        minutes,
        2,
    )
    &&& payload.subrange(ACCEPT_TIME_OFFSET + 4, ACCEPT_TIME_OFFSET + 6) == fixed_decimal(
        seconds,
        2,
    )
    &&& payload.subrange(ACCEPT_TIME_OFFSET + 6, ACCEPT_TIME_OFFSET + 8) == fixed_decimal(
        hundredths,
        2,
    )
}

/// Whether `payload` holds the issue code `code`, twelve printable ASCII
/// characters.
pub open spec fn holds_issue_code(payload: Seq<u8>, code: Seq<char>) -> bool {
    &&& code.len() == ISSUE_CODE_LEN
    &&& all_printable(code)
    &&& forall|i: int|
        0 <= i < ISSUE_CODE_LEN ==> #[trigger] payload[ISSUE_CODE_OFFSET + i] == code[i] as u8
}

/// Decoding gives back what a payload was built from: a payload with the
/// marker that holds an issue code, ten price levels and an accept time at
/// their places decodes to exactly these, the event time being the accept
/// time on the day of arrival.
pub proof fn lemma_decode_round_trip(
    payload: Seq<u8>,
    arrival: Timestamp,
    code: Seq<char>,
    bids: Seq<PriceLevel>,
    asks: Seq<PriceLevel>,
    hours: nat,
    minutes: nat,
    seconds: nat,
    hundredths: nat,
)
    requires
        has_magic(payload),
        payload.len() >= MIN_PAYLOAD_LEN,
        holds_issue_code(payload, code),
        holds_ladder(payload, BIDS_OFFSET as int, bids),
        holds_ladder(payload, ASKS_OFFSET as int, asks),
        holds_accept_time(payload, hours, minutes, seconds, hundredths),
        Timestamp::representable(
            day_start(arrival@) + time_of_day_micros(hours, minutes, seconds, hundredths),
        ),
    ensures
        decode(payload, arrival) == Some(
            QuoteView {
                arrival_time: arrival,
                event_time: Timestamp {
                    micros: (day_start(arrival@) + time_of_day_micros(
                        hours,
                        minutes,
                        seconds,
                        hundredths,
                    )) as u64,
                },
                issue_code: code,
                bids,
                asks,
            },
        ),
{
    lemma_ladder_reads_back(payload, BIDS_OFFSET as int, bids);
    lemma_ladder_reads_back(payload, ASKS_OFFSET as int, asks);
    let raw_code = payload.subrange(ISSUE_CODE_OFFSET as int, ISSUE_CODE_OFFSET + ISSUE_CODE_LEN);
    assert(printable_text(raw_code) =~= code) by {
        assert forall|i: int| 0 <= i < 12 implies printable_text(raw_code)[i] == code[i] by {
            assert(raw_code[i] == payload[ISSUE_CODE_OFFSET + i]);
        }
    }
    let text = accept_time_text(payload);
    lemma_sub_field_reads_back(payload, 206, hours);
    lemma_sub_field_reads_back(payload, 208, minutes);
    lemma_sub_field_reads_back(payload, 210, seconds);
    lemma_sub_field_reads_back(payload, 212, hundredths);
    assert(text[0] == digit_or_zero_char(payload[206]));
    assert(text[1] == digit_or_zero_char(payload[207]));
    assert(text[2] == digit_or_zero_char(payload[208]));
    assert(text[3] == digit_or_zero_char(payload[209]));
    assert(text[4] == digit_or_zero_char(payload[210]));
    assert(text[5] == digit_or_zero_char(payload[211]));
    assert(text[6] == digit_or_zero_char(payload[212]));
    assert(text[7] == digit_or_zero_char(payload[213]));
}

/// Two digits written at `at` are read back as the number they spell.
proof fn lemma_sub_field_reads_back(payload: Seq<u8>, at: int, value: nat)
    requires
        0 <= at,
        at + 2 <= payload.len(),
        value < 100,
        payload.subrange(at, at + 2) == fixed_decimal(value, 2),
    ensures
        sub_field_value(digit_or_zero_char(payload[at]), digit_or_zero_char(payload[at + 1]))
            == Some(value),
{
    reveal_with_fuel(fixed_decimal, 3);
    let written = fixed_decimal(value, 2);
    assert(written[0] == (0x30 + (value / 10) % 10) as u8);
    assert(written[1] == (0x30 + value % 10) as u8);
    assert(payload.subrange(at, at + 2)[0] == payload[at]);
    assert(payload.subrange(at, at + 2)[1] == payload[at + 1]);
}

/// Price levels written as decimal digits are read back as themselves.
proof fn lemma_ladder_reads_back(payload: Seq<u8>, offset: int, levels: Seq<PriceLevel>)
    requires
        0 <= offset,
        offset + LEVELS_PER_SIDE * LEVEL_LEN <= payload.len(),
        holds_ladder(payload, offset, levels),
    ensures
        ladder_at(payload, offset) == levels,
{
    assert(pow10(5) == 100_000 && pow10(7) == 10_000_000) by {
        reveal_with_fuel(pow10, 8);
    }
    assert forall|i: int| 0 <= i < 5 implies #[trigger] ladder_at(payload, offset)[i]
        == levels[i] by {
        lemma_fixed_decimal_reads_back(levels[i].price as nat, PRICE_LEN as nat);
        lemma_fixed_decimal_reads_back(levels[i].quantity as nat, QUANTITY_LEN as nat);
    }
    assert(ladder_at(payload, offset) =~= levels);
}

} // verus!
