//! The decoded quote message.

use vstd::prelude::*;
use crate::text::all_printable;
use crate::time::Timestamp;

verus! {

/// Number of characters of an issue code.
pub const ISSUE_CODE_LEN: usize = 12;

/// Number of price levels on each side of the book.
pub const LEVELS_PER_SIDE: usize = 5;

/// One level of the book: a quantity offered or bid at a price.
#[derive(Clone, Copy, Debug, PartialEq, Eq, Structural)]
pub struct PriceLevel {
    pub quantity: u64,
    pub price: u64,
}

/// What a quote message says, as mathematical values.
pub struct QuoteView {
    /// When the capture saw the packet.
    pub arrival_time: Timestamp,
    /// When the venue accepted the quote.
    pub event_time: Timestamp,
    /// The instrument's identifier.
    pub issue_code: Seq<char>,
    /// Bid levels, best bid first.
    pub bids: Seq<PriceLevel>,
    /// Ask levels, best ask first.
    pub asks: Seq<PriceLevel>,
}

impl QuoteView {
    /// A message is well formed when its issue code is twelve printable
    /// ASCII characters and each side of the book has five levels.
    pub open spec fn well_formed(self) -> bool {
        &&& self.issue_code.len() == ISSUE_CODE_LEN
        &&& all_printable(self.issue_code)
        &&& self.bids.len() == LEVELS_PER_SIDE
        &&& self.asks.len() == LEVELS_PER_SIDE
    }
}

/// One decoded quote: an issue code with five bid and five ask levels, the
/// time the packet arrived and the time the venue accepted the quote.
///
/// Every message is well formed; a message is made by decoding a payload
/// and does not change afterwards.
#[derive(Debug)]
pub struct QuoteMessage {
    arrival_time: Timestamp,
    event_time: Timestamp,
    issue_code: String,
    bids: Vec<PriceLevel>,
    asks: Vec<PriceLevel>,
}

impl View for QuoteMessage {
    type V = QuoteView;

    closed spec fn view(&self) -> QuoteView {
        QuoteView {
            arrival_time: self.arrival_time,
            event_time: self.event_time,
            issue_code: self.issue_code@,
            bids: self.bids@,
            asks: self.asks@,
        }
    }
}

impl QuoteMessage {
    #[verifier::type_invariant]
    spec fn valid(&self) -> bool {
        self@.well_formed()
    }

    /// Puts a message together from its parts.
    pub(crate) fn assemble(
        arrival_time: Timestamp,
        event_time: Timestamp,
        issue_code: String,
        bids: Vec<PriceLevel>,
        asks: Vec<PriceLevel>,
    ) -> (r: QuoteMessage)
        requires
            (QuoteView {
                arrival_time,
                event_time,
                issue_code: issue_code@,
                bids: bids@,
                asks: asks@,
            }).well_formed(),
        ensures
            r@ == (QuoteView {
                arrival_time,
                event_time,
                issue_code: issue_code@,
                bids: bids@,
                asks: asks@,
            }),
    {
        QuoteMessage { arrival_time, event_time, issue_code, bids, asks }
    }

    /// The microsecond at which the venue accepted the quote: the key by
    /// which messages are put in order.
    pub open spec fn event_micros(&self) -> nat {
        self@.event_time@
    }

    /// When the capture saw the packet that carried this message.
    pub fn arrival_time(&self) -> (r: Timestamp)
        ensures
            r == self@.arrival_time,
    {
        self.arrival_time
    }

    /// When the venue accepted the quote.
    pub fn event_time(&self) -> (r: Timestamp)
        ensures
            r == self@.event_time,
    {
        self.event_time
    }

    /// The instrument's identifier: twelve printable ASCII characters.
    pub fn issue_code(&self) -> (r: &str)
        ensures
            r@ == self@.issue_code,
            r@.len() == ISSUE_CODE_LEN,
            all_printable(r@),
    {
        proof {
            use_type_invariant(self);
        }
        self.issue_code.as_str()
    }

    /// The five bid levels, best bid first.
    pub fn bids(&self) -> (r: &[PriceLevel])
        ensures
            r@ == self@.bids,
            r@.len() == LEVELS_PER_SIDE,
    {
        proof {
            use_type_invariant(self);
        }
        self.bids.as_slice()
    }

    /// The five ask levels, best ask first.
    pub fn asks(&self) -> (r: &[PriceLevel])
        ensures
            r@ == self@.asks,
            r@.len() == LEVELS_PER_SIDE,
    {
        proof {
            use_type_invariant(self);
        }
        self.asks.as_slice()
    }
}

/// What decoding one payload gives: a message, or nothing. A payload that
/// is malformed, truncated or of another kind is no error; it yields no
/// message and the stream goes on.
#[derive(Debug)]
pub enum Decoded {
    /// The payload held a quote message.
    Message(QuoteMessage),
    /// The payload held no quote message.
    NoMessage,
}

} // verus!
