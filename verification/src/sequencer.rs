//! The order in which decoded messages are given out: as they arrive, or
//! by event time through the reorder buffer.

use vstd::prelude::*;
use crate::frame::{carried_payload, quote_payload};
use crate::quote::{Decoded, QuoteMessage, QuoteView};
use crate::reorder::{output_of, released_by, state_after, ReorderBuffer, ReorderState};
use crate::time::Timestamp;
use crate::wire::{decode, parse_quote_message};

verus! {

/// The message that a captured frame carries, if it carries one: the frame
/// holds a quote payload, and the payload decodes.
pub open spec fn decoded_from(frame: Seq<u8>, arrival: Timestamp) -> Option<QuoteView> {
    match carried_payload(frame) {
        Some(payload) => decode(payload, arrival),
        None => None,
    }
}

/// What a sequencer holds, as mathematical values.
pub enum SequencerState {
    /// Messages are given out as they arrive; nothing is kept.
    Passthrough,
    /// Messages go through a reorder buffer in this state.
    Reordering(ReorderState),
}

impl SequencerState {
    /// The state at the start of a stream.
    pub open spec fn start(reorder: bool) -> SequencerState {
        if reorder {
            SequencerState::Reordering(ReorderState::idle())
        } else {
            SequencerState::Passthrough
        }
    }

    /// Whether the reorder buffer, if there is one, is well formed.
    pub open spec fn well_formed(self) -> bool {
        match self {
            SequencerState::Passthrough => true,
            SequencerState::Reordering(buffer) => buffer.well_formed(),
        }
    }

    /// Takes one decoded message: gives the next state and the messages to
    /// give out now. Without reordering that is the message itself; with
    /// reordering it is what the buffer releases.
    pub open spec fn accept(self, m: QuoteMessage) -> (SequencerState, Seq<QuoteMessage>) {
        match self {
            SequencerState::Passthrough => (SequencerState::Passthrough, seq![m]),
            SequencerState::Reordering(buffer) => (
                SequencerState::Reordering(buffer.insert(m).0),
                buffer.insert(m).1,
            ),
        }
    }

    /// Ends the stream: gives the next state and the messages to give out
    /// last. Without reordering there are none; with reordering they are
    /// all that the buffer still holds.
    pub open spec fn finish(self) -> (SequencerState, Seq<QuoteMessage>) {
        match self {
            SequencerState::Passthrough => (SequencerState::Passthrough, Seq::empty()),
            SequencerState::Reordering(buffer) => (
                SequencerState::Reordering(buffer.drain_all().0),
                buffer.drain_all().1,
            ),
        }
    }
}

/// The state of a sequencer that took `msgs` one after the other from the
/// start of a stream.
pub open spec fn sequencer_after(reorder: bool, msgs: Seq<QuoteMessage>) -> SequencerState
    decreases msgs.len(),
{
    if msgs.len() == 0 {
        SequencerState::start(reorder)
    } else {
        sequencer_after(reorder, msgs.drop_last()).accept(msgs.last()).0
    }
}

/// Every message that such a sequencer gave out while it took `msgs`, in
/// the order in which it gave them out.
pub open spec fn emitted_by(reorder: bool, msgs: Seq<QuoteMessage>) -> Seq<QuoteMessage>
    decreases msgs.len(),
{
    if msgs.len() == 0 {
        Seq::empty()
    } else {
        emitted_by(reorder, msgs.drop_last()) + sequencer_after(reorder, msgs.drop_last()).accept(
            msgs.last(),
        ).1
    }
}

/// Everything that a whole stream gives out, the end of the stream
/// included.
pub open spec fn stream_output(reorder: bool, msgs: Seq<QuoteMessage>) -> Seq<QuoteMessage> {
    emitted_by(reorder, msgs) + sequencer_after(reorder, msgs).finish().1
}

/// Without reordering the messages are given out strictly as they arrive,
/// each at once, whatever their event times, and the end of the stream adds
/// nothing.
pub proof fn lemma_passthrough_keeps_arrival_order(msgs: Seq<QuoteMessage>)
    ensures
        sequencer_after(false, msgs) == SequencerState::Passthrough,
        emitted_by(false, msgs) == msgs,
        stream_output(false, msgs) == msgs,
    decreases msgs.len(),
{
    if msgs.len() > 0 {
        lemma_passthrough_keeps_arrival_order(msgs.drop_last());
        assert(msgs.drop_last() + seq![msgs.last()] =~= msgs);
    }
    assert(emitted_by(false, msgs) + Seq::<QuoteMessage>::empty() =~= emitted_by(false, msgs));
}

/// With reordering the sequencer gives out what the reorder buffer
/// releases, and at the end of the stream what the buffer still holds.
pub proof fn lemma_reordering_follows_buffer(msgs: Seq<QuoteMessage>)
    ensures
        sequencer_after(true, msgs) == SequencerState::Reordering(state_after(msgs)),
        emitted_by(true, msgs) == released_by(msgs),
        stream_output(true, msgs) == output_of(msgs),
    decreases msgs.len(),
{
    if msgs.len() > 0 {
        lemma_reordering_follows_buffer(msgs.drop_last());
    }
}

/// Decides the order in which the messages of a stream are given out.
///
/// Without reordering it keeps nothing; with reordering it owns the
/// reorder buffer, which is well formed between any two operations.
#[derive(Debug)]
pub struct Sequencer {
    buffer: Option<ReorderBuffer>,
}

impl View for Sequencer {
    type V = SequencerState;

    closed spec fn view(&self) -> SequencerState {
        match self.buffer {
            None => SequencerState::Passthrough,
            Some(buffer) => SequencerState::Reordering(buffer@),
        }
    }
}

impl Sequencer {
    #[verifier::type_invariant]
    spec fn valid(&self) -> bool {
        self@.well_formed()
    }

    /// A sequencer at the start of a stream, with or without reordering.
    pub fn new(reorder: bool) -> (r: Sequencer)
        ensures
            r@ == SequencerState::start(reorder),
            r@.well_formed(),
    {
        if reorder {
            Sequencer { buffer: Some(ReorderBuffer::new()) }
        } else {
            Sequencer { buffer: None }
        }
    }

    /// Whether messages go through the reorder buffer.
    pub fn is_reordering(&self) -> (r: bool)
        ensures
            r == (self@ is Reordering),
    {
        self.buffer.is_some()
    }

    /// Takes one decoded message and gives the messages that are to be
    /// given out now, in their order.
    pub fn accept(self, msg: QuoteMessage) -> (r: (Sequencer, Vec<QuoteMessage>))
        ensures
            (r.0@, r.1@) == self@.accept(msg),
            r.0@.well_formed(),
            self@ is Passthrough ==> r.1@ == seq![msg],
    {
        proof {
            use_type_invariant(&self);
        }
        match self.buffer {
            None => {
                let mut out = Vec::new();
                out.push(msg);
                (Sequencer { buffer: None }, out)
            },
            Some(buffer) => {
                let (buffer, released) = buffer.insert(msg);
                (Sequencer { buffer: Some(buffer) }, released)
            },
        }
    }

    /// Takes one captured frame with the time at which it arrived. A frame
    /// that carries no quote, or whose payload holds no message, changes
    /// nothing and gives nothing out; the message of any other frame is
    /// taken as by `accept`.
    pub fn on_frame(self, frame: &[u8], arrival: Timestamp) -> (r: (Sequencer, Vec<QuoteMessage>))
        ensures
            r.0@.well_formed(),
            match decoded_from(frame@, arrival) {
                Some(decoded) => exists|m: QuoteMessage|
                    m@ == decoded && (r.0@, r.1@) == #[trigger] self@.accept(m),
                None => r.0@ == self@ && r.1@.len() == 0,
            },
    {
        proof {
            use_type_invariant(&self);
        }
        match quote_payload(frame) {
            Some(payload) => match parse_quote_message(payload.as_slice(), arrival) {
                Decoded::Message(msg) => {
                    let ghost taken = msg;
                    let r = self.accept(msg);
                    assert((r.0@, r.1@) == self@.accept(taken));
                    r
                },
                Decoded::NoMessage => (self, Vec::new()),
            },
            None => (self, Vec::new()),
        }
    }

    /// Ends the stream: gives the messages that are still to be given out,
    /// in their order. With reordering those are all that the buffer holds,
    /// by event time; without it there are none.
    pub fn finish(self) -> (r: (Sequencer, Vec<QuoteMessage>))
        ensures
            (r.0@, r.1@) == self@.finish(),
            r.0@.well_formed(),
    {
        match self.buffer {
            None => (Sequencer { buffer: None }, Vec::new()),
            Some(buffer) => {
                let (buffer, released) = buffer.drain_all();
                (Sequencer { buffer: Some(buffer) }, released)
            },
        }
    }
}

} // verus!
