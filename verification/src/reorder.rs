//! The watermark reorder buffer: messages wait, in event-time order, until
//! the newest event time seen has moved far enough past them that nothing
//! earlier is expected any more.

use vstd::prelude::*;
use crate::quote::QuoteMessage;
use crate::time::Timestamp;

verus! {

/// How far the watermark must have moved past a message's event time before
/// the message is released: three seconds, in microseconds.
pub const TOLERANCE_MICROS: u64 = 3_000_000;

/// Whether a message may leave the buffer: the watermark lies more than the
/// tolerance after its event time.
pub open spec fn is_ready(m: QuoteMessage, watermark: Timestamp) -> bool {
    m.event_micros() + TOLERANCE_MICROS < watermark@
}

/// Whether messages stand in event-time order, none before an earlier one.
pub open spec fn in_event_order(msgs: Seq<QuoteMessage>) -> bool {
    forall|i: int, j: int|
        0 <= i <= j < msgs.len() ==> msgs[i].event_micros() <= msgs[j].event_micros()
}

/// Where a message with event time `key` goes into `pending`: behind the
/// last message that is not later than it, so that of two messages with one
/// event time the one that came first stays first.
pub open spec fn insertion_index(pending: Seq<QuoteMessage>, key: nat) -> nat
    decreases pending.len(),
{
    if pending.len() == 0 {
        0
    } else if pending.last().event_micros() <= key {
        pending.len()
    } else {
        insertion_index(pending.drop_last(), key)
    }
}

/// How many messages at the front of `pending` are ready, one after the
/// other.
pub open spec fn ready_count(pending: Seq<QuoteMessage>, watermark: Timestamp) -> nat
    decreases pending.len(),
{
    if pending.len() == 0 || !is_ready(pending[0], watermark) {
        0
    } else {
        1 + ready_count(pending.drop_first(), watermark)
    }
}

/// The watermark after a message with event time `t` has been seen: the
/// later of the two.
pub open spec fn advanced(watermark: Option<Timestamp>, t: Timestamp) -> Timestamp {
    match watermark {
        Some(w) => if w@ >= t@ {
            w
        } else {
            t
        },
        None => t,
    }
}

/// What a reorder buffer holds, as mathematical values.
pub struct ReorderState {
    /// The messages that wait, the earliest first.
    pub pending: Seq<QuoteMessage>,
    /// The latest event time of any message ever put in; nothing before
    /// the first message.
    pub watermark: Option<Timestamp>,
}

impl ReorderState {
    /// The state before any message: nothing waits and no watermark is set.
    pub open spec fn idle() -> ReorderState {
        ReorderState { pending: Seq::empty(), watermark: None }
    }

    /// The state between two operations: the messages wait in event-time
    /// order, none of them is later than the watermark, and none is ready.
    pub open spec fn well_formed(self) -> bool {
        &&& in_event_order(self.pending)
        &&& match self.watermark {
            Some(w) => forall|i: int|
                0 <= i < self.pending.len() ==> (#[trigger] self.pending[i]).event_micros() <= w@
                    && !is_ready(self.pending[i], w),
            None => self.pending.len() == 0,
        }
    }

    /// Puts a message in: the watermark moves to the later of itself and
    /// the message's event time, the message takes its place among those
    /// that wait, and every message that is now ready leaves, the earliest
    /// first. Gives the new state and the messages released.
    pub open spec fn insert(self, m: QuoteMessage) -> (ReorderState, Seq<QuoteMessage>) {
        let watermark = advanced(self.watermark, m@.event_time);
        let placed = self.pending.insert(
            insertion_index(self.pending, m.event_micros()) as int,
            m,
        );
        let released = ready_count(placed, watermark) as int;
        (
            ReorderState { pending: placed.skip(released), watermark: Some(watermark) },
            placed.take(released),
        )
    }

    /// Empties the buffer at the end of the stream: every message that
    /// waits leaves, the earliest first, whether ready or not. The
    /// watermark stays.
    pub open spec fn drain_all(self) -> (ReorderState, Seq<QuoteMessage>) {
        (ReorderState { pending: Seq::empty(), watermark: self.watermark }, self.pending)
    }
}

/// The place that a scan from the back finds is the insertion index.
proof fn lemma_insertion_index_is(pending: Seq<QuoteMessage>, key: nat, at: nat)
    requires
        at <= pending.len(),
        forall|j: int| at <= j < pending.len() ==> key < (#[trigger] pending[j]).event_micros(),
        at > 0 ==> pending[at - 1].event_micros() <= key,
    ensures
        insertion_index(pending, key) == at,
    decreases pending.len(),
{
    if pending.len() > at {
        lemma_insertion_index_is(pending.drop_last(), key, at);
    }
}

/// Behind the insertion index every message is later than the key; the
/// message just before it, if there is one, is not.
proof fn lemma_insertion_index_splits(pending: Seq<QuoteMessage>, key: nat)
    ensures
        insertion_index(pending, key) <= pending.len(),
        forall|j: int|
            insertion_index(pending, key) <= j < pending.len() ==> key < (
            #[trigger] pending[j]).event_micros(),
        insertion_index(pending, key) > 0 ==> pending[insertion_index(pending, key)
            - 1].event_micros() <= key,
    decreases pending.len(),
{
    if pending.len() > 0 && pending.last().event_micros() > key {
        let front = pending.drop_last();
        lemma_insertion_index_splits(front, key);
        assert forall|j: int| insertion_index(pending, key) <= j < pending.len() implies key < (
        #[trigger] pending[j]).event_micros() by {
            if j < front.len() {
                assert(pending[j] == front[j]);
            }
        }
        if insertion_index(pending, key) > 0 {
            assert(pending[insertion_index(pending, key) - 1] == front[insertion_index(
                front,
                key,
            ) - 1]);
        }
    }
}

/// The length of the ready run that a scan from the front finds is the
/// ready count.
proof fn lemma_ready_count_is(pending: Seq<QuoteMessage>, watermark: Timestamp, n: nat)
    requires
        n <= pending.len(),
        forall|j: int| 0 <= j < n ==> is_ready(#[trigger] pending[j], watermark),
        n < pending.len() ==> !is_ready(pending[n as int], watermark),
    ensures
        ready_count(pending, watermark) == n,
    decreases n,
{
    if n > 0 {
        let rest = pending.drop_first();
        assert forall|j: int| 0 <= j < n - 1 implies is_ready(#[trigger] rest[j], watermark) by {
            assert(rest[j] == pending[j + 1]);
        }
        lemma_ready_count_is(rest, watermark, (n - 1) as nat);
    }
}

/// The first `ready_count` messages are ready; the one after them, if
/// there is one, is not.
proof fn lemma_ready_count_splits(pending: Seq<QuoteMessage>, watermark: Timestamp)
    ensures
        ready_count(pending, watermark) <= pending.len(),
        forall|j: int|
            0 <= j < ready_count(pending, watermark) ==> is_ready(
                #[trigger] pending[j],
                watermark,
            ),
        ready_count(pending, watermark) < pending.len() ==> !is_ready(
            pending[ready_count(pending, watermark) as int],
            watermark,
        ),
    decreases pending.len(),
{
    if pending.len() > 0 && is_ready(pending[0], watermark) {
        let rest = pending.drop_first();
        lemma_ready_count_splits(rest, watermark);
        let n = ready_count(pending, watermark);
        assert forall|j: int| 0 <= j < n implies is_ready(#[trigger] pending[j], watermark) by {
            if j > 0 {
                assert(pending[j] == rest[j - 1]);
            }
        }
        if n < pending.len() {
            assert(pending[n as int] == rest[n - 1]);
        }
    }
}

/// A message put at its insertion index leaves the messages in event-time
/// order.
proof fn lemma_placed_in_order(pending: Seq<QuoteMessage>, m: QuoteMessage)
    requires
        in_event_order(pending),
    ensures
        in_event_order(pending.insert(insertion_index(pending, m.event_micros()) as int, m)),
{
    let key = m.event_micros();
    let at = insertion_index(pending, key) as int;
    lemma_insertion_index_splits(pending, key);
    let placed = pending.insert(at, m);
    assert forall|i: int, j: int| 0 <= i <= j < placed.len() implies placed[i].event_micros()
        <= placed[j].event_micros() by {
        if i < at {
            assert(placed[i] == pending[i]);
            assert(pending[i].event_micros() <= pending[at - 1].event_micros());
        } else if i > at {
            assert(placed[i] == pending[i - 1]);
        }
        if j < at {
            assert(placed[j] == pending[j]);
        } else if j > at {
            assert(placed[j] == pending[j - 1]);
        }
    }
}

/// One insertion, step by step: the state stays well formed; the watermark
/// is the later of the old watermark and the new event time; the messages
/// released are in event-time order and each of them is ready, that is, the
/// watermark lies more than the tolerance past it; no message that stays is
/// ready; and the released messages followed by those that stay are the old
/// ones with the new message at its place, so that none is lost and none
/// made up.
pub proof fn lemma_insert_step(state: ReorderState, m: QuoteMessage)
    requires
        state.well_formed(),
    ensures
        state.insert(m).0.well_formed(),
        state.insert(m).0.watermark == Some(advanced(state.watermark, m@.event_time)),
        in_event_order(state.insert(m).1),
        forall|i: int|
            0 <= i < state.insert(m).1.len() ==> is_ready(
                #[trigger] state.insert(m).1[i],
                advanced(state.watermark, m@.event_time),
            ),
        forall|i: int|
            0 <= i < state.insert(m).0.pending.len() ==> !is_ready(
                #[trigger] state.insert(m).0.pending[i],
                advanced(state.watermark, m@.event_time),
            ),
        state.insert(m).1 + state.insert(m).0.pending == state.pending.insert(
            insertion_index(state.pending, m.event_micros()) as int,
            m,
        ),
        in_event_order(state.insert(m).1 + state.insert(m).0.pending),
{
    let key = m.event_micros();
    let watermark = advanced(state.watermark, m@.event_time);
    let at = insertion_index(state.pending, key) as int;
    let placed = state.pending.insert(at, m);
    let n = ready_count(placed, watermark) as int;
    lemma_insertion_index_splits(state.pending, key);
    lemma_placed_in_order(state.pending, m);
    lemma_ready_count_splits(placed, watermark);
    let released = placed.take(n);
    let staying = placed.skip(n);
    assert(released + staying =~= placed);
    assert forall|i: int| 0 <= i < placed.len() implies (#[trigger] placed[i]).event_micros()
        <= watermark@ by {
        if i < at {
            assert(placed[i] == state.pending[i]);
        } else if i > at {
            assert(placed[i] == state.pending[i - 1]);
        }
    }
    assert forall|i: int| 0 <= i < staying.len() implies (#[trigger] staying[i]).event_micros()
        <= watermark@ && !is_ready(staying[i], watermark) by {
        assert(staying[i] == placed[n + i]);
        assert(placed[n].event_micros() <= placed[n + i].event_micros());
    }
    assert forall|i: int, j: int| 0 <= i <= j < staying.len() implies staying[i].event_micros()
        <= staying[j].event_micros() by {
        assert(staying[i] == placed[n + i]);
        assert(staying[j] == placed[n + j]);
    }
    assert forall|i: int, j: int| 0 <= i <= j < released.len() implies released[i].event_micros()
        <= released[j].event_micros() by {
        assert(released[i] == placed[i]);
        assert(released[j] == placed[j]);
    }
}

/// The state of a buffer that started idle and into which `msgs` were put
/// one after the other.
pub open spec fn state_after(msgs: Seq<QuoteMessage>) -> ReorderState
    decreases msgs.len(),
{
    if msgs.len() == 0 {
        ReorderState::idle()
    } else {
        state_after(msgs.drop_last()).insert(msgs.last()).0
    }
}

/// Every message that left such a buffer while `msgs` were put in, in the
/// order in which they left.
pub open spec fn released_by(msgs: Seq<QuoteMessage>) -> Seq<QuoteMessage>
    decreases msgs.len(),
{
    if msgs.len() == 0 {
        Seq::empty()
    } else {
        released_by(msgs.drop_last()) + state_after(msgs.drop_last()).insert(msgs.last()).1
    }
}

/// Everything that a whole stream gives out: what left while `msgs` were
/// put in, then what the drain at the end of the stream let go.
pub open spec fn output_of(msgs: Seq<QuoteMessage>) -> Seq<QuoteMessage> {
    released_by(msgs) + state_after(msgs).drain_all().1
}

/// Whatever the stream, the buffer is well formed after it.
pub proof fn lemma_state_is_well_formed(msgs: Seq<QuoteMessage>)
    ensures
        state_after(msgs).well_formed(),
    decreases msgs.len(),
{
    if msgs.len() > 0 {
        lemma_state_is_well_formed(msgs.drop_last());
        lemma_insert_step(state_after(msgs.drop_last()), msgs.last());
    }
}

/// The watermark is the latest event time of the stream so far: no message
/// has a later one, one message has just this one, and before the first
/// message there is none.
pub proof fn lemma_watermark_is_latest(msgs: Seq<QuoteMessage>)
    ensures
        msgs.len() == 0 ==> state_after(msgs).watermark is None,
        msgs.len() > 0 ==> state_after(msgs).watermark is Some,
        forall|i: int|
            0 <= i < msgs.len() ==> (#[trigger] msgs[i]).event_micros() <= state_after(
                msgs,
            ).watermark->0@,
        msgs.len() > 0 ==> exists|i: int|
            0 <= i < msgs.len() && (#[trigger] msgs[i])@.event_time == state_after(
                msgs,
            ).watermark->0,
    decreases msgs.len(),
{
    if msgs.len() > 0 {
        let init = msgs.drop_last();
        lemma_watermark_is_latest(init);
        let latest = state_after(msgs).watermark->0;
        assert forall|i: int| 0 <= i < msgs.len() implies (#[trigger] msgs[i]).event_micros()
            <= latest@ by {
            if i < init.len() {
                assert(msgs[i] == init[i]);
            }
        }
        if latest == msgs.last()@.event_time {
            assert(msgs[msgs.len() - 1]@.event_time == latest);
        } else {
            let k = choose|k: int|
                0 <= k < init.len() && (#[trigger] init[k])@.event_time == state_after(
                    init,
                ).watermark->0;
            assert(msgs[k] == init[k]);
        }
    }
}

/// The watermark never goes back: after more of the stream it is no earlier
/// than after less of it.
pub proof fn lemma_watermark_never_goes_back(msgs: Seq<QuoteMessage>, n: int)
    requires
        0 < n <= msgs.len(),
    ensures
        state_after(msgs.take(n)).watermark is Some,
        state_after(msgs).watermark is Some,
        state_after(msgs.take(n)).watermark->0@ <= state_after(msgs).watermark->0@,
{
    let part = msgs.take(n);
    lemma_watermark_is_latest(part);
    lemma_watermark_is_latest(msgs);
    let k = choose|k: int|
        0 <= k < part.len() && (#[trigger] part[k])@.event_time == state_after(part).watermark->0;
    assert(part[k] == msgs[k]);
}

/// The last message of a stream goes into what would have come out
/// without it, at its place among the messages that waited, behind all that
/// had already left.
proof fn lemma_output_step(msgs: Seq<QuoteMessage>)
    requires
        msgs.len() > 0,
    ensures
        insertion_index(state_after(msgs.drop_last()).pending, msgs.last().event_micros())
            <= state_after(msgs.drop_last()).pending.len(),
        output_of(msgs) == output_of(msgs.drop_last()).insert(
            (released_by(msgs.drop_last()).len() + insertion_index(
                state_after(msgs.drop_last()).pending,
                msgs.last().event_micros(),
            )) as int,
            msgs.last(),
        ),
{
    let init = msgs.drop_last();
    let m = msgs.last();
    let before = state_after(init);
    let gone = released_by(init);
    let at = insertion_index(before.pending, m.event_micros()) as int;
    lemma_insertion_index_splits(before.pending, m.event_micros());
    let placed = before.pending.insert(at, m);
    lemma_ready_count_splits(placed, advanced(before.watermark, m@.event_time));
    assert(before.insert(m).1 + before.insert(m).0.pending =~= placed);
    assert(output_of(msgs) =~= gone + placed);
    assert(gone + placed =~= (gone + before.pending).insert(gone.len() + at, m));
}

/// A whole stream gives out every message that was put in, each as often as
/// it was put in, and no other.
pub proof fn lemma_nothing_lost_or_made_up(msgs: Seq<QuoteMessage>)
    ensures
        output_of(msgs).to_multiset() == msgs.to_multiset(),
        output_of(msgs).len() == msgs.len(),
    decreases msgs.len(),
{
    broadcast use vstd::seq_lib::group_to_multiset_ensures;

    if msgs.len() == 0 {
        assert(output_of(msgs) =~= msgs);
    } else {
        let init = msgs.drop_last();
        lemma_nothing_lost_or_made_up(init);
        lemma_output_step(msgs);
        assert(init.push(msgs.last()) =~= msgs);
    }
}

/// Every message that has left during the stream is one that the
/// watermark has passed by more than the tolerance; every message that
/// still waits is one that it has not.
pub proof fn lemma_released_past_tolerance(msgs: Seq<QuoteMessage>)
    ensures
        released_by(msgs).len() > 0 ==> state_after(msgs).watermark is Some,
        forall|j: int|
            0 <= j < released_by(msgs).len() ==> is_ready(
                #[trigger] released_by(msgs)[j],
                state_after(msgs).watermark->0,
            ),
        forall|j: int|
            0 <= j < state_after(msgs).pending.len() ==> !is_ready(
                #[trigger] state_after(msgs).pending[j],
                state_after(msgs).watermark->0,
            ),
    decreases msgs.len(),
{
    lemma_state_is_well_formed(msgs);
    if msgs.len() > 0 {
        let init = msgs.drop_last();
        lemma_released_past_tolerance(init);
        lemma_state_is_well_formed(init);
        lemma_insert_step(state_after(init), msgs.last());
        let gone = released_by(init);
        let all = released_by(msgs);
        let latest = state_after(msgs).watermark->0;
        assert forall|j: int| 0 <= j < all.len() implies is_ready(#[trigger] all[j], latest) by {
            if j < gone.len() {
                assert(all[j] == gone[j]);
            } else {
                assert(all[j] == state_after(init).insert(msgs.last()).1[j - gone.len()]);
            }
        }
    }
}

/// Whether no message of the stream comes too late: none has an event time
/// before that of a message which had left the buffer when it came.
pub open spec fn none_too_late(msgs: Seq<QuoteMessage>) -> bool {
    forall|i: int, j: int|
        0 <= i < msgs.len() && 0 <= j < released_by(msgs.take(i)).len() ==> (
        #[trigger] released_by(msgs.take(i))[j]).event_micros() <= msgs[i].event_micros()
}

/// Whether every message of the stream comes within the tolerance: when it
/// comes, the watermark is no more than the tolerance past its event time.
pub open spec fn all_within_tolerance(msgs: Seq<QuoteMessage>) -> bool {
    forall|i: int|
        0 <= i < msgs.len() ==> match (#[trigger] state_after(msgs.take(i))).watermark {
            Some(w) => w@ <= msgs[i].event_micros() + TOLERANCE_MICROS,
            None => true,
        }
}

/// The messages of a whole stream leave in event-time order, none before
/// an earlier one, as long as no message comes too late. A message that
/// comes when a later one has already left cannot be put before it any
/// more; it leaves out of order.
pub proof fn lemma_release_order(msgs: Seq<QuoteMessage>)
    requires
        none_too_late(msgs),
    ensures
        in_event_order(released_by(msgs)),
        in_event_order(output_of(msgs)),
    decreases msgs.len(),
{
    if msgs.len() > 0 {
        let init = msgs.drop_last();
        let m = msgs.last();
        assert(none_too_late(init)) by {
            assert forall|i: int, j: int|
                0 <= i < init.len() && 0 <= j < released_by(init.take(i)).len() implies (
            #[trigger] released_by(init.take(i))[j]).event_micros() <= init[i].event_micros() by {
                assert(init.take(i) == msgs.take(i));
            }
        }
        lemma_release_order(init);
        lemma_state_is_well_formed(init);
        lemma_output_step(msgs);
        let before = state_after(init);
        let gone = released_by(init);
        let at = insertion_index(before.pending, m.event_micros()) as int;
        lemma_insertion_index_splits(before.pending, m.event_micros());
        assert(msgs.take(msgs.len() - 1) == init);
        let old = output_of(init);
        let whole = output_of(msgs);
        let place = gone.len() + at;
        assert forall|i: int, j: int| 0 <= i <= j < whole.len() implies whole[i].event_micros()
            <= whole[j].event_micros() by {
            if i < place {
                assert(whole[i] == old[i]);
                if i < gone.len() {
                    assert(old[i] == released_by(msgs.take(msgs.len() - 1))[i]);
                } else {
                    assert(old[i] == before.pending[i - gone.len()]);
                    assert(old[place - 1] == before.pending[at - 1]);
                    assert(old[i].event_micros() <= old[place - 1].event_micros());
                }
            } else if i > place {
                assert(whole[i] == old[i - 1]);
            }
            if j < place {
                assert(whole[j] == old[j]);
            } else if j > place {
                assert(whole[j] == old[j - 1]);
                assert(old[j - 1] == before.pending[j - 1 - gone.len()]);
            }
        }
    }
    let all = output_of(msgs);
    let gone = released_by(msgs);
    assert forall|i: int, j: int| 0 <= i <= j < gone.len() implies gone[i].event_micros()
        <= gone[j].event_micros() by {
        assert(gone[i] == all[i]);
        assert(gone[j] == all[j]);
    }
}

/// A stream in which every message comes within the tolerance is one in
/// which none comes too late: its messages leave in event-time order.
pub proof fn lemma_within_tolerance_is_in_time(msgs: Seq<QuoteMessage>)
    requires
        all_within_tolerance(msgs),
    ensures
        none_too_late(msgs),
        in_event_order(output_of(msgs)),
{
    assert forall|i: int, j: int|
        0 <= i < msgs.len() && 0 <= j < released_by(msgs.take(i)).len() implies (
    #[trigger] released_by(msgs.take(i))[j]).event_micros() <= msgs[i].event_micros() by {
        lemma_released_past_tolerance(msgs.take(i));
        assert(state_after(msgs.take(i)).watermark is Some);
    }
    lemma_release_order(msgs);
}

/// What has left after a part of the stream stays where it is: it is the
/// front of what the whole stream gives out.
proof fn lemma_released_stays_in_front(msgs: Seq<QuoteMessage>, n: int)
    requires
        0 <= n <= msgs.len(),
    ensures
        released_by(msgs.take(n)).len() <= released_by(msgs).len(),
        forall|j: int|
            0 <= j < released_by(msgs.take(n)).len() ==> released_by(msgs)[j] == released_by(
                msgs.take(n),
            )[j],
    decreases msgs.len() - n,
{
    if n < msgs.len() {
        let init = msgs.drop_last();
        assert(init.take(n) == msgs.take(n));
        lemma_released_stays_in_front(init, n);
    } else {
        assert(msgs.take(n) == msgs);
    }
}

/// A message of the stream comes out behind everything that had left when
/// it came.
proof fn lemma_comes_out_behind(msgs: Seq<QuoteMessage>, i: int) -> (k: int)
    requires
        0 <= i < msgs.len(),
    ensures
        released_by(msgs.take(i)).len() <= k < output_of(msgs).len(),
        output_of(msgs)[k] == msgs[i],
    decreases msgs.len(),
{
    let init = msgs.drop_last();
    lemma_output_step(msgs);
    let place = (released_by(init).len() + insertion_index(
        state_after(init).pending,
        msgs.last().event_micros(),
    )) as int;
    if i == msgs.len() - 1 {
        assert(msgs.take(i) == init);
        place
    } else {
        assert(init.take(i) == msgs.take(i));
        let k = lemma_comes_out_behind(init, i);
        if k < place {
            k
        } else {
            k + 1
        }
    }
}

/// A message that comes too late does break the order: where one message
/// of the stream has an event time before that of a message which had left
/// when it came, what the stream gives out is not in event-time order.
pub proof fn lemma_late_message_breaks_order(msgs: Seq<QuoteMessage>)
    requires
        !none_too_late(msgs),
    ensures
        !in_event_order(output_of(msgs)),
{
    let (i, j) = choose|i: int, j: int|
        0 <= i < msgs.len() && 0 <= j < released_by(msgs.take(i)).len() && !((
        #[trigger] released_by(msgs.take(i))[j]).event_micros() <= msgs[i].event_micros());
    lemma_released_stays_in_front(msgs, i);
    let k = lemma_comes_out_behind(msgs, i);
    let all = output_of(msgs);
    assert(all[j] == released_by(msgs)[j]);
    assert(all[j] == released_by(msgs.take(i))[j]);
    assert(all[k] == msgs[i]);
    assert(j < k);
}

/// The watermark reorder buffer.
///
/// Between two operations the buffer is well formed: its messages wait in
/// event-time order, and none of them is ready to leave.
#[derive(Debug)]
pub struct ReorderBuffer {
    pending: Vec<QuoteMessage>,
    watermark: Option<Timestamp>,
}

impl View for ReorderBuffer {
    type V = ReorderState;

    closed spec fn view(&self) -> ReorderState {
        ReorderState { pending: self.pending@, watermark: self.watermark }
    }
}

impl ReorderBuffer {
    #[verifier::type_invariant]
    spec fn valid(&self) -> bool {
        self@.well_formed()
    }

    /// A buffer in which nothing waits and whose watermark is not set.
    pub fn new() -> (r: ReorderBuffer)
        ensures
            r@ == ReorderState::idle(),
            r@.well_formed(),
    {
        ReorderBuffer { pending: Vec::new(), watermark: None }
    }

    /// The latest event time of any message put in so far.
    pub fn watermark(&self) -> (r: Option<Timestamp>)
        ensures
            r == self@.watermark,
    {
        self.watermark
    }

    /// The number of messages that wait.
    pub fn len(&self) -> (r: usize)
        ensures
            r == self@.pending.len(),
    {
        self.pending.len()
    }

    /// Whether nothing waits.
    pub fn is_empty(&self) -> (r: bool)
        ensures
            r == (self@.pending.len() == 0),
    {
        self.pending.len() == 0
    }

    /// Puts a message in and takes out every message that is ready by the
    /// watermark as it then stands, the earliest first. Gives the buffer as
    /// it is afterwards and the messages released.
    ///
    /// A message is released only once the watermark lies more than
    /// three seconds past its event time.
    pub fn insert(self, msg: QuoteMessage) -> (r: (ReorderBuffer, Vec<QuoteMessage>))
        ensures
            (r.0@, r.1@) == self@.insert(msg),
            r.0@.well_formed(),
            r.0@.watermark == Some(advanced(self@.watermark, msg@.event_time)),
            in_event_order(r.1@),
            forall|i: int|
                0 <= i < r.1@.len() ==> is_ready(
                    #[trigger] r.1@[i],
                    advanced(self@.watermark, msg@.event_time),
                ),
            forall|i: int|
                0 <= i < r.0@.pending.len() ==> !is_ready(
                    #[trigger] r.0@.pending[i],
                    advanced(self@.watermark, msg@.event_time),
                ),
    {
        proof {
            use_type_invariant(&self);
            lemma_insert_step(self@, msg);
        }
        let key = msg.event_time();
        let watermark = match self.watermark {
            Some(w) => if w.micros >= key.micros {
                w
            } else {
                key
            },
            None => key,
        };
        let mut pending = self.pending;
        let mut at: usize = pending.len();
        while at > 0 && pending[at - 1].event_time().micros > key.micros
            invariant
                at <= pending@.len(),
                key == msg@.event_time,
                forall|j: int|
                    at <= j < pending@.len() ==> msg.event_micros() < (
                    #[trigger] pending@[j]).event_micros(),
            decreases at,
        {
            at -= 1;
        }
        proof {
            lemma_insertion_index_is(pending@, msg.event_micros(), at as nat);
        }
        pending.insert(at, msg);
        let mut n: usize = 0;
        while n < pending.len() && watermark.micros > pending[n].event_time().micros
            && watermark.micros - pending[n].event_time().micros > TOLERANCE_MICROS
            invariant
                n <= pending@.len(),
                forall|j: int| 0 <= j < n ==> is_ready(#[trigger] pending@[j], watermark),
            decreases pending@.len() - n,
        {
            n += 1;
        }
        proof {
            lemma_ready_count_is(pending@, watermark, n as nat);
        }
        let staying = pending.split_off(n);
        (ReorderBuffer { pending: staying, watermark: Some(watermark) }, pending)
    }

    /// Empties the buffer at the end of the stream: gives every message
    /// that still waits, the earliest first, whether ready or not, and the
    /// buffer with nothing in it. The watermark stays as it is.
    pub fn drain_all(self) -> (r: (ReorderBuffer, Vec<QuoteMessage>))
        ensures
            (r.0@, r.1@) == self@.drain_all(),
            r.1@ == self@.pending,
            r.0@.pending.len() == 0,
            r.0@.watermark == self@.watermark,
            r.0@.well_formed(),
            in_event_order(r.1@),
    {
        proof {
            use_type_invariant(&self);
        }
        (ReorderBuffer { pending: Vec::new(), watermark: self.watermark }, self.pending)
    }
}

} // verus!
