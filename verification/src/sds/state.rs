//! What a channel is, as mathematics: its state and every step it can take.

use vstd::prelude::*;
use crate::sds::bloom::{holds, with_id, BLOOM_BYTES};
use crate::sds::config::ChannelConfig;
use crate::sds::message::{message_id_of, ContentView, EntryView, SdsView, SyncView};
use crate::table::{distinct_keys, lookup, with_row, without_row};

verus! {

/// Hard ceiling on the messages that wait for their dependencies.
pub const INCOMING_BUFFER_MAX: usize = 256;

/// Hard ceiling on the messages that wait for an acknowledgement.
pub const OUTGOING_BUFFER_MAX: usize = 256;

/// Hard ceiling on the table of acknowledgement counts.
pub const POSSIBLE_ACKS_MAX: usize = 1024;

/// The state of a channel.
#[verifier::ext_equal]
pub struct ChannelState {
    pub channel_id: Seq<char>,
    pub sender_id: Seq<char>,
    pub config: ChannelConfig,
    /// The Lamport clock.
    pub clock: u64,
    /// The filter over the ids of messages that were delivered or sent.
    pub filter: Seq<u8>,
    /// The messages that were delivered or sent, oldest first.
    pub history: Seq<EntryView>,
    /// Messages that wait for an acknowledgement, oldest first.
    pub outgoing: Seq<ContentView>,
    /// Messages that wait for their dependencies, oldest first.
    pub incoming: Seq<ContentView>,
    /// How many filters of others held a message, by its id.
    pub acks: Seq<(Seq<char>, u32)>,
}

/// No id occurs twice.
pub open spec fn distinct_ids(list: Seq<ContentView>) -> bool {
    forall|i: int, j: int|
        0 <= i < list.len() && 0 <= j < list.len() && (#[trigger] list[i]).message_id == (
        #[trigger] list[j]).message_id ==> i == j
}

/// Whether a message with the id is in the list.
pub open spec fn has_id(list: Seq<ContentView>, id: Seq<char>) -> bool {
    exists|i: int| 0 <= i < list.len() && (#[trigger] list[i]).message_id == id
}

/// The messages of a list that do not have the id, in order.
pub open spec fn without_id(list: Seq<ContentView>, id: Seq<char>) -> Seq<ContentView> {
    list.filter(|m: ContentView| m.message_id != id)
}

/// What holds of a channel in every state: the filter has its size, history and
/// buffers stay within their ceilings, no message waits twice, and no count has
/// reached the threshold.
pub open spec fn channel_wf(st: ChannelState) -> bool {
    &&& st.filter.len() == BLOOM_BYTES
    &&& st.history.len() <= 2 * st.config.causal_history_size
    &&& st.outgoing.len() <= OUTGOING_BUFFER_MAX
    &&& st.incoming.len() <= INCOMING_BUFFER_MAX
    &&& distinct_ids(st.incoming)
    &&& st.acks.len() <= POSSIBLE_ACKS_MAX
    &&& counts_ok(st.acks, st.config.possible_acks_threshold)
}

/// No id is counted twice, and every count is below the threshold.
pub open spec fn counts_ok(acks: Seq<(Seq<char>, u32)>, threshold: u32) -> bool {
    &&& distinct_keys(acks)
    &&& forall|i: int| 0 <= i < acks.len() ==> (#[trigger] acks[i]).1 < threshold
}

/// The next reading of a clock. At the end of its range the clock wraps round.
pub open spec fn tick(clock: u64) -> u64 {
    if clock == u64::MAX {
        0
    } else {
        (clock + 1) as u64
    }
}

/// The larger of two readings.
pub open spec fn later(a: u64, b: u64) -> u64 {
    if a < b {
        b
    } else {
        a
    }
}

/// The clock after a message with the given time has come in.
pub open spec fn adopt(clock: u64, remote: u64) -> u64 {
    tick(later(clock, remote))
}

/// The last `n` items of a list.
pub open spec fn last_items<A>(list: Seq<A>, n: nat) -> Seq<A> {
    if list.len() <= n {
        list
    } else {
        list.subrange(list.len() - n, list.len() as int)
    }
}

/// The last `n` items of a list, newest first.
pub open spec fn newest_first<A>(list: Seq<A>, n: nat) -> Seq<A> {
    let m = if list.len() <= n {
        list.len()
    } else {
        n
    };
    Seq::new(m, |i: int| list[list.len() - 1 - i])
}

/// A list of at most `max` items with one more at the end; in a full list the
/// first item makes room.
pub open spec fn push_bounded<A>(list: Seq<A>, item: A, max: nat) -> Seq<A> {
    if list.len() >= max {
        list.remove(0).push(item)
    } else {
        list.push(item)
    }
}

/// The history with one more message, of which twice the configured size is
/// kept.
pub open spec fn recorded(
    history: Seq<EntryView>,
    message_id: Seq<char>,
    lamport_timestamp: u64,
    size: usize,
) -> Seq<EntryView> {
    last_items(
        history.push(EntryView { message_id, lamport_timestamp, retrieval_hint: None }),
        2 * size as nat,
    )
}

/// The causal history that the next message carries.
pub open spec fn causal_history(st: ChannelState) -> Seq<EntryView> {
    newest_first(st.history, st.config.causal_history_size as nat)
}

/// The state after the clock has moved on by one.
pub open spec fn ticked(st: ChannelState) -> ChannelState {
    ChannelState { clock: tick(st.clock), ..st }
}

/// The content message that the channel sends next for a payload.
pub open spec fn next_content(st: ChannelState, payload: Seq<u8>) -> ContentView {
    ContentView {
        message_id: message_id_of(payload),
        channel_id: st.channel_id,
        sender_id: st.sender_id,
        lamport_timestamp: tick(st.clock),
        causal_history: causal_history(st),
        bloom_filter: Some(st.filter),
        content: payload,
        repair_request: seq![],
        retrieval_hint: None,
    }
}

/// The sync message that the channel sends next, with the given repair requests.
/// Its id is that of the clock reading in eight bytes, the lowest first.
pub open spec fn next_sync(st: ChannelState, missing: Seq<EntryView>) -> SyncView {
    SyncView {
        message_id: message_id_of(vstd::bytes::spec_u64_to_le_bytes(tick(st.clock))),
        channel_id: st.channel_id,
        sender_id: st.sender_id,
        lamport_timestamp: tick(st.clock),
        causal_history: causal_history(st),
        bloom_filter: Some(st.filter),
        repair_request: missing,
    }
}

/// The state once a message counts as delivered: its id is in the filter and it
/// is the newest entry of the history.
pub open spec fn settled(
    st: ChannelState,
    message_id: Seq<char>,
    lamport_timestamp: u64,
) -> ChannelState {
    ChannelState {
        filter: with_id(st.filter, message_id),
        history: recorded(
            st.history,
            message_id,
            lamport_timestamp,
            st.config.causal_history_size,
        ),
        ..st
    }
}

/// The state once a content message has gone out: settled, and waiting for an
/// acknowledgement.
pub open spec fn sent(st: ChannelState, msg: ContentView) -> ChannelState {
    ChannelState {
        outgoing: push_bounded(st.outgoing, msg, OUTGOING_BUFFER_MAX as nat),
        ..settled(st, msg.message_id, msg.lamport_timestamp)
    }
}

/// Whether every message that `history` names is in the filter.
pub open spec fn satisfied(filter: Seq<u8>, history: Seq<EntryView>) -> bool {
    forall|i: int| 0 <= i < history.len() ==> holds(filter, (#[trigger] history[i]).message_id)
}

/// The entries of a history that the filter does not hold, in order.
pub open spec fn missing(filter: Seq<u8>, history: Seq<EntryView>) -> Seq<EntryView> {
    history.filter(|e: EntryView| !holds(filter, e.message_id))
}

/// One outgoing message against the filter of another participant: counted where
/// that filter holds it, and dropped once the count reaches the threshold.
pub open spec fn credit_one(
    kept: Seq<ContentView>,
    acks: Seq<(Seq<char>, u32)>,
    msg: ContentView,
    remote: Seq<u8>,
    threshold: u32,
) -> (Seq<ContentView>, Seq<(Seq<char>, u32)>) {
    if holds(remote, msg.message_id) {
        let count = match lookup(acks, msg.message_id) {
            Some(n) => n + 1,
            None => 1int,
        };
        if count >= threshold {
            (kept, without_row(acks, msg.message_id))
        } else {
            (kept.push(msg), with_row(acks, msg.message_id, count as u32))
        }
    } else {
        (kept.push(msg), acks)
    }
}

/// All outgoing messages, oldest first, against the filter of another
/// participant.
pub open spec fn credit_all(
    outgoing: Seq<ContentView>,
    acks: Seq<(Seq<char>, u32)>,
    remote: Seq<u8>,
    threshold: u32,
) -> (Seq<ContentView>, Seq<(Seq<char>, u32)>)
    decreases outgoing.len(),
{
    if outgoing.len() == 0 {
        (seq![], acks)
    } else {
        let before = credit_all(outgoing.drop_last(), acks, remote, threshold);
        credit_one(before.0, before.1, outgoing.last(), remote, threshold)
    }
}

/// The state after another participant's filter was seen. A filter of the wrong
/// size says nothing; an overgrown table of counts is emptied.
pub open spec fn credited(st: ChannelState, remote: Seq<u8>) -> ChannelState {
    if remote.len() != BLOOM_BYTES {
        st
    } else {
        let after = credit_all(st.outgoing, st.acks, remote, st.config.possible_acks_threshold);
        ChannelState {
            outgoing: after.0,
            acks: if after.1.len() > POSSIBLE_ACKS_MAX {
                seq![]
            } else {
                after.1
            },
            ..st
        }
    }
}

/// What one walk over the waiting messages has done so far.
#[verifier::ext_equal]
pub struct Pass {
    pub state: ChannelState,
    /// Still waiting, in order.
    pub waiting: Seq<ContentView>,
    /// Delivered, in order.
    pub delivered: Seq<ContentView>,
}

/// Walks over waiting messages from the oldest on and delivers each whose
/// dependencies are in the filter by then.
pub open spec fn walk(st: ChannelState, waiting: Seq<ContentView>) -> Pass
    decreases waiting.len(),
{
    if waiting.len() == 0 {
        Pass { state: st, waiting: seq![], delivered: seq![] }
    } else {
        let p = walk(st, waiting.drop_last());
        let msg = waiting.last();
        if satisfied(p.state.filter, msg.causal_history) {
            Pass {
                state: settled(p.state, msg.message_id, msg.lamport_timestamp),
                waiting: p.waiting,
                delivered: p.delivered.push(msg),
            }
        } else {
            Pass { state: p.state, waiting: p.waiting.push(msg), delivered: p.delivered }
        }
    }
}

proof fn walk_splits(st: ChannelState, waiting: Seq<ContentView>)
    ensures
        walk(st, waiting).waiting.len() + walk(st, waiting).delivered.len() == waiting.len(),
    decreases waiting.len(),
{
    if waiting.len() > 0 {
        walk_splits(st, waiting.drop_last());
    }
}

/// Walks over the waiting messages until a walk delivers nothing. The result is
/// the state at the end and all that was delivered, in order.
pub open spec fn resolve(st: ChannelState) -> (ChannelState, Seq<ContentView>)
    decreases st.incoming.len(),
    via resolve_ends
{
    let p = walk(st, st.incoming);
    if p.delivered.len() == 0 {
        (st, seq![])
    } else {
        let rest = resolve(ChannelState { incoming: p.waiting, ..p.state });
        (rest.0, p.delivered + rest.1)
    }
}

#[via_fn]
proof fn resolve_ends(st: ChannelState) {
    walk_splits(st, st.incoming);
}

/// What waits once a content message has come in. One that is delivered at once
/// no longer waits; one that has to wait does so once, however often it comes.
pub open spec fn waiting_after(
    incoming: Seq<ContentView>,
    content: ContentView,
    ready: bool,
) -> Seq<ContentView> {
    if ready {
        without_id(incoming, content.message_id)
    } else if has_id(incoming, content.message_id) {
        incoming
    } else {
        push_bounded(incoming, content, INCOMING_BUFFER_MAX as nat)
    }
}

/// The state and what is delivered after a message has come in.
pub open spec fn received(st: ChannelState, msg: SdsView) -> (ChannelState, Seq<ContentView>) {
    if holds(st.filter, msg.message_id()) {
        (st, seq![])
    } else {
        let seen = match msg.bloom_filter() {
            Some(remote) => credited(st, remote),
            None => st,
        };
        match msg {
            SdsView::Content(content) => {
                let ready = satisfied(seen.filter, content.causal_history);
                let on_time = ChannelState {
                    clock: adopt(seen.clock, content.lamport_timestamp),
                    incoming: waiting_after(seen.incoming, content, ready),
                    ..seen
                };
                if ready {
                    let rest = resolve(
                        settled(on_time, content.message_id, content.lamport_timestamp),
                    );
                    (rest.0, seq![content] + rest.1)
                } else {
                    resolve(on_time)
                }
            },
            SdsView::Sync(sync) => resolve(
                ChannelState {
                    filter: with_id(seen.filter, sync.message_id),
                    clock: adopt(seen.clock, sync.lamport_timestamp),
                    ..seen
                },
            ),
            SdsView::Ephemeral(eph) => (
                ChannelState { filter: with_id(seen.filter, eph.message_id), ..seen },
                seq![],
            ),
        }
    }
}

/// The first waiting message with an id.
pub open spec fn first_with_id(list: Seq<ContentView>, id: Seq<char>) -> Option<ContentView>
    decreases list.len(),
{
    if list.len() == 0 {
        None
    } else if list[0].message_id == id {
        Some(list[0])
    } else {
        first_with_id(list.drop_first(), id)
    }
}

/// The messages to send again for a list of requests: for each request, the
/// oldest outgoing message with that id, where there is one.
pub open spec fn to_resend(outgoing: Seq<ContentView>, requests: Seq<EntryView>) -> Seq<ContentView>
    decreases requests.len(),
{
    if requests.len() == 0 {
        seq![]
    } else {
        let before = to_resend(outgoing, requests.drop_last());
        match first_with_id(outgoing, requests.last().message_id) {
            Some(msg) => before.push(msg),
            None => before,
        }
    }
}

} // verus!
