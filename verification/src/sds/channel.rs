//! The channel: deduplication, a Lamport clock, causal history and the two
//! buffers.
//!
//! Sending is split round the publication: a `begin_..` call builds the message,
//! the caller publishes it, and a `finish_..` call records that it went out.

use std::collections::VecDeque;
use vstd::prelude::*;
use crate::clock::now_ms;
use crate::sds::bloom::{holds, with_id, SdsBloomFilter};
use crate::sds::config::{default_config, ChannelConfig};
use crate::sds::laws::{
    credit_all_keeps_counts, credited_keeps_wf, received_keeps_wf, sent_keeps_wf,
    waiting_keeps_distinct, walk_keeps_wf, walk_without_repeats, without_id_ids,
};
use crate::sds::message::{
    compute_message_id, contents, entries, ChannelId, ContentMessage, ContentView, EntryView,
    EphemeralMessage, EphemeralView, HistoryEntry, ParticipantId, SdsMessage, SyncMessage,
};
use crate::sds::state::{
    adopt, causal_history, channel_wf, counts_ok, credit_all, credited, first_with_id, has_id,
    last_items, missing, next_content, next_sync, push_bounded, received, recorded, resolve,
    satisfied, sent, settled, tick, ticked, to_resend, walk, without_id, ChannelState,
    INCOMING_BUFFER_MAX, OUTGOING_BUFFER_MAX, POSSIBLE_ACKS_MAX,
};
use crate::table::TextTable;
use crate::text::{clone_bytes, join2, same_text};
use crate::transport::TransportError;

verus! {

/// A channel with reliable, causally ordered delivery over a transport.
pub struct MessageChannel<T> {
    channel_id: ChannelId,
    sender_id: ParticipantId,
    transport: T,
    config: ChannelConfig,
    lamport_timestamp: u64,
    /// The filter over ids that were seen.
    pub bloom: SdsBloomFilter,
    local_history: VecDeque<HistoryEntry>,
    outgoing_buffer: Vec<ContentMessage>,
    incoming_buffer: Vec<ContentMessage>,
    possible_acks: TextTable<u32>,
}

impl<T> View for MessageChannel<T> {
    type V = ChannelState;

    closed spec fn view(&self) -> ChannelState {
        ChannelState {
            channel_id: self.channel_id@,
            sender_id: self.sender_id@,
            config: self.config,
            clock: self.lamport_timestamp,
            filter: self.bloom@,
            history: entries(self.local_history@),
            outgoing: contents(self.outgoing_buffer@),
            incoming: contents(self.incoming_buffer@),
            acks: self.possible_acks@,
        }
    }
}

/// The state in which a channel starts.
pub open spec fn fresh_channel(
    channel_id: Seq<char>,
    sender_id: Seq<char>,
    config: ChannelConfig,
    clock: u64,
) -> ChannelState {
    ChannelState {
        channel_id,
        sender_id,
        config,
        clock,
        filter: crate::sds::bloom::empty_filter(),
        history: seq![],
        outgoing: seq![],
        incoming: seq![],
        acks: seq![],
    }
}

/// The error when a content message could not be published.
pub fn publish_error(e: &TransportError) -> (res: TransportError)
    ensures
        res.is_transport("SDS: failed to publish content message: "@ + e.text()),
{
    TransportError::Transport(
        join2("SDS: failed to publish content message: ", e.to_string().as_str()),
    )
}

impl<T> MessageChannel<T> {
    /// The channel is within its limits.
    pub open spec fn wf(&self) -> bool {
        channel_wf(self@)
    }

    /// The transport that the channel was made with.
    pub closed spec fn carrier(&self) -> T {
        self.transport
    }

    /// A channel with the default settings, whose clock starts at the time of
    /// day in milliseconds.
    pub fn new(channel_id: ChannelId, sender_id: ParticipantId, transport: T) -> (res:
        MessageChannel<T>)
        ensures
            res.wf(),
            res@ == fresh_channel(channel_id@, sender_id@, default_config(), res@.clock),
            res.carrier() == transport,
    {
        MessageChannel::with_config(channel_id, sender_id, transport, ChannelConfig::default())
    }

    /// A channel with the given settings, whose clock starts at the time of day
    /// in milliseconds.
    pub fn with_config(
        channel_id: ChannelId,
        sender_id: ParticipantId,
        transport: T,
        config: ChannelConfig,
    ) -> (res: MessageChannel<T>)
        ensures
            res.wf(),
            res@ == fresh_channel(channel_id@, sender_id@, config, res@.clock),
            res.carrier() == transport,
    {
        MessageChannel::starting_at(channel_id, sender_id, transport, config, now_ms())
    }

    /// A channel with the given settings and clock.
    pub fn starting_at(
        channel_id: ChannelId,
        sender_id: ParticipantId,
        transport: T,
        config: ChannelConfig,
        clock: u64,
    ) -> (res: MessageChannel<T>)
        ensures
            res.wf(),
            res@ == fresh_channel(channel_id@, sender_id@, config, clock),
            res.carrier() == transport,
    {
        let res = MessageChannel {
            channel_id,
            sender_id,
            transport,
            config,
            lamport_timestamp: clock,
            bloom: SdsBloomFilter::new(),
            local_history: VecDeque::new(),
            outgoing_buffer: Vec::new(),
            incoming_buffer: Vec::new(),
            possible_acks: TextTable::new(),
        };
        assert(res@ =~= fresh_channel(channel_id@, sender_id@, config, clock));
        res
    }

    /// The channel identifier.
    pub fn channel_id(&self) -> (res: &str)
        ensures
            res@ == self@.channel_id,
    {
        self.channel_id.as_str()
    }

    /// This participant's identifier.
    pub fn sender_id(&self) -> (res: &str)
        ensures
            res@ == self@.sender_id,
    {
        self.sender_id.as_str()
    }

    /// The settings.
    pub fn config(&self) -> (res: &ChannelConfig)
        ensures
            *res == self@.config,
    {
        &self.config
    }

    /// The underlying transport.
    pub fn transport(&self) -> (res: &T)
        ensures
            *res == self.carrier(),
    {
        &self.transport
    }

    /// The Lamport clock.
    pub fn lamport_timestamp(&self) -> (res: u64)
        ensures
            res == self@.clock,
    {
        self.lamport_timestamp
    }

    /// Moves the clock on by one and returns the new reading.
    pub fn next_timestamp(&mut self) -> (res: u64)
        requires
            old(self).wf(),
        ensures
            final(self).wf(),
            final(self)@ == ticked(old(self)@),
            final(self).carrier() == old(self).carrier(),
            res == tick(old(self)@.clock),
    {
        self.lamport_timestamp = self.lamport_timestamp.wrapping_add(1);
        assert(self@ =~= ticked(old(self)@));
        self.lamport_timestamp
    }

    /// Moves the clock past both its own reading and that of a message.
    pub fn update_timestamp(&mut self, remote: u64)
        requires
            old(self).wf(),
        ensures
            final(self).wf(),
            final(self)@ == (ChannelState { clock: adopt(old(self)@.clock, remote), ..old(self)@ }),
            final(self).carrier() == old(self).carrier(),
    {
        let newest: u64 = if self.lamport_timestamp < remote {
            remote
        } else {
            self.lamport_timestamp
        };
        self.lamport_timestamp = newest.wrapping_add(1);
        assert(self@ =~= (ChannelState { clock: adopt(old(self)@.clock, remote), ..old(self)@ }));
    }

    /// The newest entries of the history, newest first.
    pub fn build_causal_history(&self) -> (res: Vec<HistoryEntry>)
        ensures
            entries(res@) == causal_history(self@),
    {
        let len: usize = self.local_history.len();
        let size: usize = if len <= self.config.causal_history_size {
            len
        } else {
            self.config.causal_history_size
        };
        let mut out: Vec<HistoryEntry> = Vec::new();
        let mut i: usize = 0;
        while i < size
            invariant
                0 <= i <= size <= len,
                len == self.local_history@.len(),
                out.len() == i,
                forall|k: int|
                    0 <= k < i ==> (#[trigger] out@[k])@ == self.local_history@[len - 1 - k]@,
            decreases size - i,
        {
            out.push(self.local_history[len - 1 - i].clone());
            i = i + 1;
        }
        assert(entries(out@) =~= causal_history(self@));
        out
    }

    /// Enters a message in the history, which keeps twice the configured size.
    fn record_in_history(&mut self, message_id: &str, lamport_timestamp: u64)
        requires
            old(self).wf(),
        ensures
            final(self).wf(),
            final(self)@ == (ChannelState {
                history: recorded(
                    old(self)@.history,
                    message_id@,
                    lamport_timestamp,
                    old(self)@.config.causal_history_size,
                ),
                ..old(self)@
            }),
            final(self).carrier() == old(self).carrier(),
    {
        let size: usize = self.config.causal_history_size;
        self.local_history.push_back(
            HistoryEntry {
                message_id: message_id.to_owned(),
                lamport_timestamp,
                retrieval_hint: None,
            },
        );
        let ghost full = entries(self.local_history@);
        assert(full =~= old(self)@.history.push(
            EntryView { message_id: message_id@, lamport_timestamp, retrieval_hint: None },
        ));
        while self.local_history.len() > size && self.local_history.len() - size > size
            invariant
                size == self.config.causal_history_size,
                self.local_history@.len() <= full.len(),
                full.len() <= 2 * size ==> self.local_history@.len() == full.len(),
                full.len() > 2 * size ==> self.local_history@.len() >= 2 * size,
                entries(self.local_history@) == full.subrange(
                    full.len() - self.local_history@.len(),
                    full.len() as int,
                ),
                *self == (MessageChannel { local_history: self.local_history, ..*old(self) }),
            decreases self.local_history@.len(),
        {
            let ghost before = self.local_history@;
            let ghost cut = full.len() - before.len();
            let oldest = self.local_history.pop_front();
            assert(self.local_history@ == before.subrange(1, before.len() as int));
            assert forall|k: int| 0 <= k < self.local_history@.len() implies (
            #[trigger] self.local_history@[k])@ == full[cut + 1 + k] by {
                assert(self.local_history@[k] == before[k + 1]);
                assert(entries(before)[k + 1] == full[cut + k + 1]);
            }
            assert(entries(self.local_history@) =~= full.subrange(
                full.len() - self.local_history@.len(),
                full.len() as int,
            ));
        }
        assert(entries(self.local_history@) =~= last_items(full, 2 * size as nat));
    }

    /// Counts a message as delivered.
    fn settle(&mut self, message_id: &str, lamport_timestamp: u64)
        requires
            old(self).wf(),
        ensures
            final(self).wf(),
            final(self)@ == settled(old(self)@, message_id@, lamport_timestamp),
            final(self).carrier() == old(self).carrier(),
    {
        self.bloom.set(message_id);
        self.record_in_history(message_id, lamport_timestamp);
        assert(self@ =~= settled(old(self)@, message_id@, lamport_timestamp));
    }

    /// Builds the content message for a payload: the next clock reading, the
    /// causal history and the filter. The message goes to the transport next.
    pub fn begin_send(&mut self, payload: &[u8]) -> (res: ContentMessage)
        requires
            old(self).wf(),
        ensures
            final(self).wf(),
            final(self)@ == ticked(old(self)@),
            final(self).carrier() == old(self).carrier(),
            res@ == next_content(old(self)@, payload@),
    {
        let message_id = compute_message_id(payload);
        let ts: u64 = self.next_timestamp();
        let causal_history = self.build_causal_history();
        let msg = ContentMessage {
            message_id,
            channel_id: self.channel_id.clone(),
            sender_id: self.sender_id.clone(),
            lamport_timestamp: ts,
            causal_history,
            bloom_filter: Some(self.bloom.to_bytes()),
            content: clone_bytes(payload),
            repair_request: Vec::new(),
            retrieval_hint: None,
        };
        assert(msg@ =~= next_content(old(self)@, payload@));
        msg
    }

    /// Ends the sending of a content message: one that was published is recorded;
    /// where publishing failed, nothing but the clock has changed since the
    /// sending began, and the error says so.
    pub fn end_send(&mut self, msg: ContentMessage, published: Result<(), TransportError>) -> (res:
        Result<ContentMessage, TransportError>)
        requires
            old(self).wf(),
        ensures
            final(self).wf(),
            final(self).carrier() == old(self).carrier(),
            match published {
                Ok(()) => {
                    &&& final(self)@ == sent(old(self)@, msg@)
                    &&& res == Ok::<ContentMessage, TransportError>(msg)
                },
                Err(e) => {
                    &&& final(self)@ == old(self)@
                    &&& res is Err
                    &&& res->Err_0.is_transport(
                        "SDS: failed to publish content message: "@ + e.text(),
                    )
                },
            },
    {
        match published {
            Ok(()) => {
                self.finish_send(&msg);
                Ok(msg)
            },
            Err(e) => Err(publish_error(&e)),
        }
    }

    /// Records that a content message went out: it is settled and waits for an
    /// acknowledgement; in a full buffer the oldest message makes room.
    pub fn finish_send(&mut self, msg: &ContentMessage)
        requires
            old(self).wf(),
        ensures
            final(self).wf(),
            final(self)@ == sent(old(self)@, msg@),
            final(self).carrier() == old(self).carrier(),
    {
        proof {
            sent_keeps_wf(old(self)@, msg@);
        }
        self.settle(msg.message_id.as_str(), msg.lamport_timestamp);
        let ghost between = self@;
        if self.outgoing_buffer.len() >= OUTGOING_BUFFER_MAX {
            let _ = self.outgoing_buffer.remove(0);
            assert(contents(self.outgoing_buffer@) =~= between.outgoing.remove(0));
        }
        let ghost trimmed = contents(self.outgoing_buffer@);
        self.outgoing_buffer.push(msg.clone());
        assert(contents(self.outgoing_buffer@) =~= trimmed.push(msg@));
        assert(self@ =~= sent(old(self)@, msg@));
    }

    /// Records the end of a reliable send, acknowledged or given up: the message
    /// is settled and does not wait for a further acknowledgement.
    pub fn finish_reliable(&mut self, msg: &ContentMessage)
        requires
            old(self).wf(),
        ensures
            final(self).wf(),
            final(self)@ == settled(old(self)@, msg@.message_id, msg@.lamport_timestamp),
            final(self).carrier() == old(self).carrier(),
    {
        self.settle(msg.message_id.as_str(), msg.lamport_timestamp);
    }

    /// Builds a sync message: no payload, only filter and causal history.
    pub fn begin_sync(&mut self) -> (res: SyncMessage)
        requires
            old(self).wf(),
        ensures
            final(self).wf(),
            final(self)@ == ticked(old(self)@),
            final(self).carrier() == old(self).carrier(),
            res@ == next_sync(old(self)@, seq![]),
    {
        let none: Vec<HistoryEntry> = Vec::new();
        assert(entries(none@) =~= seq![]);
        self.begin_repair_request(none)
    }

    /// Builds a batch acknowledgement: a sync message, whose filter acknowledges
    /// everything that was seen.
    pub fn begin_batch_ack(&mut self) -> (res: SyncMessage)
        requires
            old(self).wf(),
        ensures
            final(self).wf(),
            final(self)@ == ticked(old(self)@),
            final(self).carrier() == old(self).carrier(),
            res@ == next_sync(old(self)@, seq![]),
    {
        self.begin_sync()
    }

    /// Builds a sync message that asks for missing messages.
    pub fn begin_repair_request(&mut self, missing: Vec<HistoryEntry>) -> (res: SyncMessage)
        requires
            old(self).wf(),
        ensures
            final(self).wf(),
            final(self)@ == ticked(old(self)@),
            final(self).carrier() == old(self).carrier(),
            res@ == next_sync(old(self)@, entries(missing@)),
    {
        let ts: u64 = self.next_timestamp();
        let causal_history = self.build_causal_history();
        let ts_bytes = vstd::bytes::u64_to_le_bytes(ts);
        let msg = SyncMessage {
            message_id: compute_message_id(ts_bytes.as_slice()),
            channel_id: self.channel_id.clone(),
            sender_id: self.sender_id.clone(),
            lamport_timestamp: ts,
            causal_history,
            bloom_filter: Some(self.bloom.to_bytes()),
            repair_request: missing,
        };
        assert(msg@ =~= next_sync(old(self)@, entries(missing@)));
        msg
    }

    /// Builds an ephemeral message, which has no place in the causal order.
    pub fn begin_ephemeral(&self, payload: &[u8]) -> (res: EphemeralMessage)
        ensures
            res@ == (EphemeralView {
                message_id: crate::sds::message::message_id_of(payload@),
                channel_id: self@.channel_id,
                sender_id: self@.sender_id,
                causal_history: seq![],
                bloom_filter: None,
                content: payload@,
                repair_request: seq![],
            }),
    {
        EphemeralMessage::new(self.channel_id.as_str(), self.sender_id.as_str(), payload)
    }

    /// Takes in a message and returns the content messages that are delivered by
    /// it, in order. Bytes that were no message (`None`) change nothing.
    ///
    /// A message that was seen before changes nothing. Otherwise its filter is
    /// counted towards acknowledgements, the clock moves past its time, and a
    /// content message is delivered if its dependencies were seen, together with
    /// what waited for it, or else waits itself. However often a message comes in,
    /// it waits once and is delivered once.
    pub fn receive(&mut self, parsed: Option<SdsMessage>) -> (res: Vec<ContentMessage>)
        requires
            old(self).wf(),
        ensures
            final(self).wf(),
            final(self).carrier() == old(self).carrier(),
            parsed is None ==> final(self)@ == old(self)@ && res@.len() == 0,
            parsed matches Some(msg) ==> (final(self)@, contents(res@)) == received(
                old(self)@,
                msg@,
            ),
    {
        let msg = match parsed {
            Some(m) => m,
            None => return Vec::new(),
        };
        proof {
            received_keeps_wf(old(self)@, msg@);
        }
        if self.bloom.check(msg.message_id()) {
            let none: Vec<ContentMessage> = Vec::new();
            assert(contents(none@) =~= seq![]);
            return none;
        }
        if let Some(remote) = msg.bloom_filter_bytes() {
            self.check_outgoing_acks(remote.as_slice());
        }
        match msg {
            SdsMessage::Content(content) => {
                self.update_timestamp(content.lamport_timestamp);
                if self.dependencies_satisfied(content.causal_history.as_slice()) {
                    self.withdraw(content.message_id.as_str());
                    self.settle(content.message_id.as_str(), content.lamport_timestamp);
                    let mut delivered: Vec<ContentMessage> = Vec::new();
                    delivered.push(content);
                    let ghost first = contents(delivered@);
                    assert(first =~= seq![content@]);
                    let mut rest = self.resolve_buffered();
                    let ghost others = contents(rest@);
                    delivered.append(&mut rest);
                    assert(contents(delivered@) =~= first + others);
                    delivered
                } else if self.is_waiting(content.message_id.as_str()) {
                    self.resolve_buffered()
                } else {
                    let ghost before = self@;
                    proof {
                        waiting_keeps_distinct(before.incoming, content@, false);
                    }
                    if self.incoming_buffer.len() >= INCOMING_BUFFER_MAX {
                        let _ = self.incoming_buffer.remove(0);
                        assert(contents(self.incoming_buffer@) =~= before.incoming.remove(0));
                    }
                    let ghost trimmed = contents(self.incoming_buffer@);
                    self.incoming_buffer.push(content);
                    assert(contents(self.incoming_buffer@) =~= trimmed.push(content@));
                    assert(self@ =~= (ChannelState {
                        incoming: push_bounded(
                            before.incoming,
                            content@,
                            INCOMING_BUFFER_MAX as nat,
                        ),
                        ..before
                    }));
                    self.resolve_buffered()
                }
            },
            SdsMessage::Sync(sync) => {
                let ghost seen = self@;
                self.bloom.set(sync.message_id.as_str());
                self.update_timestamp(sync.lamport_timestamp);
                assert(self@ =~= (ChannelState {
                    filter: with_id(seen.filter, sync@.message_id),
                    clock: adopt(seen.clock, sync@.lamport_timestamp),
                    ..seen
                }));
                self.resolve_buffered()
            },
            SdsMessage::Ephemeral(eph) => {
                let ghost seen = self@;
                self.bloom.set(eph.message_id.as_str());
                let none: Vec<ContentMessage> = Vec::new();
                assert(contents(none@) =~= seq![]);
                assert(self@ =~= (ChannelState {
                    filter: with_id(seen.filter, eph@.message_id),
                    ..seen
                }));
                none
            },
        }
    }

    /// Whether every message of a causal history was seen.
    pub fn dependencies_satisfied(&self, history: &[HistoryEntry]) -> (res: bool)
        requires
            self.wf(),
        ensures
            res == satisfied(self@.filter, entries(history@)),
    {
        let mut i: usize = 0;
        while i < history.len()
            invariant
                0 <= i <= history.len(),
                self.wf(),
                forall|k: int|
                    0 <= k < i ==> holds(
                        self@.filter,
                        (#[trigger] entries(history@)[k]).message_id,
                    ),
            decreases history.len() - i,
        {
            if !self.bloom.check(history[i].message_id.as_str()) {
                assert(!holds(self@.filter, entries(history@)[i as int].message_id));
                return false;
            }
            i = i + 1;
        }
        true
    }

    /// Whether a message with the id waits for its dependencies.
    fn is_waiting(&self, id: &str) -> (res: bool)
        ensures
            res == has_id(self@.incoming, id@),
    {
        let mut i: usize = 0;
        while i < self.incoming_buffer.len()
            invariant
                0 <= i <= self.incoming_buffer.len(),
                forall|k: int|
                    0 <= k < i ==> (#[trigger] self@.incoming[k]).message_id != id@,
            decreases self.incoming_buffer.len() - i,
        {
            if same_text(self.incoming_buffer[i].message_id.as_str(), id) {
                assert(self@.incoming[i as int].message_id == id@);
                return true;
            }
            i = i + 1;
        }
        false
    }

    /// Takes messages with the id out of those that wait.
    fn withdraw(&mut self, id: &str)
        requires
            old(self).wf(),
        ensures
            final(self).wf(),
            final(self).carrier() == old(self).carrier(),
            final(self)@ == (ChannelState {
                incoming: without_id(old(self)@.incoming, id@),
                ..old(self)@
            }),
    {
        let ghost other = |m: ContentView| m.message_id != id@;
        let mut kept: Vec<ContentMessage> = Vec::new();
        let mut buffer: Vec<ContentMessage> = Vec::new();
        std::mem::swap(&mut buffer, &mut self.incoming_buffer);
        let ghost all = contents(buffer@);
        reveal(Seq::filter);
        assert(all.take(0) =~= seq![]);
        assert(contents(kept@) =~= seq![]);
        for msg in it: buffer
            invariant
                it.seq().len() == all.len(),
                all == contents(it.seq()),
                other == (|m: ContentView| m.message_id != id@),
                contents(kept@) == all.take(it.index() as int).filter(other),
        {
            let ghost before = contents(kept@);
            proof {
                let i = it.index() as int;
                assert(all.take(i + 1).drop_last() =~= all.take(i));
                assert(all.take(i + 1).last() == msg@);
                reveal(Seq::filter);
            }
            if !same_text(msg.message_id.as_str(), id) {
                kept.push(msg);
                assert(contents(kept@) =~= before.push(msg@));
            }
        }
        assert(all.take(all.len() as int) =~= all);
        self.incoming_buffer = kept;
        proof {
            without_id_ids(all, id@);
        }
        assert(self@ =~= (ChannelState {
            incoming: without_id(old(self)@.incoming, id@),
            ..old(self)@
        }));
    }

    /// Counts the outgoing messages that another participant's filter holds, and
    /// drops those whose count reaches the threshold. Bytes that are no filter
    /// change nothing.
    pub fn check_outgoing_acks(&mut self, remote: &[u8])
        requires
            old(self).wf(),
        ensures
            final(self).wf(),
            final(self)@ == credited(old(self)@, remote@),
            final(self).carrier() == old(self).carrier(),
    {
        let filter = match SdsBloomFilter::from_bytes(remote) {
            Some(f) => f,
            None => return,
        };
        proof {
            credited_keeps_wf(old(self)@, remote@);
        }
        let threshold: u32 = self.config.possible_acks_threshold;
        let mut outgoing: Vec<ContentMessage> = Vec::new();
        std::mem::swap(&mut outgoing, &mut self.outgoing_buffer);
        let ghost all = contents(outgoing@);
        assert(all.take(0) =~= seq![]);
        assert(contents(self.outgoing_buffer@) =~= seq![]);
        for msg in it: outgoing
            invariant
                it.seq().len() == all.len(),
                all == contents(it.seq()),
                all == old(self)@.outgoing,
                filter.wf(),
                filter@ == remote@,
                threshold == old(self)@.config.possible_acks_threshold,
                old(self).wf(),
                counts_ok(self.possible_acks@, threshold),
                (contents(self.outgoing_buffer@), self.possible_acks@) == credit_all(
                    all.take(it.index() as int),
                    old(self)@.acks,
                    remote@,
                    threshold,
                ),
                *self == (MessageChannel {
                    outgoing_buffer: self.outgoing_buffer,
                    possible_acks: self.possible_acks,
                    ..*old(self)
                }),
        {
            proof {
                let i = it.index() as int;
                assert(all.take(i + 1).drop_last() =~= all.take(i));
                assert(all.take(i + 1).last() == msg@);
                credit_all_keeps_counts(all.take(i + 1), old(self)@.acks, remote@, threshold);
            }
            let ghost kept = contents(self.outgoing_buffer@);
            if filter.probably_contains(msg.message_id.as_str()) {
                let count: u32 = match self.possible_acks.get(msg.message_id.as_str()) {
                    Some(n) => {
                        proof {
                            let p = crate::table::place_of(self.possible_acks@, msg.message_id@);
                            assert(self.possible_acks@[p].1 < threshold);
                        }
                        *n + 1
                    },
                    None => 1,
                };
                if count >= threshold {
                    let _ = self.possible_acks.remove(msg.message_id.as_str());
                } else {
                    self.possible_acks.put(msg.message_id.as_str(), count);
                    self.outgoing_buffer.push(msg);
                    assert(contents(self.outgoing_buffer@) =~= kept.push(msg@));
                }
            } else {
                self.outgoing_buffer.push(msg);
                assert(contents(self.outgoing_buffer@) =~= kept.push(msg@));
            }
        }
        assert(all.take(all.len() as int) =~= all);
        if self.possible_acks.len() > POSSIBLE_ACKS_MAX {
            self.possible_acks.clear();
        }
        assert(self@ =~= credited(old(self)@, remote@));
    }

    /// Delivers waiting messages whose dependencies were seen, until a walk over
    /// them delivers none.
    pub fn resolve_buffered(&mut self) -> (res: Vec<ContentMessage>)
        requires
            old(self).wf(),
        ensures
            final(self).wf(),
            (final(self)@, contents(res@)) == resolve(old(self)@),
            final(self).carrier() == old(self).carrier(),
    {
        let mut delivered: Vec<ContentMessage> = Vec::new();
        let mut made_progress = true;
        assert(contents(delivered@) =~= seq![]);
        assert(contents(delivered@) + resolve(self@).1 =~= resolve(self@).1);
        while made_progress
            invariant
                self.wf(),
                self.carrier() == old(self).carrier(),
                made_progress ==> resolve(old(self)@) == (
                    resolve(self@).0,
                    contents(delivered@) + resolve(self@).1,
                ),
                !made_progress ==> resolve(old(self)@) == (self@, contents(delivered@)),
            decreases self@.incoming.len() + if made_progress {
                1int
            } else {
                0
            },
        {
            let ghost before = self@;
            let ghost done = contents(delivered@);
            proof {
                walk_keeps_wf(before, before.incoming);
            }
            let mut fresh = self.walk_buffer();
            let ghost gained = contents(fresh@);
            made_progress = fresh.len() > 0;
            delivered.append(&mut fresh);
            assert(contents(delivered@) =~= done + gained);
            proof {
                let p = walk(before, before.incoming);
                if p.delivered.len() == 0 {
                    walk_without_delivery(before, before.incoming);
                    assert(done + resolve(before).1 =~= contents(delivered@));
                } else {
                    let rest = resolve(self@);
                    assert(done + (gained + rest.1) =~= (done + gained) + rest.1);
                }
            }
        }
        delivered
    }

    /// One walk over the waiting messages, oldest first.
    fn walk_buffer(&mut self) -> (res: Vec<ContentMessage>)
        requires
            old(self).wf(),
        ensures
            final(self).wf(),
            contents(res@) == walk(old(self)@, old(self)@.incoming).delivered,
            final(self)@ == (ChannelState {
                incoming: walk(old(self)@, old(self)@.incoming).waiting,
                ..walk(old(self)@, old(self)@.incoming).state
            }),
            final(self).carrier() == old(self).carrier(),
    {
        let mut delivered: Vec<ContentMessage> = Vec::new();
        let mut waiting: Vec<ContentMessage> = Vec::new();
        let mut buffer: Vec<ContentMessage> = Vec::new();
        std::mem::swap(&mut buffer, &mut self.incoming_buffer);
        let ghost all = contents(buffer@);
        assert(all.take(0) =~= seq![]);
        assert(contents(delivered@) =~= seq![]);
        assert(contents(self.incoming_buffer@) =~= seq![]);
        assert(self@ =~= (ChannelState { incoming: seq![], ..old(self)@ }));
        for msg in it: buffer
            invariant
                it.seq().len() == all.len(),
                all == contents(it.seq()),
                all == old(self)@.incoming,
                old(self).wf(),
                self.wf(),
                self.carrier() == old(self).carrier(),
                ({
                    let p = walk(old(self)@, all.take(it.index() as int));
                    &&& contents(delivered@) == p.delivered
                    &&& contents(waiting@) == p.waiting
                    &&& self@ == (ChannelState { incoming: seq![], ..p.state })
                }),
        {
            let ghost i = it.index() as int;
            let ghost p = walk(old(self)@, all.take(i));
            assert(all.take(i + 1).drop_last() =~= all.take(i));
            assert(all.take(i + 1).last() == msg@);
            let ghost done = contents(delivered@);
            let ghost kept = contents(waiting@);
            if self.dependencies_satisfied(msg.causal_history.as_slice()) {
                self.settle(msg.message_id.as_str(), msg.lamport_timestamp);
                delivered.push(msg);
                assert(contents(delivered@) =~= done.push(msg@));
            } else {
                waiting.push(msg);
                assert(contents(waiting@) =~= kept.push(msg@));
            }
        }
        assert(all.take(all.len() as int) =~= all);
        proof {
            walk_keeps_wf(old(self)@, all);
            walk_without_repeats(old(self)@, all);
        }
        self.incoming_buffer = waiting;
        assert(self@ =~= (ChannelState {
            incoming: walk(old(self)@, all).waiting,
            ..walk(old(self)@, all).state
        }));
        delivered
    }

    /// The entries of a causal history that were not seen.
    pub fn build_repair_requests(&self, history: &[HistoryEntry]) -> (res: Vec<HistoryEntry>)
        requires
            self.wf(),
        ensures
            entries(res@) == missing(self@.filter, entries(history@)),
    {
        let ghost all = entries(history@);
        let ghost unseen = |e: EntryView| !holds(self@.filter, e.message_id);
        let mut out: Vec<HistoryEntry> = Vec::new();
        let mut i: usize = 0;
        assert(all.take(0) =~= seq![]);
        assert(entries(out@) =~= seq![]);
        reveal(Seq::filter);
        while i < history.len()
            invariant
                0 <= i <= history.len(),
                self.wf(),
                all == entries(history@),
                unseen == (|e: EntryView| !holds(self@.filter, e.message_id)),
                entries(out@) == all.take(i as int).filter(unseen),
            decreases history.len() - i,
        {
            let ghost kept = entries(out@);
            assert(all.take(i + 1).drop_last() =~= all.take(i as int));
            assert(all.take(i + 1).last() == history@[i as int]@);
            reveal(Seq::filter);
            if !self.bloom.check(history[i].message_id.as_str()) {
                out.push(history[i].clone());
                assert(entries(out@) =~= kept.push(history@[i as int]@));
            }
            i = i + 1;
        }
        assert(all.take(all.len() as int) =~= all);
        out
    }

    /// The outgoing messages to send again for repair requests.
    pub fn messages_to_resend(&self, requests: &[HistoryEntry]) -> (res: Vec<ContentMessage>)
        ensures
            contents(res@) == to_resend(self@.outgoing, entries(requests@)),
    {
        let ghost all = entries(requests@);
        let mut out: Vec<ContentMessage> = Vec::new();
        let mut i: usize = 0;
        assert(all.take(0) =~= seq![]);
        assert(contents(out@) =~= seq![]);
        while i < requests.len()
            invariant
                0 <= i <= requests.len(),
                all == entries(requests@),
                contents(out@) == to_resend(self@.outgoing, all.take(i as int)),
            decreases requests.len() - i,
        {
            let ghost found = contents(out@);
            assert(all.take(i + 1).drop_last() =~= all.take(i as int));
            assert(all.take(i + 1).last() == requests@[i as int]@);
            if let Some(msg) = self.find_outgoing(requests[i].message_id.as_str()) {
                out.push(msg);
                assert(contents(out@) =~= found.push(msg@));
            }
            i = i + 1;
        }
        assert(all.take(all.len() as int) =~= all);
        out
    }

    /// A copy of the oldest outgoing message with an id.
    fn find_outgoing(&self, id: &str) -> (res: Option<ContentMessage>)
        ensures
            res is Some <==> first_with_id(self@.outgoing, id@) is Some,
            res matches Some(m) ==> first_with_id(self@.outgoing, id@) == Some(m@),
    {
        let ghost all = self@.outgoing;
        let mut i: usize = 0;
        assert(all.skip(0) =~= all);
        while i < self.outgoing_buffer.len()
            invariant
                0 <= i <= self.outgoing_buffer.len(),
                all == contents(self.outgoing_buffer@),
                first_with_id(all, id@) == first_with_id(all.skip(i as int), id@),
            decreases self.outgoing_buffer.len() - i,
        {
            assert(all.skip(i as int)[0] == all[i as int]);
            if same_text(self.outgoing_buffer[i].message_id.as_str(), id) {
                return Some(self.outgoing_buffer[i].clone());
            }
            assert(all.skip(i as int).drop_first() =~= all.skip(i + 1));
            i = i + 1;
        }
        None
    }

    /// Whether a message id was seen.
    pub fn is_duplicate(&self, message_id: &str) -> (res: bool)
        requires
            self.wf(),
        ensures
            res == holds(self@.filter, message_id@),
    {
        self.bloom.check(message_id)
    }

    /// Marks an id as seen.
    pub fn mark_seen(&mut self, message_id: &str)
        requires
            old(self).wf(),
        ensures
            final(self).wf(),
            final(self)@ == (ChannelState {
                filter: with_id(old(self)@.filter, message_id@),
                ..old(self)@
            }),
            final(self).carrier() == old(self).carrier(),
    {
        self.bloom.set(message_id);
        assert(self@ =~= (ChannelState {
            filter: with_id(old(self)@.filter, message_id@),
            ..old(self)@
        }));
    }

    /// How many messages the history holds.
    pub fn history_len(&self) -> (res: usize)
        ensures
            res == self@.history.len(),
    {
        self.local_history.len()
    }

    /// How many messages wait for an acknowledgement.
    pub fn outgoing_pending(&self) -> (res: usize)
        ensures
            res == self@.outgoing.len(),
    {
        self.outgoing_buffer.len()
    }

    /// How many messages wait for their dependencies.
    pub fn incoming_pending(&self) -> (res: usize)
        ensures
            res == self@.incoming.len(),
    {
        self.incoming_buffer.len()
    }
}

/// A walk that delivers nothing changes nothing.
proof fn walk_without_delivery(st: ChannelState, waiting: Seq<ContentView>)
    requires
        walk(st, waiting).delivered.len() == 0,
    ensures
        walk(st, waiting).state == st,
        walk(st, waiting).waiting == waiting,
    decreases waiting.len(),
{
    if waiting.len() > 0 {
        walk_without_delivery(st, waiting.drop_last());
        assert(waiting.drop_last().push(waiting.last()) =~= waiting);
    } else {
        assert(waiting =~= seq![]);
    }
}

} // verus!
