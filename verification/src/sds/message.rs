//! Messages of the sync protocol.

use vstd::prelude::*;
use crate::codec::{hex_encode, hex_text, sha256, sha256_of};
use crate::text::{clone_bytes, opt_bytes};

verus! {

/// Identifies a message: the SHA-256 digest of its payload in hexadecimal.
pub type MessageId = String;

/// Identifies a channel.
pub type ChannelId = String;

/// Identifies a participant of a channel.
pub type ParticipantId = String;

/// The id that a payload gets.
pub open spec fn message_id_of(payload: Seq<u8>) -> Seq<char> {
    hex_text(sha256_of(payload))
}

/// The id of a payload: sixty-four hexadecimal digits that depend on the payload
/// alone.
pub fn compute_message_id(payload: &[u8]) -> (res: MessageId)
    ensures
        res@ == message_id_of(payload@),
        res@.len() == 64,
{
    let digest = sha256(payload);
    hex_encode(digest.as_slice())
}

/// A reference to an earlier message.
#[derive(Debug)]
pub struct HistoryEntry {
    pub message_id: MessageId,
    pub lamport_timestamp: u64,
    pub retrieval_hint: Option<Vec<u8>>,
}

/// What a [`HistoryEntry`] says.
#[verifier::ext_equal]
pub struct EntryView {
    pub message_id: Seq<char>,
    pub lamport_timestamp: u64,
    pub retrieval_hint: Option<Seq<u8>>,
}

impl View for HistoryEntry {
    type V = EntryView;

    open spec fn view(&self) -> EntryView {
        EntryView {
            message_id: self.message_id@,
            lamport_timestamp: self.lamport_timestamp,
            retrieval_hint: opt_bytes(self.retrieval_hint),
        }
    }
}

/// What a list of history entries says.
pub open spec fn entries(list: Seq<HistoryEntry>) -> Seq<EntryView> {
    Seq::new(list.len(), |i: int| list[i]@)
}

impl Clone for HistoryEntry {
    fn clone(&self) -> (res: HistoryEntry)
        ensures
            res@ == self@,
    {
        HistoryEntry {
            message_id: self.message_id.clone(),
            lamport_timestamp: self.lamport_timestamp,
            retrieval_hint: clone_hint(&self.retrieval_hint),
        }
    }
}

fn clone_hint(hint: &Option<Vec<u8>>) -> (res: Option<Vec<u8>>)
    ensures
        opt_bytes(res) == opt_bytes(*hint),
{
    match hint {
        Some(bytes) => Some(clone_bytes(bytes.as_slice())),
        None => None,
    }
}

/// A copy of a list of history entries.
pub fn clone_entries(list: &Vec<HistoryEntry>) -> (res: Vec<HistoryEntry>)
    ensures
        entries(res@) == entries(list@),
{
    let mut out: Vec<HistoryEntry> = Vec::new();
    let mut i: usize = 0;
    while i < list.len()
        invariant
            0 <= i <= list.len(),
            out.len() == i,
            forall|k: int| 0 <= k < i ==> (#[trigger] out@[k])@ == list@[k]@,
        decreases list.len() - i,
    {
        out.push(list[i].clone());
        i = i + 1;
    }
    assert(entries(out@) =~= entries(list@));
    out
}

/// A message with a payload, delivered in causal order.
#[derive(Debug)]
pub struct ContentMessage {
    pub message_id: MessageId,
    pub channel_id: ChannelId,
    pub sender_id: ParticipantId,
    pub lamport_timestamp: u64,
    pub causal_history: Vec<HistoryEntry>,
    pub bloom_filter: Option<Vec<u8>>,
    pub content: Vec<u8>,
    pub repair_request: Vec<HistoryEntry>,
    pub retrieval_hint: Option<Vec<u8>>,
}

/// What a [`ContentMessage`] says.
#[verifier::ext_equal]
pub struct ContentView {
    pub message_id: Seq<char>,
    pub channel_id: Seq<char>,
    pub sender_id: Seq<char>,
    pub lamport_timestamp: u64,
    pub causal_history: Seq<EntryView>,
    pub bloom_filter: Option<Seq<u8>>,
    pub content: Seq<u8>,
    pub repair_request: Seq<EntryView>,
    pub retrieval_hint: Option<Seq<u8>>,
}

impl View for ContentMessage {
    type V = ContentView;

    open spec fn view(&self) -> ContentView {
        ContentView {
            message_id: self.message_id@,
            channel_id: self.channel_id@,
            sender_id: self.sender_id@,
            lamport_timestamp: self.lamport_timestamp,
            causal_history: entries(self.causal_history@),
            bloom_filter: opt_bytes(self.bloom_filter),
            content: self.content@,
            repair_request: entries(self.repair_request@),
            retrieval_hint: opt_bytes(self.retrieval_hint),
        }
    }
}

/// What a list of content messages says.
pub open spec fn contents(list: Seq<ContentMessage>) -> Seq<ContentView> {
    Seq::new(list.len(), |i: int| list[i]@)
}

impl Clone for ContentMessage {
    fn clone(&self) -> (res: ContentMessage)
        ensures
            res@ == self@,
    {
        ContentMessage {
            message_id: self.message_id.clone(),
            channel_id: self.channel_id.clone(),
            sender_id: self.sender_id.clone(),
            lamport_timestamp: self.lamport_timestamp,
            causal_history: clone_entries(&self.causal_history),
            bloom_filter: clone_hint(&self.bloom_filter),
            content: clone_bytes(self.content.as_slice()),
            repair_request: clone_entries(&self.repair_request),
            retrieval_hint: clone_hint(&self.retrieval_hint),
        }
    }
}

impl ContentMessage {
    /// A message with the given payload and no causal history.
    pub fn new(
        channel_id: &str,
        sender_id: &str,
        lamport_timestamp: u64,
        payload: &[u8],
    ) -> (res: ContentMessage)
        ensures
            res@ == (ContentView {
                message_id: message_id_of(payload@),
                channel_id: channel_id@,
                sender_id: sender_id@,
                lamport_timestamp,
                causal_history: seq![],
                bloom_filter: None,
                content: payload@,
                repair_request: seq![],
                retrieval_hint: None,
            }),
    {
        let res = ContentMessage {
            message_id: compute_message_id(payload),
            channel_id: channel_id.to_owned(),
            sender_id: sender_id.to_owned(),
            lamport_timestamp,
            causal_history: Vec::new(),
            bloom_filter: None,
            content: clone_bytes(payload),
            repair_request: Vec::new(),
            retrieval_hint: None,
        };
        assert(res@.causal_history =~= seq![]);
        assert(res@.repair_request =~= seq![]);
        res
    }
}

/// A message without payload: filter, history and repair requests.
#[derive(Debug)]
pub struct SyncMessage {
    pub message_id: MessageId,
    pub channel_id: ChannelId,
    pub sender_id: ParticipantId,
    pub lamport_timestamp: u64,
    pub causal_history: Vec<HistoryEntry>,
    pub bloom_filter: Option<Vec<u8>>,
    pub repair_request: Vec<HistoryEntry>,
}

/// What a [`SyncMessage`] says.
#[verifier::ext_equal]
pub struct SyncView {
    pub message_id: Seq<char>,
    pub channel_id: Seq<char>,
    pub sender_id: Seq<char>,
    pub lamport_timestamp: u64,
    pub causal_history: Seq<EntryView>,
    pub bloom_filter: Option<Seq<u8>>,
    pub repair_request: Seq<EntryView>,
}

impl View for SyncMessage {
    type V = SyncView;

    open spec fn view(&self) -> SyncView {
        SyncView {
            message_id: self.message_id@,
            channel_id: self.channel_id@,
            sender_id: self.sender_id@,
            lamport_timestamp: self.lamport_timestamp,
            causal_history: entries(self.causal_history@),
            bloom_filter: opt_bytes(self.bloom_filter),
            repair_request: entries(self.repair_request@),
        }
    }
}

impl Clone for SyncMessage {
    fn clone(&self) -> (res: SyncMessage)
        ensures
            res@ == self@,
    {
        SyncMessage {
            message_id: self.message_id.clone(),
            channel_id: self.channel_id.clone(),
            sender_id: self.sender_id.clone(),
            lamport_timestamp: self.lamport_timestamp,
            causal_history: clone_entries(&self.causal_history),
            bloom_filter: clone_hint(&self.bloom_filter),
            repair_request: clone_entries(&self.repair_request),
        }
    }
}

/// A message with a payload and no place in the causal order.
#[derive(Debug)]
pub struct EphemeralMessage {
    pub message_id: MessageId,
    pub channel_id: ChannelId,
    pub sender_id: ParticipantId,
    pub causal_history: Vec<HistoryEntry>,
    pub bloom_filter: Option<Vec<u8>>,
    pub content: Vec<u8>,
    pub repair_request: Vec<HistoryEntry>,
}

/// What an [`EphemeralMessage`] says.
#[verifier::ext_equal]
pub struct EphemeralView {
    pub message_id: Seq<char>,
    pub channel_id: Seq<char>,
    pub sender_id: Seq<char>,
    pub causal_history: Seq<EntryView>,
    pub bloom_filter: Option<Seq<u8>>,
    pub content: Seq<u8>,
    pub repair_request: Seq<EntryView>,
}

impl View for EphemeralMessage {
    type V = EphemeralView;

    open spec fn view(&self) -> EphemeralView {
        EphemeralView {
            message_id: self.message_id@,
            channel_id: self.channel_id@,
            sender_id: self.sender_id@,
            causal_history: entries(self.causal_history@),
            bloom_filter: opt_bytes(self.bloom_filter),
            content: self.content@,
            repair_request: entries(self.repair_request@),
        }
    }
}

impl Clone for EphemeralMessage {
    fn clone(&self) -> (res: EphemeralMessage)
        ensures
            res@ == self@,
    {
        EphemeralMessage {
            message_id: self.message_id.clone(),
            channel_id: self.channel_id.clone(),
            sender_id: self.sender_id.clone(),
            causal_history: clone_entries(&self.causal_history),
            bloom_filter: clone_hint(&self.bloom_filter),
            content: clone_bytes(self.content.as_slice()),
            repair_request: clone_entries(&self.repair_request),
        }
    }
}

impl EphemeralMessage {
    /// A fire-and-forget message: no history, no filter, no repair requests.
    pub fn new(channel_id: &str, sender_id: &str, payload: &[u8]) -> (res: EphemeralMessage)
        ensures
            res@ == (EphemeralView {
                message_id: message_id_of(payload@),
                channel_id: channel_id@,
                sender_id: sender_id@,
                causal_history: seq![],
                bloom_filter: None,
                content: payload@,
                repair_request: seq![],
            }),
    {
        let res = EphemeralMessage {
            message_id: compute_message_id(payload),
            channel_id: channel_id.to_owned(),
            sender_id: sender_id.to_owned(),
            causal_history: Vec::new(),
            bloom_filter: None,
            content: clone_bytes(payload),
            repair_request: Vec::new(),
        };
        assert(res@.causal_history =~= seq![]);
        assert(res@.repair_request =~= seq![]);
        res
    }
}

/// A message of the sync protocol.
#[derive(Debug)]
pub enum SdsMessage {
    Content(ContentMessage),
    Sync(SyncMessage),
    Ephemeral(EphemeralMessage),
}

/// What an [`SdsMessage`] says.
#[verifier::ext_equal]
pub enum SdsView {
    Content(ContentView),
    Sync(SyncView),
    Ephemeral(EphemeralView),
}

impl SdsView {
    /// The id of the message, whatever its sort.
    pub open spec fn message_id(self) -> Seq<char> {
        match self {
            SdsView::Content(m) => m.message_id,
            SdsView::Sync(m) => m.message_id,
            SdsView::Ephemeral(m) => m.message_id,
        }
    }

    /// The sender's filter, where the message carries one.
    pub open spec fn bloom_filter(self) -> Option<Seq<u8>> {
        match self {
            SdsView::Content(m) => m.bloom_filter,
            SdsView::Sync(m) => m.bloom_filter,
            SdsView::Ephemeral(m) => m.bloom_filter,
        }
    }

    /// What the sender asks to be sent again.
    pub open spec fn repair_request(self) -> Seq<EntryView> {
        match self {
            SdsView::Content(m) => m.repair_request,
            SdsView::Sync(m) => m.repair_request,
            SdsView::Ephemeral(m) => m.repair_request,
        }
    }
}

impl View for SdsMessage {
    type V = SdsView;

    open spec fn view(&self) -> SdsView {
        match self {
            SdsMessage::Content(m) => SdsView::Content(m@),
            SdsMessage::Sync(m) => SdsView::Sync(m@),
            SdsMessage::Ephemeral(m) => SdsView::Ephemeral(m@),
        }
    }
}

/// What an optional message says.
pub open spec fn opt_message(msg: Option<SdsMessage>) -> Option<SdsView> {
    match msg {
        Some(m) => Some(m@),
        None => None,
    }
}

impl Clone for SdsMessage {
    fn clone(&self) -> (res: SdsMessage)
        ensures
            res@ == self@,
    {
        match self {
            SdsMessage::Content(m) => SdsMessage::Content(m.clone()),
            SdsMessage::Sync(m) => SdsMessage::Sync(m.clone()),
            SdsMessage::Ephemeral(m) => SdsMessage::Ephemeral(m.clone()),
        }
    }
}

impl SdsMessage {
    /// The id of the message, whatever its sort.
    pub fn message_id(&self) -> (res: &str)
        ensures
            res@ == self@.message_id(),
    {
        match self {
            SdsMessage::Content(m) => m.message_id.as_str(),
            SdsMessage::Sync(m) => m.message_id.as_str(),
            SdsMessage::Ephemeral(m) => m.message_id.as_str(),
        }
    }

    /// The sender's filter, where the message carries one.
    pub fn bloom_filter_bytes(&self) -> (res: Option<&Vec<u8>>)
        ensures
            res is Some <==> self@.bloom_filter() is Some,
            res matches Some(bytes) ==> self@.bloom_filter() == Some(bytes@),
    {
        match self {
            SdsMessage::Content(m) => m.bloom_filter.as_ref(),
            SdsMessage::Sync(m) => m.bloom_filter.as_ref(),
            SdsMessage::Ephemeral(m) => m.bloom_filter.as_ref(),
        }
    }

    /// What the sender asks to be sent again.
    pub fn repair_requests(&self) -> (res: &Vec<HistoryEntry>)
        ensures
            entries(res@) == self@.repair_request(),
    {
        match self {
            SdsMessage::Content(m) => &m.repair_request,
            SdsMessage::Sync(m) => &m.repair_request,
            SdsMessage::Ephemeral(m) => &m.repair_request,
        }
    }
}

/// The id of a payload is the digest of the payload, in sixty-four hexadecimal digits:
/// payloads with different digests have different ids.
pub proof fn the_id_is_the_digest(payload: Seq<u8>, other: Seq<u8>)
    ensures
        crate::codec::hex_bytes(message_id_of(payload)) == sha256_of(payload),
        message_id_of(payload).len() == 2 * sha256_of(payload).len(),
        message_id_of(payload) == message_id_of(other) <==> sha256_of(payload) == sha256_of(other),
{
    crate::codec::hex_round_trip(sha256_of(payload));
    crate::codec::hex_round_trip(sha256_of(other));
}

} // verus!
