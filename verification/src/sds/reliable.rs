//! Sending until acknowledged: the acknowledgement's form and the decisions of
//! the retransmission loop. Publishing and waiting are the caller's.

use vstd::prelude::*;
use crate::json::{json_field_text, json_pair_object, write_pair_object, JsonDoc, json_fault};
use crate::text::{join2, join3, same_text};
use crate::transport::TransportError;

verus! {

/// The topic on which a message is acknowledged.
pub open spec fn ack_topic_of(message_id: Seq<char>) -> Seq<char> {
    "/lmao/1/ack-"@ + message_id + "/proto"@
}

/// The topic on which a message is acknowledged.
pub fn ack_topic(message_id: &str) -> (res: String)
    ensures
        res@ == ack_topic_of(message_id@),
{
    join3("/lmao/1/ack-", message_id, "/proto")
}

/// Whether bytes acknowledge a message: a JSON object whose `message_id` is the
/// message's id.
pub open spec fn acknowledges(data: Seq<u8>, message_id: Seq<char>) -> bool {
    json_field_text(data, "message_id"@) == Some(message_id)
}

/// The bytes that acknowledge a message: an object of the type `ack` with the
/// message's id. They acknowledge that message and no other.
pub fn ack_payload(message_id: &str) -> (res: Vec<u8>)
    ensures
        res@ == json_pair_object("type"@, "ack"@, "message_id"@, message_id@),
        json_fault(res@) is None,
        forall|id: Seq<char>| acknowledges(res@, id) <==> id == message_id@,
{
    proof {
        reveal_strlit("type");
        reveal_strlit("message_id");
        assert("type"@.len() != "message_id"@.len());
    }
    match write_pair_object("type", "ack", "message_id", message_id) {
        Some(bytes) => bytes,
        None => Vec::new(),
    }
}

/// Whether bytes acknowledge a message.
pub fn is_ack(data: &[u8], message_id: &str) -> (res: bool)
    ensures
        res == (json_fault(data@) is None && acknowledges(data@, message_id@)),
{
    match JsonDoc::parse(data) {
        Ok(doc) => match doc.field_text("message_id") {
            Some(id) => same_text(id.as_str(), message_id),
            None => false,
        },
        Err(_) => false,
    }
}

/// What happened to a reliable send.
#[derive(Debug)]
pub enum ReliableEvent {
    /// The message was published.
    Published,
    /// Publishing failed with a message.
    PublishFailed(String),
    /// Bytes came in on the acknowledgement topic in time.
    Heard(Vec<u8>),
    /// Nothing came in before the time was up, or the topic was closed.
    Silence,
}

/// What to do next in a reliable send.
#[derive(Debug)]
pub enum ReliableAction {
    /// Publish the message.
    Publish,
    /// Wait for an acknowledgement.
    Await,
    /// The message was acknowledged.
    Acknowledged,
    /// All attempts are used up.
    GiveUp,
    /// Publishing failed.
    Fail(TransportError),
}

/// A reliable send under way.
#[derive(Debug)]
pub struct ReliableSend {
    message_id: String,
    max_retries: u32,
    attempt: u32,
}

/// What a [`ReliableSend`] says: the message, how often it may be sent again, and
/// how often it was sent again so far.
#[verifier::ext_equal]
pub struct ReliableView {
    pub message_id: Seq<char>,
    pub max_retries: u32,
    pub attempt: u32,
}

impl View for ReliableSend {
    type V = ReliableView;

    closed spec fn view(&self) -> ReliableView {
        ReliableView {
            message_id: self.message_id@,
            max_retries: self.max_retries,
            attempt: self.attempt,
        }
    }
}

/// What to do next, as the contract of [`ReliableSend::step`] states it.
#[verifier::ext_equal]
pub enum Decision {
    Publish,
    Await,
    Acknowledged,
    GiveUp,
    Fail(Seq<char>),
}

impl ReliableAction {
    /// Whether the action is what was decided.
    pub open spec fn is(&self, decision: Decision) -> bool {
        match decision {
            Decision::Publish => *self is Publish,
            Decision::Await => *self is Await,
            Decision::Acknowledged => *self is Acknowledged,
            Decision::GiveUp => *self is GiveUp,
            Decision::Fail(text) => *self matches ReliableAction::Fail(e) && e.is_transport(text),
        }
    }
}

/// What follows an attempt that was not acknowledged.
pub open spec fn unanswered(v: ReliableView) -> (ReliableView, Decision) {
    if v.attempt < v.max_retries {
        (ReliableView { attempt: (v.attempt + 1) as u32, ..v }, Decision::Publish)
    } else {
        (v, Decision::GiveUp)
    }
}

/// What follows an event. After publishing, an acknowledgement is awaited; the
/// right one ends the send. Anything else that comes in, like silence, uses up
/// the attempt. A failure to publish ends the send at once.
pub open spec fn decided(v: ReliableView, event: ReliableEvent) -> (ReliableView, Decision) {
    match event {
        ReliableEvent::Published => (v, Decision::Await),
        ReliableEvent::PublishFailed(text) => (
            v,
            Decision::Fail("SDS: publish failed: "@ + text@),
        ),
        ReliableEvent::Heard(data) => if json_fault(data@) is None && acknowledges(
            data@,
            v.message_id,
        ) {
            (v, Decision::Acknowledged)
        } else {
            unanswered(v)
        },
        ReliableEvent::Silence => unanswered(v),
    }
}

impl ReliableSend {
    /// The message was sent again at most as often as allowed.
    pub open spec fn wf(&self) -> bool {
        self@.attempt <= self@.max_retries
    }

    /// A send that begins. The message is to be published next.
    pub fn new(message_id: &str, max_retries: u32) -> (res: ReliableSend)
        ensures
            res.wf(),
            res@ == (ReliableView { message_id: message_id@, max_retries, attempt: 0 }),
    {
        ReliableSend { message_id: message_id.to_owned(), max_retries, attempt: 0 }
    }

    /// The number of the attempt under way, from zero.
    pub fn attempt(&self) -> (res: u32)
        ensures
            res == self@.attempt,
    {
        self.attempt
    }

    /// Decides what follows an event.
    pub fn step(&mut self, event: ReliableEvent) -> (res: ReliableAction)
        requires
            old(self).wf(),
        ensures
            final(self).wf(),
            final(self)@ == decided(old(self)@, event).0,
            res.is(decided(old(self)@, event).1),
    {
        match event {
            ReliableEvent::Published => ReliableAction::Await,
            ReliableEvent::PublishFailed(text) => ReliableAction::Fail(
                TransportError::Transport(join2("SDS: publish failed: ", text.as_str())),
            ),
            ReliableEvent::Heard(data) => {
                if is_ack(data.as_slice(), self.message_id.as_str()) {
                    ReliableAction::Acknowledged
                } else {
                    self.next_attempt()
                }
            },
            ReliableEvent::Silence => self.next_attempt(),
        }
    }

    fn next_attempt(&mut self) -> (res: ReliableAction)
        requires
            old(self).wf(),
        ensures
            final(self).wf(),
            final(self)@ == unanswered(old(self)@).0,
            res.is(unanswered(old(self)@).1),
    {
        if self.attempt < self.max_retries {
            self.attempt = self.attempt + 1;
            ReliableAction::Publish
        } else {
            ReliableAction::GiveUp
        }
    }
}

/// Where a send stands after a run of events.
pub open spec fn after_events(v: ReliableView, events: Seq<ReliableEvent>) -> ReliableView
    decreases events.len(),
{
    if events.len() == 0 {
        v
    } else {
        decided(after_events(v, events.drop_last()), events.last()).0
    }
}

/// How often a run of events leads to publishing again.
pub open spec fn retransmissions(v: ReliableView, events: Seq<ReliableEvent>) -> nat
    decreases events.len(),
{
    if events.len() == 0 {
        0
    } else {
        let before = retransmissions(v, events.drop_last());
        if decided(after_events(v, events.drop_last()), events.last()).1 is Publish {
            before + 1
        } else {
            before
        }
    }
}

/// Whatever happens, a message is sent again at most as often as allowed.
pub proof fn retransmissions_are_bounded(v: ReliableView, events: Seq<ReliableEvent>)
    requires
        v.attempt == 0,
    ensures
        retransmissions(v, events) == after_events(v, events).attempt,
        retransmissions(v, events) <= v.max_retries,
        after_events(v, events).max_retries == v.max_retries,
    decreases events.len(),
{
    if events.len() > 0 {
        retransmissions_are_bounded(v, events.drop_last());
    }
}

/// With nothing but silence, a message is sent again exactly as often as
/// allowed, and then given up.
pub proof fn silence_uses_up_all_attempts(v: ReliableView, n: nat)
    requires
        v.attempt == 0,
    ensures
        n <= v.max_retries ==> after_events(
            v,
            Seq::new(n, |i: int| ReliableEvent::Silence),
        ).attempt == n,
        n == v.max_retries ==> decided(
            after_events(v, Seq::new(n, |i: int| ReliableEvent::Silence)),
            ReliableEvent::Silence,
        ).1 is GiveUp,
    decreases n,
{
    let all = Seq::new(n, |i: int| ReliableEvent::Silence);
    retransmissions_are_bounded(v, all);
    if n > 0 {
        let head = Seq::new((n - 1) as nat, |i: int| ReliableEvent::Silence);
        silence_uses_up_all_attempts(v, (n - 1) as nat);
        assert(all.drop_last() =~= head);
        retransmissions_are_bounded(v, head);
    }
}

/// A send ends as acknowledged exactly when bytes come in that are a JSON document with
/// the id of its message, and as failed exactly when publishing fails, with the reason.
pub proof fn a_send_ends_for_its_own_reasons(v: ReliableView, event: ReliableEvent)
    ensures
        decided(v, event).1 is Acknowledged <==> {
            &&& event is Heard
            &&& json_fault(event->Heard_0@) is None
            &&& json_field_text(event->Heard_0@, "message_id"@) == Some(v.message_id)
        },
        decided(v, event).1 is Fail <==> event is PublishFailed,
        event is PublishFailed ==> decided(v, event).1 == Decision::Fail(
            "SDS: publish failed: "@ + event->PublishFailed_0@,
        ),
        decided(v, event).1 is Await <==> event is Published,
        decided(v, event).0.message_id == v.message_id,
        decided(v, event).0.max_retries == v.max_retries,
{
}

/// Bytes that do not acknowledge the message count as silence does: the message is
/// published again as long as that is allowed, and given up from then on.
pub proof fn foreign_bytes_count_as_silence(v: ReliableView, data: Vec<u8>)
    requires
        json_fault(data@) is Some || json_field_text(data@, "message_id"@) != Some(v.message_id),
    ensures
        decided(v, ReliableEvent::Heard(data)) == decided(v, ReliableEvent::Silence),
        v.attempt < v.max_retries ==> decided(v, ReliableEvent::Silence).1 is Publish && decided(
            v,
            ReliableEvent::Silence,
        ).0.attempt == v.attempt + 1,
        v.attempt >= v.max_retries ==> decided(v, ReliableEvent::Silence) == (v, Decision::GiveUp),
{
}

/// No two messages share the topic on which they are acknowledged.
pub proof fn messages_have_acknowledgement_topics_of_their_own(a: Seq<char>, b: Seq<char>)
    ensures
        ack_topic_of(a) == ack_topic_of(b) <==> a == b,
        ack_topic_of(a) == "/lmao/1/ack-"@ + a + "/proto"@,
{
    if ack_topic_of(a) == ack_topic_of(b) {
        let n = "/lmao/1/ack-"@.len() as int;
        let m = "/proto"@.len() as int;
        assert(ack_topic_of(a).len() == n + a.len() + m);
        assert(ack_topic_of(b).len() == n + b.len() + m);
        assert(ack_topic_of(a).subrange(n, n + a.len()) =~= a);
        assert(ack_topic_of(b).subrange(n, n + b.len()) =~= b);
    }
}

} // verus!
