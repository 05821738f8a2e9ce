//! The embedded messaging node: its configuration, how its calls complete and
//! where its events go.

use vstd::prelude::*;
use crate::codec::{base64_bytes, base64_encode, base64_round_trip, base64_text};
use crate::text::{clone_opt_text, join3, same_text, signed_decimal, signed_decimal_text};
use crate::table::{has_key, lookup};
use crate::transport::{Subscriptions, TransportError};

verus! {

/// The return code of a call that was accepted.
pub const RET_OK: i32 = 0;

/// How many messages a subscriber's queue holds.
pub const CHANNEL_BUFFER: usize = 256;

/// Configuration for the embedded messaging node.
#[derive(Debug)]
pub struct NodeConfig {
    pub log_level: Option<String>,
    pub mode: Option<String>,
    /// Network preset, such as `logos.dev`, which fixes entry nodes, cluster and
    /// sharding.
    pub preset: Option<String>,
    pub tcp_port: Option<u16>,
    pub discv5_udp_port: Option<u16>,
}

impl Clone for NodeConfig {
    fn clone(&self) -> (res: NodeConfig)
        ensures
            res == *self,
    {
        NodeConfig {
            log_level: clone_opt_text(&self.log_level),
            mode: clone_opt_text(&self.mode),
            preset: clone_opt_text(&self.preset),
            tcp_port: self.tcp_port,
            discv5_udp_port: self.discv5_udp_port,
        }
    }
}

impl Default for NodeConfig {
    fn default() -> (res: NodeConfig)
        ensures
            res == (NodeConfig {
                log_level: None,
                mode: None,
                preset: None,
                tcp_port: None,
                discv5_udp_port: None,
            }),
    {
        NodeConfig {
            log_level: None,
            mode: None,
            preset: None,
            tcp_port: None,
            discv5_udp_port: None,
        }
    }
}

impl NodeConfig {
    /// The standard demo configuration: the `logos.dev` fleet, Core mode, INFO
    /// logs, and no fixed ports.
    pub fn logos_dev() -> (res: NodeConfig)
        ensures
            res.log_level matches Some(s) && s@ == "INFO"@,
            res.mode matches Some(s) && s@ == "Core"@,
            res.preset matches Some(s) && s@ == "logos.dev"@,
            res.tcp_port is None,
            res.discv5_udp_port is None,
    {
        NodeConfig {
            log_level: Some("INFO".to_owned()),
            mode: Some("Core".to_owned()),
            preset: Some("logos.dev".to_owned()),
            tcp_port: None,
            discv5_udp_port: None,
        }
    }
}

/// A call into the node that is under way: its outcome once it is known, and who
/// is to be woken then.
pub struct CallState<W> {
    pub result: Option<Result<String, String>>,
    pub waker: Option<W>,
}

impl<W> CallState<W> {
    /// A call without an outcome, that nobody waits for.
    pub fn new() -> (res: CallState<W>)
        ensures
            res.result is None,
            res.waker is None,
    {
        CallState { result: None, waker: None }
    }

    /// Asks for the outcome. It is handed out once; before it is known, the
    /// caller is remembered in place of anyone who asked earlier.
    pub fn poll(&mut self, waker: W) -> (res: Option<Result<String, String>>)
        ensures
            res == old(self).result,
            final(self).result is None,
            old(self).result is Some ==> final(self).waker == old(self).waker,
            old(self).result is None ==> final(self).waker == Some(waker),
    {
        match self.result.take() {
            Some(outcome) => Some(outcome),
            None => {
                self.waker = Some(waker);
                None
            },
        }
    }

    /// Reports the outcome, a success exactly for [`RET_OK`], and returns who is
    /// to be woken.
    pub fn complete(&mut self, ret: i32, text: String) -> (res: Option<W>)
        ensures
            final(self).result == Some(
                if ret == RET_OK {
                    Ok::<String, String>(text)
                } else {
                    Err::<String, String>(text)
                },
            ),
            final(self).waker is None,
            res == old(self).waker,
    {
        let outcome = if ret == RET_OK {
            Ok(text)
        } else {
            Err(text)
        };
        self.result = Some(outcome);
        self.waker.take()
    }
}

/// Whether a call was accepted; `what` names it in the error.
pub fn check_accepted(what: &str, rc: i32) -> (res: Result<(), TransportError>)
    ensures
        res is Ok <==> rc == RET_OK,
        res matches Err(e) ==> e.is_transport(what@ + " rc="@ + signed_decimal(rc as int)),
{
    if rc == RET_OK {
        Ok(())
    } else {
        Err(
            TransportError::Transport(
                join3(what, " rc=", signed_decimal_text(rc).as_str()),
            ),
        )
    }
}

/// Whether a call succeeded; `what` names it in the error.
pub fn check_outcome(what: &str, outcome: Result<String, String>) -> (res: Result<
    (),
    TransportError,
>)
    ensures
        res is Ok <==> outcome is Ok,
        res matches Err(e) ==> e.is_transport(what@ + " failed: "@ + outcome->Err_0@),
{
    match outcome {
        Ok(_) => Ok(()),
        Err(e) => Err(TransportError::Transport(join3(what, " failed: ", e.as_str()))),
    }
}

/// Where the start of a node stands.
#[derive(Debug, Clone, Copy, PartialEq, Eq, Structural)]
pub enum StartStage {
    /// The node is being created.
    Creating,
    /// The node was created and its creation is being carried out.
    Created,
    /// Events are wired up and the node is being started.
    Starting,
    /// The start was accepted and is being carried out.
    Started,
    /// The node runs.
    Running,
}

/// What the node reports while it starts.
pub enum StartEvent {
    /// Whether a node came back.
    Handle(bool),
    /// How a call ended.
    Outcome(Result<String, String>),
    /// The code with which the start call returned.
    Code(i32),
}

/// The start of a node, step by step: created, carried out, events wired up,
/// started, carried out. The error is that of the step that failed. An event
/// that does not belong to the stage leaves it as it is.
pub fn start_step(stage: StartStage, event: StartEvent) -> (res: Result<StartStage, TransportError>)
    ensures
        match (stage, event) {
            (StartStage::Creating, StartEvent::Handle(present)) => {
                &&& present ==> res == Ok::<StartStage, TransportError>(StartStage::Created)
                &&& !present ==> res is Err && res->Err_0.is_transport(
                    "create_node returned NULL"@,
                )
            },
            (StartStage::Created, StartEvent::Outcome(outcome)) => {
                &&& outcome is Ok ==> res == Ok::<StartStage, TransportError>(StartStage::Starting)
                &&& outcome matches Err(e) ==> res is Err && res->Err_0.is_transport(
                    "create_node"@ + " failed: "@ + e@,
                )
            },
            (StartStage::Starting, StartEvent::Code(rc)) => {
                &&& rc == RET_OK ==> res == Ok::<StartStage, TransportError>(StartStage::Started)
                &&& rc != RET_OK ==> res is Err && res->Err_0.is_transport(
                    "start_node returned"@ + " rc="@ + signed_decimal(rc as int),
                )
            },
            (StartStage::Started, StartEvent::Outcome(outcome)) => {
                &&& outcome is Ok ==> res == Ok::<StartStage, TransportError>(StartStage::Running)
                &&& outcome matches Err(e) ==> res is Err && res->Err_0.is_transport(
                    "start_node"@ + " failed: "@ + e@,
                )
            },
            _ => res == Ok::<StartStage, TransportError>(stage),
        },
{
    match (stage, event) {
        (StartStage::Creating, StartEvent::Handle(present)) => {
            if present {
                Ok(StartStage::Created)
            } else {
                Err(TransportError::Transport("create_node returned NULL".to_owned()))
            }
        },
        (StartStage::Created, StartEvent::Outcome(outcome)) => {
            match check_outcome("create_node", outcome) {
                Ok(()) => Ok(StartStage::Starting),
                Err(e) => Err(e),
            }
        },
        (StartStage::Starting, StartEvent::Code(rc)) => {
            match check_accepted("start_node returned", rc) {
                Ok(()) => Ok(StartStage::Started),
                Err(e) => Err(e),
            }
        },
        (StartStage::Started, StartEvent::Outcome(outcome)) => {
            match check_outcome("start_node", outcome) {
                Ok(()) => Ok(StartStage::Running),
                Err(e) => Err(e),
            }
        },
        _ => Ok(stage),
    }
}

/// A message on its way into the node.
#[derive(Debug)]
pub struct OutgoingMessage {
    pub content_topic: String,
    /// The payload in Base64.
    pub payload: String,
    pub ephemeral: bool,
}

impl OutgoingMessage {
    /// A message that is kept, not ephemeral. The text that stands for the
    /// payload reads back as the payload.
    pub fn new(topic: &str, payload: &[u8]) -> (res: OutgoingMessage)
        ensures
            res.content_topic@ == topic@,
            res.payload@ == base64_text(payload@),
            base64_bytes(res.payload@) == Some(payload@),
            !res.ephemeral,
    {
        proof {
            base64_round_trip(payload@);
        }
        OutgoingMessage {
            content_topic: topic.to_owned(),
            payload: base64_encode(payload),
            ephemeral: false,
        }
    }
}

/// A message that the node received.
#[derive(Debug)]
pub struct ReceivedMessage {
    pub content_topic: String,
    pub payload: Vec<u8>,
}

/// An event of the node.
#[derive(Debug)]
pub struct InboundEvent {
    pub event_type: String,
    pub message: Option<ReceivedMessage>,
}

/// The message that an event carries to a subscriber: only a `message_received`
/// event, reported with [`RET_OK`], that holds a message on a topic with a
/// subscriber. `parsed` is `None` for bytes that are no event.
pub open spec fn routed<S>(
    ret: i32,
    parsed: Option<InboundEvent>,
    senders: Seq<(Seq<char>, S)>,
) -> Option<(S, Seq<u8>)> {
    match parsed {
        Some(event) => match event.message {
            Some(m) => if ret == RET_OK && event.event_type@ == "message_received"@ && has_key(
                senders,
                m.content_topic@,
            ) {
                Some((lookup(senders, m.content_topic@)->0, m.payload@))
            } else {
                None
            },
            None => None,
        },
        None => None,
    }
}

/// Routes an event to the subscriber of its topic.
pub fn route_event<'a, S>(
    ret: i32,
    parsed: Option<InboundEvent>,
    senders: &'a Subscriptions<S>,
) -> (res: Option<(&'a S, Vec<u8>)>)
    requires
        senders.wf(),
    ensures
        res is Some <==> routed(ret, parsed, senders@) is Some,
        res matches Some((s, payload)) ==> routed(ret, parsed, senders@) == Some((*s, payload@)),
{
    if ret != RET_OK {
        return None;
    }
    let event = match parsed {
        Some(e) => e,
        None => return None,
    };
    if !same_text(event.event_type.as_str(), "message_received") {
        return None;
    }
    match event.message {
        Some(m) => match senders.get(m.content_topic.as_str()) {
            Some(s) => Some((s, m.payload)),
            None => None,
        },
        None => None,
    }
}

/// A message that was received goes to the subscriber of its topic, with its payload;
/// anything else goes nowhere: another event, one that is not reported as good, one
/// without a message, and one on a topic without a subscriber.
pub proof fn only_messages_are_routed<S>(
    ret: i32,
    event: InboundEvent,
    message: ReceivedMessage,
    senders: Seq<(Seq<char>, S)>,
    i: int,
)
    requires
        crate::table::distinct_keys(senders),
        0 <= i < senders.len(),
        event.message == Some(message),
        message.content_topic@ == senders[i].0,
    ensures
        ret == 0 && event.event_type@ == "message_received"@ ==> routed(
            ret,
            Some(event),
            senders,
        ) == Some((senders[i].1, message.payload@)),
        ret != 0 || event.event_type@ != "message_received"@ ==> routed(ret, Some(event), senders)
            is None,
        routed::<S>(ret, None, senders) is None,
        routed::<S>(ret, Some(InboundEvent { message: None, ..event }), senders) is None,
        forall|others: Seq<(Seq<char>, S)>|
            (forall|k: int|
                0 <= k < others.len() ==> (#[trigger] others[k]).0 != message.content_topic@)
                ==> #[trigger] routed(ret, Some(event), others) is None,
{
    crate::table::place_is_unique(senders, i);
}

} // verus!
