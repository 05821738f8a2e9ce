//! The transport that drives a `delivery_module`: the calls it makes, how their
//! replies are read, and where its events go.

use vstd::prelude::*;
use crate::codec::{
    base64_bytes, base64_decode, base64_encode, base64_round_trip, base64_text,
};
use crate::json::{
    json_array1, json_array2, json_compact, json_fault, json_field_flag, json_field_text,
    json_flag, json_item_text, write_array1, write_array2, JsonDoc,
};
use crate::module_call::{error_message, module_call, reported_error, CallView, ModuleCall};
use crate::table::{has_key, lookup};
use crate::text::{join2, join3, same_text};
use crate::transport::{Subscriptions, TransportError};

verus! {

/// The module's name.
pub const MODULE: &'static str = "delivery_module";

/// The event that carries a message.
pub const EVENT_MESSAGE_RECEIVED: &'static str = "messageReceived";

/// Time limit of ordinary calls, in milliseconds.
pub const SHORT_TIMEOUT_MS: i32 = 30_000;

/// Time limit of the calls that start the node, in milliseconds.
pub const STARTUP_TIMEOUT_MS: i32 = 120_000;

/// Time limit of one poll for events, in milliseconds.
pub const POLL_TIMEOUT_MS: i32 = 250;

/// The call that creates the node from a configuration.
pub open spec fn create_call(cfg_json: Seq<char>) -> CallView {
    CallView {
        method: "createNode"@,
        args: json_array1(cfg_json),
        timeout_ms: STARTUP_TIMEOUT_MS,
    }
}

/// The call that starts the node.
pub open spec fn start_call() -> CallView {
    CallView { method: "start"@, args: "[]"@, timeout_ms: STARTUP_TIMEOUT_MS }
}

/// The call that sends a payload, in Base64, on a topic.
pub open spec fn send_call(topic: Seq<char>, payload: Seq<u8>) -> CallView {
    CallView {
        method: "send"@,
        args: json_array2(topic, base64_text(payload)),
        timeout_ms: SHORT_TIMEOUT_MS,
    }
}

/// The call that takes or ends a subscription.
pub open spec fn topic_call(method: Seq<char>, topic: Seq<char>) -> CallView {
    CallView { method, args: json_array1(topic), timeout_ms: SHORT_TIMEOUT_MS }
}

/// Builds the call that creates the node.
pub fn create_node(cfg_json: &str) -> (res: ModuleCall)
    ensures
        res@ == create_call(cfg_json@),
{
    module_call("createNode", write_array1(cfg_json), STARTUP_TIMEOUT_MS)
}

/// Builds the call that sends a payload on a topic. The text that stands for the
/// payload reads back as the payload.
pub fn send(topic: &str, payload: &[u8]) -> (res: ModuleCall)
    ensures
        res@ == send_call(topic@, payload@),
        base64_bytes(base64_text(payload@)) == Some(payload@),
{
    proof {
        base64_round_trip(payload@);
    }
    let encoded = base64_encode(payload);
    module_call("send", write_array2(topic, encoded.as_str()), SHORT_TIMEOUT_MS)
}

/// Builds the call that takes a subscription.
pub fn subscribe(topic: &str) -> (res: ModuleCall)
    ensures
        res@ == topic_call("subscribe"@, topic@),
{
    module_call("subscribe", write_array1(topic), SHORT_TIMEOUT_MS)
}

/// Builds the call that ends a subscription.
pub fn unsubscribe(topic: &str) -> (res: ModuleCall)
    ensures
        res@ == topic_call("unsubscribe"@, topic@),
{
    module_call("unsubscribe", write_array1(topic), SHORT_TIMEOUT_MS)
}

/// What the module's reply to a call amounts to: a JSON document, or an error
/// that names the method.
pub fn read_reply(method: &str, raw: Result<String, String>) -> (res: Result<
    JsonDoc,
    TransportError,
>)
    ensures
        match raw {
            Ok(text) => match json_fault(vstd::utf8::encode_utf8(text@)) {
                None => res matches Ok(doc) && doc.wf() && doc@ == vstd::utf8::encode_utf8(text@),
                Some(fault) => res matches Err(e) && e.is_transport(
                    "delivery_module "@ + method@ + " bad JSON: "@ + fault,
                ),
            },
            Err(fault) => res matches Err(e) && e.is_transport(
                "delivery_module "@ + method@ + ": "@ + fault@,
            ),
        },
{
    match raw {
        Ok(text) => match JsonDoc::parse(text.as_str().as_bytes()) {
            Ok(doc) => Ok(doc),
            Err(fault) => Err(
                TransportError::Transport(
                    join3(
                        join2("delivery_module ", method).as_str(),
                        " bad JSON: ",
                        fault.as_str(),
                    ),
                ),
            ),
        },
        Err(fault) => Err(
            TransportError::Transport(
                join3(join2("delivery_module ", method).as_str(), ": ", fault.as_str()),
            ),
        ),
    }
}

/// Whether a reply says that the call worked: `true`, or an object whose `value`
/// is `true`, and no reported error.
pub open spec fn reply_ok(doc: Seq<u8>) -> bool {
    reported_error(doc) is None && (json_flag(doc) == Some(true) || json_field_flag(doc, "value"@)
        == Some(true))
}

/// For calls that answer with a truth value: accepts any shape of `true`, and
/// turns anything else into an error that names the method.
pub fn check_bool(doc: &JsonDoc, method: &str) -> (res: Result<(), TransportError>)
    requires
        doc.wf(),
    ensures
        res is Ok <==> reply_ok(doc@),
        res matches Err(e) ==> e.is_transport(
            match reported_error(doc@) {
                Some(text) => method@ + ": "@ + text,
                None => method@ + ": unexpected response "@ + json_compact(doc@)->0,
            },
        ),
{
    if let Some(err) = error_message(doc) {
        return Err(TransportError::Transport(join3(method, ": ", err.as_str())));
    }
    if let Some(flag) = doc.flag() {
        if flag {
            return Ok(());
        }
    }
    if let Some(flag) = doc.field_flag("value") {
        if flag {
            return Ok(());
        }
    }
    Err(
        TransportError::Transport(
            join3(method, ": unexpected response ", doc.compact().as_str()),
        ),
    )
}

/// For `send`: anything but a reported error means that the message was taken.
pub fn check_sent(doc: &JsonDoc) -> (res: Result<(), TransportError>)
    ensures
        res is Ok <==> reported_error(doc@) is None,
        res matches Err(e) ==> e.is_transport("send"@ + ": "@ + reported_error(doc@)->0),
{
    match error_message(doc) {
        Some(err) => Err(TransportError::Transport(join3("send", ": ", err.as_str()))),
        None => Ok(()),
    }
}

/// Where the boot of the transport stands: which reply is awaited.
#[derive(Debug, Clone, Copy, PartialEq, Eq, Structural)]
pub enum BootStage {
    /// The reply to `createNode`.
    Creating,
    /// The reply to `start`.
    Starting,
    /// The answer to listening for messages.
    Listening,
    /// Nothing more: events can be polled.
    Running,
}

/// What to do next.
#[derive(Debug)]
pub enum BootAction {
    /// Make a call of the module.
    Call(ModuleCall),
    /// Listen for [`EVENT_MESSAGE_RECEIVED`].
    Listen,
    /// Poll for events.
    Poll,
}

/// The error with which a call that must answer `true` fails, or nothing.
pub open spec fn boot_fault(method: Seq<char>, raw: Result<String, String>) -> Option<Seq<char>> {
    match raw {
        Err(fault) => Some("delivery_module "@ + method + ": "@ + fault@),
        Ok(text) => {
            let doc = vstd::utf8::encode_utf8(text@);
            match json_fault(doc) {
                Some(fault) => Some("delivery_module "@ + method + " bad JSON: "@ + fault),
                None => if reply_ok(doc) {
                    None
                } else {
                    match reported_error(doc) {
                        Some(text) => Some(method + ": "@ + text),
                        None => Some(
                            method + ": unexpected response "@ + json_compact(doc)->0,
                        ),
                    }
                },
            }
        },
    }
}

/// Reads the reply to a call that must answer `true`.
pub fn require_true(method: &str, raw: Result<String, String>) -> (res: Result<(), TransportError>)
    ensures
        res is Ok <==> boot_fault(method@, raw) is None,
        res matches Err(e) ==> boot_fault(method@, raw) is Some && e.is_transport(
            boot_fault(method@, raw)->0,
        ),
{
    match read_reply(method, raw) {
        Ok(doc) => check_bool(&doc, method),
        Err(e) => Err(e),
    }
}

/// The boot, step by step: create the node, start it, listen, poll. Each step
/// goes on only where the one before succeeded, and ends with its error
/// otherwise.
pub fn boot_step(stage: BootStage, reply: Result<String, String>) -> (res: Result<
    (BootStage, BootAction),
    TransportError,
>)
    ensures
        match stage {
            BootStage::Creating => match boot_fault("createNode"@, reply) {
                Some(text) => res matches Err(e) && e.is_transport(text),
                None => res is Ok && res->Ok_0.0 == BootStage::Starting && res->Ok_0.1 is Call
                    && res->Ok_0.1->Call_0@ == start_call(),
            },
            BootStage::Starting => match boot_fault("start"@, reply) {
                Some(text) => res matches Err(e) && e.is_transport(text),
                None => res matches Ok((next, action)) && next == BootStage::Listening && action
                    == BootAction::Listen,
            },
            BootStage::Listening => match reply {
                Err(fault) => res matches Err(e) && e.is_transport("listen: "@ + fault@),
                Ok(_) => res matches Ok((next, action)) && next == BootStage::Running && action
                    == BootAction::Poll,
            },
            BootStage::Running => res matches Ok((next, action)) && next == BootStage::Running
                && action == BootAction::Poll,
        },
{
    match stage {
        BootStage::Creating => match require_true("createNode", reply) {
            Ok(()) => Ok(
                (
                    BootStage::Starting,
                    BootAction::Call(
                        module_call("start", Some("[]".to_owned()), STARTUP_TIMEOUT_MS),
                    ),
                ),
            ),
            Err(e) => Err(e),
        },
        BootStage::Starting => match require_true("start", reply) {
            Ok(()) => Ok((BootStage::Listening, BootAction::Listen)),
            Err(e) => Err(e),
        },
        BootStage::Listening => match reply {
            Ok(_) => Ok((BootStage::Running, BootAction::Poll)),
            Err(fault) => Err(TransportError::Transport(join2("listen: ", fault.as_str()))),
        },
        BootStage::Running => Ok((BootStage::Running, BootAction::Poll)),
    }
}

/// The text of a list item, or the empty text where there is none.
pub open spec fn item_or_empty(doc: Seq<u8>, index: nat) -> Seq<char> {
    match json_item_text(doc, "data"@, index) {
        Some(text) => text,
        None => ""@,
    }
}

/// What an event carries and on which topic: for a `messageReceived` event, the
/// topic in the second place of its data and the payload behind the Base64 text
/// in the third. An event without a topic, or whose payload is not Base64,
/// carries nothing.
pub open spec fn carried(doc: Seq<u8>) -> Option<(Seq<char>, Seq<u8>)> {
    let topic = item_or_empty(doc, 1);
    let payload = base64_bytes(item_or_empty(doc, 2));
    if json_fault(doc) is None && json_field_text(doc, "event"@) == Some(EVENT_MESSAGE_RECEIVED@)
        && topic.len() > 0 && payload is Some {
        Some((topic, payload->0))
    } else {
        None
    }
}

/// Reads what an event carries and on which topic.
pub fn read_event(json: &str) -> (res: Option<(String, Vec<u8>)>)
    ensures
        res is Some <==> carried(vstd::utf8::encode_utf8(json@)) is Some,
        res matches Some((topic, payload)) ==> carried(vstd::utf8::encode_utf8(json@)) == Some(
            (topic@, payload@),
        ),
{
    let doc = match JsonDoc::parse(json.as_bytes()) {
        Ok(d) => d,
        Err(_) => return None,
    };
    match doc.field_text("event") {
        Some(event) => {
            if !same_text(event.as_str(), EVENT_MESSAGE_RECEIVED) {
                return None;
            }
        },
        None => return None,
    }
    let topic = match doc.item_text("data", 1) {
        Some(text) => text,
        None => "".to_owned(),
    };
    let encoded = match doc.item_text("data", 2) {
        Some(text) => text,
        None => "".to_owned(),
    };
    if topic.as_str().is_empty() {
        return None;
    }
    match base64_decode(encoded.as_str()) {
        Some(payload) => Some((topic, payload)),
        None => None,
    }
}

/// The payload of an event and the subscriber that it goes to, where its topic
/// has one. Anything else is dropped.
pub fn dispatch_event<'a, S>(json: &str, subs: &'a Subscriptions<S>) -> (res: Option<
    (&'a S, Vec<u8>),
>)
    requires
        subs.wf(),
    ensures
        match carried(vstd::utf8::encode_utf8(json@)) {
            Some((topic, payload)) => {
                &&& res is Some <==> has_key(subs@, topic)
                &&& res matches Some((s, bytes)) ==> lookup(subs@, topic) == Some(*s) && bytes@
                    == payload
            },
            None => res is None,
        },
{
    match read_event(json) {
        Some((topic, payload)) => match subs.get(topic.as_str()) {
            Some(s) => Some((s, payload)),
            None => None,
        },
        None => None,
    }
}

/// What is sent arrives: an event that reports the topic and the text of a
/// [`send_call`] carries the payload of that call on that topic.
pub proof fn what_is_sent_arrives(doc: Seq<u8>, topic: Seq<char>, payload: Seq<u8>)
    requires
        json_fault(doc) is None,
        json_field_text(doc, "event"@) == Some(EVENT_MESSAGE_RECEIVED@),
        json_item_text(doc, "data"@, 1) == Some(topic),
        json_item_text(doc, "data"@, 2) == Some(base64_text(payload)),
        topic.len() > 0,
    ensures
        carried(doc) == Some((topic, payload)),
{
    base64_round_trip(payload);
}

/// Only a `messageReceived` event carries anything, and then what it says: the topic in
/// the second place of its data, which is not empty, and the payload whose Base64 text
/// is in the third.
pub proof fn only_messages_are_carried(doc: Seq<u8>, topic: Seq<char>, payload: Seq<u8>)
    requires
        carried(doc) == Some((topic, payload)),
    ensures
        json_fault(doc) is None,
        json_field_text(doc, "event"@) == Some("messageReceived"@),
        topic.len() > 0,
        json_item_text(doc, "data"@, 1) == Some(topic),
        json_item_text(doc, "data"@, 2) is Some ==> base64_text(payload) == json_item_text(
            doc,
            "data"@,
            2,
        )->0,
        json_item_text(doc, "data"@, 2) is None ==> payload.len() == 0,
{
    reveal_strlit("");
    if json_item_text(doc, "data"@, 2) is None {
        let none = Seq::<u8>::empty();
        assert(base64_text(none) =~= ""@);
        base64_round_trip(none);
        assert(payload == none);
    }
}

/// A call worked exactly where its reply is a JSON document that says `true`, by itself
/// or as its value, and reports no error.
pub proof fn a_call_worked_only_if_it_says_so(method: Seq<char>, raw: Result<String, String>)
    ensures
        boot_fault(method, raw) is None <==> {
            &&& raw is Ok
            &&& json_fault(vstd::utf8::encode_utf8(raw->Ok_0@)) is None
            &&& reported_error(vstd::utf8::encode_utf8(raw->Ok_0@)) is None
            &&& json_flag(vstd::utf8::encode_utf8(raw->Ok_0@)) == Some(true) || json_field_flag(
                vstd::utf8::encode_utf8(raw->Ok_0@),
                "value"@,
            ) == Some(true)
        },
{
}

/// What is sent goes out on its topic, as text that reads back as the payload; what is
/// taken or ended is the subscription of that topic.
pub proof fn calls_name_their_topic(topic: Seq<char>, payload: Seq<u8>, method: Seq<char>)
    ensures
        send_call(topic, payload).method == "send"@,
        exists|text: Seq<char>|
            send_call(topic, payload).args == #[trigger] json_array2(topic, text) && base64_bytes(
                text,
            ) == Some(payload),
        topic_call(method, topic).method == method,
        topic_call(method, topic).args == json_array1(topic),
{
    base64_round_trip(payload);
    assert(send_call(topic, payload).args == json_array2(topic, base64_text(payload)));
}

/// The node is created from the configuration that is given, and started after that; both
/// are given more time than other calls.
pub proof fn the_node_is_made_as_configured(cfg_json: Seq<char>, topic: Seq<char>)
    ensures
        create_call(cfg_json).method == "createNode"@,
        create_call(cfg_json).args == json_array1(cfg_json),
        start_call().method == "start"@,
        create_call(cfg_json).timeout_ms > topic_call("subscribe"@, topic).timeout_ms,
        start_call().timeout_ms == create_call(cfg_json).timeout_ms,
{
}

} // verus!
