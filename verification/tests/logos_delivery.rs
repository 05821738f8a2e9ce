use logos_messaging_a2a::transport::logos_delivery::{
    check_accepted, check_outcome, route_event, start_step, CallState, InboundEvent, NodeConfig,
    OutgoingMessage, ReceivedMessage, StartEvent, StartStage,
};
use logos_messaging_a2a::transport::{Subscriptions, TransportError};

#[test]
fn logos_dev_config() {
    let c = NodeConfig::logos_dev();
    assert_eq!(c.log_level.as_deref(), Some("INFO"));
    assert_eq!(c.mode.as_deref(), Some("Core"));
    assert_eq!(c.preset.as_deref(), Some("logos.dev"));
    assert!(c.tcp_port.is_none());
    assert!(c.discv5_udp_port.is_none());
    let d = NodeConfig::default();
    assert!(d.preset.is_none());
    assert_eq!(c.clone().mode.as_deref(), Some("Core"));
}

#[test]
fn a_call_hands_out_its_outcome_once() {
    let mut call: CallState<u32> = CallState::new();
    assert!(call.poll(1).is_none());
    assert!(call.poll(2).is_none());
    assert_eq!(call.complete(0, "done".to_string()), Some(2));
    assert_eq!(call.poll(3), Some(Ok("done".to_string())));
    assert!(call.poll(4).is_none());
    assert_eq!(call.complete(1, "bad".to_string()), Some(4));
    assert_eq!(call.poll(5), Some(Err("bad".to_string())));
}

#[test]
fn codes_and_outcomes() {
    assert!(check_accepted("send", 0).is_ok());
    assert_eq!(
        check_accepted("send", -3).unwrap_err().to_string(),
        "send rc=-3"
    );
    assert_eq!(
        check_accepted("send", i32::MIN).unwrap_err().to_string(),
        "send rc=-2147483648"
    );
    assert!(check_outcome("send", Ok(String::new())).is_ok());
    assert_eq!(
        check_outcome("send", Err("x".to_string()))
            .unwrap_err()
            .to_string(),
        "send failed: x"
    );
}

#[test]
fn start_walks_through_its_stages() {
    let s = start_step(StartStage::Creating, StartEvent::Handle(true)).unwrap();
    assert_eq!(s, StartStage::Created);
    let s = start_step(s, StartEvent::Outcome(Ok(String::new()))).unwrap();
    assert_eq!(s, StartStage::Starting);
    let s = start_step(s, StartEvent::Code(0)).unwrap();
    assert_eq!(s, StartStage::Started);
    let s = start_step(s, StartEvent::Outcome(Ok(String::new()))).unwrap();
    assert_eq!(s, StartStage::Running);
    assert_eq!(
        start_step(s, StartEvent::Handle(false)).unwrap(),
        StartStage::Running
    );
}

#[test]
fn start_failures_say_which_step() {
    let text = |r: Result<StartStage, TransportError>| r.unwrap_err().to_string();
    assert_eq!(
        text(start_step(StartStage::Creating, StartEvent::Handle(false))),
        "create_node returned NULL"
    );
    assert_eq!(
        text(start_step(
            StartStage::Created,
            StartEvent::Outcome(Err("a".to_string()))
        )),
        "create_node failed: a"
    );
    assert_eq!(
        text(start_step(StartStage::Starting, StartEvent::Code(2))),
        "start_node returned rc=2"
    );
    assert_eq!(
        text(start_step(
            StartStage::Started,
            StartEvent::Outcome(Err("b".to_string()))
        )),
        "start_node failed: b"
    );
}

fn event(kind: &str, topic: &str) -> Option<InboundEvent> {
    Some(InboundEvent {
        event_type: kind.to_string(),
        message: Some(ReceivedMessage {
            content_topic: topic.to_string(),
            payload: vec![72, 105],
        }),
    })
}

#[test]
fn events_go_to_the_subscriber_of_their_topic() {
    let mut subs: Subscriptions<&str> = Subscriptions::new();
    subs.insert("/a", "first");
    subs.insert("/a", "second");
    subs.insert("/b", "other");
    let (to, payload) = route_event(0, event("message_received", "/a"), &subs).unwrap();
    assert_eq!(*to, "second");
    assert_eq!(payload, vec![72, 105]);
    assert!(route_event(1, event("message_received", "/a"), &subs).is_none());
    assert!(route_event(0, event("connected", "/a"), &subs).is_none());
    assert!(route_event(0, event("message_received", "/c"), &subs).is_none());
    assert!(route_event(0, None, &subs).is_none());
    let bare = Some(InboundEvent {
        event_type: "message_received".to_string(),
        message: None,
    });
    assert!(route_event(0, bare, &subs).is_none());
    subs.remove("/a");
    assert!(route_event(0, event("message_received", "/a"), &subs).is_none());
    assert!(subs.get("/b").is_some());
}

#[test]
fn outgoing_messages_are_base64_and_kept() {
    let m = OutgoingMessage::new("/t", b"Hello");
    assert_eq!(m.content_topic, "/t");
    assert_eq!(m.payload, "SGVsbG8=");
    assert!(!m.ephemeral);
}

#[test]
fn transport_error_texts() {
    assert_eq!(TransportError::Transport("a".to_string()).to_string(), "a");
    assert_eq!(
        TransportError::Serialization("b".to_string()).to_string(),
        "serialization error: b"
    );
    assert_eq!(TransportError::Other("c".to_string()).to_string(), "c");
}
