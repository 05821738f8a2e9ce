use base64::engine::general_purpose::STANDARD as B64;
use base64::Engine;
use logos_messaging_a2a::json::JsonDoc;
use logos_messaging_a2a::module_call::error_message;
use logos_messaging_a2a::transport::delivery_module_transport::{
    boot_step, check_bool, check_sent, create_node, dispatch_event, read_event, read_reply,
    require_true, send, subscribe, unsubscribe, BootAction, BootStage,
};
use logos_messaging_a2a::transport::Subscriptions;

fn doc(text: &str) -> JsonDoc {
    JsonDoc::parse(text.as_bytes()).unwrap()
}

#[test]
fn error_message_kind_error_shape() {
    let v = doc(r#"{"kind":"error","message":"boom"}"#);
    assert_eq!(error_message(&v).as_deref(), Some("boom"));
}

#[test]
fn error_message_plain_error_shape() {
    let v = doc(r#"{"error":"nope"}"#);
    assert_eq!(error_message(&v).as_deref(), Some("nope"));
}

#[test]
fn error_message_none_for_success() {
    let v = doc(r#"{"value":"abc"}"#);
    assert!(error_message(&v).is_none());
}

#[test]
fn check_bool_accepts_bare_true() {
    let v = doc("true");
    assert!(check_bool(&v, "x").is_ok());
}

#[test]
fn check_bool_accepts_wrapped_value_true() {
    let v = doc(r#"{"value":true}"#);
    assert!(check_bool(&v, "x").is_ok());
}

#[test]
fn check_bool_rejects_false() {
    let v = doc("false");
    assert!(check_bool(&v, "x").is_err());
}

#[test]
fn check_bool_surfaces_error_message() {
    let v = doc(r#"{"kind":"error","message":"bad cfg"}"#);
    let err = check_bool(&v, "createNode").unwrap_err();
    assert!(err.to_string().contains("bad cfg"));
}

#[test]
fn dispatch_event_forwards_payload_to_matching_topic() {
    let mut subs: Subscriptions<u32> = Subscriptions::new();
    subs.insert("/x/1/foo/proto", 7);

    let payload_b64 = B64.encode(b"hello-from-delivery");
    let envelope = format!(
        r#"{{"module":"delivery_module","event":"messageReceived","data":["msghash","/x/1/foo/proto","{}","1700000000000"]}}"#,
        payload_b64
    );
    let (to, got) = dispatch_event(&envelope, &subs).expect("payload should arrive");
    assert_eq!(*to, 7);
    assert_eq!(got, b"hello-from-delivery");
}

#[test]
fn dispatch_event_ignores_unsubscribed_topic() {
    let mut subs: Subscriptions<u32> = Subscriptions::new();
    subs.insert("/x/1/foo/proto", 7);

    let envelope = format!(
        r#"{{"module":"delivery_module","event":"messageReceived","data":["msghash","/x/1/other/proto","{}","0"]}}"#,
        B64.encode(b"ignored")
    );
    assert!(
        dispatch_event(&envelope, &subs).is_none(),
        "no message expected for unsubscribed topic"
    );
}

#[test]
fn dispatch_event_silently_drops_non_message_event() {
    let subs: Subscriptions<u32> = Subscriptions::new();
    let envelope =
        r#"{"module":"delivery_module","event":"connectionStateChanged","data":["connected","0"]}"#;
    assert!(dispatch_event(envelope, &subs).is_none());
}

#[test]
fn dispatch_event_silently_drops_malformed_envelope() {
    let subs: Subscriptions<u32> = Subscriptions::new();
    assert!(dispatch_event("not-json", &subs).is_none());
    assert!(dispatch_event(r#"{"module":"delivery_module"}"#, &subs).is_none());
}

#[test]
fn event_payload_must_be_base64_and_topic_present() {
    assert!(read_event(r#"{"event":"messageReceived","data":["h","/t","***"]}"#).is_none());
    assert!(read_event(r#"{"event":"messageReceived","data":["h","","aGk="]}"#).is_none());
    assert!(read_event(r#"{"event":"messageReceived","data":{"1":"/t","2":"aGk="}}"#).is_none());
    assert_eq!(
        read_event(r#"{"event":"messageReceived","data":["h","/t","aGk="]}"#),
        Some(("/t".to_string(), b"hi".to_vec()))
    );
    // A payload that is not there is an empty one.
    assert_eq!(
        read_event(r#"{"event":"messageReceived","data":["h","/t"]}"#),
        Some(("/t".to_string(), Vec::new()))
    );
}

#[test]
fn calls_carry_their_arguments_as_json() {
    let call = create_node(r#"{"a":1}"#);
    assert_eq!(call.method, "createNode");
    assert_eq!(call.args, r#"["{\"a\":1}"]"#);
    assert_eq!(call.timeout_ms, 120_000);

    let call = send("/t", b"hi");
    assert_eq!(call.method, "send");
    assert_eq!(call.args, r#"["/t","aGk="]"#);
    assert_eq!(call.timeout_ms, 30_000);

    assert_eq!(subscribe("/t").args, r#"["/t"]"#);
    assert_eq!(subscribe("/t").method, "subscribe");
    assert_eq!(unsubscribe("/t").method, "unsubscribe");
}

#[test]
fn replies_that_fail_name_the_method() {
    let err = read_reply("send", Err("gone".to_string())).unwrap_err();
    assert_eq!(err.to_string(), "delivery_module send: gone");
    let err = read_reply("send", Ok("{".to_string())).unwrap_err();
    assert!(err.to_string().starts_with("delivery_module send bad JSON: "));
    let err = require_true("start", Ok("{ \"b\" : 1 }".to_string())).unwrap_err();
    assert_eq!(err.to_string(), r#"start: unexpected response {"b":1}"#);
    let err = check_sent(&doc(r#"{"error":"full"}"#)).unwrap_err();
    assert_eq!(err.to_string(), "send: full");
    assert!(check_sent(&doc(r#"{"value":"hash"}"#)).is_ok());
}

#[test]
fn boot_goes_from_create_to_poll() {
    let (stage, action) = boot_step(BootStage::Creating, Ok("true".to_string())).unwrap();
    assert_eq!(stage, BootStage::Starting);
    match action {
        BootAction::Call(call) => {
            assert_eq!(call.method, "start");
            assert_eq!(call.args, "[]");
            assert_eq!(call.timeout_ms, 120_000);
        }
        other => panic!("expected a call, got {:?}", other),
    }
    let (stage, action) = boot_step(stage, Ok(r#"{"value":true}"#.to_string())).unwrap();
    assert_eq!(stage, BootStage::Listening);
    assert!(matches!(action, BootAction::Listen));
    let (stage, action) = boot_step(stage, Ok(String::new())).unwrap();
    assert_eq!(stage, BootStage::Running);
    assert!(matches!(action, BootAction::Poll));
}

#[test]
fn boot_stops_at_the_first_failure() {
    let err = boot_step(BootStage::Creating, Ok("false".to_string())).unwrap_err();
    assert_eq!(err.to_string(), "createNode: unexpected response false");
    let err = boot_step(BootStage::Starting, Err("dead".to_string())).unwrap_err();
    assert_eq!(err.to_string(), "delivery_module start: dead");
    let err = boot_step(BootStage::Listening, Err("dead".to_string())).unwrap_err();
    assert_eq!(err.to_string(), "listen: dead");
}
