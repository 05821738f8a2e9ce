use std::cell::RefCell;
use std::rc::Rc;

use logos_messaging_a2a::clock::Duration;
use logos_messaging_a2a::sds::channel::MessageChannel;
use logos_messaging_a2a::sds::config::ChannelConfig;
use logos_messaging_a2a::sds::message::{
    compute_message_id, ContentMessage, EphemeralMessage, HistoryEntry, SdsMessage, SyncMessage,
};
use logos_messaging_a2a::sds::reliable::{
    ack_payload, ack_topic, is_ack, ReliableAction, ReliableEvent, ReliableSend,
};
use logos_messaging_a2a::sds::state::INCOMING_BUFFER_MAX;
use logos_messaging_a2a::transport::TransportError;

/// A bus within the process: what was published, by topic.
#[derive(Clone)]
struct InMemoryTransport {
    messages: Rc<RefCell<Vec<(String, SdsMessage)>>>,
    bytes: Rc<RefCell<Vec<(String, Vec<u8>)>>>,
}

impl InMemoryTransport {
    fn new() -> Self {
        Self {
            messages: Rc::new(RefCell::new(Vec::new())),
            bytes: Rc::new(RefCell::new(Vec::new())),
        }
    }

    fn publish(&self, topic: &str, msg: SdsMessage) {
        self.messages.borrow_mut().push((topic.to_string(), msg));
    }

    fn publish_bytes(&self, topic: &str, data: &[u8]) {
        self.bytes
            .borrow_mut()
            .push((topic.to_string(), data.to_vec()));
    }

    fn bytes_on(&self, topic: &str) -> Vec<Vec<u8>> {
        self.bytes
            .borrow()
            .iter()
            .filter(|(t, _)| t == topic)
            .map(|(_, d)| d.clone())
            .collect()
    }

    fn contents_on(&self, topic: &str) -> Vec<ContentMessage> {
        self.messages
            .borrow()
            .iter()
            .filter(|(t, _)| t == topic)
            .filter_map(|(_, m)| match m {
                SdsMessage::Content(c) => Some(c.clone()),
                _ => None,
            })
            .collect()
    }
}

/// Sending over the bus.
trait OverTheBus {
    fn send(&mut self, topic: &str, payload: &[u8]) -> Result<ContentMessage, TransportError>;
    fn send_reliable(
        &mut self,
        topic: &str,
        payload: &[u8],
    ) -> Result<(ContentMessage, bool), TransportError>;
    fn send_ack(&self, topic_prefix: &str, message_id: &str) -> Result<(), TransportError>;
    fn send_sync(&mut self, topic: &str) -> Result<SyncMessage, TransportError>;
    fn send_batch_ack(&mut self, topic: &str) -> Result<SyncMessage, TransportError>;
    fn send_ephemeral(&self, topic: &str, payload: &[u8])
        -> Result<EphemeralMessage, TransportError>;
    fn send_repair_request(
        &mut self,
        topic: &str,
        missing: Vec<HistoryEntry>,
    ) -> Result<SyncMessage, TransportError>;
    fn handle_repair_requests(
        &self,
        topic: &str,
        requests: &[HistoryEntry],
    ) -> Result<usize, TransportError>;
    fn receive_and_repair(
        &mut self,
        topic: &str,
        parsed: Option<SdsMessage>,
    ) -> Result<Vec<ContentMessage>, TransportError>;
}

impl OverTheBus for MessageChannel<InMemoryTransport> {
    fn send(&mut self, topic: &str, payload: &[u8]) -> Result<ContentMessage, TransportError> {
        let msg = self.begin_send(payload);
        self.transport()
            .publish(topic, SdsMessage::Content(msg.clone()));
        self.finish_send(&msg);
        Ok(msg)
    }

    fn send_reliable(
        &mut self,
        topic: &str,
        payload: &[u8],
    ) -> Result<(ContentMessage, bool), TransportError> {
        let msg = self.begin_send(payload);
        let mut acks = self.transport().bytes_on(&ack_topic(&msg.message_id));
        let mut run = ReliableSend::new(&msg.message_id, self.config().max_retries);
        let mut action = ReliableAction::Publish;
        loop {
            action = match action {
                ReliableAction::Publish => {
                    self.transport()
                        .publish(topic, SdsMessage::Content(msg.clone()));
                    run.step(ReliableEvent::Published)
                }
                ReliableAction::Await => {
                    if acks.is_empty() {
                        run.step(ReliableEvent::Silence)
                    } else {
                        run.step(ReliableEvent::Heard(acks.remove(0)))
                    }
                }
                ReliableAction::Acknowledged => {
                    self.finish_reliable(&msg);
                    return Ok((msg, true));
                }
                ReliableAction::GiveUp => {
                    self.finish_reliable(&msg);
                    return Ok((msg, false));
                }
                ReliableAction::Fail(e) => return Err(e),
            };
        }
    }

    fn send_ack(&self, _topic_prefix: &str, message_id: &str) -> Result<(), TransportError> {
        self.transport()
            .publish_bytes(&ack_topic(message_id), &ack_payload(message_id));
        Ok(())
    }

    fn send_sync(&mut self, topic: &str) -> Result<SyncMessage, TransportError> {
        let msg = self.begin_sync();
        self.transport().publish(topic, SdsMessage::Sync(msg.clone()));
        Ok(msg)
    }

    fn send_batch_ack(&mut self, topic: &str) -> Result<SyncMessage, TransportError> {
        let msg = self.begin_batch_ack();
        self.transport().publish(topic, SdsMessage::Sync(msg.clone()));
        Ok(msg)
    }

    fn send_ephemeral(
        &self,
        topic: &str,
        payload: &[u8],
    ) -> Result<EphemeralMessage, TransportError> {
        let msg = self.begin_ephemeral(payload);
        self.transport()
            .publish(topic, SdsMessage::Ephemeral(msg.clone()));
        Ok(msg)
    }

    fn send_repair_request(
        &mut self,
        topic: &str,
        missing: Vec<HistoryEntry>,
    ) -> Result<SyncMessage, TransportError> {
        let msg = self.begin_repair_request(missing);
        self.transport().publish(topic, SdsMessage::Sync(msg.clone()));
        Ok(msg)
    }

    fn handle_repair_requests(
        &self,
        topic: &str,
        requests: &[HistoryEntry],
    ) -> Result<usize, TransportError> {
        let again = self.messages_to_resend(requests);
        let count = again.len();
        for msg in again {
            self.transport().publish(topic, SdsMessage::Content(msg));
        }
        Ok(count)
    }

    fn receive_and_repair(
        &mut self,
        topic: &str,
        parsed: Option<SdsMessage>,
    ) -> Result<Vec<ContentMessage>, TransportError> {
        if let Some(msg) = &parsed {
            self.handle_repair_requests(topic, msg.repair_requests())?;
        }
        Ok(self.receive(parsed))
    }
}

fn make_channel(id: &str) -> MessageChannel<InMemoryTransport> {
    MessageChannel::new(
        "test-channel".to_string(),
        id.to_string(),
        InMemoryTransport::new(),
    )
}

#[test]
fn test_lamport_timestamp_advances() {
    let mut ch = make_channel("alice");
    let t1 = ch.lamport_timestamp();
    let t2 = ch.next_timestamp();
    assert!(t2 > t1);
}

#[test]
fn test_dedup_via_bloom() {
    let mut ch = make_channel("alice");
    ch.bloom.set("msg-1");
    assert!(ch.is_duplicate("msg-1"));
    assert!(!ch.is_duplicate("msg-2"));
}

#[test]
fn test_send_and_receive() {
    let transport = InMemoryTransport::new();
    let mut alice =
        MessageChannel::new("chan-1".to_string(), "alice".to_string(), transport.clone());
    let mut bob = MessageChannel::new("chan-1".to_string(), "bob".to_string(), transport.clone());

    let topic = "/lmao/1/test/proto";
    let msg = alice.send(topic, b"hello from alice").unwrap();

    // Simulate bob receiving the raw message
    let raw = SdsMessage::Content(msg.clone());
    let delivered = bob.receive(Some(raw.clone()));
    assert_eq!(delivered.len(), 1);
    assert_eq!(delivered[0].content, b"hello from alice");

    // Receiving same message again should be deduped
    let delivered2 = bob.receive(Some(raw.clone()));
    assert_eq!(delivered2.len(), 0);
}

#[test]
fn test_send_ephemeral() {
    let ch = make_channel("alice");
    let topic = "/lmao/1/test/proto";
    let msg = ch.send_ephemeral(topic, b"ephemeral data").unwrap();
    assert!(msg.causal_history.is_empty());
    assert!(msg.bloom_filter.is_none());
}

#[test]
fn test_send_sync() {
    let mut ch = make_channel("alice");
    // Send a content msg first to populate history
    ch.send("/lmao/1/test/proto", b"msg1").unwrap();
    let sync = ch.send_sync("/lmao/1/test/proto").unwrap();
    assert!(!sync.causal_history.is_empty());
    assert!(sync.bloom_filter.is_some());
}

#[test]
fn test_causal_ordering() {
    let transport = InMemoryTransport::new();
    let mut alice =
        MessageChannel::new("chan-1".to_string(), "alice".to_string(), transport.clone());
    let mut bob = MessageChannel::new("chan-1".to_string(), "bob".to_string(), transport.clone());

    let topic = "/lmao/1/test/proto";

    // Alice sends msg1, then msg2 (which depends on msg1 via causal history)
    let msg1 = alice.send(topic, b"first").unwrap();
    let msg2 = alice.send(topic, b"second").unwrap();

    // Bob receives msg2 first (out of order) — should buffer it
    let raw2 = SdsMessage::Content(msg2.clone());
    let delivered = bob.receive(Some(raw2.clone()));
    // msg2 depends on msg1, which bob hasn't seen
    assert_eq!(delivered.len(), 0);
    assert_eq!(bob.incoming_pending(), 1);

    // Now bob receives msg1 — should deliver both
    let raw1 = SdsMessage::Content(msg1.clone());
    let delivered = bob.receive(Some(raw1.clone()));
    // msg1 has no deps (or deps are satisfied), delivers immediately
    // Then resolving buffered msg2 should also deliver
    assert!(!delivered.is_empty());
}

#[test]
fn test_implicit_ack_via_bloom() {
    let transport = InMemoryTransport::new();
    let config = ChannelConfig {
        possible_acks_threshold: 2,
        ..Default::default()
    };
    let mut alice = MessageChannel::with_config(
        "chan-1".to_string(),
        "alice".to_string(),
        transport.clone(),
        config,
    );
    let mut bob = MessageChannel::new("chan-1".to_string(), "bob".to_string(), transport.clone());

    let topic = "/lmao/1/test/proto";

    // Alice sends a message — it goes into her outgoing buffer
    let msg = alice.send(topic, b"need ack").unwrap();
    assert_eq!(alice.outgoing_pending(), 1);

    // Bob receives it (puts it in his bloom)
    let raw = SdsMessage::Content(msg.clone());
    bob.receive(Some(raw.clone()));

    // Bob sends a sync — his bloom now contains alice's message
    let sync = bob.send_sync(topic).unwrap();
    let sync_raw = SdsMessage::Sync(sync);

    // Alice receives bob's sync — first bloom hit (count = 1, threshold = 2)
    alice.receive(Some(sync_raw.clone()));
    assert_eq!(alice.outgoing_pending(), 1); // not yet acked

    // Bob sends another sync
    let sync2 = bob.send_sync(topic).unwrap();
    let sync2_raw = SdsMessage::Sync(sync2);

    // Alice receives second sync — second bloom hit (count = 2 >= threshold)
    alice.receive(Some(sync2_raw.clone()));
    assert_eq!(alice.outgoing_pending(), 0); // implicitly acked!
}

#[test]
fn test_send_reliable_with_ack() {
    let transport = InMemoryTransport::new();

    // Pre-publish an ACK
    let payload = b"hello reliable";
    let message_id = compute_message_id(payload);
    let ack_topic = format!("/lmao/1/ack-{}/proto", message_id);
    let ack_payload = format!(r#"{{"type":"ack","message_id":"{}"}}"#, message_id);
    transport.publish_bytes(&ack_topic, ack_payload.as_bytes());

    let mut ch = MessageChannel::new("chan-1".to_string(), "alice".to_string(), transport);

    let (msg, acked) = ch
        .send_reliable("/lmao/1/test/proto", payload)
        .unwrap();
    assert!(acked);
    assert_eq!(msg.content, payload);
}

#[test]
fn test_batch_ack_clears_outgoing() {
    let transport = InMemoryTransport::new();
    let config = ChannelConfig {
        possible_acks_threshold: 1,
        ..Default::default()
    };
    let mut alice = MessageChannel::with_config(
        "chan".to_string(),
        "alice".to_string(),
        transport.clone(),
        config,
    );
    let mut bob = MessageChannel::new("chan".to_string(), "bob".to_string(), transport.clone());

    let topic = "/lmao/1/test/proto";

    let msg1 = alice.send(topic, b"one").unwrap();
    let msg2 = alice.send(topic, b"two").unwrap();
    let msg3 = alice.send(topic, b"three").unwrap();
    assert_eq!(alice.outgoing_pending(), 3);

    for msg in [&msg1, &msg2, &msg3] {
        let raw = SdsMessage::Content(msg.clone());
        bob.receive(Some(raw.clone()));
    }

    let batch_ack = bob.send_batch_ack(topic).unwrap();
    let ack_raw = SdsMessage::Sync(batch_ack);

    alice.receive(Some(ack_raw.clone()));
    assert_eq!(alice.outgoing_pending(), 0);
}

#[test]
fn test_send_repair_request() {
    let transport = InMemoryTransport::new();
    let mut bob = MessageChannel::new("chan".to_string(), "bob".to_string(), transport.clone());

    let topic = "/lmao/1/test/proto";

    let missing = vec![
        HistoryEntry {
            message_id: "missing-1".to_string(),
            lamport_timestamp: 5,
            retrieval_hint: None,
        },
        HistoryEntry {
            message_id: "missing-2".to_string(),
            lamport_timestamp: 6,
            retrieval_hint: None,
        },
    ];

    let sync = bob.send_repair_request(topic, missing).unwrap();
    assert_eq!(sync.repair_request.len(), 2);
    assert_eq!(sync.repair_request[0].message_id, "missing-1");
    assert_eq!(sync.repair_request[1].message_id, "missing-2");
}

#[test]
fn test_handle_repair_requests_resends() {
    let transport = InMemoryTransport::new();
    let mut alice = MessageChannel::new("chan".to_string(), "alice".to_string(), transport.clone());

    let topic = "/lmao/1/test/proto";

    let msg = alice.send(topic, b"important data").unwrap();
    let msg_id = msg.message_id.clone();

    let requests = vec![HistoryEntry {
        message_id: msg_id,
        lamport_timestamp: 0,
        retrieval_hint: None,
    }];

    let resent = alice
        .handle_repair_requests(topic, &requests)
        .unwrap();
    assert_eq!(resent, 1);
}

#[test]
fn test_handle_repair_requests_unknown_msg() {
    let transport = InMemoryTransport::new();
    let alice = MessageChannel::new("chan".to_string(), "alice".to_string(), transport.clone());

    let topic = "/lmao/1/test/proto";

    let requests = vec![HistoryEntry {
        message_id: "nonexistent".to_string(),
        lamport_timestamp: 0,
        retrieval_hint: None,
    }];

    let resent = alice
        .handle_repair_requests(topic, &requests)
        .unwrap();
    assert_eq!(resent, 0);
}

#[test]
fn test_receive_and_repair_full_flow() {
    let transport = InMemoryTransport::new();
    let mut alice = MessageChannel::new("chan".to_string(), "alice".to_string(), transport.clone());
    let mut bob = MessageChannel::new("chan".to_string(), "bob".to_string(), transport.clone());

    let topic = "/lmao/1/test/proto";

    let msg1 = alice.send(topic, b"first").unwrap();
    let _msg2 = alice.send(topic, b"second").unwrap();

    // Bob hasn't seen msg1
    let missing = bob.build_repair_requests(&[HistoryEntry {
        message_id: msg1.message_id.clone(),
        lamport_timestamp: msg1.lamport_timestamp,
        retrieval_hint: None,
    }]);
    assert_eq!(missing.len(), 1);

    let repair_sync = bob.send_repair_request(topic, missing).unwrap();

    // Alice handles the repair request — should re-publish msg1
    let repair_raw = SdsMessage::Sync(repair_sync);
    let delivered = alice.receive_and_repair(topic, Some(repair_raw.clone())).unwrap();
    assert!(delivered.is_empty()); // Sync doesn't deliver content

    // msg1 was published when it was sent, and again as a repair
    let copies = transport
        .contents_on(topic)
        .into_iter()
        .filter(|c| c.message_id == msg1.message_id)
        .count();
    let found_repair = copies == 2;
    assert!(found_repair, "msg1 should have been re-published as repair");
}

#[test]
fn test_build_repair_requests_filters_seen() {
    let transport = InMemoryTransport::new();
    let mut bob = MessageChannel::new("chan".to_string(), "bob".to_string(), transport.clone());

    bob.bloom.set("seen-1");

    let history = vec![
        HistoryEntry {
            message_id: "seen-1".to_string(),
            lamport_timestamp: 1,
            retrieval_hint: None,
        },
        HistoryEntry {
            message_id: "unseen-1".to_string(),
            lamport_timestamp: 2,
            retrieval_hint: None,
        },
    ];

    let missing = bob.build_repair_requests(&history);
    assert_eq!(missing.len(), 1);
    assert_eq!(missing[0].message_id, "unseen-1");
}

#[test]
fn test_three_message_reverse_delivery() {
    // msg3 depends on msg2, msg2 depends on msg1.
    // Deliver in reverse order: msg3, msg2, msg1.
    // All three should be delivered in causal order when msg1 arrives.
    let transport = InMemoryTransport::new();
    let mut alice = MessageChannel::new("ch".into(), "alice".into(), transport.clone());
    let mut bob = MessageChannel::new("ch".into(), "bob".into(), transport.clone());

    let topic = "/test/proto";
    let msg1 = alice.send(topic, b"first").unwrap();
    let msg2 = alice.send(topic, b"second").unwrap();
    let msg3 = alice.send(topic, b"third").unwrap();

    // Deliver msg3 first — should buffer (depends on msg1, msg2)
    let raw3 = SdsMessage::Content(msg3);
    let delivered = bob.receive(Some(raw3.clone()));
    assert_eq!(delivered.len(), 0);
    assert_eq!(bob.incoming_pending(), 1);

    // Deliver msg2 — should also buffer (depends on msg1)
    let raw2 = SdsMessage::Content(msg2);
    let delivered = bob.receive(Some(raw2.clone()));
    assert_eq!(delivered.len(), 0);
    assert_eq!(bob.incoming_pending(), 2);

    // Deliver msg1 — should deliver all three in causal order
    let raw1 = SdsMessage::Content(msg1);
    let delivered = bob.receive(Some(raw1.clone()));
    assert_eq!(delivered.len(), 3);
    assert_eq!(delivered[0].content, b"first");
    assert_eq!(delivered[1].content, b"second");
    assert_eq!(delivered[2].content, b"third");
    assert_eq!(bob.incoming_pending(), 0);
}

#[test]
fn test_sync_resolves_buffered_messages() {
    let transport = InMemoryTransport::new();
    let mut alice = MessageChannel::new("ch".into(), "alice".into(), transport.clone());
    let mut bob = MessageChannel::new("ch".into(), "bob".into(), transport.clone());

    let topic = "/test/proto";
    let msg1 = alice.send(topic, b"first").unwrap();
    let msg2 = alice.send(topic, b"second").unwrap();

    // Bob receives msg2 first (buffered — depends on msg1)
    let raw2 = SdsMessage::Content(msg2);
    let delivered = bob.receive(Some(raw2.clone()));
    assert_eq!(delivered.len(), 0);

    // Simulate bob learning about msg1 via bloom (e.g. from another channel)
    bob.bloom.set(&msg1.message_id);

    // A sync from alice triggers resolve attempt
    let sync = alice.send_sync(topic).unwrap();
    let sync_raw = SdsMessage::Sync(sync);
    let delivered = bob.receive(Some(sync_raw.clone()));
    assert_eq!(delivered.len(), 1);
    assert_eq!(delivered[0].content, b"second");
}

#[test]
fn test_receive_malformed_data() {
    let mut ch = MessageChannel::new("ch".into(), "alice".into(), InMemoryTransport::new());
    assert!(ch.receive(None).is_empty());
    assert!(ch.receive(None).is_empty());
}

#[test]
fn test_ephemeral_not_delivered_via_receive() {
    let transport = InMemoryTransport::new();
    let alice = MessageChannel::new("ch".into(), "alice".into(), transport.clone());
    let mut bob = MessageChannel::new("ch".into(), "bob".into(), transport.clone());

    let eph = alice
        .send_ephemeral("/test", b"ephemeral data")
        .unwrap();
    let raw = SdsMessage::Ephemeral(eph);
    let delivered = bob.receive(Some(raw.clone()));
    assert!(delivered.is_empty());
}

#[test]
fn test_fire_and_forget_config() {
    let config = ChannelConfig::fire_and_forget();
    assert_eq!(config.ack_timeout, Duration::from_millis(0));
    assert_eq!(config.max_retries, 0);
}

#[test]
fn test_send_reliable_no_ack_returns_false() {
    let transport = InMemoryTransport::new();
    let config = ChannelConfig {
        ack_timeout: Duration::from_millis(10),
        max_retries: 0,
        ..Default::default()
    };
    let mut ch = MessageChannel::with_config("ch".into(), "alice".into(), transport, config);
    let (msg, acked) = ch.send_reliable("/test", b"no-ack").unwrap();
    assert!(!acked);
    assert_eq!(msg.content, b"no-ack");
}

#[test]
fn test_lamport_timestamp_updates_on_receive() {
    let transport = InMemoryTransport::new();
    let mut bob = MessageChannel::new("ch".into(), "bob".into(), transport.clone());

    let bob_ts_before = bob.lamport_timestamp();

    let msg = ContentMessage::new("ch", "alice", 999_999_999, b"hi");
    let raw = SdsMessage::Content(msg);
    bob.receive(Some(raw.clone()));

    let bob_ts_after = bob.lamport_timestamp();
    assert!(
        bob_ts_after > 999_999_999,
        "bob should adopt the higher timestamp"
    );
    assert!(bob_ts_after > bob_ts_before);
}

#[test]
fn test_dedup_prevents_double_delivery() {
    let transport = InMemoryTransport::new();
    let mut alice = MessageChannel::new("ch".into(), "alice".into(), transport.clone());
    let mut bob = MessageChannel::new("ch".into(), "bob".into(), transport.clone());

    let msg = alice.send("/test", b"once").unwrap();
    let raw = SdsMessage::Content(msg);

    let d1 = bob.receive(Some(raw.clone()));
    assert_eq!(d1.len(), 1);

    // Same message again — should be deduped
    let d2 = bob.receive(Some(raw.clone()));
    assert_eq!(d2.len(), 0);
}

#[test]
fn test_buffered_message_not_in_bloom_until_delivered() {
    // Verify that buffered messages don't pollute the bloom filter
    let transport = InMemoryTransport::new();
    let mut alice = MessageChannel::new("ch".into(), "alice".into(), transport.clone());
    let mut bob = MessageChannel::new("ch".into(), "bob".into(), transport.clone());

    let topic = "/test/proto";
    let _msg1 = alice.send(topic, b"first").unwrap();
    let msg2 = alice.send(topic, b"second").unwrap();

    // Bob receives msg2 (depends on msg1, goes to buffer)
    let raw2 = SdsMessage::Content(msg2.clone());
    bob.receive(Some(raw2.clone()));

    // msg2 should NOT be in bob's bloom yet (it's buffered, not delivered)
    assert!(
        !bob.bloom.check(&msg2.message_id),
        "buffered message should not be in bloom"
    );
    assert_eq!(bob.incoming_pending(), 1);
}

#[test]
fn test_update_timestamp_adopts_higher() {
    let mut ch = MessageChannel::new("ch".into(), "alice".into(), InMemoryTransport::new());
    let before = ch.lamport_timestamp();

    // Remote timestamp far in the future
    let remote = before + 1_000_000;
    ch.update_timestamp(remote);
    let after = ch.lamport_timestamp();
    assert!(
        after > remote,
        "should be max(local, remote) + 1 = remote + 1"
    );
}

#[test]
fn test_update_timestamp_keeps_local_if_higher() {
    let mut ch = MessageChannel::new("ch".into(), "alice".into(), InMemoryTransport::new());
    let before = ch.lamport_timestamp();

    // Remote timestamp far in the past
    ch.update_timestamp(0);
    let after = ch.lamport_timestamp();
    assert!(after > before, "should be max(local, 0) + 1 = local + 1");
}

#[test]
fn test_dependencies_satisfied_empty_history() {
    let ch = MessageChannel::new("ch".into(), "alice".into(), InMemoryTransport::new());
    assert!(
        ch.dependencies_satisfied(&[]),
        "empty causal history should always be satisfied"
    );
}

#[test]
fn test_dependencies_satisfied_all_seen() {
    let mut ch = MessageChannel::new("ch".into(), "alice".into(), InMemoryTransport::new());
    ch.bloom.set("dep-1");
    ch.bloom.set("dep-2");

    let history = vec![
        HistoryEntry {
            message_id: "dep-1".into(),
            lamport_timestamp: 1,
            retrieval_hint: None,
        },
        HistoryEntry {
            message_id: "dep-2".into(),
            lamport_timestamp: 2,
            retrieval_hint: None,
        },
    ];
    assert!(ch.dependencies_satisfied(&history));
}

#[test]
fn test_dependencies_satisfied_one_missing() {
    let mut ch = MessageChannel::new("ch".into(), "alice".into(), InMemoryTransport::new());
    ch.bloom.set("dep-1");

    let history = vec![
        HistoryEntry {
            message_id: "dep-1".into(),
            lamport_timestamp: 1,
            retrieval_hint: None,
        },
        HistoryEntry {
            message_id: "dep-2".into(),
            lamport_timestamp: 2,
            retrieval_hint: None,
        },
    ];
    assert!(!ch.dependencies_satisfied(&history));
}

#[test]
fn test_outgoing_buffer_grows_on_send() {
    let mut ch = MessageChannel::new("ch".into(), "alice".into(), InMemoryTransport::new());
    assert_eq!(ch.outgoing_pending(), 0);

    ch.send("/test", b"msg1").unwrap();
    assert_eq!(ch.outgoing_pending(), 1);

    ch.send("/test", b"msg2").unwrap();
    assert_eq!(ch.outgoing_pending(), 2);
}

#[test]
fn test_send_marks_message_as_seen() {
    let mut ch = MessageChannel::new("ch".into(), "alice".into(), InMemoryTransport::new());
    let msg = ch.send("/test", b"data").unwrap();
    assert!(
        ch.is_duplicate(&msg.message_id),
        "sent message should be in bloom"
    );
}

#[test]
fn test_causal_history_bounded() {
    let config = ChannelConfig {
        causal_history_size: 3,
        ..Default::default()
    };
    let mut ch = MessageChannel::with_config(
        "ch".into(),
        "alice".into(),
        InMemoryTransport::new(),
        config,
    );

    // Send more messages than history size
    for i in 0..10 {
        ch.send("/test", format!("msg-{i}").as_bytes())
            .unwrap();
    }

    let history = ch.build_causal_history();
    assert!(
        history.len() <= 3,
        "causal history should be bounded to config size"
    );
}

#[test]
fn test_send_ack_publishes_to_correct_topic() {
    let transport = InMemoryTransport::new();
    let ch = MessageChannel::new("ch".into(), "alice".into(), transport.clone());

    let ack_topic = "/lmao/1/ack-test-msg-id/proto";
    ch.send_ack("/test", "test-msg-id").unwrap();

    let ack_data = transport.bytes_on(ack_topic).remove(0);
    let val: serde_json::Value = serde_json::from_slice(&ack_data).unwrap();
    assert_eq!(val["message_id"], "test-msg-id");
    assert_eq!(val["type"], "ack");
}

#[test]
fn test_receive_ephemeral_sets_bloom() {
    let mut ch = MessageChannel::new("ch".into(), "bob".into(), InMemoryTransport::new());
    let eph = EphemeralMessage::new("ch", "alice", b"ephemeral");

    let raw = SdsMessage::Ephemeral(eph.clone());
    ch.receive(Some(raw.clone()));

    assert!(
        ch.is_duplicate(&eph.message_id),
        "ephemeral should be in bloom after receive"
    );
}

#[test]
fn test_handle_repair_requests_empty_list() {
    let ch = MessageChannel::new("ch".into(), "alice".into(), InMemoryTransport::new());
    let resent = ch.handle_repair_requests("/test", &[]).unwrap();
    assert_eq!(resent, 0);
}

#[test]
fn test_channel_accessors() {
    let config = ChannelConfig {
        max_retries: 5,
        ..Default::default()
    };
    let ch = MessageChannel::with_config(
        "my-chan".into(),
        "my-sender".into(),
        InMemoryTransport::new(),
        config,
    );
    assert_eq!(ch.channel_id(), "my-chan");
    assert_eq!(ch.sender_id(), "my-sender");
    assert_eq!(ch.config().max_retries, 5);
    // transport() should return a reference
    let _t: &InMemoryTransport = ch.transport();
}

#[test]
fn test_receive_and_repair_malformed_data() {
    let mut ch = MessageChannel::new("ch".into(), "alice".into(), InMemoryTransport::new());
    let result = ch
        .receive_and_repair("/test", None)
        .unwrap();
    assert!(result.is_empty());
}

#[test]
fn test_multiple_senders_interleaved() {
    let transport = InMemoryTransport::new();
    let mut alice = MessageChannel::new("ch".into(), "alice".into(), transport.clone());
    let mut bob = MessageChannel::new("ch".into(), "bob".into(), transport.clone());
    let mut carol = MessageChannel::new("ch".into(), "carol".into(), transport.clone());

    let topic = "/test";

    // Alice and bob send independently (no causal deps between them)
    let msg_a = alice.send(topic, b"from-alice").unwrap();
    let msg_b = bob.send(topic, b"from-bob").unwrap();

    // Carol receives both — no ordering dependency between them
    let raw_a = SdsMessage::Content(msg_a);
    let raw_b = SdsMessage::Content(msg_b);

    let d1 = carol.receive(Some(raw_a.clone()));
    assert_eq!(d1.len(), 1);
    let d2 = carol.receive(Some(raw_b.clone()));
    assert_eq!(d2.len(), 1);
}

#[test]
fn test_bloom_sync_from_independent_channel() {
    // A sync from a channel that has seen a dependency should unblock buffered messages
    let transport = InMemoryTransport::new();
    let mut alice = MessageChannel::new("ch".into(), "alice".into(), transport.clone());
    let mut bob = MessageChannel::new("ch".into(), "bob".into(), transport.clone());

    let topic = "/test";
    let msg1 = alice.send(topic, b"first").unwrap();
    let msg2 = alice.send(topic, b"second").unwrap();

    // Bob receives msg2 first — gets buffered
    let raw2 = SdsMessage::Content(msg2);
    let delivered = bob.receive(Some(raw2.clone()));
    assert_eq!(delivered.len(), 0);
    assert_eq!(bob.incoming_pending(), 1);

    // Now bob receives msg1 — should unblock msg2
    let raw1 = SdsMessage::Content(msg1);
    let delivered = bob.receive(Some(raw1.clone()));
    // msg1 delivered directly, msg2 unblocked from buffer
    assert_eq!(delivered.len(), 2);
    assert_eq!(bob.incoming_pending(), 0);
}

#[test]
fn test_local_history_ring_buffer_bounds() {
    // local_history is bounded to causal_history_size * 2
    let config = ChannelConfig {
        causal_history_size: 5,
        ..Default::default()
    };
    let mut ch = MessageChannel::with_config(
        "ch".into(),
        "alice".into(),
        InMemoryTransport::new(),
        config,
    );

    // Send 20 messages — history should be bounded to 5 * 2 = 10
    for i in 0..20u32 {
        ch.send("/test", &i.to_le_bytes()).unwrap();
    }

    let history = ch;
    assert!(
        history.history_len() <= 10,
        "history should be bounded to causal_history_size * 2, got {}",
        history.history_len()
    );
}

#[test]
fn test_build_causal_history_returns_most_recent() {
    let config = ChannelConfig {
        causal_history_size: 3,
        ..Default::default()
    };
    let mut ch = MessageChannel::with_config(
        "ch".into(),
        "alice".into(),
        InMemoryTransport::new(),
        config,
    );

    let mut sent_ids = Vec::new();
    for i in 0..6u32 {
        let msg = ch.send("/test", &i.to_le_bytes()).unwrap();
        sent_ids.push(msg.message_id);
    }

    let history = ch.build_causal_history();
    assert_eq!(history.len(), 3);
    // Should contain the 3 most recent message IDs (in reverse order from history)
    for entry in &history {
        assert!(
            sent_ids.contains(&entry.message_id),
            "history entry should be from sent messages"
        );
    }
    // The most recent sent ID should be in the history
    assert!(
        history.iter().any(|e| e.message_id == sent_ids[5]),
        "most recent message should be in causal history"
    );
}

#[test]
fn test_build_causal_history_empty_channel() {
    let ch = MessageChannel::new("ch".into(), "alice".into(), InMemoryTransport::new());
    let history = ch.build_causal_history();
    assert!(history.is_empty());
}

#[test]
fn test_partial_acks_below_threshold_keep_in_buffer() {
    let transport = InMemoryTransport::new();
    let config = ChannelConfig {
        possible_acks_threshold: 3, // Need 3 bloom hits
        ..Default::default()
    };
    let mut alice =
        MessageChannel::with_config("ch".into(), "alice".into(), transport.clone(), config);
    let mut bob = MessageChannel::new("ch".into(), "bob".into(), transport.clone());

    let topic = "/test";
    let msg = alice.send(topic, b"need-3-acks").unwrap();
    assert_eq!(alice.outgoing_pending(), 1);

    // Bob receives and puts in bloom
    let raw = SdsMessage::Content(msg);
    bob.receive(Some(raw.clone()));

    // Two syncs = 2 bloom hits, but threshold is 3
    for _ in 0..2 {
        let sync = bob.send_sync(topic).unwrap();
        let sync_raw = SdsMessage::Sync(sync);
        alice.receive(Some(sync_raw.clone()));
    }
    assert_eq!(alice.outgoing_pending(), 1, "still below threshold");

    // Third sync crosses threshold
    let sync = bob.send_sync(topic).unwrap();
    let sync_raw = SdsMessage::Sync(sync);
    alice.receive(Some(sync_raw.clone()));
    assert_eq!(alice.outgoing_pending(), 0, "now implicitly acked");
}

#[test]
fn test_multiple_messages_different_ack_counts() {
    // Two messages in outgoing buffer, one gets acked before the other
    let transport = InMemoryTransport::new();
    let config = ChannelConfig {
        possible_acks_threshold: 1,
        ..Default::default()
    };
    let mut alice =
        MessageChannel::with_config("ch".into(), "alice".into(), transport.clone(), config);
    let mut bob = MessageChannel::new("ch".into(), "bob".into(), transport.clone());

    let topic = "/test";
    let msg1 = alice.send(topic, b"msg-one").unwrap();
    let _msg2 = alice.send(topic, b"msg-two").unwrap();
    assert_eq!(alice.outgoing_pending(), 2);

    // Bob only receives msg1
    let raw1 = SdsMessage::Content(msg1);
    bob.receive(Some(raw1.clone()));

    // Bob syncs — only msg1 is in his bloom
    let sync = bob.send_sync(topic).unwrap();
    let sync_raw = SdsMessage::Sync(sync);
    alice.receive(Some(sync_raw.clone()));

    // msg1 acked, msg2 still pending
    assert_eq!(alice.outgoing_pending(), 1);
}

#[test]
fn test_check_outgoing_acks_malformed_bloom() {
    let mut ch = MessageChannel::new("ch".into(), "alice".into(), InMemoryTransport::new());
    // Manually push something into outgoing buffer
    ch.finish_send(&ContentMessage::new("ch", "alice", 1, b"test"));
    assert_eq!(ch.outgoing_pending(), 1);

    // Pass garbage bloom bytes — should be silently ignored
    ch.check_outgoing_acks(b"");
    ch.check_outgoing_acks(b"short");
    ch.check_outgoing_acks(&[0u8; 100]);
    assert_eq!(ch.outgoing_pending(), 1, "outgoing buffer unchanged");
}

#[test]
fn test_receive_message_with_invalid_bloom_does_not_crash() {
    let mut ch = MessageChannel::new("ch".into(), "bob".into(), InMemoryTransport::new());

    // Craft a content message with invalid bloom bytes
    let msg = ContentMessage {
        message_id: "test-id".into(),
        channel_id: "ch".into(),
        sender_id: "alice".into(),
        lamport_timestamp: 1,
        causal_history: Vec::new(),
        bloom_filter: Some(vec![0xDE, 0xAD]),
        content: b"hello".to_vec(),
        repair_request: Vec::new(),
        retrieval_hint: None,
    };
    let raw = SdsMessage::Content(msg);
    let delivered = ch.receive(Some(raw.clone()));
    assert_eq!(delivered.len(), 1, "should still deliver despite bad bloom");
}

#[test]
fn test_diamond_dependency_delivery() {
    // msg1 (root)
    // msg2 depends on msg1, msg3 depends on msg1
    // msg4 depends on msg2 AND msg3
    let transport = InMemoryTransport::new();
    let mut alice = MessageChannel::new("ch".into(), "alice".into(), transport.clone());
    let mut bob = MessageChannel::new("ch".into(), "bob".into(), transport.clone());

    let topic = "/test";

    let msg1 = alice.send(topic, b"root").unwrap();
    let msg2 = alice.send(topic, b"left").unwrap();
    let msg3 = alice.send(topic, b"right").unwrap();
    let msg4 = alice.send(topic, b"diamond-tip").unwrap();

    // Deliver msg4 first — buffered (depends on msg1, msg2, msg3)
    let raw4 = SdsMessage::Content(msg4);
    assert_eq!(bob.receive(Some(raw4.clone())).len(), 0);

    // Deliver msg2 — buffered (depends on msg1)
    let raw2 = SdsMessage::Content(msg2);
    assert_eq!(bob.receive(Some(raw2.clone())).len(), 0);

    // Deliver msg3 — buffered (depends on msg1, msg2)
    let raw3 = SdsMessage::Content(msg3);
    assert_eq!(bob.receive(Some(raw3.clone())).len(), 0);

    assert_eq!(bob.incoming_pending(), 3);

    // Deliver msg1 — should cascade and deliver all four
    let raw1 = SdsMessage::Content(msg1);
    let delivered = bob.receive(Some(raw1.clone()));
    assert_eq!(delivered.len(), 4, "all messages should resolve");
    assert_eq!(bob.incoming_pending(), 0);
}

#[test]
fn test_same_payload_produces_same_message_id() {
    let mut ch = MessageChannel::new("ch".into(), "alice".into(), InMemoryTransport::new());

    let msg1 = ch.send("/test", b"identical").unwrap();
    // Second send with same payload: same content hash but already in bloom
    let id2 = compute_message_id(b"identical");
    assert_eq!(msg1.message_id, id2);
}

#[test]
fn test_duplicate_content_from_different_senders() {
    let transport = InMemoryTransport::new();
    let mut alice = MessageChannel::new("ch".into(), "alice".into(), transport.clone());
    let mut bob = MessageChannel::new("ch".into(), "bob".into(), transport.clone());
    let mut carol = MessageChannel::new("ch".into(), "carol".into(), transport.clone());

    // Alice and Bob send identical payloads (same message_id via content hash)
    let msg_a = alice.send("/test", b"same-content").unwrap();
    let msg_b = bob.send("/test", b"same-content").unwrap();

    assert_eq!(
        msg_a.message_id, msg_b.message_id,
        "same payload = same message ID"
    );

    // Carol receives alice's copy
    let raw_a = SdsMessage::Content(msg_a);
    let d1 = carol.receive(Some(raw_a.clone()));
    assert_eq!(d1.len(), 1);

    // Carol receives bob's copy — should be deduped
    let raw_b = SdsMessage::Content(msg_b);
    let d2 = carol.receive(Some(raw_b.clone()));
    assert_eq!(d2.len(), 0, "duplicate content deduped via bloom");
}

#[test]
fn test_send_empty_payload() {
    let mut ch = MessageChannel::new("ch".into(), "alice".into(), InMemoryTransport::new());
    let msg = ch.send("/test", b"").unwrap();
    assert!(msg.content.is_empty());
    assert!(!msg.message_id.is_empty(), "even empty payload has an ID");
}

#[test]
fn test_send_large_payload() {
    let mut ch = MessageChannel::new("ch".into(), "alice".into(), InMemoryTransport::new());
    let large = vec![0xABu8; 64 * 1024]; // 64KB
    let msg = ch.send("/test", &large).unwrap();
    assert_eq!(msg.content.len(), 64 * 1024);
}

#[test]
fn test_self_receive_is_deduped() {
    // When a node receives its own message, it should be deduped
    let mut ch = MessageChannel::new("ch".into(), "alice".into(), InMemoryTransport::new());
    let msg = ch.send("/test", b"echo").unwrap();

    let raw = SdsMessage::Content(msg);
    let delivered = ch.receive(Some(raw.clone()));
    assert_eq!(
        delivered.len(),
        0,
        "own message should be deduped via bloom"
    );
}

#[test]
fn test_zero_causal_history_size() {
    let config = ChannelConfig {
        causal_history_size: 0,
        ..Default::default()
    };
    let mut alice = MessageChannel::with_config(
        "ch".into(),
        "alice".into(),
        InMemoryTransport::new(),
        config,
    );

    let msg1 = alice.send("/test", b"first").unwrap();
    assert!(msg1.causal_history.is_empty());

    let msg2 = alice.send("/test", b"second").unwrap();
    assert!(
        msg2.causal_history.is_empty(),
        "zero history size means no causal deps"
    );
}

#[test]
fn test_zero_causal_history_always_delivers() {
    // Messages with empty causal_history have no deps, so always deliver
    let transport = InMemoryTransport::new();
    let config = ChannelConfig {
        causal_history_size: 0,
        ..Default::default()
    };
    let mut alice =
        MessageChannel::with_config("ch".into(), "alice".into(), transport.clone(), config);
    let mut bob = MessageChannel::new("ch".into(), "bob".into(), transport.clone());

    let msg1 = alice.send("/test", b"a").unwrap();
    let msg2 = alice.send("/test", b"b").unwrap();

    // Deliver out of order — both should deliver immediately (no deps)
    let raw2 = SdsMessage::Content(msg2);
    let d2 = bob.receive(Some(raw2.clone()));
    assert_eq!(d2.len(), 1);

    let raw1 = SdsMessage::Content(msg1);
    let d1 = bob.receive(Some(raw1.clone()));
    assert_eq!(d1.len(), 1);

    assert_eq!(bob.incoming_pending(), 0);
}

#[test]
fn test_next_timestamp_monotonic_across_many_calls() {
    let mut ch = MessageChannel::new("ch".into(), "alice".into(), InMemoryTransport::new());
    let mut prev = ch.next_timestamp();
    for _ in 0..100 {
        let next = ch.next_timestamp();
        assert!(next > prev, "timestamps must be strictly monotonic");
        prev = next;
    }
}

#[test]
fn test_update_timestamp_equal_values() {
    let mut ch = MessageChannel::new("ch".into(), "alice".into(), InMemoryTransport::new());
    let current = ch.lamport_timestamp();
    // Update with exact same value — should still advance by 1
    ch.update_timestamp(current);
    assert_eq!(ch.lamport_timestamp(), current + 1);
}

#[test]
fn test_three_peer_relay() {
    // Alice -> Bob -> Carol relay pattern
    let transport = InMemoryTransport::new();
    let mut alice = MessageChannel::new("ch".into(), "alice".into(), transport.clone());
    let mut bob = MessageChannel::new("ch".into(), "bob".into(), transport.clone());
    let mut carol = MessageChannel::new("ch".into(), "carol".into(), transport.clone());

    let topic = "/test";
    let msg = alice.send(topic, b"relayed").unwrap();

    // Bob receives from alice
    let raw = SdsMessage::Content(msg.clone());
    let d_bob = bob.receive(Some(raw.clone()));
    assert_eq!(d_bob.len(), 1);

    // Carol also receives the same raw message
    let d_carol = carol.receive(Some(raw.clone()));
    assert_eq!(d_carol.len(), 1);
    assert_eq!(d_carol[0].content, b"relayed");
}

#[test]
fn test_three_peer_independent_senders_with_causal_chain() {
    let transport = InMemoryTransport::new();
    let mut alice = MessageChannel::new("ch".into(), "alice".into(), transport.clone());
    let mut bob = MessageChannel::new("ch".into(), "bob".into(), transport.clone());
    let mut observer = MessageChannel::new("ch".into(), "observer".into(), transport.clone());

    let topic = "/test";

    // Alice sends msg1
    let msg1 = alice.send(topic, b"alice-1").unwrap();

    // Bob sends msg2 (independent, no deps on alice)
    let msg2 = bob.send(topic, b"bob-1").unwrap();

    // Observer receives both in any order — no causal deps between them
    let raw1 = SdsMessage::Content(msg1);
    let raw2 = SdsMessage::Content(msg2);

    let d2 = observer.receive(Some(raw2.clone()));
    assert_eq!(d2.len(), 1);
    let d1 = observer.receive(Some(raw1.clone()));
    assert_eq!(d1.len(), 1);
}

#[test]
fn test_peer_sync_clears_multiple_outgoing() {
    // Verify that a single sync from a peer can clear multiple outgoing messages
    let transport = InMemoryTransport::new();
    let config = ChannelConfig {
        possible_acks_threshold: 1,
        ..Default::default()
    };
    let mut alice =
        MessageChannel::with_config("ch".into(), "alice".into(), transport.clone(), config);
    let mut bob = MessageChannel::new("ch".into(), "bob".into(), transport.clone());

    let topic = "/test";

    // Alice sends 5 messages
    let mut msgs = Vec::new();
    for i in 0..5u32 {
        msgs.push(alice.send(topic, &i.to_le_bytes()).unwrap());
    }
    assert_eq!(alice.outgoing_pending(), 5);

    // Bob receives all 5
    for msg in &msgs {
        let raw = SdsMessage::Content(msg.clone());
        bob.receive(Some(raw.clone()));
    }

    // One sync from bob should clear all 5 (threshold = 1)
    let sync = bob.send_sync(topic).unwrap();
    let sync_raw = SdsMessage::Sync(sync);
    alice.receive(Some(sync_raw.clone()));
    assert_eq!(alice.outgoing_pending(), 0);
}

#[test]
fn test_sync_message_is_deduped() {
    let transport = InMemoryTransport::new();
    let mut alice = MessageChannel::new("ch".into(), "alice".into(), transport.clone());
    let mut bob = MessageChannel::new("ch".into(), "bob".into(), transport.clone());

    let sync = alice.send_sync("/test").unwrap();
    let raw = SdsMessage::Sync(sync.clone());

    bob.receive(Some(raw.clone()));
    assert!(bob.is_duplicate(&sync.message_id));

    // Second receive should be deduped
    let d2 = bob.receive(Some(raw.clone()));
    assert_eq!(d2.len(), 0);
}

#[test]
fn test_sync_updates_lamport_timestamp() {
    let mut bob = MessageChannel::new("ch".into(), "bob".into(), InMemoryTransport::new());
    let ts_before = bob.lamport_timestamp();

    let sync = SyncMessage {
        message_id: "sync-1".into(),
        channel_id: "ch".into(),
        sender_id: "alice".into(),
        lamport_timestamp: ts_before + 1_000_000,
        causal_history: Vec::new(),
        bloom_filter: None,
        repair_request: Vec::new(),
    };
    let raw = SdsMessage::Sync(sync);
    bob.receive(Some(raw.clone()));

    assert!(
        bob.lamport_timestamp() > ts_before + 1_000_000,
        "sync should update lamport timestamp"
    );
}

#[test]
fn test_ephemeral_deduped_on_second_receive() {
    let mut bob = MessageChannel::new("ch".into(), "bob".into(), InMemoryTransport::new());

    let eph = EphemeralMessage::new("ch", "alice", b"eph-data");
    let raw = SdsMessage::Ephemeral(eph);

    bob.receive(Some(raw.clone()));
    let d2 = bob.receive(Some(raw.clone()));
    assert_eq!(d2.len(), 0, "ephemeral deduped on second receive");
}

#[test]
fn test_ephemeral_does_not_affect_causal_ordering() {
    let transport = InMemoryTransport::new();
    let mut alice = MessageChannel::new("ch".into(), "alice".into(), transport.clone());
    let mut bob = MessageChannel::new("ch".into(), "bob".into(), transport.clone());

    // Alice sends a content message, then an ephemeral
    let msg1 = alice.send("/test", b"content-1").unwrap();
    let eph = alice.send_ephemeral("/test", b"ephemeral").unwrap();
    let msg2 = alice.send("/test", b"content-2").unwrap();

    // Bob receives ephemeral first — should not help resolve deps
    let raw_eph = SdsMessage::Ephemeral(eph);
    bob.receive(Some(raw_eph.clone()));

    // Bob receives msg2 (depends on msg1) — should buffer
    let raw2 = SdsMessage::Content(msg2);
    let d2 = bob.receive(Some(raw2.clone()));
    assert_eq!(d2.len(), 0);

    // Bob receives msg1 — should deliver both content messages
    let raw1 = SdsMessage::Content(msg1);
    let d1 = bob.receive(Some(raw1.clone()));
    assert_eq!(d1.len(), 2);
}

#[test]
fn test_handle_repair_requests_multiple_partial_match() {
    let transport = InMemoryTransport::new();
    let mut alice = MessageChannel::new("ch".into(), "alice".into(), transport.clone());

    let topic = "/test";
    let msg1 = alice.send(topic, b"one").unwrap();
    let _msg2 = alice.send(topic, b"two").unwrap();

    // Request repair for msg1 (in buffer) and a nonexistent message
    let requests = vec![
        HistoryEntry {
            message_id: msg1.message_id.clone(),
            lamport_timestamp: 0,
            retrieval_hint: None,
        },
        HistoryEntry {
            message_id: "nonexistent".into(),
            lamport_timestamp: 0,
            retrieval_hint: None,
        },
    ];

    let resent = alice
        .handle_repair_requests(topic, &requests)
        .unwrap();
    assert_eq!(resent, 1, "only the found message should be resent");
}

#[test]
fn test_receive_and_repair_with_content_message() {
    let transport = InMemoryTransport::new();
    let mut alice = MessageChannel::new("ch".into(), "alice".into(), transport.clone());

    let topic = "/test";
    let msg = alice.send(topic, b"original").unwrap();
    let msg_id = msg.message_id.clone();

    // Craft a content message from bob that includes a repair_request for alice's msg
    let repair_msg = ContentMessage {
        message_id: compute_message_id(b"bobs-msg"),
        channel_id: "ch".into(),
        sender_id: "bob".into(),
        lamport_timestamp: 999,
        causal_history: Vec::new(),
        bloom_filter: None,
        content: b"bobs-msg".to_vec(),
        repair_request: vec![HistoryEntry {
            message_id: msg_id,
            lamport_timestamp: 0,
            retrieval_hint: None,
        }],
        retrieval_hint: None,
    };

    let raw = SdsMessage::Content(repair_msg);
    let delivered = alice.receive_and_repair(topic, Some(raw.clone())).unwrap();
    // Bob's content message should be delivered (no deps)
    assert_eq!(delivered.len(), 1);
}

#[test]
fn test_build_repair_requests_empty_history() {
    let ch = MessageChannel::new("ch".into(), "bob".into(), InMemoryTransport::new());
    let missing = ch.build_repair_requests(&[]);
    assert!(missing.is_empty());
}

#[test]
fn test_build_repair_requests_all_seen() {
    let mut ch = MessageChannel::new("ch".into(), "bob".into(), InMemoryTransport::new());
    ch.bloom.set("a");
    ch.bloom.set("b");

    let history = vec![
        HistoryEntry {
            message_id: "a".into(),
            lamport_timestamp: 1,
            retrieval_hint: None,
        },
        HistoryEntry {
            message_id: "b".into(),
            lamport_timestamp: 2,
            retrieval_hint: None,
        },
    ];
    let missing = ch.build_repair_requests(&history);
    assert!(missing.is_empty(), "all seen = no repair requests");
}

#[test]
fn test_default_config_values() {
    let config = ChannelConfig::default();
    assert_eq!(config.causal_history_size, 200);
    assert_eq!(config.possible_acks_threshold, 2);
    assert_eq!(config.ack_timeout, Duration::from_secs(10));
    assert_eq!(config.max_retries, 3);
    assert!(config.timeout_for_lost_messages_ms.is_none());
}

#[test]
fn test_config_clone() {
    let config = ChannelConfig {
        causal_history_size: 42,
        possible_acks_threshold: 7,
        ack_timeout: Duration::from_millis(500),
        max_retries: 10,
        timeout_for_lost_messages_ms: Some(3000),
    };
    let cloned = config.clone();
    assert_eq!(cloned.causal_history_size, 42);
    assert_eq!(cloned.possible_acks_threshold, 7);
    assert_eq!(cloned.ack_timeout, Duration::from_millis(500));
    assert_eq!(cloned.max_retries, 10);
    assert_eq!(cloned.timeout_for_lost_messages_ms, Some(3000));
}

#[test]
fn test_resolve_buffered_empty_buffer() {
    let mut ch = MessageChannel::new("ch".into(), "alice".into(), InMemoryTransport::new());
    let resolved = ch.resolve_buffered();
    assert!(resolved.is_empty());
    assert_eq!(ch.incoming_pending(), 0);
}

#[test]
fn test_multiple_independent_buffered_resolve_at_once() {
    // Two independent messages buffered, both deps satisfied at same time
    let transport = InMemoryTransport::new();
    let mut bob = MessageChannel::new("ch".into(), "bob".into(), transport.clone());

    let dep_id = "common-dep";

    // Create two content messages that both depend on the same dep
    let msg1 = ContentMessage {
        message_id: compute_message_id(b"msg-a"),
        channel_id: "ch".into(),
        sender_id: "alice".into(),
        lamport_timestamp: 10,
        causal_history: vec![HistoryEntry {
            message_id: dep_id.into(),
            lamport_timestamp: 1,
            retrieval_hint: None,
        }],
        bloom_filter: None,
        content: b"msg-a".to_vec(),
        repair_request: Vec::new(),
        retrieval_hint: None,
    };

    let msg2 = ContentMessage {
        message_id: compute_message_id(b"msg-b"),
        channel_id: "ch".into(),
        sender_id: "carol".into(),
        lamport_timestamp: 11,
        causal_history: vec![HistoryEntry {
            message_id: dep_id.into(),
            lamport_timestamp: 1,
            retrieval_hint: None,
        }],
        bloom_filter: None,
        content: b"msg-b".to_vec(),
        repair_request: Vec::new(),
        retrieval_hint: None,
    };

    // Both go to buffer (dep not satisfied)
    let raw1 = SdsMessage::Content(msg1);
    let raw2 = SdsMessage::Content(msg2);
    bob.receive(Some(raw1.clone()));
    bob.receive(Some(raw2.clone()));
    assert_eq!(bob.incoming_pending(), 2);

    // Satisfy the dependency via bloom
    bob.bloom.set(dep_id);

    // A sync triggers resolve — both should deliver
    let sync = SyncMessage {
        message_id: "trigger-sync".into(),
        channel_id: "ch".into(),
        sender_id: "dave".into(),
        lamport_timestamp: 20,
        causal_history: Vec::new(),
        bloom_filter: None,
        repair_request: Vec::new(),
    };
    let sync_raw = SdsMessage::Sync(sync);
    let delivered = bob.receive(Some(sync_raw.clone()));
    assert_eq!(delivered.len(), 2, "both buffered messages should resolve");
    assert_eq!(bob.incoming_pending(), 0);
}

#[test]
fn test_send_reliable_records_in_bloom_even_without_ack() {
    let transport = InMemoryTransport::new();
    let config = ChannelConfig {
        ack_timeout: Duration::from_millis(5),
        max_retries: 0,
        ..Default::default()
    };
    let mut ch = MessageChannel::with_config("ch".into(), "alice".into(), transport, config);

    let (msg, acked) = ch.send_reliable("/test", b"no-ack-msg").unwrap();
    assert!(!acked);

    // Message should still be recorded in bloom and history
    assert!(ch.is_duplicate(&msg.message_id));
    let history = ch.build_causal_history();
    assert!(
        history.iter().any(|e| e.message_id == msg.message_id),
        "unacked message should still be in history"
    );
}

#[test]
fn test_send_reliable_with_retries_and_no_ack() {
    let transport = InMemoryTransport::new();
    let config = ChannelConfig {
        ack_timeout: Duration::from_millis(5),
        max_retries: 2, // Will attempt 3 times total
        ..Default::default()
    };
    let mut ch = MessageChannel::with_config("ch".into(), "alice".into(), transport, config);

    let (msg, acked) = ch.send_reliable("/test", b"retry-msg").unwrap();
    assert!(!acked, "no ack should return false after retries");
    assert!(ch.is_duplicate(&msg.message_id));
}

#[test]
fn test_send_populates_all_fields() {
    let mut ch = MessageChannel::new("my-chan".into(), "alice".into(), InMemoryTransport::new());
    let msg = ch.send("/test", b"payload").unwrap();

    assert_eq!(msg.channel_id, "my-chan");
    assert_eq!(msg.sender_id, "alice");
    assert!(!msg.message_id.is_empty());
    assert!(msg.lamport_timestamp > 0);
    assert!(msg.bloom_filter.is_some());
    assert_eq!(msg.content, b"payload");
    assert!(msg.repair_request.is_empty());
}

#[test]
fn test_send_sync_populates_all_fields() {
    let mut ch = MessageChannel::new("my-chan".into(), "alice".into(), InMemoryTransport::new());
    let sync = ch.send_sync("/test").unwrap();

    assert_eq!(sync.channel_id, "my-chan");
    assert_eq!(sync.sender_id, "alice");
    assert!(!sync.message_id.is_empty());
    assert!(sync.lamport_timestamp > 0);
    assert!(sync.bloom_filter.is_some());
    assert!(sync.repair_request.is_empty());
}

#[test]
fn test_send_ephemeral_populates_all_fields() {
    let ch = MessageChannel::new("my-chan".into(), "alice".into(), InMemoryTransport::new());
    let eph = ch.send_ephemeral("/test", b"eph").unwrap();

    assert_eq!(eph.channel_id, "my-chan");
    assert_eq!(eph.sender_id, "alice");
    assert!(!eph.message_id.is_empty());
    assert!(eph.causal_history.is_empty());
    assert!(eph.bloom_filter.is_none());
    assert_eq!(eph.content, b"eph");
}

#[test]
fn test_batch_ack_is_sync_message() {
    let mut ch = MessageChannel::new("ch".into(), "alice".into(), InMemoryTransport::new());
    ch.send("/test", b"populate-history").unwrap();

    let batch = ch.send_batch_ack("/test").unwrap();
    assert!(batch.bloom_filter.is_some());
    assert!(!batch.causal_history.is_empty());
}

#[test]
fn test_compute_message_id_deterministic() {
    let id1 = compute_message_id(b"hello");
    let id2 = compute_message_id(b"hello");
    assert_eq!(id1, id2);
}

#[test]
fn test_compute_message_id_different_for_different_payloads() {
    let id1 = compute_message_id(b"hello");
    let id2 = compute_message_id(b"world");
    assert_ne!(id1, id2);
}

#[test]
fn test_compute_message_id_is_hex_string() {
    let id = compute_message_id(b"test");
    assert!(
        id.chars().all(|c| c.is_ascii_hexdigit()),
        "message ID should be hex: {}",
        id
    );
    assert_eq!(id.len(), 64, "SHA-256 hex is 64 chars");
}

#[test]
fn incoming_buffer_is_capped() {
    let mut ch = MessageChannel::new(
        "test-channel".to_string(),
        "alice".to_string(),
        InMemoryTransport::new(),
    );
    // Forge content messages whose causal_history points at random
    // ids we'll never receive — every one will go straight into the
    // buffer.
    for i in 0..(INCOMING_BUFFER_MAX + 50) {
        let mut hist = Vec::new();
        hist.push(HistoryEntry {
            message_id: format!("missing-{i}"),
            lamport_timestamp: 0,
            retrieval_hint: None,
        });
        let msg = ContentMessage {
            message_id: format!("msg-{i}"),
            channel_id: "test-channel".into(),
            sender_id: "bob".into(),
            lamport_timestamp: i as u64,
            causal_history: hist,
            bloom_filter: None,
            content: vec![1, 2, 3],
            repair_request: vec![],
            retrieval_hint: None,
        };
        let raw = SdsMessage::Content(msg);
        let _ = ch.receive(Some(raw.clone()));
    }
    let len = ch.incoming_pending();
    assert!(
        len <= INCOMING_BUFFER_MAX,
        "incoming_buffer must be capped, got {len}"
    );
}


#[test]
fn an_ack_acknowledges_its_message_and_no_other() {
    let data = ack_payload("m-1");
    assert!(is_ack(&data, "m-1"));
    assert!(!is_ack(&data, "m-2"));
    assert!(!is_ack(b"m-1", "m-1"));
    assert!(!is_ack(b"{\"type\":\"ack\"}", "m-1"));
    assert_eq!(ack_topic("m-1"), "/lmao/1/ack-m-1/proto");
}

#[test]
fn ack_payload_is_exact() {
    assert_eq!(
        ack_payload("abc"),
        b"{\"message_id\":\"abc\",\"type\":\"ack\"}".to_vec()
    );
}

#[test]
fn message_id_is_the_sha256_of_the_payload() {
    assert_eq!(
        compute_message_id(b"abc"),
        "ba7816bf8f01cfea414140de5dae2223b00361a396177a9cb410ff61f20015ad"
    );
}

#[test]
fn reliable_send_stops_at_the_right_ack_only() {
    let mut run = ReliableSend::new("m", 2);
    assert!(matches!(
        run.step(ReliableEvent::Published),
        ReliableAction::Await
    ));
    assert!(matches!(
        run.step(ReliableEvent::Heard(ack_payload("other"))),
        ReliableAction::Publish
    ));
    assert_eq!(run.attempt(), 1);
    assert!(matches!(
        run.step(ReliableEvent::Silence),
        ReliableAction::Publish
    ));
    assert_eq!(run.attempt(), 2);
    assert!(matches!(
        run.step(ReliableEvent::Silence),
        ReliableAction::GiveUp
    ));
    assert_eq!(run.attempt(), 2);

    let mut run = ReliableSend::new("m", 2);
    assert!(matches!(
        run.step(ReliableEvent::Heard(ack_payload("m"))),
        ReliableAction::Acknowledged
    ));
}

#[test]
fn reliable_send_fails_when_publishing_fails() {
    let mut run = ReliableSend::new("m", 3);
    match run.step(ReliableEvent::PublishFailed("no route".to_string())) {
        ReliableAction::Fail(e) => assert_eq!(e.to_string(), "SDS: publish failed: no route"),
        other => panic!("expected a failure, got {:?}", other),
    }
}

#[test]
fn sync_id_is_that_of_the_clock() {
    let mut ch = MessageChannel::starting_at(
        "c".to_string(),
        "a".to_string(),
        InMemoryTransport::new(),
        ChannelConfig::default(),
        0x0102,
    );
    let sync = ch.begin_sync();
    assert_eq!(sync.lamport_timestamp, 0x0103);
    assert_eq!(
        sync.message_id,
        compute_message_id(&[0x03, 0x01, 0, 0, 0, 0, 0, 0])
    );
}

#[test]
fn clock_wraps_at_the_end_of_its_range() {
    let mut ch = MessageChannel::starting_at(
        "c".to_string(),
        "a".to_string(),
        InMemoryTransport::new(),
        ChannelConfig::default(),
        u64::MAX,
    );
    assert_eq!(ch.next_timestamp(), 0);
}

#[test]
fn outgoing_buffer_is_capped() {
    let mut ch = make_channel("alice");
    for i in 0..300u32 {
        ch.send("/t", &i.to_le_bytes()).unwrap();
    }
    assert_eq!(ch.outgoing_pending(), 256);
    // The oldest messages made room.
    let first = compute_message_id(&0u32.to_le_bytes());
    let last = compute_message_id(&299u32.to_le_bytes());
    let ask = |id: String| {
        vec![HistoryEntry {
            message_id: id,
            lamport_timestamp: 0,
            retrieval_hint: None,
        }]
    };
    assert_eq!(ch.messages_to_resend(&ask(first)).len(), 0);
    assert_eq!(ch.messages_to_resend(&ask(last)).len(), 1);
}

#[test]
fn wrong_order_is_put_right() {
    let mut alice = make_channel("alice");
    let mut bob = make_channel("bob");
    let one = alice.send("/t", b"one").unwrap();
    let two = alice.send("/t", b"two").unwrap();
    assert_eq!(two.causal_history[0].message_id, one.message_id);
    assert!(bob.receive(Some(SdsMessage::Content(two))).is_empty());
    let out = bob.receive(Some(SdsMessage::Content(one)));
    let texts: Vec<&[u8]> = out.iter().map(|m| m.content.as_slice()).collect();
    assert_eq!(texts, vec![b"one".as_slice(), b"two".as_slice()]);
}

#[test]
fn repeated_while_waiting_is_delivered_once() {
    let mut alice = make_channel("alice");
    let mut bob = make_channel("bob");
    let one = alice.send("/t", b"one").unwrap();
    let two = alice.send("/t", b"two").unwrap();
    bob.receive(Some(SdsMessage::Content(two.clone())));
    bob.receive(Some(SdsMessage::Content(two.clone())));
    assert_eq!(bob.incoming_pending(), 1);
    let delivered = bob.receive(Some(SdsMessage::Content(one.clone())));
    assert_eq!(delivered.len(), 2);
    assert_eq!(delivered[0].message_id, one.message_id);
    assert_eq!(delivered[1].message_id, two.message_id);
    assert!(bob.receive(Some(SdsMessage::Content(two))).is_empty());
}

#[test]
fn a_ready_copy_takes_the_place_of_a_waiting_one() {
    let mut alice = make_channel("alice");
    let mut carol = make_channel("carol");
    let mut bob = make_channel("bob");
    let one = alice.send("/t", b"one").unwrap();
    let two = alice.send("/t", b"two").unwrap();
    // The same payload from somebody who has nothing to wait for.
    let copy = carol.send("/t", b"two").unwrap();
    assert_eq!(copy.message_id, two.message_id);
    assert!(bob.receive(Some(SdsMessage::Content(two))).is_empty());
    assert_eq!(bob.receive(Some(SdsMessage::Content(copy))).len(), 1);
    assert_eq!(bob.incoming_pending(), 0);
    assert_eq!(bob.receive(Some(SdsMessage::Content(one))).len(), 1);
}

#[test]
fn a_failed_publish_moves_only_the_clock() {
    let mut alice = make_channel("alice");
    let before = alice.lamport_timestamp();
    let msg = alice.begin_send(b"lost");
    let id = msg.message_id.clone();
    let err = alice
        .end_send(msg, Err(TransportError::Transport("no route".to_string())))
        .unwrap_err();
    assert!(matches!(&err, TransportError::Transport(t)
        if t == "SDS: failed to publish content message: no route"));
    assert_eq!(alice.lamport_timestamp(), before + 1);
    assert_eq!(alice.outgoing_pending(), 0);
    assert!(!alice.is_duplicate(&id));
    assert_eq!(alice.history_len(), 0);
    let msg = alice.begin_send(b"found");
    let sent = alice.end_send(msg, Ok(())).unwrap();
    assert_eq!(alice.outgoing_pending(), 1);
    assert!(alice.is_duplicate(&sent.message_id));
}

#[test]
fn misses_and_malformed_filters_do_not_acknowledge() {
    let mut alice = make_channel("alice");
    let empty = make_channel("carol");
    let msg = alice.send("/t", b"hello").unwrap();
    let mut bob = make_channel("bob");
    bob.receive(Some(SdsMessage::Content(msg)));
    alice.check_outgoing_acks(&bob.bloom.to_bytes());
    alice.check_outgoing_acks(&empty.bloom.to_bytes());
    alice.check_outgoing_acks(b"no filter");
    assert_eq!(alice.outgoing_pending(), 1);
    alice.check_outgoing_acks(&bob.bloom.to_bytes());
    assert_eq!(alice.outgoing_pending(), 0);
}
