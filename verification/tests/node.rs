use k256::ecdsa::SigningKey as Secp256k1Key;
use k256::elliptic_curve::rand_core::OsRng;

use logos_messaging_a2a::agent::{task_topic, A2AEnvelope, AgentCard, PresenceAnnouncement, Task};
use logos_messaging_a2a::clock::{millis_at, now_ms, now_secs, secs_at, Duration};
use logos_messaging_a2a::keys::{keyfile_error, SigningKey};
use logos_messaging_a2a::load::{LoadBucket, LoadStatus};
use logos_messaging_a2a::node::discovery::{registry_outcome, ReceivedPresence};
use logos_messaging_a2a::node::{AgentIdentity, LmaoNode, PaymentConfig};
use logos_messaging_a2a::presence::PeerMap;
use logos_messaging_a2a::retry::{next_delay, RetryConfig};
use logos_messaging_a2a::sds::config::ChannelConfig;
use logos_messaging_a2a::session::Session;
use logos_messaging_a2a::storage::StorageOffloadConfig;
use logos_messaging_a2a::trust::{TrustEntry, TrustList, TrustMode};

struct MockTransport;

impl MockTransport {
    fn new() -> Self {
        MockTransport
    }
}

fn fast_config() -> ChannelConfig {
    ChannelConfig {
        ack_timeout: Duration::from_millis(1),
        max_retries: 0,
        ..Default::default()
    }
}

fn identity() -> AgentIdentity {
    AgentIdentity {
        public_key: "ab".repeat(32),
    }
}

fn own_key(key: &Secp256k1Key) -> SigningKey {
    SigningKey::from_bytes(&key.to_bytes()).unwrap()
}

fn pubkey_hex(key: &Secp256k1Key) -> String {
    hex::encode(key.verifying_key().to_encoded_point(true).as_bytes())
}

#[test]
fn test_node_creation() {
    let transport = MockTransport::new();
    let node = LmaoNode::new("test", "test agent", vec!["text".into()], transport);
    assert_eq!(node.card.name, "test");
    assert!(!node.pubkey().is_empty());
    assert_eq!(node.pubkey().len(), 66);
    assert!(node.identity().is_none());
    assert!(node.card.intro_bundle.is_none());
}

#[test]
fn test_encrypted_node_creation() {
    let transport = MockTransport::new();
    let node = LmaoNode::new_encrypted(
        "test",
        "test agent",
        vec!["text".into()],
        transport,
        identity(),
    );
    assert!(node.identity().is_some());
    assert!(node.card.intro_bundle.is_some());
    let bundle = node.card.intro_bundle.as_ref().unwrap();
    assert_eq!(bundle.version, "1.0");
    assert_eq!(bundle.agent_pubkey.len(), 64);
}

#[test]
fn test_create_session() {
    let transport = MockTransport::new();
    let mut node = LmaoNode::new("test", "test agent", vec![], transport);
    let session = node.create_session("02deadbeef");
    assert_eq!(session.peer, "02deadbeef");
    assert!(session.task_ids.is_empty());
    assert!(!session.id.is_empty());
}

#[test]
fn test_list_sessions() {
    let transport = MockTransport::new();
    let mut node = LmaoNode::new("test", "test agent", vec![], transport);
    assert!(node.list_sessions().is_empty());
    node.create_session("02aa");
    node.create_session("02bb");
    assert_eq!(node.list_sessions().len(), 2);
}

#[test]
fn test_get_session() {
    let transport = MockTransport::new();
    let mut node = LmaoNode::new("test", "test agent", vec![], transport);
    let session = node.create_session("02aa");
    let found = node.get_session(&session.id);
    assert!(found.is_some());
    assert_eq!(found.unwrap().peer, "02aa");
    assert!(node.get_session("nonexistent").is_none());
}

#[test]
fn test_from_key_deterministic_pubkey() {
    let transport = MockTransport::new();
    let key = Secp256k1Key::random(&mut OsRng);
    let expected_pk = pubkey_hex(&key);

    let node = LmaoNode::from_key(
        "det",
        "deterministic node",
        vec!["text".into()],
        transport,
        own_key(&key),
    );
    assert_eq!(node.pubkey(), expected_pk);
    assert_eq!(node.card.name, "det");
    assert_eq!(node.card.description, "deterministic node");
    assert_eq!(node.card.capabilities, vec!["text".to_string()]);
}

#[test]
fn test_from_key_same_key_same_pubkey() {
    let key_bytes = [42u8; 32];
    let key1 = SigningKey::from_bytes(&key_bytes).unwrap();
    let key2 = SigningKey::from_bytes(&key_bytes).unwrap();

    let node1 = LmaoNode::from_key("a", "a", vec![], MockTransport::new(), key1);
    let node2 = LmaoNode::from_key("b", "b", vec![], MockTransport::new(), key2);

    assert_eq!(node1.pubkey(), node2.pubkey());
}

#[test]
fn test_with_config_custom_settings() {
    let transport = MockTransport::new();
    let config = ChannelConfig {
        ack_timeout: Duration::from_secs(30),
        max_retries: 5,
        ..Default::default()
    };
    let node = LmaoNode::with_config(
        "configured",
        "custom config node",
        vec!["image".into()],
        transport,
        config,
    );
    assert_eq!(node.card.name, "configured");
    assert_eq!(node.card.capabilities, vec!["image".to_string()]);
    assert!(!node.pubkey().is_empty());
    assert_eq!(node.channel().config().max_retries, 5);
}

#[test]
fn mod_test_find_peers_by_capability() {
    let transport = MockTransport::new();
    let mut node = LmaoNode::new("test", "test", vec![], transport);

    node.peers_mut().update(&PresenceAnnouncement {
        agent_id: "peer1".into(),
        name: "img-agent".into(),
        capabilities: vec!["image".into(), "text".into()],
        waku_topic: "/lmao/1/tasks/peer1/proto".into(),
        ttl_secs: 300,
        signature: None,
    });
    node.peers_mut().update(&PresenceAnnouncement {
        agent_id: "peer2".into(),
        name: "txt-agent".into(),
        capabilities: vec!["text".into()],
        waku_topic: "/lmao/1/tasks/peer2/proto".into(),
        ttl_secs: 300,
        signature: None,
    });

    assert_eq!(node.find_peers_by_capability("image").len(), 1);
    assert_eq!(node.find_peers_by_capability("text").len(), 2);
    assert_eq!(node.find_peers_by_capability("video").len(), 0);
}

#[test]
fn mod_test_peer_map_default_trait() {
    let map = PeerMap::default();
    assert!(map.is_empty());
    assert_eq!(map.len(), 0);
}

#[test]
fn test_pubkey_is_valid_hex() {
    let transport = MockTransport::new();
    let node = LmaoNode::new("test", "test", vec![], transport);
    // Should be valid hex
    let decoded = hex::decode(node.pubkey());
    assert!(decoded.is_ok(), "pubkey should be valid hex");
    // Compressed secp256k1 key is 33 bytes
    assert_eq!(decoded.unwrap().len(), 33);
}

#[test]
fn test_card_version_is_set() {
    let transport = MockTransport::new();
    let node = LmaoNode::new("test", "test agent", vec!["cap".into()], transport);
    assert_eq!(node.card.version, "0.1.0");
}

#[test]
fn test_card_capabilities_match() {
    let transport = MockTransport::new();
    let caps = vec!["text".to_string(), "image".to_string(), "code".to_string()];
    let node = LmaoNode::new("test", "test agent", caps.clone(), transport);
    assert_eq!(node.card.capabilities, caps);
}

#[test]
fn mod_test_with_retry_builder() {
    let transport = MockTransport::new();
    let config = RetryConfig {
        max_attempts: 3,
        base_delay_ms: 100,
        max_delay_ms: 5000,
        jitter: false,
    };
    let node = LmaoNode::new("test", "test", vec![], transport).with_retry(config);
    assert!(node.retry_config().is_some());
    let cfg = node.retry_config().unwrap();
    assert_eq!(cfg.max_attempts, 3);
    assert_eq!(cfg.base_delay_ms, 100);
    assert_eq!(cfg.max_delay_ms, 5000);
    assert!(!cfg.jitter);
}

#[test]
fn retry_test_with_retry_builder() {
    let node = LmaoNode::new("builder-test", "test", vec![], MockTransport::new());
    assert!(node.retry_config().is_none());

    let node2 = LmaoNode::new("builder-test2", "test", vec![], MockTransport::new())
        .with_retry(RetryConfig::default());
    assert!(node2.retry_config().is_some());
    assert_eq!(node2.retry_config().unwrap().max_attempts, 5);
}

#[test]
fn test_retry_config_none_by_default() {
    let transport = MockTransport::new();
    let node = LmaoNode::new("test", "test", vec![], transport);
    assert!(node.retry_config().is_none());
}

#[test]
fn test_signing_key_accessor() {
    let transport = MockTransport::new();
    let key = Secp256k1Key::random(&mut OsRng);
    let expected_pk = pubkey_hex(&key);
    let node = LmaoNode::from_key("test", "test", vec![], transport, own_key(&key));
    // signing_key should produce the same pubkey
    assert_eq!(node.signing_key().public_key_hex(), expected_pk);
    assert_eq!(node.signing_key().to_bytes(), key.to_bytes().to_vec());
}

#[test]
fn test_identity_none_for_unencrypted_node() {
    let transport = MockTransport::new();
    let node = LmaoNode::new("test", "test", vec![], transport);
    assert!(node.identity().is_none());
}

#[test]
fn test_identity_some_for_encrypted_node() {
    let transport = MockTransport::new();
    let node = LmaoNode::new_encrypted("test", "test", vec![], transport, identity());
    assert!(node.identity().is_some());
}

#[test]
fn test_channel_sender_id_matches_pubkey() {
    let transport = MockTransport::new();
    let node = LmaoNode::new("test", "test", vec![], transport);
    assert_eq!(node.channel().sender_id(), node.pubkey());
    assert_eq!(
        node.channel().channel_id(),
        format!("node-{}", &node.pubkey()[..8])
    );
}

#[test]
fn session_has_unique_uuid() {
    let transport = MockTransport::new();
    let mut node = LmaoNode::new("test", "test", vec![], transport);
    let s1 = node.create_session("peer-a");
    let s2 = node.create_session("peer-b");
    assert_ne!(s1.id, s2.id, "sessions should have unique IDs");
}

#[test]
fn session_created_at_is_recent() {
    let transport = MockTransport::new();
    let mut node = LmaoNode::new("test", "test", vec![], transport);
    let now = std::time::SystemTime::now()
        .duration_since(std::time::UNIX_EPOCH)
        .unwrap()
        .as_secs();
    let session = node.create_session("peer-a");
    // created_at should be within 2 seconds of now
    assert!(
        session.created_at >= now - 2 && session.created_at <= now + 2,
        "session created_at should be close to current time"
    );
}

#[test]
fn session_starts_with_empty_task_ids() {
    let transport = MockTransport::new();
    let mut node = LmaoNode::new("test", "test", vec![], transport);
    let session = node.create_session("peer-a");
    assert!(session.task_ids.is_empty());
}

#[test]
fn session_peer_preserved_correctly() {
    let transport = MockTransport::new();
    let mut node = LmaoNode::new("test", "test", vec![], transport);
    let long_key = "02".to_string() + &"ab".repeat(32);
    let session = node.create_session(&long_key);
    assert_eq!(session.peer, long_key);
}

/// Creates a task within a session and notes it as sent.
fn send_in_session(node: &mut LmaoNode<MockTransport>, id: &str, text: &str) -> Task {
    let task = node.session_task(id, text).unwrap();
    node.task_send_finished(Ok(false)).unwrap();
    node.note_session_task(id, &task.id);
    task
}

#[test]
fn multiple_tasks_tracked_in_session() {
    let transport = MockTransport::new();
    let mut node = LmaoNode::with_config("test", "test", vec![], transport, fast_config());
    let session = node.create_session("02deadbeef");

    // Send multiple messages in the same session
    let t1 = send_in_session(&mut node, &session.id, "first");
    let t2 = send_in_session(&mut node, &session.id, "second");
    let t3 = send_in_session(&mut node, &session.id, "third");

    let updated = node.get_session(&session.id).unwrap();
    assert_eq!(updated.task_ids.len(), 3);
    assert_eq!(updated.task_ids[0], t1.id);
    assert_eq!(updated.task_ids[1], t2.id);
    assert_eq!(updated.task_ids[2], t3.id);
}

#[test]
fn tasks_in_session_carry_session_id() {
    let transport = MockTransport::new();
    let mut node = LmaoNode::with_config("test", "test", vec![], transport, fast_config());
    let session = node.create_session("02deadbeef");

    let task = send_in_session(&mut node, &session.id, "hello");
    assert_eq!(task.session_id, Some(session.id.clone()));
    assert_eq!(task.to, "02deadbeef");
    assert_eq!(task.from, node.pubkey());
}

#[test]
fn test_send_in_nonexistent_session_error_message() {
    let node = LmaoNode::new("test", "test agent", vec![], MockTransport::new());
    let err = node.session_task("ghost-session", "hi").unwrap_err();
    assert!(
        err.to_string().contains("ghost-session"),
        "error should mention the session ID"
    );
    assert_eq!(err.to_string(), "Session ghost-session not found");
}

#[test]
fn test_send_text_creates_and_sends_task() {
    let node = LmaoNode::new("sender", "sender node", vec![], MockTransport::new());
    let task = node.text_task("02deadbeef", "hello world");
    assert_eq!(task.from, node.pubkey());
    assert_eq!(task.to, "02deadbeef");
    assert_eq!(task.text(), Some("hello world"));
    assert!(task.session_id.is_none());
}

#[test]
fn sessions_isolated_between_peers() {
    let transport = MockTransport::new();
    let mut node = LmaoNode::new("test", "test", vec![], transport);

    let s1 = node.create_session("peer-a");
    let s2 = node.create_session("peer-b");

    assert_ne!(s1.id, s2.id);
    assert_eq!(s1.peer, "peer-a");
    assert_eq!(s2.peer, "peer-b");

    // Getting one doesn't affect the other
    let got1 = node.get_session(&s1.id).unwrap();
    let got2 = node.get_session(&s2.id).unwrap();
    assert_eq!(got1.peer, "peer-a");
    assert_eq!(got2.peer, "peer-b");
}

#[test]
fn multiple_sessions_with_same_peer() {
    let transport = MockTransport::new();
    let mut node = LmaoNode::new("test", "test", vec![], transport);

    let s1 = node.create_session("peer-a");
    let s2 = node.create_session("peer-a");

    // Two distinct sessions, same peer
    assert_ne!(s1.id, s2.id);
    assert_eq!(s1.peer, s2.peer);
    assert_eq!(node.list_sessions().len(), 2);
}

#[test]
fn get_session_returns_clone() {
    let transport = MockTransport::new();
    let mut node = LmaoNode::new("test", "test", vec![], transport);
    let session = node.create_session("peer-a");

    let got1 = node.get_session(&session.id).unwrap();
    let got2 = node.get_session(&session.id).unwrap();
    assert_eq!(got1.id, got2.id);
    assert_eq!(got1.peer, got2.peer);
}

#[test]
fn list_sessions_empty_initially() {
    let transport = MockTransport::new();
    let node = LmaoNode::new("test", "test", vec![], transport);
    assert!(node.list_sessions().is_empty());
}

#[test]
fn list_sessions_contains_all_created() {
    let transport = MockTransport::new();
    let mut node = LmaoNode::new("test", "test", vec![], transport);

    let ids: Vec<String> = (0..5)
        .map(|i| node.create_session(&format!("peer-{i}")).id)
        .collect();

    let sessions = node.list_sessions();
    assert_eq!(sessions.len(), 5);
    for id in &ids {
        assert!(sessions.iter().any(|s| &s.id == id));
    }
}

#[test]
fn find_peers_by_capability_empty_peer_map() {
    let mut node = LmaoNode::new("lonely", "lonely agent", vec!["text".into()], MockTransport::new());
    assert!(node.find_peers_by_capability("anything").is_empty());
}

#[test]
fn peers_returns_reference_to_peer_map() {
    let mut node = LmaoNode::new("test", "test agent", vec!["text".into()], MockTransport::new());
    assert!(node.peers().is_empty());

    // Manually update peer map
    node.peers_mut().update(&PresenceAnnouncement {
        agent_id: "peer1".into(),
        name: "peer".into(),
        capabilities: vec!["text".into()],
        waku_topic: "/topic".into(),
        ttl_secs: 9999,
        signature: None,
    });
    assert_eq!(node.peers_mut().all_live().len(), 1);
}

#[test]
fn new_with_key_creates_node_with_specified_key() {
    let key = Secp256k1Key::random(&mut OsRng);
    let expected_pubkey = pubkey_hex(&key);

    let node = LmaoNode::new_with_key(
        "test",
        "test agent",
        vec!["text".into()],
        MockTransport::new(),
        own_key(&key),
    );

    assert_eq!(node.pubkey(), expected_pubkey);
    assert_eq!(node.card.name, "test");
}

#[test]
fn from_keyfile_loads_existing_key_same_pubkey() {
    let contents = SigningKey::random().keyfile_text();
    assert_eq!(contents.len(), 64);

    let node1 = LmaoNode::from_keyfile_text(
        "agent-a",
        "first",
        vec!["text".into()],
        MockTransport::new(),
        "agent.key",
        &contents,
    )
    .unwrap();
    let pubkey1 = node1.pubkey().to_string();

    let node2 = LmaoNode::from_keyfile_text(
        "agent-b",
        "second",
        vec!["code".into()],
        MockTransport::new(),
        "agent.key",
        &contents,
    )
    .unwrap();
    let pubkey2 = node2.pubkey().to_string();

    assert_eq!(pubkey1, pubkey2, "reloaded key should produce same pubkey");
}

#[test]
fn from_keyfile_roundtrip_restart_same_identity() {
    // "First run" — generates key
    let (pubkey_first, contents) = {
        let node = LmaoNode::new("bot", "my bot", vec!["text".into()], MockTransport::new());
        (
            node.pubkey().to_string(),
            node.signing_key().keyfile_text(),
        )
    };
    // node is dropped — simulates process exit

    // "Second run" — loads existing key
    let pubkey_second = {
        let node = LmaoNode::from_keyfile_text(
            "bot",
            "my bot",
            vec!["text".into()],
            MockTransport::new(),
            "agent.key",
            &contents,
        )
        .unwrap();
        node.pubkey().to_string()
    };

    assert_eq!(pubkey_first, pubkey_second, "identity must survive restart");
}

fn keyfile_refusal(text: &str) -> String {
    match LmaoNode::from_keyfile_text("test", "test", vec![], MockTransport::new(), "bad.key", text)
    {
        Err(e) => e.to_string(),
        Ok(_) => panic!("expected an error"),
    }
}

#[test]
fn from_keyfile_rejects_wrong_length() {
    // 16 bytes (too short)
    let e = keyfile_refusal("aabbccdd00112233aabbccdd00112233");
    assert!(
        e.contains("16 bytes, expected 32"),
        "error should mention length: {}",
        e
    );
    assert_eq!(e, "keyfile bad.key contains 16 bytes, expected 32");
}

#[test]
fn from_keyfile_rejects_invalid_hex() {
    let e = keyfile_refusal("not-valid-hex!!");
    assert!(e.contains("invalid hex"), "error should mention hex: {}", e);
    assert_eq!(e, "invalid hex in keyfile bad.key: Odd number of digits");
}

#[test]
fn from_keyfile_with_known_key() {
    let key = Secp256k1Key::random(&mut OsRng);
    let hex_str = hex::encode(key.to_bytes());
    let expected_pubkey = pubkey_hex(&key);

    let node = LmaoNode::from_keyfile_text(
        "test",
        "test",
        vec![],
        MockTransport::new(),
        "known.key",
        &hex_str,
    )
    .unwrap();

    assert_eq!(node.pubkey(), expected_pubkey);
}

#[test]
fn keyfile_text_may_have_space_and_capitals_round_it() {
    let text = format!(" \n{}\t\r\n", "AB".repeat(32));
    let node =
        LmaoNode::from_keyfile_text("t", "t", vec![], MockTransport::new(), "k", &text).unwrap();
    assert_eq!(node.signing_key().to_bytes(), vec![0xab; 32]);
}

#[test]
fn keyfile_must_hold_a_key_of_the_curve() {
    assert_eq!(
        keyfile_refusal(&"00".repeat(32)),
        "invalid signing key in bad.key: signature error"
    );
    assert_eq!(
        keyfile_refusal("fffffffffffffffffffffffffffffffebaaedce6af48a03bbfd25e8cd0364141"),
        "invalid signing key in bad.key: signature error"
    );
    // One below the order of the group is the last key.
    let last = "fffffffffffffffffffffffffffffffebaaedce6af48a03bbfd25e8cd0364140";
    assert!(
        LmaoNode::from_keyfile_text("t", "t", vec![], MockTransport::new(), "k", last).is_ok()
    );
    assert_eq!(
        keyfile_error("failed to read keyfile", "k", "denied").to_string(),
        "failed to read keyfile k: denied"
    );
}

#[test]
fn the_key_one_has_the_generator_as_its_point() {
    let mut one = [0u8; 32];
    one[31] = 1;
    assert_eq!(
        SigningKey::from_bytes(&one).unwrap().public_key_hex(),
        "0279be667ef9dcbbac55a06295ce870b07029bfcdb2dce28d959f2815b16f81798"
    );
}

#[test]
fn test_with_payment_builder() {
    let transport = MockTransport::new();
    let node = LmaoNode::new("test", "test", vec![], transport).with_payment(PaymentConfig {
        required_amount: 42,
        auto_pay: true,
        auto_pay_amount: 10,
        verify_on_chain: true,
        receiving_account: "0xabc".to_string(),
    });
    assert!(node.payment().is_some());
    let pay = node.payment().unwrap();
    assert_eq!(pay.required_amount, 42);
    assert!(pay.auto_pay);
    assert_eq!(pay.auto_pay_amount, 10);
    assert!(pay.verify_on_chain);
    assert_eq!(pay.receiving_account, "0xabc");
}

#[test]
fn load_counts_tasks_under_way() {
    let mut node =
        LmaoNode::new("t", "t", vec![], MockTransport::new()).with_max_concurrent(2);
    assert_eq!(node.max_concurrent(), 2);
    assert_eq!(node.load_dec(), 0);
    assert_eq!(node.current_load_status().bucket, LoadBucket::Free);
    assert_eq!(node.load_inc(), 1);
    assert_eq!(node.current_load_status().bucket, LoadBucket::Busy);
    assert!(!node.is_at_capacity());
    assert_eq!(node.load_inc(), 2);
    assert!(node.is_at_capacity());
    assert_eq!(
        node.current_load_status(),
        LoadStatus {
            bucket: LoadBucket::Full,
            queue_depth: 2,
            max_concurrent: 2,
            avg_latency_ms: 0,
        }
    );
    assert_eq!(node.load_dec(), 1);
    assert_eq!(node.in_flight_count(), 1);
    let node = LmaoNode::new("t", "t", vec![], MockTransport::new()).with_max_concurrent(0);
    assert_eq!(node.max_concurrent(), 1);
}

fn entry(pubkey: &str, nickname: &str, caps: &[&str]) -> TrustEntry {
    TrustEntry {
        pubkey: pubkey.into(),
        nickname: nickname.into(),
        capabilities: caps.iter().map(|s| s.to_string()).collect(),
        notes: None,
        added_at: 0,
        encryption_pubkey: None,
    }
}

#[test]
fn trust_list_of_a_node() {
    let mut node = LmaoNode::new("t", "t", vec![], MockTransport::new());
    assert_eq!(node.trust_mode(), TrustMode::Off);
    assert!(node.is_trusted("anyone"));
    assert!(node.is_trusted_for("anyone", "anything"));
    node.trust_set_mode(TrustMode::Enforce);
    assert!(!node.is_trusted("bob"));
    node.trust_add(entry("bob", "Bob", &["code"]));
    node.trust_add(entry("carol", "Carol", &[]));
    assert!(node.is_trusted("bob"));
    assert!(node.is_trusted_for("bob", "code"));
    assert!(!node.is_trusted_for("bob", "text"));
    assert!(node.is_trusted_for("carol", "text"));
    node.trust_add(entry("bob", "Bobby", &[]));
    let (mode, entries) = node.trust_snapshot();
    assert_eq!(mode, TrustMode::Enforce);
    assert_eq!(entries.len(), 2);
    assert_eq!(entries[0].nickname, "Bobby");
    assert_eq!(node.trust_remove("Carol").unwrap().pubkey, "carol");
    assert!(node.trust_remove("Carol").is_none());
    assert_eq!(node.trust_remove("bob").unwrap().nickname, "Bobby");
    assert!(!node.is_trusted("bob"));
}

#[test]
fn a_key_is_removed_before_a_nickname() {
    let mut list = TrustList::with_mode(TrustMode::Log);
    list.add(entry("k1", "k2", &[]));
    list.add(entry("k2", "x", &[]));
    assert_eq!(list.remove_target("k2").unwrap().pubkey, "k2");
    assert_eq!(list.remove_target("k2").unwrap().pubkey, "k1");
    assert_eq!(list.mode(), TrustMode::Log);
    let mut list = TrustList::empty();
    list.add(entry("a", "n", &[]));
    list.add(entry("b", "n", &[]));
    assert_eq!(list.remove_by_nickname("n").unwrap().pubkey, "a");
    assert!(list.remove("a").is_none());
    list.set_mode(TrustMode::Enforce);
    assert!(!list.is_trusted("a"));
    assert!(list.is_trusted("b"));
}

#[test]
fn sessions_keep_the_last_tasks() {
    let mut s = Session::new("peer");
    for i in 0..70 {
        s.push_task(format!("t{i}"));
    }
    s.push_task("t69".to_string());
    assert_eq!(s.task_ids.len(), 64);
    assert_eq!(s.task_ids[0], "t6");
    assert_eq!(s.task_ids[63], "t69");
    s.push_task_at("t70".to_string(), 12345);
    assert_eq!(s.last_seen, 12345);
    assert_eq!(s.task_ids[0], "t7");
}

#[test]
fn idle_sessions_are_evicted() {
    let mut node = LmaoNode::new("t", "t", vec![], MockTransport::new());
    let a = node.create_session("a");
    let b = node.create_session("b");
    node.note_session_task_at(&a.id, "t", 1_000);
    node.note_session_task_at(&b.id, "t", 2_000);
    assert_eq!(node.evict_idle_sessions_at(500, 1_500), 0);
    assert_eq!(node.evict_idle_sessions_at(500, 1_501), 1);
    assert!(node.get_session(&a.id).is_none());
    assert!(node.get_session(&b.id).is_some());
    assert_eq!(node.evict_idle_sessions(0), 1);
    assert!(node.list_sessions().is_empty());
}

#[test]
fn send_outcomes_are_counted() {
    let mut node = LmaoNode::new("t", "t", vec![], MockTransport::new());
    assert!(node.task_send_finished(Ok(true)).unwrap());
    assert!(!node.task_send_finished(Ok(false)).unwrap());
    let err = logos_messaging_a2a::error::NodeError::Other("x".to_string());
    assert!(node.task_send_finished(Err(err)).is_err());
    let m = node.metrics();
    assert_eq!(m.messages_published, 3);
    assert_eq!(m.tasks_sent, 2);
    assert_eq!(m.tasks_failed, 1);
}

#[test]
fn retries_back_off_and_end() {
    let cfg = RetryConfig {
        max_attempts: 5,
        base_delay_ms: 10,
        max_delay_ms: 35,
        jitter: false,
    };
    assert_eq!(next_delay(&cfg, 1, 99), Some(10));
    assert_eq!(next_delay(&cfg, 2, 99), Some(20));
    assert_eq!(next_delay(&cfg, 3, 99), Some(35));
    assert_eq!(next_delay(&cfg, 4, 99), Some(35));
    assert_eq!(next_delay(&cfg, 5, 99), None);
    let mut node = LmaoNode::new("t", "t", vec![], MockTransport::new()).with_retry(cfg);
    assert_eq!(node.send_failed(1, 99), Some(10));
    assert_eq!(node.send_failed(5, 99), None);
    assert_eq!(node.metrics().retry_attempts, 1);
    assert_eq!(node.metrics().retries_exhausted, 1);
    let mut bare = LmaoNode::new("t", "t", vec![], MockTransport::new());
    assert_eq!(bare.send_failed(1, 99), None);
    assert_eq!(bare.metrics().retries_exhausted, 0);
}

fn card(name: &str, key: &str) -> AgentCard {
    AgentCard {
        name: name.to_string(),
        description: String::new(),
        version: "0.1.0".to_string(),
        capabilities: vec![],
        public_key: key.to_string(),
        intro_bundle: None,
    }
}

#[test]
fn discover_excludes_self() {
    let mut node = LmaoNode::new("self-announcer", "self agent", vec![], MockTransport::new());
    let own = node.card_envelope();
    let found = node.discover(vec![Some(own), None]);
    assert!(found.is_empty());
    assert_eq!(node.metrics().discoveries, 0);
}

#[test]
fn discover_ignores_non_agent_card_envelopes() {
    let mut node = LmaoNode::new("discoverer", "discoverer", vec![], MockTransport::new());
    // A non-AgentCard envelope, and bytes that are no envelope
    let cards = node.discover(vec![
        Some(A2AEnvelope::Task(Task::new("from", "to", "hello"))),
        None,
    ]);
    assert!(cards.is_empty());
}

#[test]
fn discover_all_deduplicates_prefers_registry() {
    let alice = LmaoNode::new("alice", "alice", vec![], MockTransport::new());
    let mut discoverer =
        LmaoNode::new("discoverer", "discoverer", vec![], MockTransport::new()).with_registry();
    let reg_card = AgentCard {
        name: "alice-registry".into(),
        description: "from registry".into(),
        version: "1.0.0".into(),
        capabilities: vec!["test".into()],
        public_key: alice.card.public_key.clone(),
        intro_bundle: None,
    };
    let found = discoverer.discover(vec![Some(alice.card_envelope())]);
    let all = discoverer.merge_discovered(found, Some(vec![reg_card]));
    assert_eq!(all.len(), 1);
    // Registry version should win
    assert_eq!(all[0].name, "alice-registry");
}

#[test]
fn discover_keeps_the_cards_of_others() {
    let mut node = LmaoNode::new("self", "self agent", vec![], MockTransport::new());
    let found = node.discover(vec![
        Some(A2AEnvelope::Task(Task::new("a", "b", "t"))),
        Some(A2AEnvelope::AgentCard(card("other", "02deadbeef"))),
        Some(A2AEnvelope::Ack {
            message_id: "x".to_string(),
        }),
        Some(A2AEnvelope::AgentCard(card("third", "02cafe"))),
    ]);
    let names: Vec<&str> = found.iter().map(|c| c.name.as_str()).collect();
    assert_eq!(names, vec!["other", "third"]);
    assert_eq!(node.metrics().discoveries, 2);
}

#[test]
fn merged_cards_are_one_per_key() {
    let node = LmaoNode::new("self", "self agent", vec![], MockTransport::new());
    let merged = node.merge_discovered(
        vec![card("waku-a", "a"), card("waku-b", "b"), card("again-a", "a")],
        Some(vec![card("reg-b", "b"), card("reg-c", "c"), card("me", node.pubkey())]),
    );
    let names: Vec<&str> = merged.iter().map(|c| c.name.as_str()).collect();
    assert_eq!(names, vec!["again-a", "reg-b", "reg-c"]);
    let merged = node.merge_discovered(vec![card("waku-a", "a")], None);
    assert_eq!(merged.len(), 1);
}

#[test]
fn register_without_registry_fails() {
    let node = LmaoNode::new("echo", "echo", vec![], MockTransport::new());
    let result = node.registry_card();
    assert!(result.is_err());
    assert!(result
        .unwrap_err()
        .to_string()
        .contains("no registry"));
    assert_eq!(
        node.registry_card().unwrap_err().to_string(),
        "no registry configured"
    );
    let node = node.with_registry();
    assert_eq!(node.registry_card().unwrap().name, "echo");
    assert!(registry_outcome(Ok(())).is_ok());
    assert_eq!(
        registry_outcome(Err("taken".to_string()))
            .unwrap_err()
            .to_string(),
        "taken"
    );
}

fn received(id: &str, verified: bool, load: Option<LoadStatus>) -> ReceivedPresence {
    ReceivedPresence {
        announcement: PresenceAnnouncement {
            agent_id: id.to_string(),
            name: format!("name-{id}"),
            capabilities: vec!["text".to_string()],
            waku_topic: task_topic(id),
            ttl_secs: 300,
            signature: None,
        },
        verified,
        load,
    }
}

#[test]
fn poll_presence_takes_verified_strangers_only() {
    let mut node = LmaoNode::new("t", "t", vec![], MockTransport::new());
    let own = node.pubkey().to_string();
    let status = LoadStatus {
        bucket: LoadBucket::Full,
        queue_depth: 1,
        max_concurrent: 1,
        avg_latency_ms: 0,
    };
    let count = node.poll_presence(&vec![
        received("a", true, None),
        received("b", false, None),
        received(&own, true, None),
        received("c", true, Some(status)),
        received("a", true, None),
    ]);
    assert_eq!(count, 3);
    assert_eq!(node.peers().len(), 2);
    assert!(node.peers_mut().get("a").unwrap().load.is_none());
    assert_eq!(node.peers_mut().get("c").unwrap().load, Some(status));
    assert!(node.peers_mut().get("b").is_none());
    assert!(node.peers_mut().get(&own).is_none());
    assert_eq!(node.metrics().peers_discovered, 3);
}

#[test]
fn an_announcement_is_made_from_the_card() {
    let mut node = LmaoNode::new("n", "d", vec!["text".into()], MockTransport::new());
    let ann = node.presence_announcement(600);
    assert_eq!(ann.agent_id, node.pubkey());
    assert_eq!(ann.name, "n");
    assert_eq!(ann.capabilities, vec!["text".to_string()]);
    assert_eq!(
        ann.waku_topic,
        format!("/lmao/1/task-{}/proto", node.pubkey())
    );
    assert_eq!(ann.ttl_secs, 600);
    assert!(ann.signature.is_none());
    node.announcement_sent();
    assert_eq!(node.metrics().announcements_sent, 1);
    assert_eq!(node.metrics().messages_published, 1);
}

#[test]
fn with_storage_offload_builder() {
    let config = StorageOffloadConfig::with_threshold((), 10);
    let node = LmaoNode::new("t", "t", vec![], MockTransport::new());
    assert!(!node.offloads(usize::MAX));
    let node = node.with_storage_offload(&config);
    assert!(!node.offloads(10));
    assert!(node.offloads(11));
    assert!(!node.keeps_history());
    assert!(node.with_history().keeps_history());
}

#[test]
fn clocks_agree() {
    let s = now_secs();
    let ms = now_ms();
    assert!(s > 1_600_000_000);
    assert!(ms / 1000 >= s && ms / 1000 <= s + 2);
}

#[test]
fn a_clock_reading_comes_to_whole_units() {
    let reading = Duration {
        nanos: 1_700_000_000_123_999_999,
    };
    assert_eq!(secs_at(Some(reading)), 1_700_000_000);
    assert_eq!(millis_at(Some(reading)), 1_700_000_000_123);
    assert_eq!(secs_at(Some(Duration::from_millis(999))), 0);
    assert_eq!(secs_at(Some(Duration::from_secs(u64::MAX))), u64::MAX);
    assert_eq!(millis_at(Some(Duration::from_millis(u64::MAX))), u64::MAX);
}

#[test]
fn a_clock_before_the_epoch_reads_zero() {
    assert_eq!(secs_at(None), 0);
    assert_eq!(millis_at(None), 0);
}

#[test]
fn alice_decrypts_envelope_addressed_to_her() {
    let friend = |pubkey: &str, key: Option<&str>| TrustEntry {
        pubkey: pubkey.to_string(),
        nickname: "friend".to_string(),
        capabilities: vec![],
        notes: None,
        added_at: 0,
        encryption_pubkey: key.map(String::from),
    };
    let identity = |key: &str| AgentIdentity {
        public_key: key.to_string(),
    };
    let alice = LmaoNode::new("alice", "alice", vec!["text".into()], MockTransport::new());
    let bob = LmaoNode::new("bob", "bob", vec!["text".into()], MockTransport::new());
    let alice_pk = alice.pubkey().to_string();
    let bob_pk = bob.pubkey().to_string();
    let mut friends_of_alice = TrustList::with_mode(TrustMode::Enforce);
    friends_of_alice.add(friend(&bob_pk, Some("bob-x")));
    let mut friends_of_bob = TrustList::with_mode(TrustMode::Enforce);
    friends_of_bob.add(friend("02keyless", None));
    friends_of_bob.add(friend(&alice_pk, Some("alice-x")));
    let mut alice = alice
        .with_identity(identity("alice-x"))
        .with_trust_list(friends_of_alice);
    let mut bob = bob.with_trust_list(friends_of_bob).with_max_concurrent(1);
    assert!(bob.load_reports().is_empty());
    bob = bob.with_identity(identity("bob-x"));

    bob.load_inc();
    assert!(bob.is_at_capacity());
    assert_eq!(bob.current_load_status().bucket, LoadBucket::Full);

    let reports = bob.load_reports();
    assert_eq!(reports.len(), 1);
    assert_eq!(reports[0].recipient, alice_pk);
    assert_eq!(reports[0].encryption_pubkey, "alice-x");

    let recipients = vec!["02somebody".to_string(), reports[0].recipient.clone()];
    assert_eq!(
        alice.report_to_open(&bob_pk, &recipients),
        Some((1, "bob-x".to_string()))
    );
    assert_eq!(alice.report_to_open("02stranger", &recipients), None);
    assert_eq!(alice.report_to_open(&bob_pk, &vec![]), None);

    let count = alice.poll_presence(&vec![ReceivedPresence {
        announcement: bob.presence_announcement(300),
        verified: true,
        load: Some(reports[0].load),
    }]);
    assert_eq!(count, 1);
    let load = alice.peers_mut().get(&bob_pk).unwrap().load.unwrap();
    assert_eq!(load.bucket, LoadBucket::Full);
    assert_eq!(load.queue_depth, 1);
    assert_eq!(load.max_concurrent, 1);
}

#[test]
fn announce_presence_includes_capabilities_and_topic() {
    let alice = LmaoNode::new(
        "alice",
        "alice agent",
        vec!["summarize".into(), "code".into()],
        MockTransport::new(),
    );
    let mut bob = LmaoNode::new("bob", "bob", vec![], MockTransport::new());
    bob.poll_presence(&vec![ReceivedPresence {
        announcement: alice.presence_announcement(300),
        verified: true,
        load: None,
    }]);
    let peers = bob.peers_mut().all_live();
    assert_eq!(peers[0].1.capabilities, vec!["summarize", "code"]);
    assert_eq!(peers[0].1.waku_topic, task_topic(alice.pubkey()));
}

#[test]
fn a_session_keeps_its_last_tasks() {
    let mut node = LmaoNode::new("t", "t", vec![], MockTransport::new());
    let s = node.create_session("02deadbeef");
    let mut sent = Vec::new();
    for i in 0..65 {
        let task = node.session_task(&s.id, &format!("msg-{i}")).unwrap();
        node.note_session_task_at(&s.id, &task.id, 1_000 + i);
        sent.push(task.id);
    }
    let x = node.get_session(&s.id).unwrap();
    assert_eq!(Session::MAX_TASK_IDS, 64);
    assert_eq!(x.task_ids.len(), 64);
    assert_eq!(x.task_ids, sent[1..]);
    assert_eq!(x.task_ids.last(), sent.last());
    assert!(!x.task_ids.contains(&sent[0]));
    assert_eq!(x.last_seen, 1_064);
}
