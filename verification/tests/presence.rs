use logos_messaging_a2a::agent::PresenceAnnouncement;
use logos_messaging_a2a::presence::{PeerInfo, PeerMap};

fn make_announcement(
    agent_id: &str,
    name: &str,
    caps: Vec<&str>,
    ttl: u64,
) -> PresenceAnnouncement {
    PresenceAnnouncement {
        agent_id: agent_id.to_string(),
        name: name.to_string(),
        capabilities: caps.into_iter().map(String::from).collect(),
        waku_topic: format!("/lmao/1/task/{}/proto", agent_id),
        ttl_secs: ttl,
        signature: None,
    }
}

#[test]
fn test_peer_map_insert_and_get() {
    let mut map = PeerMap::new();
    assert!(map.is_empty());

    let ann = make_announcement("02aa", "echo", vec!["text"], 300);
    map.update(&ann);

    assert_eq!(map.len(), 1);
    let info = map.get("02aa").unwrap();
    assert_eq!(info.name, "echo");
    assert_eq!(info.capabilities, vec!["text"]);
}

#[test]
fn test_peer_map_update_refreshes() {
    let mut map = PeerMap::new();
    let ann1 = make_announcement("02aa", "echo-v1", vec!["text"], 300);
    map.update(&ann1);
    assert_eq!(map.get("02aa").unwrap().name, "echo-v1");

    let ann2 = make_announcement("02aa", "echo-v2", vec!["text", "summarize"], 600);
    map.update(&ann2);
    let info = map.get("02aa").unwrap();
    assert_eq!(info.name, "echo-v2");
    assert_eq!(info.capabilities, vec!["text", "summarize"]);
    assert_eq!(info.ttl_secs, 600);
    assert_eq!(map.len(), 1);
}

#[test]
fn test_find_by_capability() {
    let mut map = PeerMap::new();
    map.update(&make_announcement(
        "02aa",
        "summarizer",
        vec!["summarize", "text"],
        300,
    ));
    map.update(&make_announcement(
        "02bb",
        "translator",
        vec!["translate", "text"],
        300,
    ));
    map.update(&make_announcement("02cc", "coder", vec!["code"], 300));

    let text_peers = map.find_by_capability("text");
    assert_eq!(text_peers.len(), 2);

    let code_peers = map.find_by_capability("code");
    assert_eq!(code_peers.len(), 1);
    assert_eq!(code_peers[0].0, "02cc");

    assert!(map.find_by_capability("nonexistent").is_empty());
}

#[test]
fn test_expired_peer_not_returned() {
    let mut map = PeerMap::new();
    let ann = make_announcement("02aa", "expired", vec!["text"], 0);
    map.update(&ann);

    assert_eq!(map.len(), 1);
    assert!(map.get("02aa").is_none());
    assert!(map.find_by_capability("text").is_empty());
    assert!(map.all_live().is_empty());
}

#[test]
fn test_evict_expired() {
    let mut map = PeerMap::new();
    map.update(&make_announcement("02aa", "alive", vec!["text"], 9999));
    map.update(&make_announcement("02bb", "dead", vec!["text"], 0));

    assert_eq!(map.len(), 2);
    let evicted = map.evict_expired();
    assert_eq!(evicted, 1);
    assert_eq!(map.len(), 1);
    assert!(map.get("02aa").is_some());
}

#[test]
fn test_all_live() {
    let mut map = PeerMap::new();
    map.update(&make_announcement("02aa", "a", vec!["text"], 9999));
    map.update(&make_announcement("02bb", "b", vec!["code"], 9999));

    let live = map.all_live();
    assert_eq!(live.len(), 2);
}

#[test]
fn test_peer_info_is_expired_at() {
    let info = PeerInfo {
        name: "test".to_string(),
        capabilities: vec![],
        waku_topic: "".to_string(),
        ttl_secs: 300,
        last_seen: 1000,
        load: None,
    };
    assert!(!info.is_expired_at(1100));
    assert!(!info.is_expired_at(1300));
    assert!(info.is_expired_at(1301));
}

#[test]
fn test_peer_map_get_nonexistent_returns_none() {
    let mut map = PeerMap::new();
    assert!(map.get("nonexistent").is_none());
}

#[test]
fn test_peer_map_find_by_capability_empty_map() {
    let mut map = PeerMap::new();
    assert!(map.find_by_capability("anything").is_empty());
}

#[test]
fn test_peer_map_all_live_empty_map() {
    let mut map = PeerMap::new();
    assert!(map.all_live().is_empty());
}

#[test]
fn test_evict_expired_on_empty_map() {
    let mut map = PeerMap::new();
    assert_eq!(map.evict_expired(), 0);
}

#[test]
fn test_evict_expired_all_alive() {
    let mut map = PeerMap::new();
    map.update(&make_announcement("a", "a", vec!["x"], 9999));
    map.update(&make_announcement("b", "b", vec!["y"], 9999));
    assert_eq!(map.evict_expired(), 0);
    assert_eq!(map.len(), 2);
}

#[test]
fn test_evict_expired_all_dead() {
    let mut map = PeerMap::new();
    map.update(&make_announcement("a", "a", vec!["x"], 0));
    map.update(&make_announcement("b", "b", vec!["y"], 0));
    assert_eq!(map.evict_expired(), 2);
    assert_eq!(map.len(), 0);
}

#[test]
fn test_peer_info_is_expired_at_boundary() {
    let info = PeerInfo {
        name: "test".to_string(),
        capabilities: vec![],
        waku_topic: "".to_string(),
        ttl_secs: 300,
        last_seen: 1000,
        load: None,
    };
    // Exactly at TTL boundary: 1000 + 300 = 1300, elapsed = 300, not > 300
    assert!(!info.is_expired_at(1300));
    // One second past: elapsed = 301 > 300
    assert!(info.is_expired_at(1301));
}

#[test]
fn test_peer_info_zero_ttl_always_expired() {
    let info = PeerInfo {
        name: "test".to_string(),
        capabilities: vec![],
        waku_topic: "".to_string(),
        ttl_secs: 0,
        last_seen: 1000,
        load: None,
    };
    assert!(info.is_expired_at(1000));
    assert!(info.is_expired_at(0));
}

#[test]
fn test_peer_info_is_expired_at_saturating_sub() {
    // now_secs < last_seen — should not panic or wrap
    let info = PeerInfo {
        name: "test".to_string(),
        capabilities: vec![],
        waku_topic: "".to_string(),
        ttl_secs: 300,
        last_seen: 1000,
        load: None,
    };
    // now_secs = 500 < last_seen = 1000, saturating_sub gives 0, 0 <= 300
    assert!(!info.is_expired_at(500));
}

#[test]
fn test_update_same_peer_overwrites() {
    let mut map = PeerMap::new();
    map.update(&make_announcement("peer1", "name-v1", vec!["cap1"], 300));
    assert_eq!(map.get("peer1").unwrap().name, "name-v1");

    map.update(&make_announcement(
        "peer1",
        "name-v2",
        vec!["cap1", "cap2"],
        600,
    ));
    let info = map.get("peer1").unwrap();
    assert_eq!(info.name, "name-v2");
    assert_eq!(info.capabilities, vec!["cap1", "cap2"]);
    assert_eq!(info.ttl_secs, 600);
    assert_eq!(map.len(), 1); // still one entry
}

#[test]
fn test_find_by_capability_with_empty_capability_string() {
    let mut map = PeerMap::new();
    map.update(&make_announcement("a", "a", vec![""], 9999));
    // Should find it when searching for empty string
    assert_eq!(map.find_by_capability("").len(), 1);
    assert!(map.find_by_capability("text").is_empty());
}

#[test]
fn test_peer_map_many_peers() {
    let mut map = PeerMap::new();
    for i in 0..100 {
        map.update(&make_announcement(
            &format!("peer{i}"),
            &format!("agent-{i}"),
            vec!["common"],
            9999,
        ));
    }
    assert_eq!(map.len(), 100);
    assert_eq!(map.all_live().len(), 100);
    assert_eq!(map.find_by_capability("common").len(), 100);
}

#[test]
fn presence_test_peer_map_default_trait() {
    let map = PeerMap::default();
    assert!(map.is_empty());
    assert_eq!(map.len(), 0);
}

#[test]
fn test_find_by_capability_mixed_expired_and_live() {
    let mut map = PeerMap::new();
    map.update(&make_announcement("live", "live-agent", vec!["text"], 9999));
    map.update(&make_announcement("dead", "dead-agent", vec!["text"], 0));

    let found = map.find_by_capability("text");
    assert_eq!(found.len(), 1);
    assert_eq!(found[0].0, "live");
}

#[test]
fn test_peer_with_multiple_capabilities() {
    let mut map = PeerMap::new();
    map.update(&make_announcement(
        "multi",
        "multi-agent",
        vec!["text", "code", "summarize"],
        9999,
    ));

    assert_eq!(map.find_by_capability("text").len(), 1);
    assert_eq!(map.find_by_capability("code").len(), 1);
    assert_eq!(map.find_by_capability("summarize").len(), 1);
    assert!(map.find_by_capability("translate").is_empty());
}

#[test]
fn test_peer_info_waku_topic_stored() {
    let mut map = PeerMap::new();
    let ann = make_announcement("peer1", "agent", vec!["text"], 9999);
    map.update(&ann);

    let info = map.get("peer1").unwrap();
    assert_eq!(info.waku_topic, "/lmao/1/task/peer1/proto");
}

#[test]
fn test_evict_expired_mixed_ttls() {
    let mut map = PeerMap::new();
    map.update(&make_announcement("a", "a", vec![], 0)); // expired immediately
    map.update(&make_announcement("b", "b", vec![], 9999)); // alive
    map.update(&make_announcement("c", "c", vec![], 0)); // expired immediately
    map.update(&make_announcement("d", "d", vec![], 9999)); // alive

    assert_eq!(map.len(), 4);
    let evicted = map.evict_expired();
    assert_eq!(evicted, 2);
    assert_eq!(map.len(), 2);
    assert!(map.get("b").is_some());
    assert!(map.get("d").is_some());
    assert!(map.get("a").is_none());
    assert!(map.get("c").is_none());
}

#[test]
fn test_all_live_excludes_expired() {
    let mut map = PeerMap::new();
    map.update(&make_announcement("live1", "a", vec!["x"], 9999));
    map.update(&make_announcement("dead1", "b", vec!["y"], 0));
    map.update(&make_announcement("live2", "c", vec!["z"], 9999));

    let live = map.all_live();
    assert_eq!(live.len(), 2);

    let ids: Vec<&str> = live.iter().map(|(id, _)| id.as_str()).collect();
    assert!(ids.contains(&"live1"));
    assert!(ids.contains(&"live2"));
}

#[test]
fn test_peer_info_is_expired_at_large_ttl() {
    let info = PeerInfo {
        name: "test".to_string(),
        capabilities: vec![],
        waku_topic: "".to_string(),
        ttl_secs: u64::MAX,
        last_seen: 0,
        load: None,
    };
    // With max TTL, should never expire even at max time
    assert!(!info.is_expired_at(u64::MAX));
}

#[test]
fn test_update_refreshes_last_seen() {
    let mut map = PeerMap::new();
    map.update(&make_announcement("peer", "agent", vec!["x"], 9999));

    let info1 = map.get("peer").unwrap();
    // Update again — last_seen should be >= previous
    map.update(&make_announcement("peer", "agent", vec!["x"], 9999));
    let info2 = map.get("peer").unwrap();

    assert!(info2.last_seen >= info1.last_seen);
}

#[test]
fn test_peer_info_equality() {
    let a = PeerInfo {
        name: "test".to_string(),
        capabilities: vec!["x".to_string()],
        waku_topic: "/topic".to_string(),
        ttl_secs: 300,
        last_seen: 1000,
        load: None,
    };
    let b = a.clone();
    assert_eq!(a, b);
}

#[test]
fn test_get_returns_none_after_evict() {
    let mut map = PeerMap::new();
    map.update(&make_announcement("peer", "agent", vec!["x"], 0));

    // Peer exists but expired
    assert!(map.get("peer").is_none());

    // Evict clears it entirely
    map.evict_expired();
    assert_eq!(map.len(), 0);
    assert!(map.get("peer").is_none());
}


#[test]
fn is_expired_goes_by_the_wall_clock() {
    let mut map = PeerMap::new();
    map.update(&make_announcement("02aa", "echo", vec!["text"], 300));
    let fresh = map.get("02aa").unwrap();
    assert!(!fresh.is_expired());

    let long_ago = PeerInfo {
        last_seen: 1000,
        ..fresh
    };
    assert!(long_ago.is_expired());
}

#[test]
fn queries_evict_stale_entries() {
    let mut map = PeerMap::new();
    map.update(&make_announcement("02aa", "expired", vec!["text"], 0));
    assert_eq!(map.len(), 1);
    assert!(map.get("02aa").is_none());
    assert_eq!(map.len(), 0);

    map.update(&make_announcement("02aa", "expired", vec!["text"], 0));
    map.update(&make_announcement("02bb", "live", vec!["text"], 300));
    assert_eq!(map.find_by_capability("text").len(), 1);
    assert_eq!(map.len(), 1);

    map.update(&make_announcement("02aa", "expired", vec!["text"], 0));
    assert_eq!(map.all_live().len(), 1);
    assert_eq!(map.len(), 1);
}
