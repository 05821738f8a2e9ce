use logos_messaging_a2a::history::{get, list, HistoryEntry, HistoryFilter};

fn entry(task_id: &str, direction: &str, ts: u64) -> HistoryEntry {
    HistoryEntry {
        task_id: task_id.into(),
        parent_id: String::new(),
        created_at_ms: ts,
        direction: direction.into(),
        peer_pubkey: "02ab".into(),
        peer_name: "alice".into(),
        capability: "text".into(),
        text: "hi".into(),
        body: "bye".into(),
        cid: String::new(),
        success: true,
        error: None,
        elapsed_ms: 42,
        session_id: String::new(),
    }
}

fn ids(rows: &[HistoryEntry]) -> Vec<&str> {
    rows.iter().map(|e| e.task_id.as_str()).collect()
}

#[test]
fn append_and_list_returns_newest_first() {
    let log = vec![
        Some(entry("a", "delegated", 100)),
        Some(entry("b", "delegated", 300)),
        Some(entry("c", "delegated", 200)),
    ];
    let out = list(log, 10, 0, &HistoryFilter::default());
    assert_eq!(ids(&out), vec!["b", "c", "a"]);
}

#[test]
fn list_filters_by_direction() {
    let log = vec![
        Some(entry("a", "delegated", 100)),
        Some(entry("b", "received", 200)),
    ];
    let f = HistoryFilter {
        direction: Some("received".into()),
        ..Default::default()
    };
    let out = list(log, 10, 0, &f);
    assert_eq!(out.len(), 1);
    assert_eq!(out[0].task_id, "b");
}

#[test]
fn list_filters_by_capability_and_time() {
    let mut other = entry("b", "delegated", 200);
    other.capability = "code".into();
    let log = vec![
        Some(entry("a", "delegated", 100)),
        Some(other),
        Some(entry("c", "delegated", 300)),
    ];
    let f = HistoryFilter {
        capability: Some("text".into()),
        ..Default::default()
    };
    assert_eq!(ids(&list(log.clone(), 10, 0, &f)), vec!["c", "a"]);
    let f = HistoryFilter {
        since_ms: Some(200),
        ..Default::default()
    };
    assert_eq!(ids(&list(log, 10, 0, &f.clone())), vec!["c", "b"]);
}

#[test]
fn list_paginates_with_offset_and_limit() {
    let log: Vec<Option<HistoryEntry>> = (0..5)
        .map(|i| Some(entry(&format!("t{i}"), "delegated", i)))
        .collect();
    let out = list(log.clone(), 2, 1, &HistoryFilter::default());
    // newest first: t4, t3, t2, t1, t0 — skip 1 → t3, take 2 → t3, t2
    assert_eq!(ids(&out), vec!["t3", "t2"]);
    assert_eq!(
        ids(&list(log.clone(), 10, 4, &HistoryFilter::default())),
        vec!["t0"]
    );
    assert!(list(log.clone(), 10, 9, &HistoryFilter::default()).is_empty());
    assert!(list(log, 0, 0, &HistoryFilter::default()).is_empty());
}

#[test]
fn rows_of_one_moment_keep_their_order() {
    let log = vec![
        Some(entry("a", "delegated", 5)),
        Some(entry("b", "delegated", 7)),
        Some(entry("c", "delegated", 5)),
        Some(entry("d", "delegated", 7)),
    ];
    let out = list(log, 10, 0, &HistoryFilter::default());
    assert_eq!(ids(&out), vec!["b", "d", "a", "c"]);
}

#[test]
fn get_returns_latest_match() {
    let mut a = entry("a", "received", 100);
    a.body = "first".into();
    let mut a2 = entry("a", "received", 50);
    a2.body = "second".into();
    let log = vec![Some(a), Some(entry("b", "received", 1)), Some(a2), None];
    let got = get(log.clone(), "a").unwrap();
    assert_eq!(got.body, "second");
    assert!(get(log, "z").is_none());
}

#[test]
fn missing_file_yields_empty_list() {
    let out = list(Vec::new(), 10, 0, &HistoryFilter::default());
    assert!(out.is_empty());
}

#[test]
fn corrupt_line_is_skipped_not_fatal() {
    let log = vec![Some(entry("a", "delegated", 100)), None];
    let out = list(log, 10, 0, &HistoryFilter::default());
    assert_eq!(out.len(), 1);
    assert_eq!(out[0].task_id, "a");
}
