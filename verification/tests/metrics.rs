use logos_messaging_a2a::metrics::Metrics;

#[test]
fn new_metrics_are_zeroed() {
    let m = Metrics::new();
    let snap = m.snapshot();
    assert_eq!(snap.tasks_sent, 0);
    assert_eq!(snap.tasks_received, 0);
    assert_eq!(snap.tasks_failed, 0);
    assert_eq!(snap.messages_published, 0);
    assert_eq!(snap.messages_received, 0);
    assert_eq!(snap.discoveries, 0);
    assert_eq!(snap.announcements_sent, 0);
    assert_eq!(snap.peers_discovered, 0);
    assert_eq!(snap.encryptions, 0);
    assert_eq!(snap.decryptions, 0);
    assert_eq!(snap.sessions_created, 0);
    assert_eq!(snap.delegations_sent, 0);
    assert_eq!(snap.stream_chunks_sent, 0);
    assert_eq!(snap.stream_chunks_received, 0);
    assert_eq!(snap.retry_attempts, 0);
    assert_eq!(snap.retries_exhausted, 0);
    assert_eq!(snap.responses_sent, 0);
}

#[test]
fn default_is_zeroed() {
    let m = Metrics::default();
    assert_eq!(m.snapshot().tasks_sent, 0);
}

#[test]
fn inc_increments_by_one() {
    let mut m = Metrics::new();
    Metrics::inc(&mut m.tasks_sent);
    Metrics::inc(&mut m.tasks_sent);
    Metrics::inc(&mut m.tasks_sent);
    assert_eq!(m.snapshot().tasks_sent, 3);
}

#[test]
fn inc_by_increments_by_n() {
    let mut m = Metrics::new();
    Metrics::inc_by(&mut m.tasks_received, 5);
    Metrics::inc_by(&mut m.tasks_received, 3);
    assert_eq!(m.snapshot().tasks_received, 8);
}

#[test]
fn snapshot_is_independent_of_later_increments() {
    let mut m = Metrics::new();
    Metrics::inc(&mut m.tasks_sent);
    let snap1 = m.snapshot();
    Metrics::inc(&mut m.tasks_sent);
    let snap2 = m.snapshot();
    assert_eq!(snap1.tasks_sent, 1);
    assert_eq!(snap2.tasks_sent, 2);
}

#[test]
fn each_counter_is_independent() {
    let mut m = Metrics::new();
    Metrics::inc(&mut m.tasks_sent);
    Metrics::inc(&mut m.tasks_received);
    Metrics::inc(&mut m.tasks_received);
    Metrics::inc(&mut m.encryptions);
    let snap = m.snapshot();
    assert_eq!(snap.tasks_sent, 1);
    assert_eq!(snap.tasks_received, 2);
    assert_eq!(snap.encryptions, 1);
    assert_eq!(snap.tasks_failed, 0);
}

#[test]
fn snapshot_equality() {
    let m = Metrics::new();
    let s1 = m.snapshot();
    let s2 = m.snapshot();
    assert_eq!(s1, s2);
}

#[test]
fn snapshot_clone() {
    let mut m = Metrics::new();
    Metrics::inc(&mut m.tasks_sent);
    let snap = m.snapshot();
    let cloned = snap.clone();
    assert_eq!(snap, cloned);
}

