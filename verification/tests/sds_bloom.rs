use logos_messaging_a2a::sds::bloom::{SdsBloomFilter, BLOOM_BYTES};

#[test]
fn a_fresh_filter_holds_nothing() {
    let f = SdsBloomFilter::new();
    assert!(!f.check(""));
    assert!(!f.check("msg-1"));
    assert!(f.to_bytes().iter().all(|b| *b == 0));
}

#[test]
fn added_ids_stay() {
    let mut f = SdsBloomFilter::new();
    for i in 0..500 {
        f.set(&format!("id-{i}"));
    }
    for i in 0..500 {
        assert!(f.check(&format!("id-{i}")));
        assert!(f.probably_contains(&format!("id-{i}")));
    }
    let strangers = (0..500)
        .filter(|i| f.check(&format!("other-{i}")))
        .count();
    assert!(strangers < 5);
}

#[test]
fn an_id_sets_at_most_eight_bits() {
    let mut f = SdsBloomFilter::new();
    f.set("msg-1");
    let bits: u32 = f.to_bytes().iter().map(|b| b.count_ones()).sum();
    assert!(bits >= 1 && bits <= 8);
}

#[test]
fn a_filter_reads_back_from_its_bytes() {
    let mut f = SdsBloomFilter::new();
    f.set("a");
    let bytes = f.to_bytes();
    assert_eq!(bytes.len(), BLOOM_BYTES);
    let g = SdsBloomFilter::from_bytes(&bytes).unwrap();
    assert!(g.check("a"));
    assert!(!g.check("b"));
    assert_eq!(g.to_bytes(), bytes);
}

#[test]
fn bytes_of_another_size_are_no_filter() {
    assert!(SdsBloomFilter::from_bytes(b"").is_none());
    assert!(SdsBloomFilter::from_bytes(b"short").is_none());
    assert!(SdsBloomFilter::from_bytes(&[0u8; 100]).is_none());
    assert!(SdsBloomFilter::from_bytes(&vec![0u8; BLOOM_BYTES + 1]).is_none());
}
