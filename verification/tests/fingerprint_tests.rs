use repost_detector::config::CacheConfig;
use repost_detector::engine::{Candidate, Engine};
use repost_detector::fingerprint::{Fingerprint, popcount_byte};

fn s(x: &str) -> String {
    x.to_string()
}

#[test]
fn popcount_values() {
    assert_eq!(popcount_byte(0), 0);
    assert_eq!(popcount_byte(1), 1);
    assert_eq!(popcount_byte(3), 2);
    assert_eq!(popcount_byte(0b1010_1010), 4);
    assert_eq!(popcount_byte(255), 8);
}

#[test]
fn distance_counts_differing_bits() {
    let a = Fingerprint::new([0, 0, 0, 0, 0, 0, 0, 0]);
    let b = Fingerprint::new([1, 0, 0, 0, 0, 0, 0, 0]);
    let c = Fingerprint::new([3, 0, 0, 0, 0, 0, 0, 4]);
    assert_eq!(a.distance(&a), 0);
    assert_eq!(a.distance(&b), 1);
    assert_eq!(b.distance(&a), 1);
    assert_eq!(a.distance(&c), 3);
    assert_eq!(b.distance(&c), 2);
    let all_ones = Fingerprint::new([255; 8]);
    assert_eq!(a.distance(&all_ones), 64);
}

#[test]
fn exact_equality() {
    let a = Fingerprint::new([5, 6, 7, 8, 9, 10, 11, 12]);
    let b = Fingerprint::new([5, 6, 7, 8, 9, 10, 11, 12]);
    let c = Fingerprint::new([5, 6, 7, 8, 9, 10, 11, 13]);
    assert!(a.is_same(&b));
    assert!(!a.is_same(&c));
}

#[test]
fn near_fingerprints_are_the_same_content() {
    // Distance 0 and 1 both dedup; distance 2 does not.
    let base = Fingerprint::new([0b1100_0000, 0, 0, 0, 0, 0, 0, 0]);
    let dist1 = Fingerprint::new([0b1100_0001, 0, 0, 0, 0, 0, 0, 0]);
    let dist2 = Fingerprint::new([0b1100_0011, 0, 0, 0, 0, 0, 0, 0]);
    assert!(base.is_near(&base));
    assert!(base.is_near(&dist1));
    assert!(!base.is_near(&dist2));

    let mut e = Engine::new(CacheConfig::new(8, false, false).unwrap());
    let ns = e.process_candidates(
        &vec![Candidate::Attachment { fp: base }],
        &s("alice"),
        &s("m1"),
        0,
    );
    assert!(ns.is_empty());
    let ns = e.process_candidates(
        &vec![Candidate::Attachment { fp: dist1 }],
        &s("bob"),
        &s("m2"),
        0,
    );
    assert_eq!(ns.len(), 1);
    assert_eq!(ns[0].prior_submitter, "alice");

    let mut e2 = Engine::new(CacheConfig::new(8, false, false).unwrap());
    let ns = e2.process_candidates(
        &vec![Candidate::Attachment { fp: base }],
        &s("alice"),
        &s("m1"),
        0,
    );
    assert!(ns.is_empty());
    let ns = e2.process_candidates(
        &vec![Candidate::Attachment { fp: dist2 }],
        &s("bob"),
        &s("m2"),
        0,
    );
    assert!(ns.is_empty());
}
