use repost_detector::config::CacheConfig;
use repost_detector::engine::{Candidate, Engine, Verdict};
use repost_detector::fingerprint::Fingerprint;

fn engine(capacity: u64) -> Engine {
    Engine::new(CacheConfig::new(capacity, false, false).unwrap())
}

fn s(x: &str) -> String {
    x.to_string()
}

#[test]
fn link_posted_twice_yields_one_attributed_notice() {
    let mut e = engine(8);
    let url = s("https://example.test/pic.png");
    let first = e.process_candidates(
        &vec![Candidate::Link { url: url.clone() }],
        &s("alice"),
        &s("msg-1"),
        1_000,
    );
    assert!(first.is_empty());
    let second = e.process_candidates(
        &vec![Candidate::Link { url: url.clone() }],
        &s("bob"),
        &s("msg-2"),
        2_000,
    );
    assert_eq!(second.len(), 1);
    assert_eq!(second[0].prior_submitter, "alice");
    assert_eq!(second[0].prior_origin, "msg-1");
    assert_eq!(second[0].days_ago, 0);
}

#[test]
fn distinct_urls_are_distinct() {
    let mut e = engine(8);
    let first = e.process_candidates(
        &vec![Candidate::Link { url: s("https://a.test/x") }],
        &s("alice"),
        &s("msg-1"),
        0,
    );
    assert!(first.is_empty());
    // Exact string match: a trailing slash makes a different link.
    let second = e.process_candidates(
        &vec![Candidate::Link { url: s("https://a.test/x/") }],
        &s("bob"),
        &s("msg-2"),
        0,
    );
    assert!(second.is_empty());
}

#[test]
fn capacity_bound_evicts_oldest_link() {
    let mut e = engine(2);
    for (i, u) in ["u1", "u2", "u3"].iter().enumerate() {
        let ns = e.process_candidates(
            &vec![Candidate::Link { url: s(u) }],
            &s("alice"),
            &s("m"),
            i as i64,
        );
        assert!(ns.is_empty());
    }
    // "u1" was the oldest of three inserts into a cache of two: evicted,
    // so posting it again is novel once more.
    let ns = e.process_candidates(&vec![Candidate::Link { url: s("u1") }], &s("bob"), &s("m"), 10);
    assert!(ns.is_empty());
    // "u3" is still cached.
    let ns = e.process_candidates(&vec![Candidate::Link { url: s("u3") }], &s("bob"), &s("m"), 10);
    assert_eq!(ns.len(), 1);
}

#[test]
fn same_content_from_two_submitters_stored_once() {
    // Two submissions of the same novel content, serialized by the
    // engine's exclusive ownership: the loser observes the winner's record.
    let mut e = engine(8);
    let v1 = e.evaluate_link(&s("https://race.test/r"), &s("alice"), &s("m1"), 0);
    assert!(matches!(v1, Verdict::Novel));
    let v2 = e.evaluate_link(&s("https://race.test/r"), &s("bob"), &s("m2"), 0);
    match v2 {
        Verdict::Duplicate(n) => assert_eq!(n.prior_submitter, "alice"),
        _ => panic!("second submission must observe the first record"),
    }
    // Same race on an identical image fingerprint.
    let fp = Fingerprint::new([9, 9, 9, 9, 0, 0, 0, 0]);
    let v1 = e.evaluate_image(&fp, &s("alice"), &s("m3"), 0);
    assert!(matches!(v1, Verdict::Novel));
    let v2 = e.evaluate_image(&fp, &s("bob"), &s("m4"), 0);
    assert!(matches!(v2, Verdict::Duplicate(_)));
}

#[test]
fn embed_duplicate_reported_once() {
    let mut e = engine(8);
    let fp = Fingerprint::new([1, 2, 3, 4, 5, 6, 7, 8]);
    let embed = |url: &str| Candidate::Embed { url: s(url), media: Some(fp) };
    let first = e.process_candidates(&vec![embed("https://e.test/a")], &s("alice"), &s("m1"), 0);
    assert!(first.is_empty());
    // Link and image both duplicate, but the repost is reported once,
    // through the link path.
    let second = e.process_candidates(&vec![embed("https://e.test/a")], &s("bob"), &s("m2"), 0);
    assert_eq!(second.len(), 1);
    assert_eq!(second[0].prior_submitter, "alice");
    // The embed image was still cached on the first post: the same image
    // as an attachment is a duplicate.
    let third = e.process_candidates(
        &vec![Candidate::Attachment { fp }],
        &s("carol"),
        &s("m3"),
        0,
    );
    assert_eq!(third.len(), 1);
}

#[test]
fn ignored_categories_are_excluded() {
    let mut link_blind = Engine::new(CacheConfig::new(4, true, false).unwrap());
    let ns = link_blind.process_candidates(
        &vec![Candidate::Link { url: s("https://i.test/x") }],
        &s("alice"),
        &s("m1"),
        0,
    );
    assert!(ns.is_empty());
    let ns = link_blind.process_candidates(
        &vec![Candidate::Link { url: s("https://i.test/x") }],
        &s("bob"),
        &s("m2"),
        0,
    );
    // Not even cached the first time: still no notice.
    assert!(ns.is_empty());

    let mut attachment_blind = Engine::new(CacheConfig::new(4, false, true).unwrap());
    let fp = Fingerprint::new([7, 7, 7, 7, 7, 7, 7, 7]);
    let ns = attachment_blind.process_candidates(
        &vec![Candidate::Attachment { fp }],
        &s("alice"),
        &s("m1"),
        0,
    );
    assert!(ns.is_empty());
    let ns = attachment_blind.process_candidates(
        &vec![Candidate::Attachment { fp }],
        &s("bob"),
        &s("m2"),
        0,
    );
    assert!(ns.is_empty());
}

#[test]
fn end_to_end_example() {
    // capacity = 3; A posts a link at T0; B reposts it 18 hours later
    // (same day: daysAgo = 0); C posts an image whose fingerprint is at
    // distance 1 from one stored at T0, 30 hours later (daysAgo = 1).
    let t0: i64 = 1_000_000;
    let hour: i64 = 3_600;
    let mut e = engine(3);

    let stored_fp = Fingerprint::new([0b1010_0000, 0, 0, 0, 0, 0, 0, 0]);
    let first = e.process_candidates(
        &vec![
            Candidate::Link { url: s("https://a.test/x.png") },
            Candidate::Attachment { fp: stored_fp },
        ],
        &s("userA"),
        &s("msg-A"),
        t0,
    );
    assert!(first.is_empty());

    let second = e.process_candidates(
        &vec![Candidate::Link { url: s("https://a.test/x.png") }],
        &s("userB"),
        &s("msg-B"),
        t0 + 18 * hour,
    );
    assert_eq!(second.len(), 1);
    assert_eq!(second[0].prior_submitter, "userA");
    assert_eq!(second[0].days_ago, 0);
    assert_eq!(second[0].prior_origin, "msg-A");

    let near_fp = Fingerprint::new([0b1010_0001, 0, 0, 0, 0, 0, 0, 0]);
    let third = e.process_candidates(
        &vec![Candidate::Attachment { fp: near_fp }],
        &s("userC"),
        &s("msg-C"),
        t0 + 30 * hour,
    );
    assert_eq!(third.len(), 1);
    assert_eq!(third[0].prior_submitter, "userA");
    assert_eq!(third[0].days_ago, 1);
}
