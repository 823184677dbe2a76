use repost_detector::config::CacheConfig;
use repost_detector::engine::{Candidate, Engine, Verdict};
use repost_detector::fingerprint::Fingerprint;
use repost_detector::provider::AllowItem;

fn engine() -> Engine {
    Engine::new(CacheConfig::new(8, false, false).unwrap())
}

fn s(x: &str) -> String {
    x.to_string()
}

#[test]
fn allowed_url_never_reported_nor_cached() {
    let mut e = engine();
    e.allow_url(s("https://ok.test/meme.png"));
    for i in 0..5 {
        let ns = e.process_candidates(
            &vec![Candidate::Link { url: s("https://ok.test/meme.png") }],
            &s("alice"),
            &s("m"),
            i,
        );
        assert!(ns.is_empty());
    }
    let v = e.evaluate_link(&s("https://ok.test/meme.png"), &s("bob"), &s("m"), 9);
    assert!(matches!(v, Verdict::Dropped));
}

#[test]
fn allowed_fingerprint_never_reported_nor_cached() {
    let mut e = engine();
    let fp = Fingerprint::new([42, 0, 0, 0, 0, 0, 0, 0]);
    e.allow_fingerprint(fp);
    for i in 0..5 {
        let ns = e.process_candidates(
            &vec![Candidate::Attachment { fp }],
            &s("alice"),
            &s("m"),
            i,
        );
        assert!(ns.is_empty());
    }
    let v = e.evaluate_image(&fp, &s("bob"), &s("m"), 9);
    assert!(matches!(v, Verdict::Dropped));
}

#[test]
fn allow_is_idempotent() {
    let mut e = engine();
    e.allow_url(s("https://twice.test/u"));
    e.allow_url(s("https://twice.test/u"));
    let v = e.evaluate_link(&s("https://twice.test/u"), &s("alice"), &s("m"), 0);
    assert!(matches!(v, Verdict::Dropped));
    let fp = Fingerprint::new([8, 8, 8, 8, 8, 8, 8, 8]);
    e.allow_fingerprint(fp);
    e.allow_fingerprint(fp);
    let v = e.evaluate_image(&fp, &s("alice"), &s("m"), 0);
    assert!(matches!(v, Verdict::Dropped));
}

#[test]
fn allow_items_exempts_each_item() {
    let mut e = engine();
    let items = vec![
        AllowItem::Url(s("https://batch.test/a")),
        AllowItem::Url(s("https://batch.test/b")),
        AllowItem::ImageBytes(b"not an image".to_vec()),
    ];
    e.allow_items(&items);
    for u in ["https://batch.test/a", "https://batch.test/b"] {
        let v = e.evaluate_link(&s(u), &s("alice"), &s("m"), 0);
        assert!(matches!(v, Verdict::Dropped));
    }
}

#[test]
fn allowing_after_caching_stops_reports() {
    let mut e = engine();
    let ns = e.process_candidates(
        &vec![Candidate::Link { url: s("https://late.test/u") }],
        &s("alice"),
        &s("m1"),
        0,
    );
    assert!(ns.is_empty());
    e.allow_url(s("https://late.test/u"));
    // Exemption is consulted before any cache lookup.
    let ns = e.process_candidates(
        &vec![Candidate::Link { url: s("https://late.test/u") }],
        &s("bob"),
        &s("m2"),
        1,
    );
    assert!(ns.is_empty());
}

#[test]
fn allowed_embed_dropped_wholly() {
    let mut e = engine();
    let fp = Fingerprint::new([1, 1, 1, 1, 1, 1, 1, 1]);
    e.allow_url(s("https://embed.test/u"));
    let ns = e.process_candidates(
        &vec![Candidate::Embed { url: s("https://embed.test/u"), media: Some(fp) }],
        &s("alice"),
        &s("m1"),
        0,
    );
    assert!(ns.is_empty());
    // The embed's media was not cached either: the same fingerprint as an
    // attachment is still novel.
    let ns = e.process_candidates(
        &vec![Candidate::Attachment { fp }],
        &s("bob"),
        &s("m2"),
        1,
    );
    assert!(ns.is_empty());
}
