//! The engine's governing properties, stated and proved once and for all
//! over the mathematical model: exact link dedup, near-match image dedup,
//! allow exemption, the capacity bound, idempotent allow, and freedom from
//! double inserts when the same content is submitted twice in a row.

use vstd::prelude::*;
use crate::allow::AllowModel;
use crate::cache::{
    has_link,
    has_near_image,
    link_matches,
    image_matches,
    push_bounded,
    lemma_insert_link_wf,
    lemma_insert_image_wf,
};
use crate::engine::{
    Candidate,
    EngineModel,
    engine_wf,
    spec_eval_link,
    spec_eval_image,
    spec_step,
    spec_process,
    spec_process_from,
};
use crate::fingerprint::{hamming, near_match, lemma_hamming_sym, lemma_hamming_self};
use crate::records::{LinkRecordModel, ImageRecordModel, NoticeModel, spec_days_between, spec_notice};
use crate::search::{first_match, lemma_first_match, lemma_first_match_is};

verus! {

/// The predicate picking image records whose fingerprint is exactly `fp`.
pub open spec fn image_fp_is(fp: Seq<u8>) -> spec_fn(ImageRecordModel) -> bool {
    |r: ImageRecordModel| r.fp == fp
}

/// When exactly one position of `s` satisfies `p`, the filtered sequence
/// has exactly one element.
proof fn lemma_filter_single<T>(s: Seq<T>, p: spec_fn(T) -> bool, k: int)
    requires
        0 <= k < s.len(),
        p(s[k]),
        forall|j: int| 0 <= j < s.len() && j != k ==> !p(s[j]),
    ensures
        s.filter(p).len() == 1,
    decreases s.len(),
{
    reveal(Seq::filter);
    if k == s.len() - 1 {
        assert forall|j: int| 0 <= j < s.drop_last().len() implies !p(s.drop_last()[j]) by {
            assert(s.drop_last()[j] == s[j]);
        }
        s.drop_last().lemma_all_neg_filter_empty(p);
    } else {
        assert(s.drop_last()[k] == s[k]);
        lemma_filter_single(s.drop_last(), p, k);
        assert(!p(s.last()));
    }
}

/// After a novel link is remembered, its record is the last one and is the
/// only one with that URL.
proof fn lemma_novel_link_inserted(m: EngineModel, url: Seq<char>, sub: Seq<char>, orig: Seq<char>, t: int)
    requires
        engine_wf(m),
        !m.allow.urls.contains(url),
        !has_link(m.cache, url),
    ensures
        ({
            let (m1, n1) = spec_eval_link(m, url, sub, orig, t);
            let s1 = m1.cache.links;
            &&& n1 is None
            &&& s1.len() >= 1
            &&& s1[s1.len() - 1] == (LinkRecordModel { url, seen_at: t, submitter: sub, origin: orig })
            &&& forall|j: int| 0 <= j < s1.len() - 1 ==> s1[j].url != url
            &&& first_match(s1, link_matches(url)) == s1.len() - 1
        }),
{
    let p = link_matches(url);
    lemma_first_match(m.cache.links, p);
    assert forall|i: int| 0 <= i < m.cache.links.len() implies !p(m.cache.links[i]) by {
        assert(!(m.cache.links[i].url == url));
    }
    let rec = LinkRecordModel { url, seen_at: t, submitter: sub, origin: orig };
    let s1 = push_bounded(m.cache.links, rec, m.cache.capacity);
    let off = m.cache.links.len() + 1 - s1.len();
    assert(s1[s1.len() - 1] == rec);
    assert forall|j: int| 0 <= j < s1.len() - 1 implies s1[j].url != url by {
        assert(s1[j] == m.cache.links[j + off]);
    }
    lemma_first_match_is(s1, p, s1.len() - 1);
}

/// After a novel image is remembered, its record is the last one, and no
/// other record is near the candidate fingerprint.
proof fn lemma_novel_image_inserted(m: EngineModel, fp: Seq<u8>, sub: Seq<char>, orig: Seq<char>, t: int)
    requires
        engine_wf(m),
        !m.allow.fps.contains(fp),
        !has_near_image(m.cache, fp),
    ensures
        ({
            let (m1, n1) = spec_eval_image(m, fp, sub, orig, t);
            let s1 = m1.cache.images;
            &&& n1 is None
            &&& s1.len() >= 1
            &&& s1[s1.len() - 1] == (ImageRecordModel { fp, seen_at: t, submitter: sub, origin: orig })
            &&& forall|j: int| 0 <= j < s1.len() - 1 ==> !near_match(fp, s1[j].fp)
        }),
{
    let p = image_matches(fp);
    lemma_first_match(m.cache.images, p);
    assert forall|i: int| 0 <= i < m.cache.images.len() implies !p(m.cache.images[i]) by {
        assert(!near_match(fp, m.cache.images[i].fp));
    }
    let rec = ImageRecordModel { fp, seen_at: t, submitter: sub, origin: orig };
    let s1 = push_bounded(m.cache.images, rec, m.cache.capacity);
    let off = m.cache.images.len() + 1 - s1.len();
    assert(s1[s1.len() - 1] == rec);
    assert forall|j: int| 0 <= j < s1.len() - 1 implies !near_match(fp, s1[j].fp) by {
        assert(s1[j] == m.cache.images[j + off]);
    }
}

/// Exact link dedup: posting a URL that is neither exempted nor cached
/// yields no notice and remembers it; posting the same URL again yields
/// exactly one notice, attributing the first submitter, the first
/// message, and the whole days elapsed since the first post — and stores
/// nothing new.
pub proof fn lemma_exact_link_dedup(
    m: EngineModel,
    url: Seq<char>,
    sub_a: Seq<char>,
    orig_a: Seq<char>,
    t0: int,
    sub_b: Seq<char>,
    orig_b: Seq<char>,
    t1: int,
)
    requires
        engine_wf(m),
        !m.allow.urls.contains(url),
        !has_link(m.cache, url),
    ensures
        ({
            let (m1, n1) = spec_eval_link(m, url, sub_a, orig_a, t0);
            let (m2, n2) = spec_eval_link(m1, url, sub_b, orig_b, t1);
            &&& n1 is None
            &&& n2 == Some(NoticeModel {
                prior_submitter: sub_a,
                days_ago: spec_days_between(t0, t1),
                prior_origin: orig_a,
            })
            &&& m2 == m1
        }),
{
    lemma_novel_link_inserted(m, url, sub_a, orig_a, t0);
}

/// Near-match image dedup: after a fingerprint is remembered, a second
/// fingerprint at Hamming distance 0 or 1 from it is treated as the same
/// content (one notice attributing the first submitter, nothing stored);
/// one at distance 2 or more is treated as distinct.
pub proof fn lemma_image_near_dedup(
    m: EngineModel,
    fp1: Seq<u8>,
    fp2: Seq<u8>,
    sub_a: Seq<char>,
    orig_a: Seq<char>,
    t0: int,
    sub_b: Seq<char>,
    orig_b: Seq<char>,
    t1: int,
)
    requires
        engine_wf(m),
        fp1.len() == 8,
        fp2.len() == 8,
        !m.allow.fps.contains(fp1),
        !m.allow.fps.contains(fp2),
        !has_near_image(m.cache, fp1),
        forall|i: int|
            0 <= i < m.cache.images.len() ==> !near_match(fp2, #[trigger] m.cache.images[i].fp),
    ensures
        ({
            let (m1, n1) = spec_eval_image(m, fp1, sub_a, orig_a, t0);
            let (m2, n2) = spec_eval_image(m1, fp2, sub_b, orig_b, t1);
            &&& n1 is None
            &&& hamming(fp1, fp2) < 2 ==> n2 == Some(NoticeModel {
                prior_submitter: sub_a,
                days_ago: spec_days_between(t0, t1),
                prior_origin: orig_a,
            }) && m2 == m1
            &&& hamming(fp1, fp2) >= 2 ==> n2 is None
        }),
{
    lemma_novel_image_inserted(m, fp1, sub_a, orig_a, t0);
    let p = image_matches(fp2);
    let m1 = spec_eval_image(m, fp1, sub_a, orig_a, t0).0;
    let s1 = m1.cache.images;
    let off = m.cache.images.len() + 1 - s1.len();
    lemma_hamming_sym(fp1, fp2);
    if hamming(fp1, fp2) < 2 {
        assert forall|j: int| 0 <= j < s1.len() - 1 implies !p(s1[j]) by {
            assert(s1[j] == m.cache.images[j + off]);
        }
        lemma_first_match_is(s1, p, s1.len() - 1);
    } else {
        lemma_first_match(s1, p);
        assert forall|j: int| 0 <= j < s1.len() implies !p(s1[j]) by {
            if j < s1.len() - 1 {
                assert(s1[j] == m.cache.images[j + off]);
            }
        }
    }
}

/// Allow exemption for a link: evaluating an exempted URL reports nothing
/// and changes nothing.
pub proof fn lemma_allow_exempt_link(
    m: EngineModel,
    url: Seq<char>,
    sub: Seq<char>,
    orig: Seq<char>,
    now: int,
)
    requires
        m.allow.urls.contains(url),
    ensures
        spec_eval_link(m, url, sub, orig, now) == (m, Option::<NoticeModel>::None),
{
}

/// Allow exemption for an image: evaluating an exempted fingerprint
/// reports nothing and changes nothing.
pub proof fn lemma_allow_exempt_image(
    m: EngineModel,
    fp: Seq<u8>,
    sub: Seq<char>,
    orig: Seq<char>,
    now: int,
)
    requires
        m.allow.fps.contains(fp),
    ensures
        spec_eval_image(m, fp, sub, orig, now) == (m, Option::<NoticeModel>::None),
{
}

/// Whether the allow registry exempts this candidate outright.
pub open spec fn candidate_exempt(m: EngineModel, c: Candidate) -> bool {
    match c {
        Candidate::Link { url } => m.allow.urls.contains(url@),
        Candidate::Attachment { fp } => m.allow.fps.contains(fp@),
        Candidate::Embed { url, media } => m.allow.urls.contains(url@),
    }
}

proof fn lemma_allow_exemption_from(
    m: EngineModel,
    cands: Seq<Candidate>,
    k: int,
    sub: Seq<char>,
    orig: Seq<char>,
    now: int,
)
    requires
        forall|i: int| 0 <= i < cands.len() ==> candidate_exempt(m, #[trigger] cands[i]),
    ensures
        spec_process_from(m, cands, k, sub, orig, now) == (m, Seq::<NoticeModel>::empty()),
    decreases cands.len() - k,
{
    if 0 <= k < cands.len() {
        assert(candidate_exempt(m, cands[k]));
        assert(spec_step(m, cands[k], sub, orig, now) == (m, Seq::<NoticeModel>::empty()));
        lemma_allow_exemption_from(m, cands, k + 1, sub, orig, now);
        assert(Seq::<NoticeModel>::empty() + Seq::<NoticeModel>::empty()
            =~= Seq::<NoticeModel>::empty());
    }
}

/// Allow exemption, any number of times: a message all of whose candidates
/// are exempted yields no notice at all and leaves the engine exactly as
/// it was — nothing is ever cached for exempted content.
pub proof fn lemma_allow_exemption_repeat(
    m: EngineModel,
    cands: Seq<Candidate>,
    sub: Seq<char>,
    orig: Seq<char>,
    now: int,
)
    requires
        forall|i: int| 0 <= i < cands.len() ==> candidate_exempt(m, #[trigger] cands[i]),
    ensures
        spec_process(m, cands, sub, orig, now) == (m, Seq::<NoticeModel>::empty()),
{
    lemma_allow_exemption_from(m, cands, 0, sub, orig, now);
}

/// One link evaluation preserves well-formedness and touches neither the
/// allow registry, the filter flags, nor the capacity.
pub proof fn lemma_eval_link_preserves_wf(
    m: EngineModel,
    url: Seq<char>,
    sub: Seq<char>,
    orig: Seq<char>,
    now: int,
)
    requires
        engine_wf(m),
        0 <= now,
    ensures
        ({
            let m1 = spec_eval_link(m, url, sub, orig, now).0;
            &&& engine_wf(m1)
            &&& m1.cache.capacity == m.cache.capacity
            &&& m1.cache.images == m.cache.images
            &&& m1.allow == m.allow
            &&& m1.ignore_links == m.ignore_links
            &&& m1.ignore_attachments == m.ignore_attachments
        }),
{
    if !m.allow.urls.contains(url) {
        let fm = first_match(m.cache.links, link_matches(url));
        if fm < 0 {
            let rec = LinkRecordModel { url, seen_at: now, submitter: sub, origin: orig };
            lemma_first_match(m.cache.links, link_matches(url));
            assert(!has_link(m.cache, url)) by {
                if has_link(m.cache, url) {
                    let i = choose|i: int|
                        0 <= i < m.cache.links.len() && m.cache.links[i].url == url;
                    assert(link_matches(url)(m.cache.links[i]));
                }
            }
            lemma_insert_link_wf(m.cache, rec);
        }
    }
}

/// One image evaluation preserves well-formedness in the same way.
pub proof fn lemma_eval_image_preserves_wf(
    m: EngineModel,
    fp: Seq<u8>,
    sub: Seq<char>,
    orig: Seq<char>,
    now: int,
)
    requires
        engine_wf(m),
        fp.len() == 8,
        0 <= now,
    ensures
        ({
            let m1 = spec_eval_image(m, fp, sub, orig, now).0;
            &&& engine_wf(m1)
            &&& m1.cache.capacity == m.cache.capacity
            &&& m1.cache.links == m.cache.links
            &&& m1.allow == m.allow
            &&& m1.ignore_links == m.ignore_links
            &&& m1.ignore_attachments == m.ignore_attachments
        }),
{
    if !m.allow.fps.contains(fp) {
        let fm = first_match(m.cache.images, image_matches(fp));
        if fm < 0 {
            let rec = ImageRecordModel { fp, seen_at: now, submitter: sub, origin: orig };
            lemma_first_match(m.cache.images, image_matches(fp));
            assert(!has_near_image(m.cache, fp)) by {
                if has_near_image(m.cache, fp) {
                    let i = choose|i: int|
                        0 <= i < m.cache.images.len() && near_match(fp, m.cache.images[i].fp);
                    assert(image_matches(fp)(m.cache.images[i]));
                }
            }
            lemma_insert_image_wf(m.cache, rec);
        }
    }
}

/// One candidate step preserves well-formedness and touches neither the
/// allow registry, the filter flags, nor the capacity.
pub proof fn lemma_step_preserves_wf(
    m: EngineModel,
    c: Candidate,
    sub: Seq<char>,
    orig: Seq<char>,
    now: int,
)
    requires
        engine_wf(m),
        0 <= now,
    ensures
        ({
            let m1 = spec_step(m, c, sub, orig, now).0;
            &&& engine_wf(m1)
            &&& m1.cache.capacity == m.cache.capacity
            &&& m1.allow == m.allow
            &&& m1.ignore_links == m.ignore_links
            &&& m1.ignore_attachments == m.ignore_attachments
        }),
{
    match c {
        Candidate::Link { url } => {
            if !m.ignore_links {
                lemma_eval_link_preserves_wf(m, url@, sub, orig, now);
            }
        },
        Candidate::Attachment { fp } => {
            if !m.ignore_attachments {
                fp.lemma_width();
                lemma_eval_image_preserves_wf(m, fp@, sub, orig, now);
            }
        },
        Candidate::Embed { url, media } => {
            if !m.ignore_links && !m.allow.urls.contains(url@) {
                lemma_eval_link_preserves_wf(m, url@, sub, orig, now);
                let m1 = spec_eval_link(m, url@, sub, orig, now).0;
                match media {
                    None => {},
                    Some(f) => {
                        f.lemma_width();
                        lemma_eval_image_preserves_wf(m1, f@, sub, orig, now);
                    },
                }
            }
        },
    }
}

proof fn lemma_process_preserves_wf_from(
    m: EngineModel,
    cands: Seq<Candidate>,
    k: int,
    sub: Seq<char>,
    orig: Seq<char>,
    now: int,
)
    requires
        engine_wf(m),
        0 <= now,
    ensures
        ({
            let m1 = spec_process_from(m, cands, k, sub, orig, now).0;
            &&& engine_wf(m1)
            &&& m1.cache.capacity == m.cache.capacity
            &&& m1.allow == m.allow
            &&& m1.ignore_links == m.ignore_links
            &&& m1.ignore_attachments == m.ignore_attachments
        }),
    decreases cands.len() - k,
{
    if 0 <= k < cands.len() {
        lemma_step_preserves_wf(m, cands[k], sub, orig, now);
        lemma_process_preserves_wf_from(
            spec_step(m, cands[k], sub, orig, now).0,
            cands,
            k + 1,
            sub,
            orig,
            now,
        );
    }
}

/// Capacity bound: however many messages are processed, each sub-cache
/// never holds more records than the configured capacity, and the
/// configuration and allow registry are untouched.
pub proof fn lemma_capacity_bound(
    m: EngineModel,
    cands: Seq<Candidate>,
    sub: Seq<char>,
    orig: Seq<char>,
    now: int,
)
    requires
        engine_wf(m),
        0 <= now,
    ensures
        ({
            let m1 = spec_process(m, cands, sub, orig, now).0;
            &&& engine_wf(m1)
            &&& m1.cache.links.len() <= m.cache.capacity
            &&& m1.cache.images.len() <= m.cache.capacity
            &&& m1.cache.capacity == m.cache.capacity
            &&& m1.allow == m.allow
        }),
{
    lemma_process_preserves_wf_from(m, cands, 0, sub, orig, now);
}

/// Idempotent allow: exempting the same content twice leaves the registry
/// model exactly as exempting it once does.
pub proof fn lemma_allow_idempotent(a: AllowModel, u: Seq<char>, f: Seq<u8>)
    ensures
        a.urls.insert(u).insert(u) == a.urls.insert(u),
        a.fps.insert(f).insert(f) == a.fps.insert(f),
{
    assert(a.urls.insert(u).insert(u) =~= a.urls.insert(u));
    assert(a.fps.insert(f).insert(f) =~= a.fps.insert(f));
}

/// No double insert for a link: when the same novel URL is submitted twice
/// in a row (as when two concurrent submissions are serialized by the
/// engine's exclusive lock), the first is told novel, the second observes
/// the winner's record and is told duplicate, and exactly one record for
/// that URL is stored.
pub proof fn lemma_no_double_insert_link(
    m: EngineModel,
    url: Seq<char>,
    sub_a: Seq<char>,
    orig_a: Seq<char>,
    t0: int,
    sub_b: Seq<char>,
    orig_b: Seq<char>,
    t1: int,
)
    requires
        engine_wf(m),
        !m.allow.urls.contains(url),
        !has_link(m.cache, url),
    ensures
        ({
            let (m1, n1) = spec_eval_link(m, url, sub_a, orig_a, t0);
            let (m2, n2) = spec_eval_link(m1, url, sub_b, orig_b, t1);
            &&& n1 is None
            &&& n2 is Some
            &&& m2 == m1
            &&& m1.cache.links.filter(link_matches(url)).len() == 1
            &&& m2.cache.links.filter(link_matches(url)).len() == 1
        }),
{
    lemma_novel_link_inserted(m, url, sub_a, orig_a, t0);
    let m1 = spec_eval_link(m, url, sub_a, orig_a, t0).0;
    let s1 = m1.cache.links;
    lemma_filter_single(s1, link_matches(url), s1.len() - 1);
}

/// No double insert for an image: when the same novel fingerprint is
/// submitted twice in a row, the second submission is told duplicate and
/// exactly one record with that fingerprint is stored.
pub proof fn lemma_no_double_insert_image(
    m: EngineModel,
    fp: Seq<u8>,
    sub_a: Seq<char>,
    orig_a: Seq<char>,
    t0: int,
    sub_b: Seq<char>,
    orig_b: Seq<char>,
    t1: int,
)
    requires
        engine_wf(m),
        fp.len() == 8,
        !m.allow.fps.contains(fp),
        !has_near_image(m.cache, fp),
    ensures
        ({
            let (m1, n1) = spec_eval_image(m, fp, sub_a, orig_a, t0);
            let (m2, n2) = spec_eval_image(m1, fp, sub_b, orig_b, t1);
            &&& n1 is None
            &&& n2 is Some
            &&& m2 == m1
            &&& m1.cache.images.filter(image_fp_is(fp)).len() == 1
            &&& m2.cache.images.filter(image_fp_is(fp)).len() == 1
        }),
{
    lemma_novel_image_inserted(m, fp, sub_a, orig_a, t0);
    lemma_hamming_self(fp);
    let m1 = spec_eval_image(m, fp, sub_a, orig_a, t0).0;
    let s1 = m1.cache.images;
    let p = image_matches(fp);
    assert forall|j: int| 0 <= j < s1.len() - 1 implies !p(s1[j]) by {
        assert(!near_match(fp, s1[j].fp));
    }
    lemma_first_match_is(s1, p, s1.len() - 1);
    assert forall|j: int| 0 <= j < s1.len() && j != s1.len() - 1 implies !image_fp_is(fp)(
        s1[j],
    ) by {
        assert(!near_match(fp, s1[j].fp));
        if s1[j].fp == fp {
            assert(near_match(fp, s1[j].fp));
        }
    }
    lemma_filter_single(s1, image_fp_is(fp), s1.len() - 1);
}

/// Duplicate attribution for a link, whatever else the cache holds: when
/// a non-exempted URL is cached, evaluating it reports exactly one notice
/// attributing the oldest record with that URL — its submitter, its
/// origin, and the whole days since it was seen — and stores nothing.
pub proof fn lemma_link_duplicate_attribution(
    m: EngineModel,
    url: Seq<char>,
    i: int,
    sub: Seq<char>,
    orig: Seq<char>,
    t1: int,
)
    requires
        !m.allow.urls.contains(url),
        0 <= i < m.cache.links.len(),
        m.cache.links[i].url == url,
        forall|j: int| 0 <= j < i ==> m.cache.links[j].url != url,
    ensures
        spec_eval_link(m, url, sub, orig, t1) == (
            m,
            Some(
                spec_notice(
                    m.cache.links[i].submitter,
                    m.cache.links[i].seen_at,
                    m.cache.links[i].origin,
                    t1,
                ),
            ),
        ),
{
    let p = link_matches(url);
    assert forall|j: int| 0 <= j < i implies !p(m.cache.links[j]) by {
        assert(m.cache.links[j].url != url);
    }
    lemma_first_match_is(m.cache.links, p, i);
}

/// Duplicate attribution for an image, whatever else the cache holds:
/// when a non-exempted fingerprint is within distance 1 of a cached
/// record, evaluating it reports exactly one notice attributing the
/// oldest record within the threshold — its submitter, its origin, and
/// the whole days since it was seen — and stores nothing.
pub proof fn lemma_image_duplicate_attribution(
    m: EngineModel,
    fp: Seq<u8>,
    i: int,
    sub: Seq<char>,
    orig: Seq<char>,
    t1: int,
)
    requires
        !m.allow.fps.contains(fp),
        0 <= i < m.cache.images.len(),
        near_match(fp, m.cache.images[i].fp),
        forall|j: int| 0 <= j < i ==> !near_match(fp, #[trigger] m.cache.images[j].fp),
    ensures
        spec_eval_image(m, fp, sub, orig, t1) == (
            m,
            Some(
                spec_notice(
                    m.cache.images[i].submitter,
                    m.cache.images[i].seen_at,
                    m.cache.images[i].origin,
                    t1,
                ),
            ),
        ),
{
    let p = image_matches(fp);
    assert forall|j: int| 0 <= j < i implies !p(m.cache.images[j]) by {
        assert(!near_match(fp, m.cache.images[j].fp));
    }
    lemma_first_match_is(m.cache.images, p, i);
}

} // verus!
