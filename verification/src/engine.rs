//! The match engine: decides duplicate-vs-novel for candidate links and
//! image fingerprints against the content cache, after filtering through
//! the allow registry and the configured source-category filter, and
//! remembers every novel candidate (with FIFO eviction).
//!
//! Each public operation is one atomic step of the engine; a caller that
//! shares one engine across tasks serializes these steps behind exclusive
//! ownership, so the contracts here describe exactly what each serialized
//! step does.

use vstd::prelude::*;
use crate::allow::{AllowRegistry, AllowModel};
use crate::cache::{
    ContentCache,
    CacheModel,
    cache_wf,
    link_matches,
    image_matches,
    push_bounded,
};
use crate::config::CacheConfig;
use crate::fingerprint::Fingerprint;
use crate::records::{
    LinkRecord,
    LinkRecordModel,
    ImageRecord,
    ImageRecordModel,
    DuplicateNotice,
    NoticeModel,
    spec_notice,
};
use crate::search::{first_match, lemma_first_match};

verus! {

/// Mathematical model of the whole engine.
pub ghost struct EngineModel {
    pub ignore_links: bool,
    pub ignore_attachments: bool,
    pub cache: CacheModel,
    pub allow: AllowModel,
}

/// One piece of content carried by an incoming message. Links and embedded
/// media count as the "link" category, attachments as "attachment". An
/// embed carries its URL and, when the media behind it could be fetched
/// and fingerprinted, the fingerprint derived from that same embed.
pub enum Candidate {
    Link { url: String },
    Attachment { fp: Fingerprint },
    Embed { url: String, media: Option<Fingerprint> },
}

/// The engine's decision on one candidate.
pub enum Verdict {
    /// The content was seen before; the notice attributes the prior record.
    Duplicate(DuplicateNotice),
    /// The content is new and was remembered.
    Novel,
    /// The content is exempted by the allow registry: neither reported nor
    /// remembered.
    Dropped,
}

/// What one link evaluation does: an exempted URL is dropped untouched; a
/// cached URL yields a notice attributing the oldest matching record; a
/// novel URL is remembered (evicting the oldest link if at capacity).
pub open spec fn spec_eval_link(
    m: EngineModel,
    url: Seq<char>,
    sub: Seq<char>,
    orig: Seq<char>,
    now: int,
) -> (EngineModel, Option<NoticeModel>) {
    if m.allow.urls.contains(url) {
        (m, None)
    } else {
        let fm = first_match(m.cache.links, link_matches(url));
        if fm >= 0 {
            let r = m.cache.links[fm];
            (m, Some(spec_notice(r.submitter, r.seen_at, r.origin, now)))
        } else {
            let rec = LinkRecordModel { url, seen_at: now, submitter: sub, origin: orig };
            (
                EngineModel {
                    cache: CacheModel {
                        links: push_bounded(m.cache.links, rec, m.cache.capacity),
                        ..m.cache
                    },
                    ..m
                },
                None,
            )
        }
    }
}

/// What one image evaluation does: an exempted fingerprint is dropped
/// untouched; a fingerprint within distance 1 of a cached record yields a
/// notice attributing the oldest such record; a novel fingerprint is
/// remembered (evicting the oldest image if at capacity).
pub open spec fn spec_eval_image(
    m: EngineModel,
    fp: Seq<u8>,
    sub: Seq<char>,
    orig: Seq<char>,
    now: int,
) -> (EngineModel, Option<NoticeModel>) {
    if m.allow.fps.contains(fp) {
        (m, None)
    } else {
        let fm = first_match(m.cache.images, image_matches(fp));
        if fm >= 0 {
            let r = m.cache.images[fm];
            (m, Some(spec_notice(r.submitter, r.seen_at, r.origin, now)))
        } else {
            let rec = ImageRecordModel { fp, seen_at: now, submitter: sub, origin: orig };
            (
                EngineModel {
                    cache: CacheModel {
                        images: push_bounded(m.cache.images, rec, m.cache.capacity),
                        ..m.cache
                    },
                    ..m
                },
                None,
            )
        }
    }
}

/// The notices a single optional notice contributes.
pub open spec fn opt_notices(n: Option<NoticeModel>) -> Seq<NoticeModel> {
    match n {
        Some(x) => seq![x],
        None => Seq::empty(),
    }
}

/// What one candidate does to the engine, and the notices it emits.
///
/// Candidates of an ignored category are excluded from matching and
/// caching entirely. An embed whose URL is exempted is dropped as a whole.
/// Otherwise an embed runs the link path and then, if media was
/// fingerprinted, the image path for bookkeeping; when the link path
/// already reported a duplicate, the image path's notice is suppressed so
/// the same repost is not reported twice. Attachments are always evaluated
/// independently.
pub open spec fn spec_step(
    m: EngineModel,
    c: Candidate,
    sub: Seq<char>,
    orig: Seq<char>,
    now: int,
) -> (EngineModel, Seq<NoticeModel>) {
    match c {
        Candidate::Link { url } => {
            if m.ignore_links {
                (m, Seq::empty())
            } else {
                let (m1, n1) = spec_eval_link(m, url@, sub, orig, now);
                (m1, opt_notices(n1))
            }
        },
        Candidate::Attachment { fp } => {
            if m.ignore_attachments {
                (m, Seq::empty())
            } else {
                let (m1, n1) = spec_eval_image(m, fp@, sub, orig, now);
                (m1, opt_notices(n1))
            }
        },
        Candidate::Embed { url, media } => {
            if m.ignore_links {
                (m, Seq::empty())
            } else if m.allow.urls.contains(url@) {
                (m, Seq::empty())
            } else {
                let (m1, n1) = spec_eval_link(m, url@, sub, orig, now);
                match media {
                    None => (m1, opt_notices(n1)),
                    Some(f) => {
                        let (m2, n2) = spec_eval_image(m1, f@, sub, orig, now);
                        if n1 is Some {
                            (m2, opt_notices(n1))
                        } else {
                            (m2, opt_notices(n2))
                        }
                    },
                }
            }
        },
    }
}

/// What the candidates from index `k` on do, folded left to right.
pub open spec fn spec_process_from(
    m: EngineModel,
    cands: Seq<Candidate>,
    k: int,
    sub: Seq<char>,
    orig: Seq<char>,
    now: int,
) -> (EngineModel, Seq<NoticeModel>)
    decreases cands.len() - k,
{
    if k < 0 || k >= cands.len() {
        (m, Seq::empty())
    } else {
        let (m1, ns1) = spec_step(m, cands[k], sub, orig, now);
        let (m2, ns2) = spec_process_from(m1, cands, k + 1, sub, orig, now);
        (m2, ns1 + ns2)
    }
}

/// What processing a whole message's candidates does, in order.
pub open spec fn spec_process(
    m: EngineModel,
    cands: Seq<Candidate>,
    sub: Seq<char>,
    orig: Seq<char>,
    now: int,
) -> (EngineModel, Seq<NoticeModel>) {
    spec_process_from(m, cands, 0, sub, orig, now)
}

/// Engine well-formedness is the cache's.
pub open spec fn engine_wf(m: EngineModel) -> bool {
    cache_wf(m.cache)
}

/// The duplicate-content detection engine: content cache, allow registry
/// and source-category filter behind one interface.
pub struct Engine {
    ignore_links: bool,
    ignore_attachments: bool,
    cache: ContentCache,
    allow: AllowRegistry,
}

impl View for Engine {
    type V = EngineModel;

    closed spec fn view(&self) -> EngineModel {
        EngineModel {
            ignore_links: self.ignore_links,
            ignore_attachments: self.ignore_attachments,
            cache: self.cache@,
            allow: self.allow@,
        }
    }
}

impl Engine {
    /// Well-formed: the cache invariants hold and the registry holds each
    /// exempted key once.
    pub open spec fn wf(self) -> bool {
        &&& engine_wf(self@)
        &&& self.registry_wf()
    }

    /// The registry's internal invariant.
    pub closed spec fn registry_wf(self) -> bool {
        self.allow.wf()
    }

    /// How many allow-registry entries hold the URL `u`.
    pub closed spec fn allowed_url_entries(self, u: Seq<char>) -> nat {
        self.allow.url_occurrences(u)
    }

    /// How many allow-registry entries hold the fingerprint `f`.
    pub closed spec fn allowed_fp_entries(self, f: Seq<u8>) -> nat {
        self.allow.fp_occurrences(f)
    }

    /// A fresh engine: empty cache, empty registry.
    pub fn new(config: CacheConfig) -> (r: Engine)
        requires
            config.valid(),
        ensures
            r.wf(),
            r@.ignore_links == config.ignore_links,
            r@.ignore_attachments == config.ignore_attachments,
            r@.cache.capacity == config.capacity,
            r@.cache.links == Seq::<LinkRecordModel>::empty(),
            r@.cache.images == Seq::<ImageRecordModel>::empty(),
            r@.allow.urls == Set::<Seq<char>>::empty(),
            r@.allow.fps == Set::<Seq<u8>>::empty(),
    {
        Engine {
            ignore_links: config.ignore_links,
            ignore_attachments: config.ignore_attachments,
            cache: ContentCache::new(config.capacity),
            allow: AllowRegistry::new(),
        }
    }

    /// Evaluate one link candidate (and remember it when novel).
    pub fn evaluate_link(
        &mut self,
        url: &String,
        submitter: &String,
        origin: &String,
        now: i64,
    ) -> (v: Verdict)
        requires
            old(self).wf(),
            0 <= now,
        ensures
            final(self).wf(),
            final(self)@ == spec_eval_link(
                old(self)@,
                url@,
                submitter@,
                origin@,
                now as int,
            ).0,
            ({
                let n = spec_eval_link(old(self)@, url@, submitter@, origin@, now as int).1;
                &&& v is Duplicate <==> n is Some
                &&& (v matches Verdict::Duplicate(d) ==> d@ == n->0)
                &&& (v is Dropped <==> old(self)@.allow.urls.contains(url@))
            }),
    {
        let ghost m0 = self@;
        if self.allow.contains_url(url) {
            return Verdict::Dropped;
        }
        match self.cache.find_link(url) {
            Some(i) => {
                let rec = self.cache.link_at(i);
                Verdict::Duplicate(rec.notice(now))
            },
            None => {
                proof {
                    lemma_first_match(m0.cache.links, link_matches(url@));
                }
                let rec = LinkRecord {
                    url: url.clone(),
                    seen_at: now,
                    submitter: submitter.clone(),
                    origin: origin.clone(),
                };
                self.cache.insert_link(rec);
                Verdict::Novel
            },
        }
    }

    /// Evaluate one image candidate (and remember it when novel).
    pub fn evaluate_image(
        &mut self,
        fp: &Fingerprint,
        submitter: &String,
        origin: &String,
        now: i64,
    ) -> (v: Verdict)
        requires
            old(self).wf(),
            0 <= now,
        ensures
            final(self).wf(),
            final(self)@ == spec_eval_image(
                old(self)@,
                fp@,
                submitter@,
                origin@,
                now as int,
            ).0,
            ({
                let n = spec_eval_image(old(self)@, fp@, submitter@, origin@, now as int).1;
                &&& v is Duplicate <==> n is Some
                &&& (v matches Verdict::Duplicate(d) ==> d@ == n->0)
                &&& (v is Dropped <==> old(self)@.allow.fps.contains(fp@))
            }),
    {
        let ghost m0 = self@;
        if self.allow.contains_fp(fp) {
            return Verdict::Dropped;
        }
        match self.cache.find_image(fp) {
            Some(i) => {
                let rec = self.cache.image_at(i);
                Verdict::Duplicate(rec.notice(now))
            },
            None => {
                proof {
                    lemma_first_match(m0.cache.images, image_matches(fp@));
                }
                let rec = ImageRecord {
                    fp: *fp,
                    seen_at: now,
                    submitter: submitter.clone(),
                    origin: origin.clone(),
                };
                self.cache.insert_image(rec);
                Verdict::Novel
            },
        }
    }

    /// Whether this URL is exempted by the allow registry. A caller may
    /// consult this before fetching an embedded link's media, so exempted
    /// links cost no network work.
    pub fn is_url_allowed(&self, url: &String) -> (r: bool)
        ensures
            r == self@.allow.urls.contains(url@),
    {
        self.allow.contains_url(url)
    }

    /// Permanently exempt a URL from detection.
    pub fn allow_url(&mut self, url: String)
        requires
            old(self).wf(),
        ensures
            final(self).wf(),
            final(self)@.allow.urls == old(self)@.allow.urls.insert(url@),
            final(self)@.allow.fps == old(self)@.allow.fps,
            final(self)@.cache == old(self)@.cache,
            final(self)@.ignore_links == old(self)@.ignore_links,
            final(self)@.ignore_attachments == old(self)@.ignore_attachments,
            final(self).allowed_url_entries(url@) == 1,
    {
        self.allow.insert_url(url);
    }

    /// Permanently exempt a fingerprint from detection.
    pub fn allow_fingerprint(&mut self, fp: Fingerprint)
        requires
            old(self).wf(),
        ensures
            final(self).wf(),
            final(self)@.allow.fps == old(self)@.allow.fps.insert(fp@),
            final(self)@.allow.urls == old(self)@.allow.urls,
            final(self)@.cache == old(self)@.cache,
            final(self)@.ignore_links == old(self)@.ignore_links,
            final(self)@.ignore_attachments == old(self)@.ignore_attachments,
            final(self).allowed_fp_entries(fp@) == 1,
    {
        self.allow.insert_fp(fp);
    }

    /// Process all candidates of one message, in order, and return the
    /// duplicate notices to deliver, in the order they arose.
    pub fn process_candidates(
        &mut self,
        candidates: &Vec<Candidate>,
        submitter: &String,
        origin: &String,
        now: i64,
    ) -> (notices: Vec<DuplicateNotice>)
        requires
            old(self).wf(),
            0 <= now,
        ensures
            final(self).wf(),
            final(self)@ == spec_process(
                old(self)@,
                candidates@,
                submitter@,
                origin@,
                now as int,
            ).0,
            notices@.map_values(|n: DuplicateNotice| n@) == spec_process(
                old(self)@,
                candidates@,
                submitter@,
                origin@,
                now as int,
            ).1,
    {
        let ghost m0 = self@;
        let ghost cands = candidates@;
        let ghost sub = submitter@;
        let ghost orig = origin@;
        let ghost t = now as int;
        let mut notices: Vec<DuplicateNotice> = Vec::new();
        let n = candidates.len();
        let mut i: usize = 0;
        proof {
            assert(notices@.map_values(|x: DuplicateNotice| x@) =~= Seq::<NoticeModel>::empty());
        }
        while i < n
            invariant
                self.wf(),
                t == now as int,
                0 <= t,
                n == cands.len(),
                i <= n,
                sub == submitter@,
                orig == origin@,
                cands == candidates@,
                spec_process_from(m0, cands, 0, sub, orig, t).0 == spec_process_from(
                    self@,
                    cands,
                    i as int,
                    sub,
                    orig,
                    t,
                ).0,
                spec_process_from(m0, cands, 0, sub, orig, t).1 == notices@.map_values(
                    |x: DuplicateNotice| x@,
                ) + spec_process_from(self@, cands, i as int, sub, orig, t).1,
            decreases n - i,
        {
            let ghost mi = self@;
            let ghost pushed0 = notices@;
            match &candidates[i] {
                Candidate::Link { url } => {
                    if !self.ignore_links {
                        match self.evaluate_link(url, submitter, origin, now) {
                            Verdict::Duplicate(d) => notices.push(d),
                            _ => {},
                        }
                    }
                },
                Candidate::Attachment { fp } => {
                    if !self.ignore_attachments {
                        match self.evaluate_image(fp, submitter, origin, now) {
                            Verdict::Duplicate(d) => notices.push(d),
                            _ => {},
                        }
                    }
                },
                Candidate::Embed { url, media } => {
                    if !self.ignore_links {
                        match self.evaluate_link(url, submitter, origin, now) {
                            Verdict::Dropped => {},
                            Verdict::Duplicate(d) => {
                                notices.push(d);
                                if let Some(f) = media {
                                    // The same embed was already reported through its
                                    // link; evaluate the image only for bookkeeping and
                                    // suppress the second notice.
                                    let _ = self.evaluate_image(f, submitter, origin, now);
                                }
                            },
                            Verdict::Novel => {
                                if let Some(f) = media {
                                    match self.evaluate_image(f, submitter, origin, now) {
                                        Verdict::Duplicate(d) => notices.push(d),
                                        _ => {},
                                    }
                                }
                            },
                        }
                    }
                },
            }
            proof {
                let (ms, ns) = spec_step(mi, cands[i as int], sub, orig, t);
                assert(self@ == ms);
                assert(notices@.map_values(|x: DuplicateNotice| x@) =~= pushed0.map_values(
                    |x: DuplicateNotice| x@,
                ) + ns);
                assert(spec_process_from(mi, cands, i as int, sub, orig, t).0
                    == spec_process_from(self@, cands, i as int + 1, sub, orig, t).0);
                assert(spec_process_from(mi, cands, i as int, sub, orig, t).1 == ns
                    + spec_process_from(self@, cands, i as int + 1, sub, orig, t).1);
            }
            i = i + 1;
        }
        proof {
            assert(spec_process_from(self@, cands, n as int, sub, orig, t).1
                =~= Seq::<NoticeModel>::empty());
            assert(spec_process_from(m0, cands, 0, sub, orig, t).1 =~= notices@.map_values(
                |x: DuplicateNotice| x@,
            ));
        }
        notices
    }
}

} // verus!
