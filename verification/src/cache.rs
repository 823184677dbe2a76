//! The content cache: a bounded store of previously seen link and image
//! records. Records are kept in insertion order (oldest first); lookups
//! report the oldest matching record; when an insert would exceed the
//! configured capacity, the oldest record is evicted (FIFO).

use vstd::prelude::*;
use crate::fingerprint::{Fingerprint, hamming, near_match, lemma_hamming_sym};
use crate::records::{LinkRecord, LinkRecordModel, ImageRecord, ImageRecordModel};
use crate::search::{first_match, lemma_first_match, lemma_first_match_is};

verus! {

/// Mathematical model of the cache: two bounded sequences, oldest first.
pub ghost struct CacheModel {
    pub capacity: int,
    pub links: Seq<LinkRecordModel>,
    pub images: Seq<ImageRecordModel>,
}

/// The predicate picking link records whose URL is exactly `url`.
pub open spec fn link_matches(url: Seq<char>) -> spec_fn(LinkRecordModel) -> bool {
    |r: LinkRecordModel| r.url == url
}

/// The predicate picking image records near the candidate fingerprint
/// (Hamming distance strictly below 2).
pub open spec fn image_matches(fp: Seq<u8>) -> spec_fn(ImageRecordModel) -> bool {
    |r: ImageRecordModel| near_match(fp, r.fp)
}

/// Whether the cache holds a record for exactly this URL.
pub open spec fn has_link(m: CacheModel, url: Seq<char>) -> bool {
    exists|i: int| 0 <= i < m.links.len() && m.links[i].url == url
}

/// Whether the cache holds an image record near this fingerprint.
pub open spec fn has_near_image(m: CacheModel, fp: Seq<u8>) -> bool {
    exists|i: int| 0 <= i < m.images.len() && near_match(fp, m.images[i].fp)
}

/// Append to a bounded FIFO sequence: push at the young end and, when the
/// bound is exceeded, evict the oldest entry.
pub open spec fn push_bounded<T>(s: Seq<T>, x: T, cap: int) -> Seq<T> {
    if s.len() + 1 > cap {
        s.push(x).drop_first()
    } else {
        s.push(x)
    }
}

/// Cache well-formedness: capacity is positive and respected, records carry
/// non-negative timestamps, no two link records share a URL, and no two
/// image records are within the similarity threshold of each other (each
/// distinct piece of content is stored at most once).
pub open spec fn cache_wf(m: CacheModel) -> bool {
    &&& 1 <= m.capacity
    &&& m.links.len() <= m.capacity
    &&& m.images.len() <= m.capacity
    &&& forall|i: int| 0 <= i < m.links.len() ==> 0 <= #[trigger] m.links[i].seen_at
    &&& forall|i: int| 0 <= i < m.images.len() ==> 0 <= #[trigger] m.images[i].seen_at
    &&& forall|i: int, j: int| 0 <= i < j < m.links.len() ==> m.links[i].url != m.links[j].url
    &&& forall|i: int| 0 <= i < m.images.len() ==> (#[trigger] m.images[i].fp).len() == 8
    &&& forall|i: int, j: int|
        0 <= i < j < m.images.len() ==> hamming(m.images[i].fp, m.images[j].fp) >= 2
}

/// Bounded store of link and image records, oldest first.
pub struct ContentCache {
    capacity: usize,
    links: Vec<LinkRecord>,
    images: Vec<ImageRecord>,
}

impl View for ContentCache {
    type V = CacheModel;

    closed spec fn view(&self) -> CacheModel {
        CacheModel {
            capacity: self.capacity as int,
            links: self.links@.map_values(|r: LinkRecord| r@),
            images: self.images@.map_values(|r: ImageRecord| r@),
        }
    }
}

impl ContentCache {
    pub fn new(capacity: usize) -> (r: ContentCache)
        requires
            1 <= capacity,
        ensures
            cache_wf(r@),
            r@.capacity == capacity,
            r@.links == Seq::<LinkRecordModel>::empty(),
            r@.images == Seq::<ImageRecordModel>::empty(),
    {
        let r = ContentCache { capacity, links: Vec::new(), images: Vec::new() };
        proof {
            assert(r@.links =~= Seq::<LinkRecordModel>::empty());
            assert(r@.images =~= Seq::<ImageRecordModel>::empty());
        }
        r
    }

    /// Index of the oldest record for exactly this URL, if any.
    pub fn find_link(&self, url: &String) -> (r: Option<usize>)
        ensures
            ({
                let fm = first_match(self@.links, link_matches(url@));
                &&& r is Some <==> fm >= 0
                &&& r is Some ==> r->0 == fm && r->0 < self@.links.len()
            }),
    {
        let n = self.links.len();
        let mut i: usize = 0;
        while i < n
            invariant
                n == self.links@.len(),
                n == self@.links.len(),
                i <= n,
                forall|j: int| 0 <= j < i ==> !link_matches(url@)(self@.links[j]),
            decreases n - i,
        {
            if self.links[i].url.eq(url) {
                proof {
                    assert(self@.links[i as int] == self.links@[i as int]@);
                    lemma_first_match_is(self@.links, link_matches(url@), i as int);
                }
                return Some(i);
            }
            proof {
                assert(self@.links[i as int] == self.links@[i as int]@);
            }
            i = i + 1;
        }
        proof {
            lemma_first_match(self@.links, link_matches(url@));
        }
        None
    }

    /// Index of the oldest image record within the similarity threshold of
    /// the candidate fingerprint, if any.
    pub fn find_image(&self, fp: &Fingerprint) -> (r: Option<usize>)
        ensures
            ({
                let fm = first_match(self@.images, image_matches(fp@));
                &&& r is Some <==> fm >= 0
                &&& r is Some ==> r->0 == fm && r->0 < self@.images.len()
            }),
    {
        let n = self.images.len();
        let mut i: usize = 0;
        while i < n
            invariant
                n == self.images@.len(),
                n == self@.images.len(),
                i <= n,
                forall|j: int| 0 <= j < i ==> !image_matches(fp@)(self@.images[j]),
            decreases n - i,
        {
            if fp.is_near(&self.images[i].fp) {
                proof {
                    assert(self@.images[i as int] == self.images@[i as int]@);
                    lemma_first_match_is(self@.images, image_matches(fp@), i as int);
                }
                return Some(i);
            }
            proof {
                assert(self@.images[i as int] == self.images@[i as int]@);
            }
            i = i + 1;
        }
        proof {
            lemma_first_match(self@.images, image_matches(fp@));
        }
        None
    }

    /// Borrow the link record at `i`.
    pub fn link_at(&self, i: usize) -> (r: &LinkRecord)
        requires
            i < self@.links.len(),
        ensures
            r@ == self@.links[i as int],
    {
        let r = &self.links[i];
        proof {
            assert(self@.links[i as int] == self.links@[i as int]@);
        }
        r
    }

    /// Borrow the image record at `i`.
    pub fn image_at(&self, i: usize) -> (r: &ImageRecord)
        requires
            i < self@.images.len(),
        ensures
            r@ == self@.images[i as int],
    {
        let r = &self.images[i];
        proof {
            assert(self@.images[i as int] == self.images@[i as int]@);
        }
        r
    }

    /// Remember a link not yet cached, evicting the oldest link record if
    /// the cache is full.
    pub fn insert_link(&mut self, rec: LinkRecord)
        requires
            cache_wf(old(self)@),
            0 <= rec.seen_at,
            !has_link(old(self)@, rec@.url),
        ensures
            cache_wf(final(self)@),
            final(self)@.capacity == old(self)@.capacity,
            final(self)@.links == push_bounded(old(self)@.links, rec@, old(self)@.capacity),
            final(self)@.images == old(self)@.images,
    {
        let ghost oldm = self@;
        let ghost recm = rec@;
        if self.links.len() == self.capacity {
            self.links.remove(0);
            proof {
                assert(self@.links =~= oldm.links.drop_first());
                assert(self@.images =~= oldm.images);
            }
        }
        let ghost midm = self@;
        self.links.push(rec);
        proof {
            assert(self@.links =~= midm.links.push(recm));
            assert(self@.images =~= midm.images);
            assert(final(self)@.links =~= push_bounded(oldm.links, recm, oldm.capacity));
            lemma_insert_link_wf(oldm, recm);
        }
    }

    /// Remember an image not yet matched by the cache, evicting the oldest
    /// image record if the cache is full.
    pub fn insert_image(&mut self, rec: ImageRecord)
        requires
            cache_wf(old(self)@),
            0 <= rec.seen_at,
            !has_near_image(old(self)@, rec@.fp),
        ensures
            cache_wf(final(self)@),
            final(self)@.capacity == old(self)@.capacity,
            final(self)@.images == push_bounded(old(self)@.images, rec@, old(self)@.capacity),
            final(self)@.links == old(self)@.links,
    {
        let ghost oldm = self@;
        let ghost recm = rec@;
        if self.images.len() == self.capacity {
            self.images.remove(0);
            proof {
                assert(self@.images =~= oldm.images.drop_first());
                assert(self@.links =~= oldm.links);
            }
        }
        let ghost midm = self@;
        self.images.push(rec);
        proof {
            assert(self@.images =~= midm.images.push(recm));
            assert(self@.links =~= midm.links);
            assert(final(self)@.images =~= push_bounded(oldm.images, recm, oldm.capacity));
            rec.fp.lemma_width();
            lemma_insert_image_wf(oldm, recm);
        }
    }
}

/// Remembering a link not yet cached preserves the cache invariants.
pub proof fn lemma_insert_link_wf(mc: CacheModel, rec: LinkRecordModel)
    requires
        cache_wf(mc),
        0 <= rec.seen_at,
        !has_link(mc, rec.url),
    ensures
        cache_wf(CacheModel { links: push_bounded(mc.links, rec, mc.capacity), ..mc }),
{
    let s = push_bounded(mc.links, rec, mc.capacity);
    let off = mc.links.len() + 1 - s.len();
    assert forall|i: int| 0 <= i < s.len() implies 0 <= (#[trigger] s[i]).seen_at by {
        if i < s.len() - 1 {
            assert(s[i] == mc.links[i + off]);
        } else {
            assert(s[i] == rec);
        }
    }
    assert forall|i: int, j: int| 0 <= i < j < s.len() implies s[i].url != s[j].url by {
        if j < s.len() - 1 {
            assert(s[i] == mc.links[i + off]);
            assert(s[j] == mc.links[j + off]);
        } else {
            assert(s[i] == mc.links[i + off]);
            assert(mc.links[i + off].url != rec.url);
        }
    }
}

/// Remembering an image the cache holds nothing near preserves the cache
/// invariants.
pub proof fn lemma_insert_image_wf(mc: CacheModel, rec: ImageRecordModel)
    requires
        cache_wf(mc),
        0 <= rec.seen_at,
        rec.fp.len() == 8,
        !has_near_image(mc, rec.fp),
    ensures
        cache_wf(CacheModel { images: push_bounded(mc.images, rec, mc.capacity), ..mc }),
{
    let s = push_bounded(mc.images, rec, mc.capacity);
    let off = mc.images.len() + 1 - s.len();
    assert forall|i: int| 0 <= i < s.len() implies ((#[trigger] s[i]).fp.len() == 8 && 0 <= s[i].seen_at) by {
        if i < s.len() - 1 {
            assert(s[i] == mc.images[i + off]);
        } else {
            assert(s[i] == rec);
        }
    }
    assert forall|i: int, j: int| 0 <= i < j < s.len() implies hamming(s[i].fp, s[j].fp) >= 2 by {
        if j < s.len() - 1 {
            assert(s[i] == mc.images[i + off]);
            assert(s[j] == mc.images[j + off]);
        } else {
            assert(s[i] == mc.images[i + off]);
            assert(!near_match(rec.fp, mc.images[i + off].fp));
            assert(mc.images[i + off].fp.len() == 8);
            lemma_hamming_sym(mc.images[i + off].fp, rec.fp);
        }
    }
}

} // verus!
