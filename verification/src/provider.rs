//! The fingerprint provider: the one place where the engine leans on the
//! image crates. Raw image bytes are decoded and reduced to a fixed-width
//! perceptual fingerprint; bytes that do not decode yield nothing, and the
//! candidate they came from is simply dropped from consideration.

use vstd::prelude::*;
use crate::allow::AllowModel;
use crate::engine::{Engine, EngineModel};
use crate::fingerprint::Fingerprint;

verus! {

/// The fingerprint the provider derives from the given image bytes, or
/// `None` when the bytes do not decode as an image with a positive width
/// and height. The result depends on the bytes alone.
pub uninterp spec fn fingerprint_of(bytes: Seq<u8>) -> Option<Seq<u8>>;

/// Relies on `image::load_from_memory`, whose failure makes this return
/// `None`, and on `img_hash`'s default hasher (8x8 `Gradient`, documented
/// as a 64-bit / 8-byte hash): both compute from the bytes alone, so the
/// result is a function of `bytes`. Decodable images with a zero width or
/// height also yield `None`: resizing such an image would panic inside
/// the hasher, and this library's functions do not panic.
#[verifier::external_body]
fn provider_fingerprint(bytes: &Vec<u8>) -> (r: Option<[u8; 8]>)
    ensures
        r is Some <==> fingerprint_of(bytes@) is Some,
        r is Some ==> Some(r->0@) == fingerprint_of(bytes@),
{
    let img = match image::load_from_memory(bytes.as_slice()) {
        Ok(img) => img,
        Err(_) => return None,
    };
    let (w, h) = image::GenericImageView::dimensions(&img);
    if w == 0 || h == 0 {
        return None;
    }
    let hash = img_hash::HasherConfig::new().to_hasher().hash_image(&img);
    if hash.as_bytes().len() != 8 {
        return None;
    }
    let mut out = [0u8; 8];
    out.copy_from_slice(hash.as_bytes());
    Some(out)
}

/// Fingerprint raw image bytes, or `None` when they do not decode as an
/// image.
pub fn fingerprint_image(bytes: &Vec<u8>) -> (r: Option<Fingerprint>)
    ensures
        r is Some <==> fingerprint_of(bytes@) is Some,
        r is Some ==> Some(r->0@) == fingerprint_of(bytes@),
{
    match provider_fingerprint(bytes) {
        Some(b) => Some(Fingerprint::new(b)),
        None => None,
    }
}

impl Engine {
    /// Permanently exempt the image with these raw bytes: the bytes are
    /// fingerprinted by the provider and the fingerprint registered.
    /// Returns false, leaving the engine untouched, when the bytes do not
    /// decode as an image.
    pub fn allow_image(&mut self, bytes: &Vec<u8>) -> (ok: bool)
        requires
            old(self).wf(),
        ensures
            final(self).wf(),
            ok <==> fingerprint_of(bytes@) is Some,
            ok ==> {
                &&& final(self)@.allow.fps == old(self)@.allow.fps.insert(
                    fingerprint_of(bytes@)->0,
                )
                &&& final(self).allowed_fp_entries(fingerprint_of(bytes@)->0) == 1
            },
            final(self)@.allow.urls == old(self)@.allow.urls,
            final(self)@.cache == old(self)@.cache,
            final(self)@.ignore_links == old(self)@.ignore_links,
            final(self)@.ignore_attachments == old(self)@.ignore_attachments,
            !ok ==> final(self)@ == old(self)@,
    {
        match fingerprint_image(bytes) {
            Some(fp) => {
                self.allow_fingerprint(fp);
                true
            },
            None => false,
        }
    }
}

/// One item of an allow request: a link URL, or the raw bytes of an image
/// to be fingerprinted by the provider before registration.
pub enum AllowItem {
    Url(String),
    ImageBytes(Vec<u8>),
}

/// What exempting one item does to the engine: a URL joins the exempted
/// URLs; image bytes join the exempted fingerprints through the provider,
/// or do nothing when they do not decode as an image.
pub open spec fn spec_allow_item(m: EngineModel, item: AllowItem) -> EngineModel {
    match item {
        AllowItem::Url(u) => EngineModel {
            allow: AllowModel { urls: m.allow.urls.insert(u@), ..m.allow },
            ..m
        },
        AllowItem::ImageBytes(b) => match fingerprint_of(b@) {
            Some(f) => EngineModel {
                allow: AllowModel { fps: m.allow.fps.insert(f), ..m.allow },
                ..m
            },
            None => m,
        },
    }
}

/// What exempting the items from index `k` on does, folded left to right.
pub open spec fn spec_allow_from(m: EngineModel, items: Seq<AllowItem>, k: int) -> EngineModel
    decreases items.len() - k,
{
    if k < 0 || k >= items.len() {
        m
    } else {
        spec_allow_from(spec_allow_item(m, items[k]), items, k + 1)
    }
}

impl Engine {
    /// Permanently exempt a batch of items, in order.
    pub fn allow_items(&mut self, items: &Vec<AllowItem>)
        requires
            old(self).wf(),
        ensures
            final(self).wf(),
            final(self)@ == spec_allow_from(old(self)@, items@, 0),
    {
        let ghost m0 = self@;
        let ghost iseq = items@;
        let n = items.len();
        let mut i: usize = 0;
        while i < n
            invariant
                self.wf(),
                n == iseq.len(),
                i <= n,
                iseq == items@,
                spec_allow_from(m0, iseq, 0) == spec_allow_from(self@, iseq, i as int),
            decreases n - i,
        {
            let ghost mi = self@;
            match &items[i] {
                AllowItem::Url(u) => {
                    self.allow_url(u.clone());
                },
                AllowItem::ImageBytes(b) => {
                    self.allow_image(b);
                },
            }
            proof {
                assert(self@ == spec_allow_item(mi, iseq[i as int]));
            }
            i = i + 1;
        }
    }
}

} // verus!
