//! The allow registry: URLs and fingerprints that a moderator has
//! permanently exempted from duplicate detection. Membership never
//! expires and the registry is only ever added to; adding is idempotent,
//! so the registry never holds two entries for the same content.

use vstd::prelude::*;
use crate::fingerprint::Fingerprint;

verus! {

/// Mathematical model of the registry: two sets of exempted content keys.
pub ghost struct AllowModel {
    pub urls: Set<Seq<char>>,
    pub fps: Set<Seq<u8>>,
}

/// Set of exempted link URLs and exempted image fingerprints.
pub struct AllowRegistry {
    urls: Vec<String>,
    fps: Vec<Fingerprint>,
}

impl View for AllowRegistry {
    type V = AllowModel;

    closed spec fn view(&self) -> AllowModel {
        AllowModel {
            urls: Set::new(|u: Seq<char>| exists|i: int| 0 <= i < self.urls@.len() && self.urls@[i]@ == u),
            fps: Set::new(|f: Seq<u8>| exists|i: int| 0 <= i < self.fps@.len() && self.fps@[i]@ == f),
        }
    }
}

/// The predicate picking registry entries that hold the URL `u`.
spec fn url_is(u: Seq<char>) -> spec_fn(String) -> bool {
    |x: String| x@ == u
}

/// The predicate picking registry entries that hold the fingerprint `f`.
spec fn fp_is(f: Seq<u8>) -> spec_fn(Fingerprint) -> bool {
    |x: Fingerprint| x@ == f
}

impl AllowRegistry {
    /// Each exempted key is held exactly once.
    pub closed spec fn wf(self) -> bool {
        &&& forall|i: int, j: int|
            0 <= i < j < self.urls@.len() ==> self.urls@[i]@ != self.urls@[j]@
        &&& forall|i: int, j: int|
            0 <= i < j < self.fps@.len() ==> self.fps@[i]@ != self.fps@[j]@
    }

    /// How many registry entries hold the URL `u`.
    pub closed spec fn url_occurrences(self, u: Seq<char>) -> nat {
        self.urls@.filter(url_is(u)).len()
    }

    /// How many registry entries hold the fingerprint `f`.
    pub closed spec fn fp_occurrences(self, f: Seq<u8>) -> nat {
        self.fps@.filter(fp_is(f)).len()
    }

    pub fn new() -> (r: AllowRegistry)
        ensures
            r.wf(),
            r@.urls == Set::<Seq<char>>::empty(),
            r@.fps == Set::<Seq<u8>>::empty(),
    {
        let r = AllowRegistry { urls: Vec::new(), fps: Vec::new() };
        proof {
            assert(r@.urls =~= Set::<Seq<char>>::empty());
            assert(r@.fps =~= Set::<Seq<u8>>::empty());
        }
        r
    }

    /// Whether `url` is exempted.
    pub fn contains_url(&self, url: &String) -> (r: bool)
        ensures
            r == self@.urls.contains(url@),
    {
        let n = self.urls.len();
        let mut i: usize = 0;
        while i < n
            invariant
                n == self.urls@.len(),
                i <= n,
                forall|j: int| 0 <= j < i ==> self.urls@[j]@ != url@,
            decreases n - i,
        {
            if self.urls[i].eq(url) {
                return true;
            }
            i = i + 1;
        }
        false
    }

    /// Whether `fp` is exempted (exact bit equality).
    pub fn contains_fp(&self, fp: &Fingerprint) -> (r: bool)
        ensures
            r == self@.fps.contains(fp@),
    {
        let n = self.fps.len();
        let mut i: usize = 0;
        while i < n
            invariant
                n == self.fps@.len(),
                i <= n,
                forall|j: int| 0 <= j < i ==> self.fps@[j]@ != fp@,
            decreases n - i,
        {
            if self.fps[i].is_same(fp) {
                return true;
            }
            i = i + 1;
        }
        false
    }

    /// Exempt `url`. Idempotent: afterwards the registry holds exactly one
    /// entry for it, however often it is allowed.
    pub fn insert_url(&mut self, url: String)
        requires
            old(self).wf(),
        ensures
            final(self).wf(),
            final(self)@.urls == old(self)@.urls.insert(url@),
            final(self)@.fps == old(self)@.fps,
            final(self).url_occurrences(url@) == 1,
    {
        let ghost u = url@;
        if self.contains_url(&url) {
            proof {
                assert(final(self)@.urls =~= old(self)@.urls.insert(u));
                lemma_contained_occurrence_is_one(self.urls@, u);
            }
        } else {
            let ghost olds = self.urls@;
            self.urls.push(url);
            proof {
                assert forall|w: Seq<char>| #[trigger] final(self)@.urls.contains(w)
                    implies old(self)@.urls.insert(u).contains(w) by {
                    let i = choose|i: int| 0 <= i < self.urls@.len() && self.urls@[i]@ == w;
                    if i < olds.len() {
                        assert(olds[i]@ == w);
                    }
                }
                assert forall|w: Seq<char>| #[trigger] old(self)@.urls.insert(u).contains(w)
                    implies final(self)@.urls.contains(w) by {
                    if w == u {
                        assert(self.urls@[olds.len() as int]@ == w);
                    } else {
                        let i = choose|i: int| 0 <= i < olds.len() && olds[i]@ == w;
                        assert(self.urls@[i]@ == w);
                    }
                }
                assert(final(self)@.urls =~= old(self)@.urls.insert(u));
                lemma_fresh_push_occurrence(olds, u);
            }
        }
    }

    /// Exempt `fp`. Idempotent in the same way as `insert_url`.
    pub fn insert_fp(&mut self, fp: Fingerprint)
        requires
            old(self).wf(),
        ensures
            final(self).wf(),
            final(self)@.fps == old(self)@.fps.insert(fp@),
            final(self)@.urls == old(self)@.urls,
            final(self).fp_occurrences(fp@) == 1,
    {
        let ghost u = fp@;
        if self.contains_fp(&fp) {
            proof {
                assert(final(self)@.fps =~= old(self)@.fps.insert(u));
                lemma_contained_fp_occurrence_is_one(self.fps@, u);
            }
        } else {
            let ghost olds = self.fps@;
            self.fps.push(fp);
            proof {
                assert forall|w: Seq<u8>| #[trigger] final(self)@.fps.contains(w)
                    implies old(self)@.fps.insert(u).contains(w) by {
                    let i = choose|i: int| 0 <= i < self.fps@.len() && self.fps@[i]@ == w;
                    if i < olds.len() {
                        assert(olds[i]@ == w);
                    }
                }
                assert forall|w: Seq<u8>| #[trigger] old(self)@.fps.insert(u).contains(w)
                    implies final(self)@.fps.contains(w) by {
                    if w == u {
                        assert(self.fps@[olds.len() as int]@ == w);
                    } else {
                        let i = choose|i: int| 0 <= i < olds.len() && olds[i]@ == w;
                        assert(self.fps@[i]@ == w);
                    }
                }
                assert(final(self)@.fps =~= old(self)@.fps.insert(u));
                lemma_fresh_fp_push_occurrence(olds, u);
            }
        }
    }
}

/// In a duplicate-free sequence that holds `u`, exactly one entry does.
proof fn lemma_contained_occurrence_is_one(s: Seq<String>, u: Seq<char>)
    requires
        forall|i: int, j: int| 0 <= i < j < s.len() ==> s[i]@ != s[j]@,
        exists|i: int| 0 <= i < s.len() && s[i]@ == u,
    ensures
        s.filter(url_is(u)).len() == 1,
    decreases s.len(),
{
    reveal(Seq::filter);
    let p = url_is(u);
    let i = choose|i: int| 0 <= i < s.len() && s[i]@ == u;
    if i == s.len() - 1 {
        assert forall|j: int| 0 <= j < s.drop_last().len() implies !p(s.drop_last()[j]) by {
            assert(s[j]@ != s[i]@);
        }
        s.drop_last().lemma_all_neg_filter_empty(p);
        assert(s.filter(p) == s.drop_last().filter(p).push(s.last()));
    } else {
        assert(s.drop_last()[i]@ == u);
        lemma_contained_occurrence_is_one(s.drop_last(), u);
        assert(s.last()@ != s[i]@);
        assert(s.filter(p) == s.drop_last().filter(p));
    }
}

/// Pushing a key not yet present onto a sequence gives it exactly one entry.
proof fn lemma_fresh_push_occurrence(s: Seq<String>, u: Seq<char>)
    requires
        forall|j: int| 0 <= j < s.len() ==> s[j]@ != u,
    ensures
        forall|x: String| x@ == u ==> s.push(x).filter(url_is(u)).len() == 1,
{
    reveal(Seq::filter);
    let p = url_is(u);
    s.lemma_all_neg_filter_empty(p);
    assert forall|x: String| x@ == u implies s.push(x).filter(p).len() == 1 by {
        assert(s.push(x).drop_last() =~= s);
        assert(s.push(x).filter(p) == s.filter(p).push(x));
    }
}

/// In a duplicate-free sequence that holds `f`, exactly one entry does.
proof fn lemma_contained_fp_occurrence_is_one(s: Seq<Fingerprint>, f: Seq<u8>)
    requires
        forall|i: int, j: int| 0 <= i < j < s.len() ==> s[i]@ != s[j]@,
        exists|i: int| 0 <= i < s.len() && s[i]@ == f,
    ensures
        s.filter(fp_is(f)).len() == 1,
    decreases s.len(),
{
    reveal(Seq::filter);
    let p = fp_is(f);
    let i = choose|i: int| 0 <= i < s.len() && s[i]@ == f;
    if i == s.len() - 1 {
        assert forall|j: int| 0 <= j < s.drop_last().len() implies !p(s.drop_last()[j]) by {
            assert(s[j]@ != s[i]@);
        }
        s.drop_last().lemma_all_neg_filter_empty(p);
        assert(s.filter(p) == s.drop_last().filter(p).push(s.last()));
    } else {
        assert(s.drop_last()[i]@ == f);
        lemma_contained_fp_occurrence_is_one(s.drop_last(), f);
        assert(s.last()@ != s[i]@);
        assert(s.filter(p) == s.drop_last().filter(p));
    }
}

/// Pushing a fingerprint not yet present gives it exactly one entry.
proof fn lemma_fresh_fp_push_occurrence(s: Seq<Fingerprint>, f: Seq<u8>)
    requires
        forall|j: int| 0 <= j < s.len() ==> s[j]@ != f,
    ensures
        forall|x: Fingerprint| x@ == f ==> s.push(x).filter(fp_is(f)).len() == 1,
{
    reveal(Seq::filter);
    let p = fp_is(f);
    s.lemma_all_neg_filter_empty(p);
    assert forall|x: Fingerprint| x@ == f implies s.push(x).filter(p).len() == 1 by {
        assert(s.push(x).drop_last() =~= s);
        assert(s.push(x).filter(p) == s.filter(p).push(x));
    }
}

} // verus!
