//! First-match search over a sequence: the index of the first element
//! satisfying a predicate, or -1 when none does. The caches use it to fix
//! a deterministic, oldest-first tie-break for lookups.

use vstd::prelude::*;

verus! {

/// Index of the first element of `s` satisfying `p`, or -1 when none does.
pub open spec fn first_match<T>(s: Seq<T>, p: spec_fn(T) -> bool) -> int
    decreases s.len(),
{
    if s.len() == 0 {
        -1
    } else if p(s[0]) {
        0
    } else {
        let r = first_match(s.drop_first(), p);
        if r < 0 {
            -1
        } else {
            r + 1
        }
    }
}

/// `first_match` returns -1 exactly when no element satisfies `p`; otherwise
/// it returns the least index whose element does.
pub proof fn lemma_first_match<T>(s: Seq<T>, p: spec_fn(T) -> bool)
    ensures
        first_match(s, p) == -1 <==> (forall|i: int| 0 <= i < s.len() ==> !p(s[i])),
        first_match(s, p) != -1 ==> {
            let r = first_match(s, p);
            &&& 0 <= r < s.len()
            &&& p(s[r])
            &&& forall|j: int| 0 <= j < r ==> !p(s[j])
        },
    decreases s.len(),
{
    if s.len() != 0 && !p(s[0]) {
        let t = s.drop_first();
        lemma_first_match(t, p);
        let rt = first_match(t, p);
        if rt == -1 {
            assert forall|i: int| 0 <= i < s.len() implies !p(s[i]) by {
                if i >= 1 {
                    assert(s[i] == t[i - 1]);
                }
            }
        } else {
            assert(s[rt + 1] == t[rt]);
            assert forall|j: int| 0 <= j < rt + 1 implies !p(s[j]) by {
                if j >= 1 {
                    assert(s[j] == t[j - 1]);
                }
            }
        }
    }
}

/// When `i` is an index whose element satisfies `p` and no earlier one
/// does, `first_match` returns exactly `i`.
pub proof fn lemma_first_match_is<T>(s: Seq<T>, p: spec_fn(T) -> bool, i: int)
    requires
        0 <= i < s.len(),
        p(s[i]),
        forall|j: int| 0 <= j < i ==> !p(s[j]),
    ensures
        first_match(s, p) == i,
{
    lemma_first_match(s, p);
    let r = first_match(s, p);
    if r == -1 {
        assert(!p(s[i]));
    } else if r < i {
        assert(!p(s[r]));
    } else if r > i {
        assert(!p(s[i]));
    }
}

} // verus!
