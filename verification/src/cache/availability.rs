//! Article missing-state tracking across backends.
//!
//! A bitmap records which backends definitively do not have an article. A 430
//! answer is authoritative: once a backend has given it, the backend stays
//! missing. Successful answers are not represented, since servers can give
//! false positives.
use crate::bits::{
    bit, bit_set, lemma_empty, lemma_insert_bit, lemma_low_mask, low_mask_of,
};
use crate::types::{BackendCount, BackendId};
use vstd::prelude::*;

verus! {

/// Status of a backend for a specific article.
#[derive(Clone, Copy, Debug, PartialEq, Eq, Structural)]
pub enum BackendStatus {
    /// The backend has not been found to miss the article.
    Unknown,
    /// The backend answered 430.
    Missing,
}

/// A backend that may be asked for an article.
///
/// Only [`ArticleAvailability::eligible_backend`] makes one, so holding one
/// shows that the backend was not known to miss the article.
#[derive(Debug, PartialEq, Eq)]
pub struct EligibleArticleBackend {
    backend_id: BackendId,
}

impl View for EligibleArticleBackend {
    type V = nat;

    closed spec fn view(&self) -> nat {
        self.backend_id@
    }
}

impl EligibleArticleBackend {
    pub fn backend_id(&self) -> (r: BackendId)
        ensures
            r@ == self@,
    {
        self.backend_id
    }

    pub fn as_index(&self) -> (r: usize)
        ensures
            r == self@,
    {
        self.backend_id.as_index()
    }

    pub fn positive_observation(&self) -> (r: ArticleBackendHasArticle)
        ensures
            r@ == self@,
    {
        ArticleBackendHasArticle { backend_id: self.backend_id }
    }
}

/// Record that a backend gave a positive article answer.
#[derive(Clone, Copy, Debug, PartialEq, Eq, Structural)]
pub struct ArticleBackendHasArticle {
    backend_id: BackendId,
}

impl View for ArticleBackendHasArticle {
    type V = nat;

    closed spec fn view(&self) -> nat {
        self.backend_id@
    }
}

impl ArticleBackendHasArticle {
    pub fn backend_id(self) -> (r: BackendId)
        ensures
            r@ == self@,
    {
        self.backend_id
    }
}

/// Which backends are known not to have an article.
///
/// Its view is the set of positions of those backends.
#[derive(Clone, Copy, Debug, PartialEq, Eq, Structural)]
pub struct ArticleAvailability {
    missing: usize,
}

impl View for ArticleAvailability {
    type V = Set<nat>;

    open spec fn view(&self) -> Set<nat> {
        bit_set(self.bits())
    }
}

impl ArticleAvailability {
    /// The bitmap of missing backends.
    pub closed spec fn bits(&self) -> usize {
        self.missing
    }

    /// The availability with bitmap `bits`.
    pub closed spec fn of_bits(bits: usize) -> Self {
        ArticleAvailability { missing: bits }
    }

    /// An availability is determined by its bitmap.
    pub broadcast proof fn lemma_of_bits(bits: usize)
        ensures
            (#[trigger] Self::of_bits(bits)).bits() == bits,
    {
    }

    /// Nothing known: every backend may have the article.
    pub fn new() -> (r: Self)
        ensures
            r@ == Set::<nat>::empty(),
            r.bits() == 0,
            r == Self::of_bits(0),
    {
        proof {
            lemma_empty();
        }
        ArticleAvailability { missing: 0 }
    }

    /// Records that a backend answered 430.
    pub fn record_missing(&mut self, backend_id: BackendId) -> (r: &mut Self)
        ensures
            r@ == old(self)@.insert(backend_id@),
            r.bits() == old(self).bits() | (1usize << (backend_id@ as usize)),
            *final(self) == *final(r),
    {
        let mask = backend_id.availability_bit();
        proof {
            lemma_insert_bit(self.missing, backend_id@ as usize);
        }
        self.missing = self.missing | mask;
        self
    }

    /// Has this backend answered 430?
    pub fn is_missing(&self, backend_id: BackendId) -> (r: bool)
        ensures
            r == self@.contains(backend_id@),
    {
        self.missing & backend_id.availability_bit() != 0
    }

    /// May this backend have the article?
    pub fn should_try(&self, backend_id: BackendId) -> (r: bool)
        ensures
            r == !self@.contains(backend_id@),
    {
        !self.is_missing(backend_id)
    }

    /// The backend as one that may be asked, unless it is known missing.
    pub fn eligible_backend(&self, backend_id: BackendId) -> (r: Option<EligibleArticleBackend>)
        ensures
            match r {
                Some(e) => !self@.contains(backend_id@) && e@ == backend_id@,
                None => self@.contains(backend_id@),
            },
    {
        if self.should_try(backend_id) {
            Some(EligibleArticleBackend { backend_id })
        } else {
            None
        }
    }

    pub fn missing_bits(&self) -> (r: usize)
        ensures
            r == self.bits(),
    {
        self.missing
    }

    /// The backends that were checked. Being missing is the only outcome of a
    /// check that is kept.
    pub fn checked_bits(&self) -> (r: usize)
        ensures
            r == self.bits(),
    {
        self.missing
    }

    /// Is every one of the first `backend_count` backends known missing?
    pub fn all_exhausted(&self, backend_count: BackendCount) -> (r: bool)
        ensures
            r == (forall|i: nat| i < backend_count@ ==> self@.contains(i)),
    {
        let n = backend_count.get();
        let expected = low_mask_of(n);
        proof {
            lemma_low_mask(self.missing, n as nat);
            assert(forall|i: nat| i < n ==> (self@.contains(i) == bit(self.missing, i)));
        }
        self.missing & expected == expected
    }

    pub fn as_usize(&self) -> (r: usize)
        ensures
            r == self.bits(),
    {
        self.missing
    }

    /// Rebuilds an availability from stored bitmaps. The checked bitmap carries
    /// nothing that the missing bitmap does not.
    pub fn from_bits(checked: usize, missing: usize) -> (r: Self)
        ensures
            r == Self::of_bits(missing),
            r.bits() == missing,
    {
        ArticleAvailability { missing }
    }

    /// Is any backend known missing?
    pub fn has_availability_info(&self) -> (r: bool)
        ensures
            r == (self.bits() != 0),
            r == (self@ != Set::<nat>::empty()),
    {
        proof {
            lemma_empty();
            if self@ == Set::<nat>::empty() {
                crate::bits::lemma_same_bits(self.missing, 0);
            }
        }
        self.missing != 0
    }

    /// Does any backend that was checked have the article? No positive fact is
    /// kept, so this holds of no value.
    pub fn any_backend_has_article(&self) -> (r: bool)
        ensures
            !r,
    {
        let missing = self.missing;
        assert(missing & !missing == 0) by (bit_vector);
        self.checked_bits() & !self.missing != 0
    }

    /// Adds the facts of `other` to this value.
    pub fn merge_from(&mut self, other: &ArticleAvailability)
        ensures
            final(self)@ == old(self)@.union(other@),
            final(self).bits() == old(self).bits() | other.bits(),
    {
        proof {
            crate::bits::lemma_or(self.missing, other.missing);
        }
        self.missing = self.missing | other.missing;
    }

    pub fn status(&self, backend_id: BackendId) -> (r: BackendStatus)
        ensures
            r == if self@.contains(backend_id@) {
                BackendStatus::Missing
            } else {
                BackendStatus::Unknown
            },
    {
        if self.missing & backend_id.availability_bit() != 0 {
            BackendStatus::Missing
        } else {
            BackendStatus::Unknown
        }
    }
}

impl Default for ArticleAvailability {
    fn default() -> (r: Self)
        ensures
            r@ == Set::<nat>::empty(),
            r == ArticleAvailability::of_bits(0),
    {
        ArticleAvailability::new()
    }
}

/// Marking backends missing only ever adds facts, in whatever order they are
/// marked.
pub proof fn law_missing_is_monotonic(a: ArticleAvailability, first: nat, second: nat)
    ensures
        a@.subset_of(a@.insert(first)),
        a@.insert(first).insert(second) == a@.insert(second).insert(first),
        a@.insert(first).insert(first) == a@.insert(first),
{
    assert(a@.insert(first).insert(second) =~= a@.insert(second).insert(first));
    assert(a@.insert(first).insert(first) =~= a@.insert(first));
}

/// The backends among the first `count` that may still be asked.
pub open spec fn left_to_try(a: ArticleAvailability, count: nat) -> Set<nat> {
    Set::new(|i: nat| i < count && !a@.contains(i))
}

proof fn lemma_left_is_finite(a: ArticleAvailability, count: nat)
    ensures
        left_to_try(a, count).finite(),
    decreases count,
{
    if count == 0 {
        assert(left_to_try(a, 0) =~= Set::<nat>::empty());
    } else {
        let before = (count - 1) as nat;
        lemma_left_is_finite(a, before);
        if a@.contains(before) {
            assert(left_to_try(a, count) =~= left_to_try(a, before));
        } else {
            assert(left_to_try(a, count) =~= left_to_try(a, before).insert(before));
        }
    }
}

/// Asking one backend after another ends: as long as not every backend is known
/// to miss the article some backend may be asked, and each one that turns out
/// to miss it leaves one less.
pub proof fn law_retries_end(
    before: ArticleAvailability,
    after: ArticleAvailability,
    backend: nat,
    count: nat,
)
    requires
        backend < count,
        !before@.contains(backend),
        after@ == before@.insert(backend),
    ensures
        left_to_try(before, count).finite(),
        left_to_try(after, count).len() == left_to_try(before, count).len() - 1,
        (forall|i: nat| i < count ==> after@.contains(i)) == (left_to_try(after, count).len() == 0),
{
    lemma_left_is_finite(before, count);
    lemma_left_is_finite(after, count);
    let left = left_to_try(after, count);
    assert(left =~= left_to_try(before, count).remove(backend));
    if left.len() == 0 {
        assert forall|i: nat| i < count implies after@.contains(i) by {
            if !after@.contains(i) {
                assert(left.contains(i));
            }
        }
    } else if forall|i: nat| i < count ==> after@.contains(i) {
        assert(left =~= Set::<nat>::empty());
    }
}

/// Two availabilities with the same missing backends are the same value.
pub proof fn law_view_determines_value(a: ArticleAvailability, b: ArticleAvailability)
    requires
        a@ == b@,
    ensures
        a == b,
{
    crate::bits::lemma_same_bits(a.bits(), b.bits());
}

} // verus!
