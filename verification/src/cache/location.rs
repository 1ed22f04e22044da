//! Which backends have which articles.
use crate::types::{max_backends, BackendId, MessageId};
use std::sync::Arc;
use vstd::prelude::*;
use vstd::string::*;

verus! {

/// Is bit `i` set?
pub open spec fn wide_bit(bits: u64, i: nat) -> bool {
    bits & (1u64 << (i as u64)) != 0
}

/// Positions of the bits that are set.
pub open spec fn wide_bit_set(bits: u64) -> Set<nat> {
    Set::new(|i: nat| i < 64 && wide_bit(bits, i))
}

proof fn lemma_wide_bits(bits: u64, i: u64)
    requires
        i < 64,
    ensures
        wide_bit_set(bits | (1u64 << i)) == wide_bit_set(bits).insert(i as nat),
        wide_bit_set(bits & !(1u64 << i)) == wide_bit_set(bits).remove(i as nat),
{
    assert forall|j: u64| j < 64 implies {
        &&& #[trigger] wide_bit(bits | (1u64 << i), j as nat) == (wide_bit(bits, j as nat) || i == j)
        &&& wide_bit(bits & !(1u64 << i), j as nat) == (wide_bit(bits, j as nat) && i != j)
    } by {
        assert((((bits | (1u64 << i)) & (1u64 << j)) != 0) == ((bits & (1u64 << j)) != 0 || i == j)
            && (((bits & !(1u64 << i)) & (1u64 << j)) != 0) == ((bits & (1u64 << j)) != 0 && i
            != j)) by (bit_vector)
            requires
                i < 64,
                j < 64,
        ;
    }
    assert forall|k: nat| wide_bit_set(bits | (1u64 << i)).contains(k) == wide_bit_set(bits).insert(
        i as nat,
    ).contains(k) && wide_bit_set(bits & !(1u64 << i)).contains(k) == wide_bit_set(bits).remove(
        i as nat,
    ).contains(k) by {
        if k < 64 {
            assert(wide_bit(bits | (1u64 << i), k as u64 as nat) == (wide_bit(bits, k) || i == k));
        }
    }
    assert(wide_bit_set(bits | (1u64 << i)) =~= wide_bit_set(bits).insert(i as nat));
    assert(wide_bit_set(bits & !(1u64 << i)) =~= wide_bit_set(bits).remove(i as nat));
}

/// The members of a set below `n`, in ascending order.
pub open spec fn listed(s: Set<nat>, n: nat) -> Seq<nat>
    decreases n,
{
    if n == 0 {
        Seq::empty()
    } else if s.contains((n - 1) as nat) {
        listed(s, (n - 1) as nat).push((n - 1) as nat)
    } else {
        listed(s, (n - 1) as nat)
    }
}

pub open spec fn numbers(backends: Seq<BackendId>) -> Seq<nat> {
    backends.map_values(|b: BackendId| b@)
}

/// The backends that have an article, at most 64.
#[derive(Clone, Copy, Debug, PartialEq, Eq, Structural)]
pub struct BackendAvailability {
    pub bits: u64,
}

impl View for BackendAvailability {
    type V = Set<nat>;

    open spec fn view(&self) -> Set<nat> {
        wide_bit_set(self.bits)
    }
}

impl BackendAvailability {
    /// No backend has the article.
    pub fn new() -> (r: Self)
        ensures
            r.bits == 0,
            r@ == Set::<nat>::empty(),
    {
        let r = BackendAvailability { bits: 0 };
        proof {
            assert forall|i: nat| !r@.contains(i) by {
                let k = i as u64;
                assert(0u64 & (1u64 << k) == 0) by (bit_vector);
            }
            assert(r@ =~= Set::<nat>::empty());
        }
        r
    }

    pub fn mark_available(&mut self, backend: BackendId)
        ensures
            final(self)@ == old(self)@.insert(backend@),
    {
        let i = backend.as_index();
        proof {
            lemma_wide_bits(self.bits, i as u64);
        }
        self.bits = self.bits | (1u64 << (i as u64));
    }

    pub fn mark_unavailable(&mut self, backend: BackendId)
        ensures
            final(self)@ == old(self)@.remove(backend@),
    {
        let i = backend.as_index();
        proof {
            lemma_wide_bits(self.bits, i as u64);
        }
        self.bits = self.bits & !(1u64 << (i as u64));
    }

    pub fn has_article(&self, backend: BackendId) -> (r: bool)
        ensures
            r == self@.contains(backend@),
    {
        let i = backend.as_index();
        self.bits & (1u64 << (i as u64)) != 0
    }

    /// The backends among the first `max_backends` that have the article, in
    /// ascending order.
    pub fn available_backends(&self, count: usize) -> (r: Vec<BackendId>)
        requires
            count <= max_backends(),
        ensures
            numbers(r@) == listed(self@, count as nat),
    {
        let mut out: Vec<BackendId> = Vec::new();
        assert(numbers(out@) =~= Seq::<nat>::empty());
        for i in 0..count
            invariant
                count <= max_backends(),
                numbers(out@) == listed(self@, i as nat),
        {
            let ghost before = numbers(out@);
            let backend = BackendId::from_index(i);
            if self.has_article(backend) {
                out.push(backend);
                assert(numbers(out@) =~= before.push(i as nat));
            }
        }
        out
    }

    pub fn has_any(&self) -> (r: bool)
        ensures
            r == (self.bits != 0),
    {
        self.bits != 0
    }

    pub fn as_u64(&self) -> (r: u64)
        ensures
            r == self.bits,
    {
        self.bits
    }
}

impl Default for BackendAvailability {
    fn default() -> (r: Self)
        ensures
            r.bits == 0,
            r@ == Set::<nat>::empty(),
    {
        BackendAvailability::new()
    }
}

// ---------------------------------------------------------------------------
// The cache
// ---------------------------------------------------------------------------

/// A `moka::sync::Cache` from message identifiers to bitmaps.
#[verifier::external_body]
pub struct LocationTable {
    inner: moka::sync::Cache<Arc<str>, u64>,
}

/// The value that was put last into a cache under each key, whether or not the
/// cache has since dropped it.
pub uninterp spec fn last_inserted(cache: LocationTable) -> Map<Seq<char>, u64>;

pub open spec fn no_locations() -> Map<Seq<char>, u64> {
    Map::empty()
}

/// The number of entries that a cache was made for.
pub uninterp spec fn entry_limit(cache: LocationTable) -> u64;

/// `moka::sync::CacheBuilder`: an empty cache for at most `capacity` entries,
/// with room made for them. A capacity whose table could not be addressed is
/// left out.
#[verifier::external_body]
fn new_cache(capacity: u64) -> (r: LocationTable)
    requires
        capacity <= usize::MAX / 64,
    ensures
        last_inserted(r) == no_locations(),
        entry_limit(r) == capacity,
{
    let inner = moka::sync::Cache::builder()
        .max_capacity(capacity)
        .initial_capacity(capacity as usize)
        .build();
    LocationTable { inner }
}

/// `found` is what a cache may answer for a key: the value put last under it, or
/// nothing where none was put or where more keys were put than the cache was
/// made for.
pub open spec fn recalls(
    put: Map<Seq<char>, u64>,
    limit: u64,
    key: Seq<char>,
    found: Option<u64>,
) -> bool {
    match found {
        Some(v) => put.contains_pair(key, v),
        None => !put.dom().contains(key) || put.dom().len() > limit,
    }
}

/// `moka::sync::Cache::get`: what was put last under the key, or nothing. A
/// cache without expiry drops entries only for want of room, so it has them all
/// as long as no more keys were put into it than it was made for. Once there
/// were more, which of them it still has is left unsaid.
#[verifier::external_body]
fn cache_get(cache: &LocationTable, key: &str) -> (r: Option<u64>)
    ensures
        recalls(last_inserted(*cache), entry_limit(*cache), key@, r),
{
    cache.inner.get(key)
}

/// `moka::sync::Cache::insert`: puts a value under a key, in the place of what
/// was there.
#[verifier::external_body]
fn cache_insert(cache: &mut LocationTable, key: &str, value: u64)
    ensures
        last_inserted(*final(cache)) == last_inserted(*old(cache)).insert(key@, value),
        entry_limit(*final(cache)) == entry_limit(*old(cache)),
{
    cache.inner.insert(Arc::from(key), value);
}

/// `moka::sync::Cache::entry_count`: an estimate, as of when the cache last tidied
/// up. It counts an entry when it lets it in, once for a key, and no longer once
/// it has dropped it, so it counts no more entries than keys were put. How far
/// it lags behind is left unsaid, and so is how far it is over the capacity.
#[verifier::external_body]
fn cache_entry_count(cache: &LocationTable) -> (r: u64)
    ensures
        r <= last_inserted(*cache).dom().len(),
{
    cache.inner.entry_count()
}

/// `moka::Policy::max_capacity`: the number of entries that the cache was made
/// for.
#[verifier::external_body]
fn cache_capacity(cache: &LocationTable) -> (r: Option<u64>)
    ensures
        r == Some(entry_limit(*cache)),
{
    cache.inner.policy().max_capacity()
}

/// Locations of articles, by message identifier. The cache is bounded: once more
/// articles were recorded than it has room for, it may have dropped any of them.
pub struct ArticleLocationCache {
    cache: LocationTable,
    num_backends: usize,
}

impl ArticleLocationCache {
    /// What was recorded last for each article.
    pub closed spec fn recorded(&self) -> Map<Seq<char>, u64> {
        last_inserted(self.cache)
    }

    pub closed spec fn spec_capacity(&self) -> u64 {
        entry_limit(self.cache)
    }

    pub closed spec fn spec_backends(&self) -> usize {
        self.num_backends
    }

    /// `found` is what the cache may answer for an article.
    pub open spec fn answers(&self, id: Seq<char>, found: Option<BackendAvailability>) -> bool {
        recalls(
            self.recorded(),
            self.spec_capacity(),
            id,
            match found {
                Some(a) => Some(a.bits),
                None => None,
            },
        )
    }

    /// An empty cache for this many articles.
    pub fn new(capacity: u64, num_backends: usize) -> (r: Self)
        requires
            capacity <= usize::MAX / 64,
        ensures
            r.recorded() == no_locations(),
            r.spec_capacity() == capacity,
            r.spec_backends() == num_backends,
    {
        ArticleLocationCache { cache: new_cache(capacity), num_backends }
    }

    /// What is known of an article: what was recorded last, or nothing where
    /// nothing was recorded, or more articles were than there is room for.
    pub fn get(&self, message_id: &MessageId) -> (r: Option<BackendAvailability>)
        ensures
            self.answers(message_id@, r),
    {
        match cache_get(&self.cache, message_id.as_str()) {
            Some(bits) => Some(BackendAvailability { bits }),
            None => None,
        }
    }

    /// Records whether a backend has an article, on top of what is known.
    pub fn update(&mut self, message_id: &MessageId, backend: BackendId, available: bool)
        ensures
            exists|known: Option<BackendAvailability>, next: BackendAvailability|
                {
                    &&& old(self).answers(message_id@, known)
                    &&& #[trigger] updates(known, backend@, available, next)
                    &&& final(self).recorded() == old(self).recorded().insert(
                        message_id@,
                        next.bits,
                    )
                },
            final(self).spec_capacity() == old(self).spec_capacity(),
            final(self).spec_backends() == old(self).spec_backends(),
    {
        let known = self.get(message_id);
        let availability = updated_availability(known, backend, available);
        assert(updates(known, backend@, available, availability));
        cache_insert(&mut self.cache, message_id.as_str(), availability.bits);
    }

    /// Records all that is known of an article.
    pub fn insert(&mut self, message_id: &MessageId, availability: BackendAvailability)
        ensures
            final(self).recorded() == old(self).recorded().insert(message_id@, availability.bits),
            final(self).spec_capacity() == old(self).spec_capacity(),
            final(self).spec_backends() == old(self).spec_backends(),
    {
        cache_insert(&mut self.cache, message_id.as_str(), availability.bits);
    }

    pub fn num_backends(&self) -> (r: usize)
        ensures
            r == self.spec_backends(),
    {
        self.num_backends
    }

    /// An estimate of the number of articles in the cache, which is never above
    /// the number of those that were recorded.
    pub fn entry_count(&self) -> (r: u64)
        ensures
            r <= self.recorded().dom().len(),
    {
        cache_entry_count(&self.cache)
    }

    pub fn capacity(&self) -> (r: u64)
        ensures
            r == self.spec_capacity(),
    {
        match cache_capacity(&self.cache) {
            Some(c) => c,
            None => 0,
        }
    }
}

/// `next` is what is known once one backend was seen to have, or not to have,
/// the article.
pub open spec fn updates(
    known: Option<BackendAvailability>,
    backend: nat,
    available: bool,
    next: BackendAvailability,
) -> bool {
    let before = match known {
        Some(a) => a@,
        None => Set::<nat>::empty(),
    };
    next@ == if available {
        before.insert(backend)
    } else {
        before.remove(backend)
    }
}

/// What is known once one backend was seen to have, or not to have, the
/// article.
pub fn updated_availability(known: Option<BackendAvailability>, backend: BackendId, available: bool) -> (r:
    BackendAvailability)
    ensures
        updates(known, backend@, available, r),
{
    let mut availability = match known {
        Some(a) => a,
        None => BackendAvailability::new(),
    };
    if available {
        availability.mark_available(backend);
    } else {
        availability.mark_unavailable(backend);
    }
    availability
}

/// What was put under a key is recalled as long as no more keys were put than
/// there is room for; what was put under another stays.
pub proof fn law_locations_are_recalled(
    put: Map<Seq<char>, u64>,
    limit: u64,
    key: Seq<char>,
    value: u64,
    other: Seq<char>,
    found: Option<u64>,
)
    ensures
        ({
            let after = put.insert(key, value);
            &&& recalls(after, limit, key, found) && after.dom().len() <= limit ==> found == Some(
                value,
            )
            &&& recalls(after, limit, key, found) && found is Some ==> found == Some(value)
            &&& other != key && recalls(after, limit, other, found) && found is Some
                ==> put.dom().contains(other) && found == Some(put[other])
            &&& !put.dom().contains(other) && other != key && recalls(after, limit, other, found)
                ==> found is None
        }),
{
}

/// An observation changes what is known of its backend and of no other, and the
/// last one counts.
pub proof fn law_observations(
    known: Option<BackendAvailability>,
    backend: nat,
    available: bool,
    next: BackendAvailability,
    other: nat,
)
    requires
        updates(known, backend, available, next),
    ensures
        next@.contains(backend) == available,
        other != backend && known is Some ==> next@.contains(other) == known->0@.contains(other),
        other != backend && known is None ==> !next@.contains(other),
{
}

/// The backends that are listed are those of the set below the bound, each once,
/// in ascending order.
pub proof fn law_listed_backends(s: Set<nat>, n: nat)
    ensures
        forall|i: nat| #[trigger] listed(s, n).contains(i) <==> s.contains(i) && i < n,
        forall|a: int, b: int|
            0 <= a < b < listed(s, n).len() ==> #[trigger] listed(s, n)[a] < #[trigger] listed(
                s,
                n,
            )[b],
    decreases n,
{
    if n > 0 {
        let m = (n - 1) as nat;
        law_listed_backends(s, m);
        let before = listed(s, m);
        let after = listed(s, n);
        if s.contains(m) {
            assert(after == before.push(m));
            assert forall|i: nat| #[trigger] after.contains(i) <==> s.contains(i) && i < n by {
                if after.contains(i) {
                    let k = choose|k: int| 0 <= k < after.len() && after[k] == i;
                    if k < before.len() {
                        assert(before[k] == i);
                        assert(before.contains(i));
                    }
                }
                if s.contains(i) && i < n {
                    if i == m {
                        assert(after[before.len() as int] == i);
                    } else {
                        assert(before.contains(i));
                        let k = choose|k: int| 0 <= k < before.len() && before[k] == i;
                        assert(after[k] == i);
                    }
                }
            }
            assert forall|a: int, b: int| 0 <= a < b < after.len() implies #[trigger] after[a]
                < #[trigger] after[b] by {
                if b == before.len() {
                    assert(before.contains(before[a]));
                    assert(after[a] == before[a]);
                } else {
                    assert(after[a] == before[a] && after[b] == before[b]);
                }
            }
        } else {
            assert(after == before);
            assert forall|i: nat| #[trigger] after.contains(i) <==> s.contains(i) && i < n by {
                assert(before.contains(i) <==> s.contains(i) && i < m);
            }
        }
    }
}

} // verus!
