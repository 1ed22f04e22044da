//! Bounded index of the providers that miss an article.
//!
//! Facts are negative only: a provider answered 430. The index is one rotating
//! fingerprint filter, cut into shards by bucket so that each can be locked
//! alone. What it knows does not depend on the number of shards.
use crate::bits::{bit, bit_set, lemma_empty, lemma_insert_bit};
use crate::cache::article::{missing_entry, ArticleModel, CachedArticle};
use crate::cache::availability_identity::{
    host_position, lemma_host_position, models, synthetic_identities, AvailabilityIdentity,
    AvailabilityLayout, AvailabilitySlot, IdentityModel,
};
use crate::cache::availability_snapshot::{
    encode_snapshot, hosts_fit, parse_snapshot, parse_snapshot_spec, snapshot_bytes,
    SnapshotError, SnapshotModel, StoredAvailabilitySnapshot,
};
use crate::cache::filter::{
    free_generation, lemma_rotated_fields, used_in, ArticleFingerprint, FilterModel, FilterState,
    InsertOutcome, LocalBlockIndex, PersistedEntry, BLOCK_BYTES, BLOCK_SLOTS,
};
use crate::cache::ttl::{clamp_u64, now_millis, CacheTier, CacheTtlMillis};
use crate::hash::{xxhash64, xxhash64_of};
use crate::types::{max_backends, BackendId, Duration, MessageId};
use vstd::prelude::*;
use vstd::string::*;
use vstd::utf8::*;

verus! {

/// Generations of an index that nothing else is asked of.
pub const DEFAULT_GENERATIONS: usize = 2;

/// Shards of an index that nothing else is asked of.
pub const DEFAULT_SHARDS: usize = 32;

/// Bytes of an index that nothing else is asked of: room for 262144 articles,
/// two to a block.
pub const FIXED_CAPACITY_BYTES: u64 = 5_242_880;

/// Seed of the confirmation tag.
pub const TAG_SEED: u64 = 0x9E37_79B9_7F4A_7C15;

// ---------------------------------------------------------------------------
// Where an article is
// ---------------------------------------------------------------------------

/// The fingerprint of a key: its hash, with one in place of zero, and the low
/// bits of a second hash.
pub open spec fn fingerprint_of(key: Seq<u8>) -> ArticleFingerprint {
    let hash = xxhash64_of(0, key);
    ArticleFingerprint {
        hash: if hash == 0 {
            1
        } else {
            hash
        },
        tag: (xxhash64_of(TAG_SEED, key) % 0x1_0000) as u16,
    }
}

impl ArticleFingerprint {
    pub fn from_key(key: &[u8]) -> (r: Self)
        ensures
            r == fingerprint_of(key@),
            r.hash != 0,
    {
        let hash = xxhash64(0, key);
        let tag = xxhash64(TAG_SEED, key);
        ArticleFingerprint {
            hash: if hash == 0 {
                1
            } else {
                hash
            },
            tag: (tag % 0x1_0000) as u16,
        }
    }
}

/// The two halves of a hash, folded into one word.
pub open spec fn folded(hash: u64) -> usize {
    ((hash >> 32) as usize) ^ (hash as usize)
}

/// Bucket of a hash among `blocks`.
pub open spec fn bucket_of(hash: u64, blocks: nat) -> nat {
    if blocks == 0 {
        0
    } else {
        folded(hash) as nat % blocks
    }
}

/// Blocks of shard `i` when `blocks` are dealt out to `shards` in turn.
pub open spec fn width_of(blocks: nat, shards: nat, i: int) -> nat {
    blocks / shards + if i < blocks % shards {
        1nat
    } else {
        0nat
    }
}

/// A bucket of all blocks has its place within its shard.
pub(crate) proof fn lemma_place(blocks: nat, shards: nat, bucket: nat)
    requires
        shards > 0,
        bucket < blocks,
    ensures
        bucket % shards < shards,
        bucket / shards < width_of(blocks, shards, (bucket % shards) as int),
{
    let b = bucket / shards;
    let s = bucket % shards;
    let q = blocks / shards;
    let r = blocks % shards;
    assert(bucket == shards * b + s && s < shards) by (nonlinear_arith)
        requires
            b == bucket / shards,
            s == bucket % shards,
            shards > 0,
    ;
    assert(blocks == shards * q + r && r < shards) by (nonlinear_arith)
        requires
            q == blocks / shards,
            r == blocks % shards,
            shards > 0,
    ;
    if b > q {
        assert(shards * b >= shards * q + shards) by (nonlinear_arith)
            requires
                b >= q + 1,
                shards > 0,
        ;
    }
    if b == q {
        assert(s < r);
    }
}

// ---------------------------------------------------------------------------
// The index
// ---------------------------------------------------------------------------

/// A shard: its part of the filter, and what happened to it.
#[verifier::ext_equal]
pub struct ShardModel {
    pub filter: FilterModel,
    pub hits: u64,
    pub misses: u64,
    pub evictions: u64,
}

/// What an index holds.
#[verifier::ext_equal]
pub struct IndexModel {
    pub shards: Seq<ShardModel>,
    /// Was a fact ever recorded?
    pub populated: bool,
    /// Lookups before that.
    pub initial_misses: u64,
    /// Blocks of one generation, over all shards.
    pub blocks: nat,
    /// The providers that the bits stand for.
    pub providers: Seq<IdentityModel>,
    pub capacity_bytes: u64,
    /// Milliseconds that a fact is kept; the largest value stands for ever.
    pub ttl: u64,
}

/// A counter after `n` more events; it stops at its largest value.
pub open spec fn counted(counter: u64, n: int) -> u64 {
    if counter + n > u64::MAX {
        u64::MAX
    } else {
        (counter + n) as u64
    }
}

/// Facts that age out of the filter up to `now`.
pub open spec fn aged_out(f: FilterModel, now: u64) -> int {
    used_in(f.generations) - used_in(f.rotated(now).generations)
}

impl ShardModel {
    /// The shard after a lookup that found `bits`.
    pub open spec fn looked_up(self, bits: usize, now: u64) -> ShardModel {
        ShardModel {
            filter: self.filter.rotated(now),
            hits: counted(
                self.hits,
                if bits == 0 {
                    0
                } else {
                    1
                },
            ),
            misses: counted(
                self.misses,
                if bits == 0 {
                    1
                } else {
                    0
                },
            ),
            evictions: counted(self.evictions, aged_out(self.filter, now)),
        }
    }

    /// The shard after a fact was recorded.
    pub open spec fn recorded(self, fp: ArticleFingerprint, bits: usize, bucket: int, now: u64) -> ShardModel {
        ShardModel {
            filter: self.filter.recorded(fp, bits, bucket, now),
            evictions: counted(
                self.evictions,
                self.filter.lost_by_recording(fp, bits, bucket, now),
            ),
            ..self
        }
    }

    /// The shard at `now`.
    pub open spec fn aged(self, now: u64) -> ShardModel {
        ShardModel {
            filter: self.filter.rotated(now),
            evictions: counted(self.evictions, aged_out(self.filter, now)),
            ..self
        }
    }
}

/// Blocks that there is room for in a capacity.
pub open spec fn blocks_for(capacity: u64) -> nat {
    (capacity as usize / BLOCK_BYTES) as nat
}

impl IndexModel {
    /// Generations of each shard.
    pub open spec fn generation_count(self) -> nat {
        self.shards[0].filter.generations.len()
    }

    pub open spec fn wf(self) -> bool {
        &&& self.shards.len() > 0
        &&& self.blocks > 0 ==> self.shards.len() <= self.blocks
        &&& self.blocks == 0 ==> self.shards.len() == 1
        &&& forall|i: int| #![trigger self.shards[i]]
            0 <= i < self.shards.len() ==> {
                &&& self.shards[i].filter.wf()
                &&& self.shards[i].filter.width == width_of(self.blocks, self.shards.len(), i)
                &&& self.shards[i].filter.interval == interval_for(
                    self.ttl,
                    self.shards[i].filter.generations.len(),
                )
                &&& self.shards[i].filter.generations.len() == self.generation_count()
            }
        &&& self.blocks == blocks_for(self.capacity_bytes) / self.generation_count()
        &&& self.providers.no_duplicates()
        &&& self.providers.len() <= max_backends()
    }

    /// The shard of a hash.
    pub open spec fn shard_of(self, hash: u64) -> int {
        (bucket_of(hash, self.blocks) % self.shards.len()) as int
    }

    /// The bucket of a hash within its shard.
    pub open spec fn local_of(self, hash: u64) -> int {
        (bucket_of(hash, self.blocks) / self.shards.len()) as int
    }

    /// Bitmap of the providers known at `now` to miss the article.
    pub open spec fn bits_at(self, fp: ArticleFingerprint, now: u64) -> usize {
        self.shards[self.shard_of(fp.hash)].filter.rotated(now).bits_of(fp, self.local_of(fp.hash))
    }

    /// The index after a lookup in the filter.
    pub open spec fn probed(self, fp: ArticleFingerprint, now: u64) -> IndexModel {
        let s = self.shard_of(fp.hash);
        IndexModel {
            shards: self.shards.update(
                s,
                self.shards[s].looked_up(self.bits_at(fp, now), now),
            ),
            ..self
        }
    }

    /// What the index answers for a key. Before the first fact it answers
    /// nothing.
    pub open spec fn answer(self, key: Seq<u8>, now: u64) -> usize {
        if self.populated {
            self.bits_at(fingerprint_of(key), now)
        } else {
            0
        }
    }

    /// The index after a lookup.
    pub open spec fn asked(self, key: Seq<u8>, now: u64) -> IndexModel {
        if self.populated {
            self.probed(fingerprint_of(key), now)
        } else {
            IndexModel { initial_misses: counted(self.initial_misses, 1), ..self }
        }
    }

    /// The index after a fact was put into the filter.
    pub open spec fn noted(self, fp: ArticleFingerprint, bits: usize, now: u64) -> IndexModel {
        let s = self.shard_of(fp.hash);
        IndexModel {
            shards: self.shards.update(
                s,
                self.shards[s].recorded(fp, bits, self.local_of(fp.hash), now),
            ),
            ..self
        }
    }

    /// The index after a fact was recorded. Nothing is recorded for an empty
    /// key, without bits, or where facts are kept for no time.
    pub open spec fn recorded(self, key: Seq<u8>, bits: usize, now: u64) -> IndexModel {
        if key.len() == 0 || bits == 0 || self.ttl == 0 {
            self
        } else {
            IndexModel { populated: true, ..self.noted(fingerprint_of(key), bits, now) }
        }
    }

    /// The index at `now`.
    pub open spec fn aged(self, now: u64) -> IndexModel {
        IndexModel { shards: self.shards.map_values(|s: ShardModel| s.aged(now)), ..self }
    }
}

/// What has been counted in a shard.
#[derive(Clone, Copy, Debug, PartialEq, Eq, Structural)]
pub struct ShardCounters {
    pub hits: u64,
    pub misses: u64,
    pub evictions: u64,
}

/// A part of the filter with its counters.
#[derive(Debug)]
pub struct ShardState {
    pub filter: FilterState,
    pub counters: ShardCounters,
}

impl View for ShardState {
    type V = ShardModel;

    open spec fn view(&self) -> ShardModel {
        ShardModel {
            filter: self.filter@,
            hits: self.counters.hits,
            misses: self.counters.misses,
            evictions: self.counters.evictions,
        }
    }
}

/// Shard and bucket of an article.
#[derive(Clone, Copy, Debug, PartialEq, Eq, Structural)]
pub struct ArticlePlace {
    pub shard: usize,
    pub bucket: LocalBlockIndex,
}

/// Bounded index of the providers that miss an article.
#[derive(Debug)]
pub struct AvailabilityIndex {
    pub shards: Vec<ShardState>,
    pub populated: bool,
    pub initial_misses: u64,
    pub blocks_per_generation: usize,
    pub layout: AvailabilityLayout,
    pub capacity_bytes: u64,
    pub ttl: CacheTtlMillis,
}

pub open spec fn shard_views(shards: Seq<ShardState>) -> Seq<ShardModel> {
    shards.map_values(|s: ShardState| s@)
}

impl View for AvailabilityIndex {
    type V = IndexModel;

    open spec fn view(&self) -> IndexModel {
        IndexModel {
            shards: shard_views(self.shards@),
            populated: self.populated,
            initial_misses: self.initial_misses,
            blocks: self.blocks_per_generation as nat,
            providers: models(self.layout.identities@),
            capacity_bytes: self.capacity_bytes,
            ttl: self.ttl.value,
        }
    }
}

/// Generations of an index of this many blocks: as many as are wanted, at
/// least one, and no more than there are blocks.
pub open spec fn generations_for(blocks: nat, wanted: nat) -> nat {
    let w = if wanted == 0 {
        1
    } else {
        wanted
    };
    let most = if blocks == 0 {
        1
    } else {
        blocks
    };
    if w < most {
        w
    } else {
        most
    }
}

/// Milliseconds between two turns of the ring.
pub open spec fn interval_for(ttl: u64, generations: nat) -> u64 {
    if ttl == 0 || ttl == u64::MAX {
        ttl
    } else if ttl as nat / generations == 0 {
        1
    } else {
        (ttl as nat / generations) as u64
    }
}

/// A shard that nothing has happened to.
pub open spec fn fresh_shard(width: nat, generations: nat, interval: u64) -> ShardModel {
    ShardModel {
        filter: FilterModel {
            generations: Seq::new(generations, |i: int| free_generation(width)),
            current: 0,
            live: 0,
            interval,
            next_rotation_at: 0,
            width,
        },
        hits: 0,
        misses: 0,
        evictions: 0,
    }
}

/// The shards of a new index.
pub open spec fn fresh_shards(capacity: u64, ttl: u64, generations: nat, shards: nat) -> Seq<
    ShardModel,
> {
    let g = generations_for(blocks_for(capacity), generations);
    let blocks = blocks_for(capacity) / g;
    let n = generations_for(blocks, shards);
    Seq::new(n, |i: int| fresh_shard(width_of(blocks, n, i), g, interval_for(ttl, g)))
}

/// An index that nothing has happened to.
pub open spec fn fresh_index(
    capacity: u64,
    ttl: u64,
    generations: nat,
    shards: nat,
    providers: Seq<IdentityModel>,
) -> IndexModel {
    IndexModel {
        shards: fresh_shards(capacity, ttl, generations, shards),
        populated: false,
        initial_misses: 0,
        blocks: blocks_for(capacity) / generations_for(blocks_for(capacity), generations),
        providers,
        capacity_bytes: capacity,
        ttl,
    }
}

impl Default for AvailabilityIndex {
    fn default() -> (r: Self)
        ensures
            r.wf(),
            r@ == fresh_index(
                FIXED_CAPACITY_BYTES,
                u64::MAX,
                2,
                32,
                synthetic_identities(max_backends()),
            ),
            r.layout.is_synthetic(max_backends()),
    {
        AvailabilityIndex::new()
    }
}

impl AvailabilityIndex {
    pub open spec fn wf(&self) -> bool {
        &&& self@.wf()
        &&& self.layout.wf()
        &&& forall|i: int| #![trigger self.shards@[i]]
            0 <= i < self.shards@.len() ==> self.shards@[i].filter.wf()
    }

    pub fn fixed_capacity_bytes() -> (r: u64)
        ensures
            r == 5_242_880,
    {
        FIXED_CAPACITY_BYTES
    }

    /// An index of this capacity, lifetime and shape.
    pub fn with_geometry(
        capacity_bytes: u64,
        ttl: Duration,
        generation_count: usize,
        shard_count: usize,
    ) -> (r: Self)
        ensures
            r.wf(),
            r@ == fresh_index(
                capacity_bytes,
                clamp_u64(ttl@ / 1_000_000),
                generation_count as nat,
                shard_count as nat,
                synthetic_identities(max_backends()),
            ),
            r.layout.is_synthetic(max_backends()),
    {
        let ttl = CacheTtlMillis::from_duration(ttl);
        let total: usize = capacity_bytes as usize / BLOCK_BYTES;
        let generations = at_least_one_at_most(generation_count, total);
        let blocks: usize = total / generations;
        let millis = ttl.get();
        let interval: u64 = if millis == 0 || millis == u64::MAX {
            millis
        } else if millis / generations as u64 == 0 {
            1
        } else {
            millis / generations as u64
        };
        let n = at_least_one_at_most(shard_count, blocks);
        let ghost want = fresh_shards(
            capacity_bytes,
            millis,
            generation_count as nat,
            shard_count as nat,
        );
        assert(generations * blocks <= total) by (nonlinear_arith)
            requires
                blocks == total / generations,
                generations > 0,
        ;
        assert(blocks <= total) by (nonlinear_arith)
            requires
                blocks == total / generations,
                generations > 0,
        ;
        let mut shards: Vec<ShardState> = Vec::new();
        for i in 0..n
            invariant
                n == want.len(),
                n == generations_for(blocks as nat, shard_count as nat),
                want.len() > 0,
                shards@.len() == i,
                generations > 0,
                generations * blocks <= total,
                blocks <= total,
                total <= usize::MAX / 40,
                forall|j: int| #![trigger want[j]]
                    0 <= j < n ==> want[j] == fresh_shard(
                        width_of(blocks as nat, n as nat, j),
                        generations as nat,
                        interval,
                    ),
                forall|j: int| #![trigger shards@[j]]
                    0 <= j < i ==> shards@[j].filter.wf() && shards@[j]@ == want[j],
        {
            assert(blocks / n <= blocks) by (nonlinear_arith)
                requires
                    n > 0,
            ;
            let width: usize = blocks / n + if i < blocks % n {
                1
            } else {
                0
            };
            proof {
                assert(width == width_of(blocks as nat, n as nat, i as int));
                assert(width <= blocks) by (nonlinear_arith)
                    requires
                        width == blocks / n + if i < blocks % n { 1int } else { 0int },
                        0 < n,
                        n <= blocks || blocks == 0,
                ;
                assert(generations * (BLOCK_SLOTS * width) <= 2 * total) by (nonlinear_arith)
                    requires
                        width <= blocks,
                        generations * blocks <= total,
                        BLOCK_SLOTS == 2,
                ;
            }
            let filter = FilterState::new(width, generations, interval);
            let shard = ShardState {
                filter,
                counters: ShardCounters { hits: 0, misses: 0, evictions: 0 },
            };
            assert(shard@ =~= want[i as int]);
            shards.push(shard);
        }
        let r = AvailabilityIndex {
            shards,
            populated: false,
            initial_misses: 0,
            blocks_per_generation: blocks,
            layout: AvailabilityLayout::synthetic(usize::BITS as usize),
            capacity_bytes,
            ttl,
        };
        assert(r@.shards =~= want);
        assert(forall|i: int| #![trigger r@.shards[i]]
            0 <= i < r@.shards.len() ==> r@.shards[i] == want[i]);
        r
    }

    pub fn new() -> (r: Self)
        ensures
            r.wf(),
            r@ == fresh_index(
                FIXED_CAPACITY_BYTES,
                u64::MAX,
                2,
                32,
                synthetic_identities(max_backends()),
            ),
            r.layout.is_synthetic(max_backends()),
    {
        Self::with_ttl(Duration::max_value())
    }

    pub fn with_ttl(ttl: Duration) -> (r: Self)
        ensures
            r.wf(),
            r@ == fresh_index(
                FIXED_CAPACITY_BYTES,
                clamp_u64(ttl@ / 1_000_000),
                2,
                32,
                synthetic_identities(max_backends()),
            ),
            r.layout.is_synthetic(max_backends()),
    {
        Self::with_capacity_and_generation_count(FIXED_CAPACITY_BYTES, ttl, DEFAULT_GENERATIONS)
    }

    /// An index whose bits stand for the providers of a layout.
    pub fn with_layout(ttl: Duration, layout: AvailabilityLayout) -> (r: Self)
        requires
            layout.wf(),
        ensures
            r.wf(),
            r@ == fresh_index(
                FIXED_CAPACITY_BYTES,
                clamp_u64(ttl@ / 1_000_000),
                2,
                32,
                models(layout.identities@),
            ),
            r.layout == layout,
    {
        let mut index = Self::with_ttl(ttl);
        index.layout = layout;
        index
    }

    pub fn with_test_capacity(capacity_bytes: u64) -> (r: Self)
        ensures
            r.wf(),
            r@ == fresh_index(
                capacity_bytes,
                u64::MAX,
                2,
                32,
                synthetic_identities(max_backends()),
            ),
            r.layout.is_synthetic(max_backends()),
    {
        Self::with_capacity_and_generation_count(
            capacity_bytes,
            Duration::max_value(),
            DEFAULT_GENERATIONS,
        )
    }

    pub fn with_generation_count(capacity_bytes: u64, generation_count: usize) -> (r: Self)
        ensures
            r.wf(),
            r@ == fresh_index(
                capacity_bytes,
                u64::MAX,
                generation_count as nat,
                32,
                synthetic_identities(max_backends()),
            ),
            r.layout.is_synthetic(max_backends()),
    {
        Self::with_capacity_and_generation_count(
            capacity_bytes,
            Duration::max_value(),
            generation_count,
        )
    }

    pub fn with_capacity_and_generation_count(
        capacity_bytes: u64,
        ttl: Duration,
        generation_count: usize,
    ) -> (r: Self)
        ensures
            r.wf(),
            r@ == fresh_index(
                capacity_bytes,
                clamp_u64(ttl@ / 1_000_000),
                generation_count as nat,
                32,
                synthetic_identities(max_backends()),
            ),
            r.layout.is_synthetic(max_backends()),
    {
        Self::with_geometry(capacity_bytes, ttl, generation_count, DEFAULT_SHARDS)
    }

    /// Shard and bucket of a hash.
    pub fn locate_hash(&self, hash: u64) -> (r: ArticlePlace)
        requires
            self.wf(),
        ensures
            r.shard == self@.shard_of(hash),
            r.shard < self.shards@.len(),
            r.bucket.value == self@.local_of(hash),
            r.bucket.value < self@.shards[r.shard as int].filter.width
                || self@.shards[r.shard as int].filter.width == 0,
    {
        let global: usize = if self.blocks_per_generation == 0 {
            0
        } else {
            (((hash >> 32) as usize) ^ (hash as usize)) % self.blocks_per_generation
        };
        self.locate_bucket(global)
    }

    /// Shard and bucket of a bucket of all blocks.
    pub fn locate_bucket(&self, global: usize) -> (r: ArticlePlace)
        requires
            self.wf(),
            global < self@.blocks || global == 0,
        ensures
            r.shard == global as nat % self@.shards.len(),
            r.shard < self.shards@.len(),
            r.bucket.value == global as nat / self@.shards.len(),
            r.bucket.value < self@.shards[r.shard as int].filter.width
                || self@.shards[r.shard as int].filter.width == 0,
    {
        let n = self.shards.len();
        proof {
            if global < self@.blocks {
                lemma_place(self@.blocks, n as nat, global as nat);
            } else {
                assert(0nat % 1nat == 0 && 0nat / 1nat == 0);
            }
            assert(self@.shards[(global % n) as int].filter.wf());
        }
        ArticlePlace { shard: global % n, bucket: LocalBlockIndex { value: global / n } }
    }
}

// ---------------------------------------------------------------------------
// Facts
// ---------------------------------------------------------------------------

/// Is this the answer to a lookup that found `bits`: nothing where there are
/// none, else an entry of those bits alone?
pub open spec fn answers(r: Option<CachedArticle>, bits: usize) -> bool {
    match r {
        Some(e) => bits != 0 && e@ == (ArticleModel {
            missing: bits,
            ..missing_entry(CacheTier { value: 0 }, e@.inserted_at)
        }),
        None => bits == 0,
    }
}

impl AvailabilityIndex {
    /// Looks a fingerprint up in the filter at `now`.
    pub fn probe_at(&mut self, fingerprint: ArticleFingerprint, now: u64) -> (r: Option<
        CachedArticle,
    >)
        requires
            old(self).wf(),
        ensures
            final(self).wf(),
            final(self)@ == old(self)@.probed(fingerprint, now),
            final(self).layout == old(self).layout,
            answers(r, old(self)@.bits_at(fingerprint, now)),
    {
        let ghost before = self@;
        let place = self.locate_hash(fingerprint.hash);
        let s = place.shard;
        let ghost width = before.shards[s as int].filter.width;
        assert(before.shards[s as int] == self.shards@[s as int]@);
        proof {
            lemma_rotated_fields(before.shards[s as int].filter, now);
        }
        let result = self.shards[s].filter.lookup_missing_bits(fingerprint, place.bucket, now);
        let counters = self.shards[s].counters;
        let found = result.missing_bits != 0;
        self.shards[s].counters = ShardCounters {
            hits: if found {
                counters.hits.saturating_add(1)
            } else {
                counters.hits
            },
            misses: if found {
                counters.misses
            } else {
                counters.misses.saturating_add(1)
            },
            evictions: counters.evictions.saturating_add(result.evicted as u64),
        };
        assert(self@.shards =~= before.probed(fingerprint, now).shards);
        proof {
            assert(forall|i: int| #![trigger self.shards@[i]]
                0 <= i < self.shards@.len() && i != s ==> self.shards@[i] == old(self).shards@[i]);
            self.lemma_still_wf(*old(self), s as int);
        }
        if found {
            Some(CachedArticle::negative_only(result.missing_bits))
        } else {
            None
        }
    }

    /// A change of one shard that keeps its filter sound keeps the index sound.
    proof fn lemma_still_wf(self, before: AvailabilityIndex, s: int)
        requires
            before.wf(),
            0 <= s < before.shards@.len(),
            self.shards@.len() == before.shards@.len(),
            forall|i: int| #![trigger self.shards@[i]]
                0 <= i < self.shards@.len() && i != s ==> self.shards@[i] == before.shards@[i],
            self.shards@[s].filter.wf(),
            self.shards@[s].filter@.width == before.shards@[s].filter@.width,
            self.shards@[s].filter@.interval == before.shards@[s].filter@.interval,
            self.shards@[s].filter@.generations.len() == before.shards@[s].filter@.generations.len(),
            self.blocks_per_generation == before.blocks_per_generation,
            self.layout == before.layout,
            self.ttl == before.ttl,
            self.capacity_bytes == before.capacity_bytes,
        ensures
            self.wf(),
    {
        assert forall|i: int| #![trigger self@.shards[i]] 0 <= i < self@.shards.len() implies {
            &&& self@.shards[i].filter.wf()
            &&& self@.shards[i].filter.width == width_of(self@.blocks, self@.shards.len(), i)
            &&& self@.shards[i].filter.interval == interval_for(
                self@.ttl,
                self@.shards[i].filter.generations.len(),
            )
            &&& self@.shards[i].filter.generations.len() == before@.generation_count()
        } by {
            assert(before@.shards[i] == before.shards@[i]@);
            assert(self@.shards[i] == self.shards@[i]@);
        }
        assert(self@.shards[0].filter.generations.len() == before@.generation_count());
    }

    /// Puts a fact into the filter at `now`.
    pub fn note_at(&mut self, fingerprint: ArticleFingerprint, missing_bits: usize, now: u64)
        requires
            old(self).wf(),
            fingerprint.hash != 0,
        ensures
            final(self).wf(),
            final(self)@ == old(self)@.noted(fingerprint, missing_bits, now),
            final(self).layout == old(self).layout,
    {
        let ghost before = self@;
        let place = self.locate_hash(fingerprint.hash);
        let s = place.shard;
        assert(before.shards[s as int] == self.shards@[s as int]@);
        proof {
            lemma_rotated_fields(before.shards[s as int].filter, now);
        }
        let lost = self.shards[s].filter.insert_missing_bits(
            fingerprint,
            missing_bits,
            place.bucket,
            now,
        );
        let counters = self.shards[s].counters;
        self.shards[s].counters = ShardCounters {
            hits: counters.hits,
            misses: counters.misses,
            evictions: counters.evictions.saturating_add(lost as u64),
        };
        assert(self@.shards =~= before.noted(fingerprint, missing_bits, now).shards);
        proof {
            assert(forall|i: int| #![trigger self.shards@[i]]
                0 <= i < self.shards@.len() && i != s ==> self.shards@[i] == old(self).shards@[i]);
            self.lemma_still_wf(*old(self), s as int);
        }
    }

    /// What is known of a key at `now`.
    pub fn lookup_at(&mut self, key: &[u8], now: u64) -> (r: Option<CachedArticle>)
        requires
            old(self).wf(),
        ensures
            final(self).wf(),
            final(self)@ == old(self)@.asked(key@, now),
            final(self).layout == old(self).layout,
            answers(r, old(self)@.answer(key@, now)),
    {
        if !self.populated {
            self.initial_misses = self.initial_misses.saturating_add(1);
            return None;
        }
        self.probe_at(ArticleFingerprint::from_key(key), now)
    }

    /// Records at `now` that the providers in `missing_bits` miss the article.
    pub fn record_at(&mut self, key: &[u8], missing_bits: usize, now: u64)
        requires
            old(self).wf(),
        ensures
            final(self).wf(),
            final(self)@ == old(self)@.recorded(key@, missing_bits, now),
            final(self).layout == old(self).layout,
    {
        if key.len() == 0 || missing_bits == 0 || self.ttl.get() == 0 {
            return;
        }
        self.note_at(ArticleFingerprint::from_key(key), missing_bits, now);
        self.populated = true;
    }

    /// What is known of an article now.
    pub fn get(&mut self, message_id: &MessageId) -> (r: Option<CachedArticle>)
        requires
            old(self).wf(),
        ensures
            final(self).wf(),
            final(self).layout == old(self).layout,
            exists|now: u64|
                final(self)@ == #[trigger] old(self)@.asked(encode_utf8(message_id.key()), now)
                    && answers(r, old(self)@.answer(encode_utf8(message_id.key()), now)),
    {
        let now = now_millis();
        let r = self.lookup_at(message_id.without_brackets().as_bytes(), now);
        assert(self@ == old(self)@.asked(encode_utf8(message_id.key()), now));
        r
    }

    /// What is known now of the article that a request names. A name without
    /// angle brackets names none.
    pub fn get_request_message_id(&mut self, message_id: &str) -> (r: Option<CachedArticle>)
        requires
            old(self).wf(),
        ensures
            final(self).wf(),
            final(self).layout == old(self).layout,
            match request_key(message_id.spec_bytes()) {
                Some(key) => exists|now: u64|
                    final(self)@ == #[trigger] old(self)@.asked(key, now) && answers(
                        r,
                        old(self)@.answer(key, now),
                    ),
                None => r is None && final(self)@ == old(self)@,
            },
    {
        let text = message_id.as_bytes();
        let n = text.len();
        if n < 2 || text[0] != 0x3c || text[n - 1] != 0x3e {
            return None;
        }
        let now = now_millis();
        let r = self.lookup_at(&text[1..n - 1], now);
        let ghost key = request_key(message_id.spec_bytes())->0;
        assert(key =~= text@.subrange(1, n - 1));
        assert(self@ == old(self)@.asked(key, now));
        r
    }

    /// Records now that the provider in a slot misses the article.
    pub fn record_availability_missing(&mut self, message_id: &MessageId, slot: AvailabilitySlot)
        requires
            old(self).wf(),
        ensures
            final(self).wf(),
            final(self).layout == old(self).layout,
            exists|now: u64|
                final(self)@ == #[trigger] old(self)@.recorded(
                    encode_utf8(message_id.key()),
                    1usize << (slot@ as usize),
                    now,
                ),
    {
        let now = now_millis();
        let bits = slot.bit();
        self.record_at(message_id.without_brackets().as_bytes(), bits, now);
        assert(self@ == old(self)@.recorded(
            encode_utf8(message_id.key()),
            1usize << (slot@ as usize),
            now,
        ));
    }

    /// Records now that the provider in the slot of this number misses the
    /// article.
    pub fn record_backend_missing(&mut self, message_id: &MessageId, backend_id: BackendId)
        requires
            old(self).wf(),
        ensures
            final(self).wf(),
            final(self).layout == old(self).layout,
            exists|now: u64|
                final(self)@ == #[trigger] old(self)@.recorded(
                    encode_utf8(message_id.key()),
                    1usize << (backend_id@ as usize),
                    now,
                ),
    {
        let slot = AvailabilitySlot::new(backend_id.as_index()).unwrap();
        self.record_availability_missing(message_id, slot);
    }

    pub fn capacity_bytes(&self) -> (r: u64)
        ensures
            r == self@.capacity_bytes,
    {
        self.capacity_bytes
    }

    /// Bytes in use: all of the capacity, which is taken at once.
    pub fn used_bytes(&self) -> (r: u64)
        ensures
            r == self@.capacity_bytes,
    {
        self.capacity_bytes
    }
}

/// The key in the name of an article: what stands within its angle brackets.
pub open spec fn request_key(text: Seq<u8>) -> Option<Seq<u8>> {
    if text.len() >= 2 && text[0] == 0x3c && text[text.len() - 1] == 0x3e {
        Some(text.subrange(1, text.len() - 1))
    } else {
        None
    }
}

// ---------------------------------------------------------------------------
// Counts and snapshots
// ---------------------------------------------------------------------------

/// Slots in use in the generations that count, over all shards.
pub open spec fn total_used(shards: Seq<ShardModel>) -> nat
    decreases shards.len(),
{
    if shards.len() == 0 {
        0
    } else {
        let f = shards.last().filter;
        total_used(shards.drop_last()) + f.used_back(f.live)
    }
}

pub open spec fn total_evictions(shards: Seq<ShardModel>) -> nat
    decreases shards.len(),
{
    if shards.len() == 0 {
        0
    } else {
        total_evictions(shards.drop_last()) + shards.last().evictions as nat
    }
}

pub open spec fn total_hits(shards: Seq<ShardModel>) -> nat
    decreases shards.len(),
{
    if shards.len() == 0 {
        0
    } else {
        total_hits(shards.drop_last()) + shards.last().hits as nat
    }
}

pub open spec fn total_misses(shards: Seq<ShardModel>) -> nat
    decreases shards.len(),
{
    if shards.len() == 0 {
        0
    } else {
        total_misses(shards.drop_last()) + shards.last().misses as nat
    }
}

/// The facts of all shards, one shard after the other.
pub open spec fn all_entries(shards: Seq<ShardModel>) -> Seq<PersistedEntry>
    decreases shards.len(),
{
    if shards.len() == 0 {
        Seq::empty()
    } else {
        let f = shards.last().filter;
        all_entries(shards.drop_last()) + f.entries_in(f.live)
    }
}

impl ShardState {
    /// Takes the turns that are due at `now`.
    pub fn age(&mut self, now: u64)
        requires
            old(self).filter.wf(),
        ensures
            final(self).filter.wf(),
            final(self)@ == old(self)@.aged(now),
    {
        let evicted = self.filter.rotate_if_needed(now);
        self.counters.evictions = self.counters.evictions.saturating_add(evicted as u64);
    }

    /// The facts of the shard at `now`.
    pub fn snapshot(&mut self, now: u64) -> (r: Vec<PersistedEntry>)
        requires
            old(self).filter.wf(),
        ensures
            final(self).filter.wf(),
            final(self)@ == old(self)@.aged(now),
            r@ == final(self)@.filter.entries_in(final(self)@.filter.live),
    {
        let part = self.filter.snapshot_entries(now);
        self.counters.evictions = self.counters.evictions.saturating_add(part.evicted as u64);
        part.entries
    }
}

impl AvailabilityIndex {
    /// A change of all shards that keeps their filters sound and their shape
    /// keeps the index sound.
    proof fn lemma_all_still_wf(self, before: AvailabilityIndex)
        requires
            before.wf(),
            self.shards@.len() == before.shards@.len(),
            forall|i: int| #![trigger self.shards@[i]]
                0 <= i < self.shards@.len() ==> {
                    &&& self.shards@[i].filter.wf()
                    &&& self.shards@[i].filter@.width == before.shards@[i].filter@.width
                    &&& self.shards@[i].filter@.interval == before.shards@[i].filter@.interval
                    &&& self.shards@[i].filter@.generations.len()
                        == before.shards@[i].filter@.generations.len()
                },
            self.blocks_per_generation == before.blocks_per_generation,
            self.layout == before.layout,
            self.ttl == before.ttl,
            self.capacity_bytes == before.capacity_bytes,
        ensures
            self.wf(),
    {
        assert forall|i: int| #![trigger self@.shards[i]] 0 <= i < self@.shards.len() implies {
            &&& self@.shards[i].filter.wf()
            &&& self@.shards[i].filter.width == width_of(self@.blocks, self@.shards.len(), i)
            &&& self@.shards[i].filter.interval == interval_for(
                self@.ttl,
                self@.shards[i].filter.generations.len(),
            )
            &&& self@.shards[i].filter.generations.len() == before@.generation_count()
        } by {
            assert(before@.shards[i] == before.shards@[i]@);
            assert(self@.shards[i] == self.shards@[i]@);
        }
        assert(self@.shards[0].filter.generations.len() == before@.generation_count());
    }

    /// Number of facts at `now`.
    pub fn entry_count_at(&mut self, now: u64) -> (r: u64)
        requires
            old(self).wf(),
        ensures
            final(self).wf(),
            final(self)@ == old(self)@.aged(now),
            final(self).layout == old(self).layout,
            r == counted(0, total_used(final(self)@.shards) as int),
    {
        let mut total: u64 = 0;
        let ghost want = old(self)@.aged(now).shards;
        assert(want.take(0) =~= Seq::<ShardModel>::empty());
        let n = self.shards.len();
        for i in 0..n
            invariant
                old(self).wf(),
                n == self.shards@.len(),
                n == old(self).shards@.len(),
                n == want.len(),
                want == old(self)@.aged(now).shards,
                self.blocks_per_generation == old(self).blocks_per_generation,
                self.layout == old(self).layout,
                self.ttl == old(self).ttl,
                self.populated == old(self).populated,
                self.initial_misses == old(self).initial_misses,
                self.capacity_bytes == old(self).capacity_bytes,
                forall|j: int| #![trigger self.shards@[j]]
                    0 <= j < i ==> self.shards@[j].filter.wf() && self.shards@[j]@ == want[j],
                forall|j: int| #![trigger self.shards@[j]]
                    i <= j < n ==> self.shards@[j] == old(self).shards@[j],
                total == counted(0, total_used(want.take(i as int)) as int),
        {
            self.shards[i].age(now);
            total = total.saturating_add(self.shards[i].filter.occupied_slots() as u64);
            assert(want.take(i + 1).drop_last() =~= want.take(i as int));
            assert(want.take(i + 1).last() == want[i as int]);
        }
        assert(want.take(n as int) =~= want);
        assert(self@.shards =~= want);
        proof {
            assert forall|j: int| #![trigger self.shards@[j]] 0 <= j < n implies {
                &&& self.shards@[j].filter@.width == old(self).shards@[j].filter@.width
                &&& self.shards@[j].filter@.interval == old(self).shards@[j].filter@.interval
                &&& self.shards@[j].filter@.generations.len() == old(
                    self,
                ).shards@[j].filter@.generations.len()
            } by {
                lemma_rotated_fields(old(self).shards@[j].filter@, now);
            }
            self.lemma_all_still_wf(*old(self));
        }
        total
    }

    /// Number of facts now.
    pub fn entry_count(&mut self) -> (r: u64)
        requires
            old(self).wf(),
        ensures
            final(self).wf(),
            final(self).layout == old(self).layout,
            r == counted(0, total_used(final(self)@.shards) as int),
            exists|now: u64| final(self)@ == #[trigger] old(self)@.aged(now),
    {
        let now = now_millis();
        let r = self.entry_count_at(now);
        assert(self@ == old(self)@.aged(now));
        r
    }

    /// Facts lost so far, to age or to other facts.
    pub fn evictions(&self) -> (r: u64)
        ensures
            r == counted(0, total_evictions(self@.shards) as int),
    {
        let mut total: u64 = 0;
        let ghost shards = self@.shards;
        assert(shards.take(0) =~= Seq::<ShardModel>::empty());
        for i in 0..self.shards.len()
            invariant
                shards == self@.shards,
                total == counted(0, total_evictions(shards.take(i as int)) as int),
        {
            total = total.saturating_add(self.shards[i].counters.evictions);
            assert(shards.take(i + 1).drop_last() =~= shards.take(i as int));
            assert(shards.take(i + 1).last() == self.shards@[i as int]@);
        }
        assert(shards.take(shards.len() as int) =~= shards);
        total
    }

    /// Lookups that found a fact, and lookups that found none, those before the
    /// first fact among them.
    pub fn lookup_counts(&self) -> (r: (u64, u64))
        ensures
            r.0 == counted(0, total_hits(self@.shards) as int),
            r.1 == counted(0, self@.initial_misses + total_misses(self@.shards)),
    {
        let mut hits: u64 = 0;
        let mut misses: u64 = self.initial_misses;
        let ghost shards = self@.shards;
        assert(shards.take(0) =~= Seq::<ShardModel>::empty());
        for i in 0..self.shards.len()
            invariant
                shards == self@.shards,
                hits == counted(0, total_hits(shards.take(i as int)) as int),
                misses == counted(0, self@.initial_misses + total_misses(shards.take(i as int))),
        {
            hits = hits.saturating_add(self.shards[i].counters.hits);
            misses = misses.saturating_add(self.shards[i].counters.misses);
            assert(shards.take(i + 1).drop_last() =~= shards.take(i as int));
            assert(shards.take(i + 1).last() == self.shards@[i as int]@);
        }
        assert(shards.take(shards.len() as int) =~= shards);
        (hits, misses)
    }

    /// The facts of the index at `now`.
    pub fn snapshot_entries_at(&mut self, now: u64) -> (r: Vec<PersistedEntry>)
        requires
            old(self).wf(),
        ensures
            final(self).wf(),
            final(self)@ == old(self)@.aged(now),
            final(self).layout == old(self).layout,
            r@ == all_entries(final(self)@.shards),
    {
        let mut entries: Vec<PersistedEntry> = Vec::new();
        let ghost want = old(self)@.aged(now).shards;
        assert(want.take(0) =~= Seq::<ShardModel>::empty());
        let n = self.shards.len();
        for i in 0..n
            invariant
                old(self).wf(),
                n == self.shards@.len(),
                n == old(self).shards@.len(),
                n == want.len(),
                want == old(self)@.aged(now).shards,
                self.blocks_per_generation == old(self).blocks_per_generation,
                self.layout == old(self).layout,
                self.ttl == old(self).ttl,
                self.populated == old(self).populated,
                self.initial_misses == old(self).initial_misses,
                self.capacity_bytes == old(self).capacity_bytes,
                forall|j: int| #![trigger self.shards@[j]]
                    0 <= j < i ==> self.shards@[j].filter.wf() && self.shards@[j]@ == want[j],
                forall|j: int| #![trigger self.shards@[j]]
                    i <= j < n ==> self.shards@[j] == old(self).shards@[j],
                entries@ == all_entries(want.take(i as int)),
        {
            let mut part = self.shards[i].snapshot(now);
            entries.append(&mut part);
            assert(want.take(i + 1).drop_last() =~= want.take(i as int));
            assert(want.take(i + 1).last() == want[i as int]);
        }
        assert(want.take(n as int) =~= want);
        assert(self@.shards =~= want);
        proof {
            assert forall|j: int| #![trigger self.shards@[j]] 0 <= j < n implies {
                &&& self.shards@[j].filter@.width == old(self).shards@[j].filter@.width
                &&& self.shards@[j].filter@.interval == old(self).shards@[j].filter@.interval
                &&& self.shards@[j].filter@.generations.len() == old(
                    self,
                ).shards@[j].filter@.generations.len()
            } by {
                lemma_rotated_fields(old(self).shards@[j].filter@, now);
            }
            self.lemma_all_still_wf(*old(self));
        }
        entries
    }

    /// The stored form of the index at `now`.
    pub fn save_at(&mut self, now: u64) -> (r: Result<Vec<u8>, SnapshotError>)
        requires
            old(self).wf(),
        ensures
            final(self).wf(),
            final(self)@ == old(self)@.aged(now),
            final(self).layout == old(self).layout,
            match r {
                Ok(bytes) => hosts_fit(old(self)@.providers) && bytes@ == snapshot_bytes(
                    SnapshotModel {
                        identities: old(self)@.providers,
                        entries: all_entries(final(self)@.shards),
                    },
                ),
                Err(e) => !hosts_fit(old(self)@.providers) && e == SnapshotError::HostTooLong,
            },
    {
        let entries = self.snapshot_entries_at(now);
        encode_snapshot(&self.layout.identities, &entries)
    }

    /// The stored form of the index now.
    pub fn save(&mut self) -> (r: Result<Vec<u8>, SnapshotError>)
        requires
            old(self).wf(),
        ensures
            final(self).wf(),
            final(self).layout == old(self).layout,
            exists|now: u64| final(self)@ == #[trigger] old(self)@.aged(now),
            match r {
                Ok(bytes) => hosts_fit(old(self)@.providers) && bytes@ == snapshot_bytes(
                    SnapshotModel {
                        identities: old(self)@.providers,
                        entries: all_entries(final(self)@.shards),
                    },
                ),
                Err(e) => !hosts_fit(old(self)@.providers) && e == SnapshotError::HostTooLong,
            },
    {
        let now = now_millis();
        let r = self.save_at(now);
        assert(self@ == old(self)@.aged(now));
        r
    }
}

// ---------------------------------------------------------------------------
// Restoring
// ---------------------------------------------------------------------------

/// Bits of a snapshot, read through the first `n` providers of its table, as
/// bits of an index with these providers. A provider is known by its name: its
/// bit becomes that of the first provider of the name. One whose name the index
/// does not have loses its bit.
pub open spec fn translated(
    providers: Seq<IdentityModel>,
    table: Seq<IdentityModel>,
    bits: usize,
    n: nat,
) -> usize
    decreases n,
{
    if n == 0 {
        0
    } else {
        let before = translated(providers, table, bits, (n - 1) as nat);
        let p = host_position(providers, table[n - 1]);
        if bit(bits, (n - 1) as nat) && p < providers.len() {
            before | (1usize << (p as usize))
        } else {
            before
        }
    }
}

/// A stored fact in terms of an index with these providers.
pub open spec fn translated_entry(
    providers: Seq<IdentityModel>,
    table: Seq<IdentityModel>,
    e: PersistedEntry,
) -> PersistedEntry {
    PersistedEntry { missing: translated(providers, table, e.missing, table.len()), ..e }
}

/// Facts of one moment.
pub open spec fn observed_at(t: u64) -> spec_fn(PersistedEntry) -> bool {
    |e: PersistedEntry| e.inserted_at == t
}

/// `sorted` holds the entries in the order of their moments, those of one
/// moment in the order that they had.
pub open spec fn by_age(entries: Seq<PersistedEntry>, sorted: Seq<PersistedEntry>) -> bool {
    &&& forall|i: int, j: int|
        0 <= i <= j < sorted.len() ==> (#[trigger] sorted[i]).inserted_at <= (
        #[trigger] sorted[j]).inserted_at
    &&& forall|t: u64|
        #![trigger observed_at(t)]
        sorted.filter(observed_at(t)) == entries.filter(observed_at(t))
}

/// `slice::sort_by_key`, which is stable: the entries in the order of their
/// moments, those of one moment in the order that they had.
#[verifier::external_body]
fn sort_by_age(entries: &mut Vec<PersistedEntry>)
    ensures
        by_age(old(entries)@, final(entries)@),
{
    entries.sort_by_key(|e| e.inserted_at);
}

impl ShardModel {
    /// The shard without any fact or count.
    pub open spec fn emptied(self) -> ShardModel {
        ShardModel { filter: self.filter.emptied(), hits: 0, misses: 0, evictions: 0 }
    }

    /// The shard after a stored fact was taken back.
    pub open spec fn restored(self, e: PersistedEntry, bucket: int, now: u64, ttl: u64) -> ShardModel {
        ShardModel {
            filter: self.filter.restored(e, bucket, now, ttl),
            evictions: counted(
                self.evictions,
                if self.filter.restoring_replaces(e, bucket, now, ttl) {
                    1
                } else {
                    0
                },
            ),
            ..self
        }
    }

    /// The shard with its latest generation as the current one.
    pub open spec fn settled(self) -> ShardModel {
        if self.filter.live == 0 {
            self
        } else {
            ShardModel { filter: self.filter.reanchored(), ..self }
        }
    }
}

impl IndexModel {
    /// The index without any fact or count.
    pub open spec fn emptied(self) -> IndexModel {
        IndexModel {
            shards: self.shards.map_values(|s: ShardModel| s.emptied()),
            initial_misses: 0,
            ..self
        }
    }

    /// The index after a stored fact was taken back.
    pub open spec fn restored(self, e: PersistedEntry, now: u64) -> IndexModel {
        let s = self.shard_of(e.hash);
        IndexModel {
            shards: self.shards.update(
                s,
                self.shards[s].restored(e, self.local_of(e.hash), now, self.ttl),
            ),
            ..self
        }
    }

    /// The index after the first `n` stored facts were taken back.
    pub open spec fn restored_all(
        self,
        table: Seq<IdentityModel>,
        entries: Seq<PersistedEntry>,
        n: nat,
        now: u64,
    ) -> IndexModel
        decreases n,
    {
        if n == 0 {
            self
        } else {
            self.restored_all(table, entries, (n - 1) as nat, now).restored(
                translated_entry(self.providers, table, entries[n - 1]),
                now,
            )
        }
    }

    /// The index with its shards settled, and marked as populated where it
    /// holds a fact.
    pub open spec fn settled(self) -> IndexModel {
        let shards = self.shards.map_values(|s: ShardModel| s.settled());
        IndexModel { shards, populated: self.populated || total_used(shards) > 0, ..self }
    }

    /// The index after a snapshot took the place of what it held.
    pub open spec fn with_snapshot(
        self,
        table: Seq<IdentityModel>,
        entries: Seq<PersistedEntry>,
        now: u64,
    ) -> IndexModel {
        self.emptied().restored_all(table, entries, entries.len(), now).settled()
    }
}

impl ShardState {
    /// Drops every fact and every count.
    pub fn clear(&mut self)
        requires
            old(self).filter.wf(),
        ensures
            final(self).filter.wf(),
            final(self)@ == old(self)@.emptied(),
    {
        self.filter.reset();
        self.counters = ShardCounters { hits: 0, misses: 0, evictions: 0 };
    }

    /// Makes the latest generation the current one.
    pub fn settle(&mut self)
        requires
            old(self).filter.wf(),
        ensures
            final(self).filter.wf(),
            final(self)@ == old(self)@.settled(),
    {
        if self.filter.live_generations != 0 {
            self.filter.reanchor_current_generation();
        }
    }
}

impl AvailabilityIndex {
    fn clear(&mut self)
        requires
            old(self).wf(),
        ensures
            final(self).wf(),
            final(self)@ == old(self)@.emptied(),
            final(self).layout == old(self).layout,
    {
        let n = self.shards.len();
        let ghost want = old(self)@.emptied().shards;
        for i in 0..n
            invariant
                old(self).wf(),
                n == self.shards@.len(),
                n == old(self).shards@.len(),
                want == old(self)@.emptied().shards,
                self.blocks_per_generation == old(self).blocks_per_generation,
                self.layout == old(self).layout,
                self.ttl == old(self).ttl,
                self.populated == old(self).populated,
                self.capacity_bytes == old(self).capacity_bytes,
                forall|j: int| #![trigger self.shards@[j]]
                    0 <= j < i ==> self.shards@[j].filter.wf() && self.shards@[j]@ == want[j],
                forall|j: int| #![trigger self.shards@[j]]
                    i <= j < n ==> self.shards@[j] == old(self).shards@[j],
        {
            self.shards[i].clear();
        }
        self.initial_misses = 0;
        assert(self@.shards =~= want);
        proof {
            self.lemma_all_still_wf(*old(self));
        }
    }

    fn settle(&mut self)
        requires
            old(self).wf(),
        ensures
            final(self).wf(),
            final(self)@ == old(self)@.settled(),
            final(self).layout == old(self).layout,
    {
        let n = self.shards.len();
        let ghost want = old(self)@.settled().shards;
        let mut any: bool = false;
        assert(want.take(0) =~= Seq::<ShardModel>::empty());
        for i in 0..n
            invariant
                old(self).wf(),
                n == self.shards@.len(),
                n == old(self).shards@.len(),
                n == want.len(),
                want == old(self)@.settled().shards,
                self.blocks_per_generation == old(self).blocks_per_generation,
                self.layout == old(self).layout,
                self.ttl == old(self).ttl,
                self.populated == old(self).populated,
                self.initial_misses == old(self).initial_misses,
                self.capacity_bytes == old(self).capacity_bytes,
                any == (total_used(want.take(i as int)) > 0),
                forall|j: int| #![trigger self.shards@[j]]
                    0 <= j < i ==> self.shards@[j].filter.wf() && self.shards@[j]@ == want[j],
                forall|j: int| #![trigger self.shards@[j]]
                    i <= j < n ==> self.shards@[j] == old(self).shards@[j],
        {
            self.shards[i].settle();
            if self.shards[i].filter.occupied_slots() != 0 {
                any = true;
            }
            assert(want.take(i + 1).drop_last() =~= want.take(i as int));
            assert(want.take(i + 1).last() == want[i as int]);
        }
        assert(want.take(n as int) =~= want);
        if any {
            self.populated = true;
        }
        assert(self@.shards =~= want);
        proof {
            self.lemma_all_still_wf(*old(self));
        }
    }

    /// Bits of a snapshot with this table, as bits of this index.
    fn translate(&self, table: &Vec<AvailabilityIdentity>, bits: usize) -> (r: usize)
        requires
            self.wf(),
            table@.len() <= max_backends(),
        ensures
            r == translated(self@.providers, models(table@), bits, table@.len()),
    {
        let mut out: usize = 0;
        for i in 0..table.len()
            invariant
                self.wf(),
                table@.len() <= max_backends(),
                out == translated(self@.providers, models(table@), bits, i as nat),
        {
            let set = bits & (1usize << i) != 0;
            assert(set == bit(bits, i as nat));
            assert(models(table@)[i as int] == table@[i as int]@);
            proof {
                lemma_host_position(self@.providers, table@[i as int]@);
            }
            if set {
                if let Some(slot) = self.layout.slot_for_host(table[i].as_host()) {
                    out = out | slot.bit();
                }
            }
        }
        out
    }

    fn restore_one(&mut self, entry: PersistedEntry, now: u64)
        requires
            old(self).wf(),
        ensures
            final(self).wf(),
            final(self)@ == old(self)@.restored(entry, now),
            final(self).layout == old(self).layout,
    {
        let ghost before = self@;
        let place = self.locate_hash(entry.hash);
        let s = place.shard;
        assert(before.shards[s as int] == self.shards@[s as int]@);
        let ttl = self.ttl;
        let lost = self.shards[s].filter.restore_entry(entry, place.bucket, now, ttl);
        self.shards[s].counters.evictions = self.shards[s].counters.evictions.saturating_add(
            lost as u64,
        );
        assert(self@.shards =~= before.restored(entry, now).shards);
        proof {
            assert(forall|i: int| #![trigger self.shards@[i]]
                0 <= i < self.shards@.len() && i != s ==> self.shards@[i] == old(self).shards@[i]);
            self.lemma_still_wf(*old(self), s as int);
        }
    }

    /// Puts a snapshot in the place of what the index held. Facts keep their
    /// age, and follow their providers to the bits that these have here.
    pub fn restore_at(&mut self, snapshot: StoredAvailabilitySnapshot, now: u64)
        requires
            old(self).wf(),
            snapshot@.identities.len() <= max_backends(),
        ensures
            final(self).wf(),
            final(self).layout == old(self).layout,
            exists|sorted: Seq<PersistedEntry>| #[trigger]
                by_age(snapshot@.entries, sorted) && final(self)@ == old(self)@.with_snapshot(
                    snapshot@.identities,
                    sorted,
                    now,
                ),
    {
        let table = snapshot.identities;
        let mut entries = snapshot.entries;
        sort_by_age(&mut entries);
        self.clear();
        let ghost start = self@;
        for i in 0..entries.len()
            invariant
                self.wf(),
                start == old(self)@.emptied(),
                self.layout == old(self).layout,
                table@.len() <= max_backends(),
                self@ == start.restored_all(models(table@), entries@, i as nat, now),
                self@.providers == start.providers,
        {
            let mut entry = entries[i];
            entry.missing = self.translate(&table, entry.missing);
            assert(entry == translated_entry(start.providers, models(table@), entries@[i as int]));
            self.restore_one(entry, now);
        }
        self.settle();
        assert(by_age(snapshot@.entries, entries@));
    }

    /// Reads a stored index and puts it in the place of what this one held. A
    /// stored index of a retired form empties this one.
    pub fn load_at(&mut self, data: &[u8], now: u64) -> (r: Result<(), SnapshotError>)
        requires
            old(self).wf(),
        ensures
            final(self).wf(),
            final(self).layout == old(self).layout,
            match parse_snapshot_spec(data@) {
                Err(e) => r == Err::<(), SnapshotError>(e) && final(self)@ == old(self)@,
                Ok(None) => r is Ok && final(self)@ == old(self)@.with_snapshot(
                    Seq::empty(),
                    Seq::empty(),
                    now,
                ),
                Ok(Some(s)) => r is Ok && exists|sorted: Seq<PersistedEntry>| #[trigger]
                    by_age(s.entries, sorted) && final(self)@ == old(self)@.with_snapshot(
                        s.identities,
                        sorted,
                        now,
                    ),
            },
    {
        match parse_snapshot(data) {
            Err(e) => Err(e),
            Ok(Some(snapshot)) => {
                proof {
                    lemma_parsed_table(data@);
                }
                self.restore_at(snapshot, now);
                Ok(())
            },
            Ok(None) => {
                self.restore_at(StoredAvailabilitySnapshot::default(), now);
                proof {
                    let none = Seq::<PersistedEntry>::empty();
                    let sorted = choose|sorted: Seq<PersistedEntry>| #[trigger]
                        by_age(none, sorted) && self@ == old(self)@.with_snapshot(
                            Seq::empty(),
                            sorted,
                            now,
                        );
                    lemma_nothing_by_age(sorted);
                }
                Ok(())
            },
        }
    }

    /// Reads a stored index now.
    pub fn load(&mut self, data: &[u8]) -> (r: Result<(), SnapshotError>)
        requires
            old(self).wf(),
        ensures
            final(self).wf(),
            final(self).layout == old(self).layout,
            match parse_snapshot_spec(data@) {
                Err(e) => r == Err::<(), SnapshotError>(e) && final(self)@ == old(self)@,
                Ok(None) => r is Ok && exists|now: u64|
                    final(self)@ == #[trigger] old(self)@.with_snapshot(
                        Seq::empty(),
                        Seq::empty(),
                        now,
                    ),
                Ok(Some(s)) => r is Ok && exists|sorted: Seq<PersistedEntry>, now: u64|
                    by_age(s.entries, sorted) && final(self)@ == #[trigger] old(
                        self,
                    )@.with_snapshot(s.identities, sorted, now),
            },
    {
        let now = now_millis();
        self.load_at(data, now)
    }
}

proof fn lemma_nothing_by_age(sorted: Seq<PersistedEntry>)
    requires
        by_age(Seq::<PersistedEntry>::empty(), sorted),
    ensures
        sorted == Seq::<PersistedEntry>::empty(),
{
    if sorted.len() > 0 {
        let t = sorted[0].inserted_at;
        let keep = observed_at(t);
        assert(sorted.filter(keep) == Seq::<PersistedEntry>::empty().filter(keep));
        broadcast use vstd::seq_lib::group_filter_ensures;

        assert(Seq::<PersistedEntry>::empty().filter(keep).len() == 0) by {
            reveal(Seq::filter);
        }
        assert(sorted.filter(keep).contains(sorted[0]));
    }
    assert(sorted =~= Seq::<PersistedEntry>::empty());
}

/// The table of a snapshot has no more providers than a bitmap has bits.
proof fn lemma_parsed_table(data: Seq<u8>)
    ensures
        match parse_snapshot_spec(data) {
            Ok(Some(s)) => s.identities.len() <= max_backends(),
            _ => true,
        },
{
    if parse_snapshot_spec(data) matches Ok(Some(s)) {
        crate::cache::availability_snapshot::lemma_hosts_count(
            data,
            16,
            crate::bytes::le_field(data, 8, 8)->0,
        );
    }
}

fn at_least_one_at_most(wanted: usize, most: usize) -> (r: usize)
    ensures
        r == generations_for(most as nat, wanted as nat),
        r > 0,
        r <= most || most == 0,
{
    let w: usize = if wanted == 0 {
        1
    } else {
        wanted
    };
    let m: usize = if most == 0 {
        1
    } else {
        most
    };
    if w < m {
        w
    } else {
        m
    }
}

// ---------------------------------------------------------------------------
// Laws
// ---------------------------------------------------------------------------

pub(crate) proof fn lemma_hash_place(m: IndexModel, hash: u64)
    requires
        m.wf(),
        m.blocks > 0,
    ensures
        0 <= m.shard_of(hash) < m.shards.len(),
        0 <= m.local_of(hash) < m.shards[m.shard_of(hash)].filter.width,
{
    let b = bucket_of(hash, m.blocks);
    assert(b < m.blocks) by {
        vstd::arithmetic::div_mod::lemma_mod_bound(folded(hash) as int, m.blocks as int);
    }
    lemma_place(m.blocks, m.shards.len(), b);
    assert(m.shards[m.shard_of(hash)].filter.wf());
}

/// A fact that was recorded is found at once, unless the index has no room at
/// all. The last moment that a clock can show is left out.
pub proof fn law_recorded_fact_is_found(m: IndexModel, key: Seq<u8>, bits: usize, now: u64)
    requires
        m.wf(),
        m.blocks > 0,
        m.ttl > 0,
        key.len() > 0,
        bits != 0,
        now < u64::MAX,
    ensures
        m.recorded(key, bits, now).populated,
        m.recorded(key, bits, now).answer(key, now) & bits == bits,
{
    let fp = fingerprint_of(key);
    lemma_hash_place(m, fp.hash);
    let s = m.shard_of(fp.hash);
    let f = m.shards[s].filter;
    vstd::arithmetic::div_mod::lemma_div_pos_is_pos(m.ttl as int, f.generations.len() as int);
    crate::cache::filter::law_recorded_fact_is_found(f, fp, bits, m.local_of(fp.hash), now);
    assert(m.recorded(key, bits, now).shards[s].filter == f.recorded(
        fp,
        bits,
        m.local_of(fp.hash),
        now,
    ));
}

/// Recording a fact of one article leaves the answers for every other article
/// as they were, unless its fingerprint is the same or a full block had to give
/// up a slot for it.
pub proof fn law_recording_keeps_other_answers(
    m: IndexModel,
    key: Seq<u8>,
    bits: usize,
    other: Seq<u8>,
    now: u64,
)
    requires
        m.wf(),
        m.blocks > 0,
        m.populated,
        now < u64::MAX,
        fingerprint_of(key) != fingerprint_of(other),
        ({
            let fp = fingerprint_of(key);
            let f = m.shards[m.shard_of(fp.hash)].filter;
            f.rotated(now).started(now).outcome_at(
                f.rotated(now).current,
                fp,
                m.local_of(fp.hash),
                bits,
            ) != InsertOutcome::Replaced
        }),
    ensures
        m.recorded(key, bits, now).answer(other, now) == m.answer(other, now),
{
    let fp = fingerprint_of(key);
    let ofp = fingerprint_of(other);
    if key.len() > 0 && bits != 0 && m.ttl != 0 {
        lemma_hash_place(m, fp.hash);
        lemma_hash_place(m, ofp.hash);
        let s = m.shard_of(fp.hash);
        let f = m.shards[s].filter;
        if m.shard_of(ofp.hash) == s {
            vstd::arithmetic::div_mod::lemma_div_pos_is_pos(
                m.ttl as int,
                f.generations.len() as int,
            );
            crate::cache::filter::law_recording_keeps_other_facts(
                f,
                fp,
                bits,
                m.local_of(fp.hash),
                now,
                ofp,
                m.local_of(ofp.hash),
            );
            crate::cache::filter::law_recorded_fact_is_found(
                f,
                fp,
                bits,
                m.local_of(fp.hash),
                now,
            );
        }
    }
}

/// An index without room for a single block knows nothing, whatever was
/// recorded.
pub proof fn law_no_room_no_facts(m: IndexModel, key: Seq<u8>, now: u64)
    requires
        m.wf(),
        m.blocks == 0,
    ensures
        m.answer(key, now) == 0,
{
    let s = m.shard_of(fingerprint_of(key).hash);
    assert(s == 0) by {
        assert(0nat % 1nat == 0);
    }
    assert(m.shards[0].filter.width == 0) by {
        assert(0nat / 1nat == 0 && 0nat % 1nat == 0);
    }
    lemma_rotated_fields(m.shards[0].filter, now);
}

/// Once a lifetime has passed since a fact was recorded, nothing is found for
/// the article any more. The clock must not have run back when the fact came,
/// and a lifetime has at least a millisecond for each generation.
pub proof fn law_fact_expires(m: IndexModel, key: Seq<u8>, bits: usize, then: u64, now: u64)
    requires
        m.wf(),
        m.blocks > 0,
        key.len() > 0,
        bits != 0,
        0 < then,
        m.ttl < u64::MAX,
        now >= then + m.ttl,
        ({
            let f = m.shards[m.shard_of(fingerprint_of(key).hash)].filter;
            f.generations.len() <= m.ttl && f.rotated(then).next_rotation_at <= then + f.interval
                && (f.rotated(then).live > 0 ==> f.rotated(then).next_rotation_at > 0)
        }),
    ensures
        m.recorded(key, bits, then).answer(key, now) == 0,
{
    let fp = fingerprint_of(key);
    lemma_hash_place(m, fp.hash);
    let s = m.shard_of(fp.hash);
    let f = m.shards[s].filter;
    let g = f.generations.len() as int;
    let ttl = m.ttl as int;
    let interval = f.interval as int;
    assert(interval >= 1 && (g - 1) * interval + interval <= ttl) by (nonlinear_arith)
        requires
            1 <= g <= ttl,
            interval == (if ttl / g == 0 { 1 } else { ttl / g }),
    ;
    let local = m.local_of(fp.hash);
    let after = f.recorded(fp, bits, local, then);
    lemma_rotated_fields(f, then);
    crate::cache::filter::law_recorded_fact_is_found(f, fp, bits, local, then);
    crate::cache::filter::lemma_recorded_wf(f, fp, bits, local, then);
    assert(m.recorded(key, bits, then).shards[s].filter == after);
    assert(after.generations.len() == g && after.interval == interval);
    assert(after.next_rotation_at <= then + interval);
    crate::cache::filter::law_facts_expire(after, now, fp, local);
}

/// Two buckets never share a place, so each block is used by one bucket.
pub proof fn law_buckets_have_their_own_place(shards: nat, a: nat, b: nat)
    requires
        shards > 0,
        a != b,
    ensures
        a % shards != b % shards || a / shards != b / shards,
{
    assert(a == shards * (a / shards) + a % shards) by (nonlinear_arith)
        requires
            shards > 0,
    ;
    assert(b == shards * (b / shards) + b % shards) by (nonlinear_arith)
        requires
            shards > 0,
    ;
}

/// Blocks of the first `n` shards.
pub open spec fn blocks_in(blocks: nat, shards: nat, n: nat) -> nat
    decreases n,
{
    if n == 0 {
        0
    } else {
        blocks_in(blocks, shards, (n - 1) as nat) + width_of(blocks, shards, n - 1)
    }
}

/// Dealing blocks out to shards neither loses nor adds any.
pub proof fn law_shards_share_the_blocks(blocks: nat, shards: nat)
    requires
        shards > 0,
    ensures
        blocks_in(blocks, shards, shards) == blocks,
{
    lemma_blocks_in(blocks, shards, shards);
    assert(blocks == shards * (blocks / shards) + blocks % shards && blocks % shards < shards)
        by (nonlinear_arith)
        requires
            shards > 0,
    ;
    assert((blocks / shards) * shards == shards * (blocks / shards)) by (nonlinear_arith);
}

proof fn lemma_blocks_in(blocks: nat, shards: nat, n: nat)
    requires
        shards > 0,
    ensures
        blocks_in(blocks, shards, n) == n * (blocks / shards) + if n < blocks % shards {
            n
        } else {
            blocks % shards
        },
    decreases n,
{
    let q = blocks / shards;
    if n > 0 {
        lemma_blocks_in(blocks, shards, (n - 1) as nat);
        assert(n * q == (n - 1) * q + q) by (nonlinear_arith)
            requires
                n > 0,
        ;
    } else {
        assert(0 * q == 0) by (nonlinear_arith);
        vstd::arithmetic::div_mod::lemma_mod_bound(blocks as int, shards as int);
    }
}

/// However many facts are recorded, looked up or loaded, an index holds no more
/// of them than its capacity has room for: two to a block.
pub proof fn law_entry_count_is_bounded(m: IndexModel)
    requires
        m.wf(),
    ensures
        total_used(m.shards) <= BLOCK_SLOTS * blocks_for(m.capacity_bytes),
        counted(0, total_used(m.shards) as int) <= BLOCK_SLOTS * (m.capacity_bytes
            / BLOCK_BYTES as u64),
{
    let n = m.shards.len();
    let g = m.generation_count();
    lemma_used_in_shards(m, n);
    assert(m.shards.take(n as int) =~= m.shards);
    law_shards_share_the_blocks(m.blocks, n);
    let total = blocks_for(m.capacity_bytes);
    let b = m.blocks;
    assert(m.shards[0].filter.wf());
    assert(g * b <= total) by (nonlinear_arith)
        requires
            b == total / g,
            g > 0,
    ;
    assert(g * (BLOCK_SLOTS * b) <= BLOCK_SLOTS * total) by (nonlinear_arith)
        requires
            g * b <= total,
            BLOCK_SLOTS == 2,
    ;
    let c = m.capacity_bytes;
    assert((c as usize) / 40usize <= c / 40u64) by (bit_vector);
}

/// The first `n` shards hold no more facts than their blocks have slots.
proof fn lemma_used_in_shards(m: IndexModel, n: nat)
    requires
        m.wf(),
        n <= m.shards.len(),
    ensures
        total_used(m.shards.take(n as int)) <= m.generation_count() * (BLOCK_SLOTS * blocks_in(
            m.blocks,
            m.shards.len(),
            n,
        )),
    decreases n,
{
    let g = m.generation_count();
    let part = m.shards.take(n as int);
    if n == 0 {
        assert(g * (BLOCK_SLOTS * 0) == 0) by (nonlinear_arith);
        assert(part.len() == 0);
    } else {
        lemma_used_in_shards(m, (n - 1) as nat);
        let f = m.shards[n - 1].filter;
        crate::cache::filter::lemma_used_back_bound(f, f.live);
        assert(part.drop_last() =~= m.shards.take(n - 1));
        assert(part.last() == m.shards[n - 1]);
        let w = f.width;
        let live = f.live;
        let before = blocks_in(m.blocks, m.shards.len(), (n - 1) as nat);
        assert(live * (BLOCK_SLOTS * w) <= g * (BLOCK_SLOTS * w)) by (nonlinear_arith)
            requires
                live <= g,
        ;
        assert(g * (BLOCK_SLOTS * (before + w)) == g * (BLOCK_SLOTS * before) + g * (BLOCK_SLOTS
            * w)) by (nonlinear_arith);
    }
}

/// Whatever is asked of an index, recorded in it or loaded into it, its
/// capacity, its lifetime, its providers and its shape stay.
pub proof fn law_shape_is_kept(
    m: IndexModel,
    key: Seq<u8>,
    bits: usize,
    table: Seq<IdentityModel>,
    entries: Seq<PersistedEntry>,
    now: u64,
)
    requires
        m.wf(),
    ensures
        m.asked(key, now).same_shape(m),
        m.recorded(key, bits, now).same_shape(m),
        m.aged(now).same_shape(m),
        m.with_snapshot(table, entries, now).same_shape(m),
{
    lemma_some_shard(m, fingerprint_of(key).hash);
    lemma_restored_shape(m.emptied(), table, entries, entries.len(), now);
}

proof fn lemma_some_shard(m: IndexModel, hash: u64)
    requires
        m.shards.len() > 0,
    ensures
        0 <= m.shard_of(hash) < m.shards.len(),
{
    vstd::arithmetic::div_mod::lemma_mod_bound(
        bucket_of(hash, m.blocks) as int,
        m.shards.len() as int,
    );
}

proof fn lemma_restored_shape(
    m: IndexModel,
    table: Seq<IdentityModel>,
    entries: Seq<PersistedEntry>,
    n: nat,
    now: u64,
)
    requires
        m.shards.len() > 0,
    ensures
        m.restored_all(table, entries, n, now).same_shape(m),
    decreases n,
{
    if n > 0 {
        lemma_restored_shape(m, table, entries, (n - 1) as nat, now);
        lemma_some_shard(m, entries[n - 1].hash);
    }
}

impl IndexModel {
    /// The same capacity, lifetime, providers, and number of blocks and shards.
    pub open spec fn same_shape(self, other: IndexModel) -> bool {
        &&& self.capacity_bytes == other.capacity_bytes
        &&& self.ttl == other.ttl
        &&& self.providers == other.providers
        &&& self.blocks == other.blocks
        &&& self.shards.len() == other.shards.len()
    }
}

/// Slots of the providers whose bits are set, among the first `n` of a table,
/// each by its name.
pub open spec fn slots_carried(
    providers: Seq<IdentityModel>,
    table: Seq<IdentityModel>,
    bits: usize,
    n: nat,
) -> Set<nat> {
    Set::new(
        |i: nat|
            i < providers.len() && exists|p: nat|
                p < n && #[trigger] bit(bits, p) && host_position(providers, table[p as int]) == i,
    )
}

/// A restored bit is set exactly where the index has a provider whose bit was
/// set in the snapshot: facts follow their providers, and those of a provider
/// that is gone are dropped.
pub proof fn law_facts_follow_their_providers(
    providers: Seq<IdentityModel>,
    table: Seq<IdentityModel>,
    bits: usize,
    n: nat,
)
    requires
        providers.len() <= max_backends(),
        n <= table.len(),
    ensures
        bit_set(translated(providers, table, bits, n)) == slots_carried(providers, table, bits, n),
    decreases n,
{
    let after = slots_carried(providers, table, bits, n);
    if n == 0 {
        lemma_empty();
        assert(after =~= Set::<nat>::empty());
    } else {
        let k = (n - 1) as nat;
        let before = slots_carried(providers, table, bits, k);
        law_facts_follow_their_providers(providers, table, bits, k);
        let p = host_position(providers, table[k as int]);
        lemma_host_position(providers, table[k as int]);
        if bit(bits, k) && p < providers.len() {
            lemma_insert_bit(translated(providers, table, bits, k), p as usize);
            assert(after =~= before.insert(p as nat));
        } else {
            assert(after =~= before);
        }
    }
}

/// A fact that was recorded stays known for all of the generations but one: until
/// as many intervals have passed, and for ever where facts never age.
pub proof fn law_recorded_fact_stays(m: IndexModel, key: Seq<u8>, bits: usize, then: u64, now: u64)
    requires
        m.wf(),
        m.blocks > 0,
        m.ttl > 0,
        key.len() > 0,
        bits != 0,
        then < u64::MAX,
        m.ttl == u64::MAX || then <= now <= then + (m.generation_count() - 1) * interval_for(
            m.ttl,
            m.generation_count(),
        ),
    ensures
        m.recorded(key, bits, then).answer(key, now) & bits == bits,
{
    let fp = fingerprint_of(key);
    lemma_hash_place(m, fp.hash);
    let s = m.shard_of(fp.hash);
    let f = m.shards[s].filter;
    vstd::arithmetic::div_mod::lemma_div_pos_is_pos(m.ttl as int, f.generations.len() as int);
    crate::cache::filter::law_recorded_fact_stays(f, fp, bits, m.local_of(fp.hash), then, now);
    assert(m.recorded(key, bits, then).shards[s].filter == f.recorded(
        fp,
        bits,
        m.local_of(fp.hash),
        then,
    ));
}

/// The generations share the lifetime: as many intervals as there are generations
/// are no longer than it, and one millisecond more in each would be.
pub proof fn law_generations_share_the_lifetime(ttl: u64, generations: nat)
    requires
        generations > 0,
        ttl < u64::MAX,
        ttl >= generations,
    ensures
        generations * interval_for(ttl, generations) <= ttl,
        ttl < generations * (interval_for(ttl, generations) + 1),
        interval_for(u64::MAX, generations) == u64::MAX,
        interval_for(0, generations) == 0,
{
    let i = ttl as nat / generations;
    assert(generations * i <= ttl < generations * (i + 1) && i > 0) by (nonlinear_arith)
        requires
            i == ttl as nat / generations,
            ttl >= generations,
            generations > 0,
    ;
}

/// An index has as many generations, and as many shards, as are wanted: at least
/// one, and no more than there are blocks for them.
pub proof fn law_generations_and_shards(blocks: nat, wanted: nat)
    ensures
        1 <= wanted <= blocks ==> generations_for(blocks, wanted) == wanted,
        wanted > blocks && blocks > 0 ==> generations_for(blocks, wanted) == blocks,
        wanted == 0 || blocks == 0 ==> generations_for(blocks, wanted) == 1,
{
}

/// A block takes 40 bytes of the capacity.
pub proof fn law_blocks_fill_the_capacity(capacity: u64)
    requires
        capacity <= usize::MAX,
    ensures
        40 * blocks_for(capacity) <= capacity < 40 * (blocks_for(capacity) + 1),
{
}

/// A new index knows nothing of any article, in its shards neither, and has counted
/// nothing.
pub proof fn law_new_index_knows_nothing(
    capacity: u64,
    ttl: u64,
    generations: nat,
    shards: nat,
    providers: Seq<IdentityModel>,
    key: Seq<u8>,
    now: u64,
)
    requires
        fresh_index(capacity, ttl, generations, shards, providers).wf(),
    ensures
        ({
            let m = fresh_index(capacity, ttl, generations, shards, providers);
            &&& m.answer(key, now) == 0
            &&& m.bits_at(fingerprint_of(key), now) == 0
            &&& m.initial_misses == 0
            &&& forall|i: int|
                0 <= i < m.shards.len() ==> (#[trigger] m.shards[i]).hits == 0 && m.shards[i].misses
                    == 0 && m.shards[i].evictions == 0
        }),
{
    let m = fresh_index(capacity, ttl, generations, shards, providers);
    let s = m.shard_of(fingerprint_of(key).hash);
    lemma_some_shard(m, fingerprint_of(key).hash);
    let f = m.shards[s].filter;
    assert(f.live == 0);
    assert(f.rotated(now).live == 0);
}

/// Every lookup is counted once: as a hit where it found a fact, else as a miss,
/// before the first fact and after it. Nothing else is counted with it.
pub proof fn law_lookups_are_counted(m: IndexModel, key: Seq<u8>, now: u64)
    requires
        m.wf(),
    ensures
        ({
            let after = m.asked(key, now);
            let s = m.shard_of(fingerprint_of(key).hash);
            let found = m.answer(key, now) != 0;
            &&& !m.populated ==> after.shards == m.shards && (m.initial_misses < u64::MAX
                ==> after.initial_misses == m.initial_misses + 1)
            &&& m.populated ==> after.initial_misses == m.initial_misses
            &&& m.populated && found && m.shards[s].hits < u64::MAX ==> after.shards[s].hits
                == m.shards[s].hits + 1 && after.shards[s].misses == m.shards[s].misses
            &&& m.populated && !found && m.shards[s].misses < u64::MAX ==> after.shards[s].misses
                == m.shards[s].misses + 1 && after.shards[s].hits == m.shards[s].hits
            &&& forall|i: int|
                0 <= i < m.shards.len() && i != s ==> #[trigger] after.shards[i] == m.shards[i]
        }),
{
    lemma_some_shard(m, fingerprint_of(key).hash);
}

/// An article is named by what stands within its angle brackets; a name without
/// them names none.
pub proof fn law_request_keys(inner: Seq<u8>)
    ensures
        request_key(seq![0x3cu8] + inner + seq![0x3eu8]) == Some(inner),
        inner.len() > 0 && inner[0] != 0x3c ==> request_key(inner) is None,
        inner.len() > 0 && inner[inner.len() - 1] != 0x3e ==> request_key(inner) is None,
        inner.len() < 2 ==> request_key(inner) is None,
{
    let name = seq![0x3cu8] + inner + seq![0x3eu8];
    assert(name.subrange(1, name.len() - 1) =~= inner);
}

/// A fingerprint is never that of a free slot. Its hash is that of the key but for
/// zero, and its tag the low half of the low half of a second hash.
pub proof fn law_fingerprints(key: Seq<u8>)
    ensures
        fingerprint_of(key).hash != 0,
        xxhash64_of(0, key) != 0 ==> fingerprint_of(key).hash == xxhash64_of(0, key),
        fingerprint_of(key).tag == xxhash64_of(0x9E37_79B9_7F4A_7C15, key) % 0x1_0000,
{
}

/// Facts of no backend, of no key, and where facts are kept for no time are not
/// recorded.
pub proof fn law_empty_facts_are_not_recorded(m: IndexModel, key: Seq<u8>, bits: usize, now: u64)
    ensures
        m.recorded(key, 0, now) == m,
        m.recorded(Seq::empty(), bits, now) == m,
        m.ttl == 0 ==> m.recorded(key, bits, now) == m,
{
}

/// A hash is brought to the size of a machine word by its upper half over its
/// lower half: where a word has 64 bits the upper half stays as well.
pub proof fn law_folded_hashes(hash: u64)
    ensures
        folded(hash) as u32 == (hash as u32) ^ ((hash >> 32) as u32),
        usize::MAX == u64::MAX ==> folded(hash) as u64 >> 32 == hash >> 32,
{
    assert((((hash >> 32) as usize) ^ (hash as usize)) as u32 == (hash as u32) ^ ((hash
        >> 32) as u32)) by (bit_vector);
    if usize::MAX == u64::MAX {
        let (a, b) = ((hash >> 32) as usize as u64, hash as usize as u64);
        assert(a == hash >> 32 && b == hash) by {
            assert(hash >> 32 <= 0xffff_ffff) by (bit_vector);
        }
        assert(((hash >> 32) ^ hash) >> 32 == hash >> 32) by (bit_vector);
    }
}

} // verus!
