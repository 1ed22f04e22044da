//! How an index is cut into shards makes no difference to what it answers.
use crate::cache::availability_index::{
    bucket_of, fingerprint_of, folded, law_buckets_have_their_own_place, lemma_hash_place,
    lemma_place, IndexModel,
};
use crate::cache::filter::{
    block_insert, free_block, lemma_free_block_misses_nothing, lemma_recorded_wf, slots_missing,
    victim_of, ArticleFingerprint, FilterModel, SlotModel,
};
use vstd::prelude::*;

verus! {

/// A fact that is recorded: the key of an article, the bits of the providers
/// that miss it, and the moment.
pub struct Fact {
    pub key: Seq<u8>,
    pub bits: usize,
    pub now: u64,
}

impl IndexModel {
    /// The index after the facts were recorded, one after the other.
    pub open spec fn recorded_all(self, facts: Seq<Fact>) -> IndexModel
        decreases facts.len(),
    {
        if facts.len() == 0 {
            self
        } else {
            let f = facts.last();
            self.recorded_all(facts.drop_last()).recorded(f.key, f.bits, f.now)
        }
    }

    /// An index that keeps facts for ever, with nothing recorded in it.
    pub open spec fn is_new(self) -> bool {
        &&& self.wf()
        &&& self.blocks > 0
        &&& self.ttl == u64::MAX
        &&& !self.populated
        &&& forall|s: int| #![trigger self.shards[s]]
            0 <= s < self.shards.len() ==> self.shards[s].filter.live == 0
                && self.shards[s].filter.current == 0
    }

    /// An index whose rings never turn.
    spec fn still(self) -> bool {
        &&& self.wf()
        &&& self.blocks > 0
        &&& self.ttl == u64::MAX
        &&& forall|s: int| #![trigger self.shards[s]]
            0 <= s < self.shards.len() ==> self.shards[s].filter.live <= 1
                && self.shards[s].filter.current == 0
    }

    /// The block of a bucket.
    spec fn block_at(self, bucket: nat) -> Seq<SlotModel> {
        let n = self.shards.len();
        self.shards[(bucket % n) as int].filter.generations[0].blocks[(bucket / n) as int]
    }

    /// The two indexes hold the same in every bucket.
    spec fn agrees(self, other: IndexModel) -> bool {
        &&& self.blocks == other.blocks
        &&& self.populated == other.populated
        &&& forall|g: nat| #![trigger self.block_at(g)]
            g < self.blocks ==> self.block_at(g) == other.block_at(g)
    }
}

/// What a ring that never turned has for a fingerprint is in its only
/// generation.
proof fn lemma_still_bits(f: FilterModel, fp: ArticleFingerprint, bucket: int, now: u64)
    requires
        f.wf(),
        f.interval == u64::MAX,
        f.current == 0,
        f.live <= 1,
        0 <= bucket < f.width,
    ensures
        f.rotated(now).bits_of(fp, bucket) == slots_missing(
            f.generations[0].blocks[bucket],
            fp.hash,
            fp.tag,
        ),
{
    if f.live == 0 {
        assert(f.generations[0].blocks[bucket] == free_block());
        lemma_free_block_misses_nothing(fp.hash, fp.tag);
    } else {
        let n = f.generations.len() as int;
        vstd::arithmetic::div_mod::lemma_mod_self_0(n);
        assert(f.back(0) == 0);
        let x = slots_missing(f.generations[0].blocks[bucket], fp.hash, fp.tag);
        assert(0usize | x == x) by (bit_vector);
        reveal_with_fuel(FilterModel::bits_in, 2);
    }
}

/// An index whose rings never turn has for a fingerprint what is in its bucket.
proof fn lemma_still_answer(m: IndexModel, fp: ArticleFingerprint, now: u64)
    requires
        m.still(),
    ensures
        bucket_of(fp.hash, m.blocks) < m.blocks,
        m.bits_at(fp, now) == slots_missing(
            m.block_at(bucket_of(fp.hash, m.blocks)),
            fp.hash,
            fp.tag,
        ),
{
    vstd::arithmetic::div_mod::lemma_mod_bound(folded(fp.hash) as int, m.blocks as int);
    lemma_hash_place(m, fp.hash);
    let f = m.shards[m.shard_of(fp.hash)].filter;
    assert(f.interval == u64::MAX);
    lemma_still_bits(f, fp, m.local_of(fp.hash), now);
}

/// Recording a fact changes the block of its bucket and no other.
proof fn lemma_still_recorded(m: IndexModel, key: Seq<u8>, bits: usize, now: u64)
    requires
        m.still(),
        key.len() > 0,
        bits != 0,
    ensures
        m.recorded(key, bits, now).still(),
        m.recorded(key, bits, now).populated,
        m.recorded(key, bits, now).blocks == m.blocks,
        forall|g: nat| #![trigger m.recorded(key, bits, now).block_at(g)]
            g < m.blocks ==> m.recorded(key, bits, now).block_at(g) == (if g == bucket_of(
                fingerprint_of(key).hash,
                m.blocks,
            ) {
                block_insert(
                    m.block_at(g),
                    fingerprint_of(key),
                    bits,
                    victim_of(fingerprint_of(key).hash),
                ).0
            } else {
                m.block_at(g)
            }),
{
    let fp = fingerprint_of(key);
    let r = m.recorded(key, bits, now);
    let n = m.shards.len();
    vstd::arithmetic::div_mod::lemma_mod_bound(folded(fp.hash) as int, m.blocks as int);
    lemma_hash_place(m, fp.hash);
    let s = m.shard_of(fp.hash);
    let b = m.local_of(fp.hash);
    let f = m.shards[s].filter;
    let g0 = bucket_of(fp.hash, m.blocks);
    assert(f.interval == u64::MAX);
    assert(f.rotated(now) == f);
    lemma_recorded_wf(f, fp, bits, b, now);
    let h = f.recorded(fp, bits, b, now);
    assert(r.shards[s].filter == h);
    assert(h.generations[0].blocks == f.generations[0].blocks.update(
        b,
        block_insert(f.generations[0].blocks[b], fp, bits, victim_of(fp.hash)).0,
    ));
    assert forall|q: int| #![trigger r.shards[q]] 0 <= q < r.shards.len() implies {
        &&& r.shards[q].filter.wf()
        &&& r.shards[q].filter.width == m.shards[q].filter.width
        &&& r.shards[q].filter.interval == m.shards[q].filter.interval
        &&& r.shards[q].filter.generations.len() == m.shards[q].filter.generations.len()
        &&& r.shards[q].filter.live <= 1
        &&& r.shards[q].filter.current == 0
    } by {
        assert(m.shards[q].filter.wf());
    }
    assert(r.wf());
    assert(f.generations[0].blocks.len() == f.width);
    assert forall|g: nat| #![trigger r.block_at(g)] g < m.blocks implies r.block_at(g) == (if g
        == g0 {
        block_insert(m.block_at(g), fp, bits, victim_of(fp.hash)).0
    } else {
        m.block_at(g)
    }) by {
        lemma_place(m.blocks, n, g);
        if g != g0 {
            law_buckets_have_their_own_place(n, g, g0);
        }
    }
}

/// Indexes that agree keep agreeing when the same facts are recorded in both.
proof fn lemma_still_agree(a: IndexModel, b: IndexModel, facts: Seq<Fact>)
    requires
        a.still(),
        b.still(),
        a.agrees(b),
    ensures
        a.recorded_all(facts).still(),
        b.recorded_all(facts).still(),
        a.recorded_all(facts).agrees(b.recorded_all(facts)),
    decreases facts.len(),
{
    if facts.len() > 0 {
        let f = facts.last();
        lemma_still_agree(a, b, facts.drop_last());
        let x = a.recorded_all(facts.drop_last());
        let y = b.recorded_all(facts.drop_last());
        if f.key.len() > 0 && f.bits != 0 {
            lemma_still_recorded(x, f.key, f.bits, f.now);
            lemma_still_recorded(y, f.key, f.bits, f.now);
            let xr = x.recorded(f.key, f.bits, f.now);
            let yr = y.recorded(f.key, f.bits, f.now);
            assert forall|g: nat| #![trigger xr.block_at(g)] g < xr.blocks implies xr.block_at(g)
                == yr.block_at(g) by {
                assert(x.block_at(g) == y.block_at(g));
                assert(yr.block_at(g) == yr.block_at(g));
            }
        }
    }
}

/// The number of shards makes no difference: two indexes of the same capacity
/// that keep facts for ever, and in which the same facts were recorded, answer
/// every question alike. Facts that had to give up their slots are the same in
/// both.
pub proof fn law_shards_make_no_difference(
    a: IndexModel,
    b: IndexModel,
    facts: Seq<Fact>,
    key: Seq<u8>,
    now: u64,
)
    requires
        a.is_new(),
        b.is_new(),
        a.blocks == b.blocks,
    ensures
        a.recorded_all(facts).answer(key, now) == b.recorded_all(facts).answer(key, now),
{
    assert forall|g: nat| #![trigger a.block_at(g)] g < a.blocks implies a.block_at(g)
        == b.block_at(g) by {
        lemma_place(a.blocks, a.shards.len(), g);
        lemma_place(b.blocks, b.shards.len(), g);
        let f = a.shards[(g % a.shards.len()) as int].filter;
        let h = b.shards[(g % b.shards.len()) as int].filter;
        assert(f.wf() && h.wf());
        assert(f.generations[0].blocks[(g / a.shards.len()) as int] == free_block());
        assert(h.generations[0].blocks[(g / b.shards.len()) as int] == free_block());
    }
    lemma_still_agree(a, b, facts);
    let x = a.recorded_all(facts);
    let y = b.recorded_all(facts);
    let fp = fingerprint_of(key);
    lemma_still_answer(x, fp, now);
    lemma_still_answer(y, fp, now);
    assert(x.block_at(bucket_of(fp.hash, x.blocks)) == y.block_at(bucket_of(fp.hash, x.blocks)));
}

} // verus!
