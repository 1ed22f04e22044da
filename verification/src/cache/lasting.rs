//! Indexes whose facts never age: what they hold, and what a stored one gives
//! back.
use crate::bits::{
    bit, bit_set, lemma_above_low_mask, lemma_empty, lemma_or, lemma_same_bits,
};
use crate::cache::availability_identity::{
    host_position, lemma_host_position, stored_identities, IdentityModel,
};
use crate::cache::availability_index::{
    all_entries, bucket_of, by_age, fingerprint_of, fresh_index, law_facts_follow_their_providers,
    lemma_hash_place, slots_carried, total_used, translated, translated_entry, width_of,
    IndexModel, ShardModel,
};
use crate::cache::availability_snapshot::{
    parse_snapshot_spec, snapshot_bytes, snapshot_valid,
    SnapshotError, SnapshotModel,
};
use crate::cache::filter::{
    block_entries, block_insert, elapsed, first_free, first_holding, free_block, free_generation,
    latest_started, lemma_block_insert_other, lemma_first_free, lemma_first_holding,
    lemma_free_block_misses_nothing, lemma_slots_hold, slot_entries, slots_missing, victim_of,
    ArticleFingerprint, FilterModel, InsertOutcome, PersistedEntry, SlotModel, BLOCK_SLOTS,
};
use crate::cache::restoring::{
    fingerprint_in, lemma_block_counts, lemma_by_age_same, lemma_filter_told,
    lemma_generation_counts, lemma_known_slots_are_used, lemma_latest_started, lemma_shard_counts,
    lemma_shards_told, no_losses, tells, told,
};
use crate::types::max_backends;
use vstd::prelude::*;

verus! {

// ---------------------------------------------------------------------------
// Blocks
// ---------------------------------------------------------------------------

/// The fingerprint in a slot.
pub open spec fn fingerprint_at(slot: SlotModel) -> ArticleFingerprint {
    ArticleFingerprint { hash: slot.hash, tag: slot.tag }
}

/// No fingerprint is in two slots.
pub open spec fn no_repeats(slots: Seq<SlotModel>) -> bool {
    forall|i: int, j: int|
        #![trigger slots[i], slots[j]]
        0 <= i < j < slots.len() && slots[i].hash != 0 ==> fingerprint_at(slots[i])
            != fingerprint_at(slots[j])
}

proof fn lemma_slots_gain(
    slots: Seq<SlotModel>,
    i: int,
    s: SlotModel,
    hash: u64,
    tag: u16,
    bits: usize,
)
    requires
        0 <= i < slots.len(),
        s.holds(hash, tag),
        s.missing == (if slots[i].holds(hash, tag) {
            slots[i].missing
        } else {
            0
        }) | bits,
    ensures
        slots_missing(slots.update(i, s), hash, tag) == slots_missing(slots, hash, tag) | bits,
    decreases slots.len(),
{
    let t = slots.update(i, s);
    let head = slots_missing(slots.drop_last(), hash, tag);
    let tail = if slots.last().holds(hash, tag) {
        slots.last().missing
    } else {
        0
    };
    if i == slots.len() - 1 {
        assert(t.drop_last() =~= slots.drop_last());
        assert(head | (tail | bits) == (head | tail) | bits) by (bit_vector);
    } else {
        lemma_slots_gain(slots.drop_last(), i, s, hash, tag, bits);
        assert(t.drop_last() =~= slots.drop_last().update(i, s));
        assert((head | bits) | tail == (head | tail) | bits) by (bit_vector);
    }
}

/// A block gains exactly the bits that are put under a fingerprint, unless that
/// takes a slot in use.
pub(crate) proof fn lemma_block_gains(slots: Seq<SlotModel>, fp: ArticleFingerprint, bits: usize, victim: int)
    requires
        0 <= victim < slots.len(),
        fp.hash != 0,
        block_insert(slots, fp, bits, victim).1 != InsertOutcome::Replaced,
    ensures
        slots_missing(block_insert(slots, fp, bits, victim).0, fp.hash, fp.tag) == slots_missing(
            slots,
            fp.hash,
            fp.tag,
        ) | bits,
{
    lemma_first_holding(slots, fp.hash, fp.tag);
    lemma_first_free(slots);
    let held = first_holding(slots, fp.hash, fp.tag);
    let free = first_free(slots);
    if held < slots.len() {
        let s = SlotModel { missing: slots[held].missing | bits, ..slots[held] };
        lemma_slots_gain(slots, held, s, fp.hash, fp.tag, bits);
    } else {
        let s = SlotModel { hash: fp.hash, tag: fp.tag, missing: bits };
        assert(0usize | bits == bits) by (bit_vector);
        lemma_slots_gain(slots, free, s, fp.hash, fp.tag, bits);
    }
}

/// The slots of a block hold what they held, or the fingerprint that was put
/// into it.
proof fn lemma_block_holds(slots: Seq<SlotModel>, fp: ArticleFingerprint, bits: usize, victim: int)
    requires
        0 <= victim < slots.len(),
        fp.hash != 0,
    ensures
        ({
            let (after, outcome) = block_insert(slots, fp, bits, victim);
            &&& after.len() == slots.len()
            &&& forall|k: int| #![trigger after[k]]
                0 <= k < slots.len() ==> fingerprint_at(after[k]) == fp || fingerprint_at(after[k])
                    == fingerprint_at(slots[k])
            &&& no_repeats(slots) && outcome != InsertOutcome::Replaced ==> no_repeats(after)
        }),
{
    lemma_first_holding(slots, fp.hash, fp.tag);
    lemma_first_free(slots);
    let held = first_holding(slots, fp.hash, fp.tag);
    let free = first_free(slots);
    let (after, outcome) = block_insert(slots, fp, bits, victim);
    if no_repeats(slots) && outcome != InsertOutcome::Replaced {
        assert forall|i: int, j: int|
            #![trigger after[i], after[j]]
            0 <= i < j < after.len() && after[i].hash != 0 implies fingerprint_at(after[i])
            != fingerprint_at(after[j]) by {
            if held < slots.len() {
                assert(fingerprint_at(after[i]) == fingerprint_at(slots[i]));
                assert(fingerprint_at(after[j]) == fingerprint_at(slots[j]));
            } else {
                assert(!slots[i].holds(fp.hash, fp.tag) && !slots[j].holds(fp.hash, fp.tag));
            }
        }
    }
}

// ---------------------------------------------------------------------------
// Filters
// ---------------------------------------------------------------------------

/// A filter that never turns has its facts in one generation, each in the block
/// that its hash belongs to: it is part `s` of `count`, over `blocks` in all.
pub open spec fn alone(f: FilterModel, blocks: nat, count: nat, s: int) -> bool {
    &&& f.wf()
    &&& f.interval == u64::MAX
    &&& f.current == 0
    &&& f.live <= 1
    &&& forall|i: int| #![trigger f.generations[i]]
        1 <= i < f.generations.len() ==> f.generations[i] == free_generation(f.width)
    &&& forall|j: int, k: int| #![trigger f.generations[0].blocks[j][k]]
        0 <= j < f.width && 0 <= k < BLOCK_SLOTS && f.generations[0].blocks[j][k].hash != 0
            ==> at_home(f.generations[0].blocks[j][k].hash, blocks, count, s, j)
}

/// Block `j` of part `s` is the one that a hash belongs to.
pub open spec fn at_home(hash: u64, blocks: nat, count: nat, s: int, j: int) -> bool {
    bucket_of(hash, blocks) % count == s && bucket_of(hash, blocks) / count == j
}

/// A filter with the bits put under a fingerprint in its one generation.
pub open spec fn gained(
    f: FilterModel,
    g: FilterModel,
    fp: ArticleFingerprint,
    bits: usize,
    b: int,
) -> bool {
    let old = f.generations[0].blocks;
    &&& g.generations.len() == f.generations.len()
    &&& g.generations[0].blocks == old.update(
        b,
        block_insert(old[b], fp, bits, victim_of(fp.hash)).0,
    )
    &&& forall|i: int| #![trigger g.generations[i]]
        1 <= i < f.generations.len() ==> g.generations[i] == f.generations[i]
    &&& g.current == 0
    &&& g.live == 1
    &&& g.interval == f.interval
    &&& g.width == f.width
}

proof fn lemma_alone_gained(
    f: FilterModel,
    g: FilterModel,
    fp: ArticleFingerprint,
    bits: usize,
    b: int,
    blocks: nat,
    count: nat,
    s: int,
)
    requires
        alone(f, blocks, count, s),
        gained(f, g, fp, bits, b),
        fp.hash != 0,
        0 <= b < f.width,
        at_home(fp.hash, blocks, count, s, b),
    ensures
        alone(g, blocks, count, s),
{
    let old = f.generations[0].blocks;
    assert(old.len() == f.width);
    assert(old[b].len() == BLOCK_SLOTS);
    lemma_block_holds(old[b], fp, bits, victim_of(fp.hash));
    assert forall|i: int| #![trigger g.generations[i]]
        0 <= i < g.generations.len() implies g.generations[i].blocks.len() == g.width by {
        assert(f.generations[i].blocks.len() == f.width);
    }
    assert forall|i: int, j: int| #![trigger g.generations[i].blocks[j]]
        0 <= i < g.generations.len() && 0 <= j < g.width implies g.generations[i].blocks[j].len()
        == BLOCK_SLOTS by {
        assert(f.generations[i].blocks[j].len() == BLOCK_SLOTS);
    }
    assert forall|j: int, k: int| #![trigger g.generations[0].blocks[j][k]]
        0 <= j < g.width && 0 <= k < BLOCK_SLOTS && g.generations[0].blocks[j][k].hash
            != 0 implies at_home(g.generations[0].blocks[j][k].hash, blocks, count, s, j) by {
        let before = f.generations[0].blocks[j][k];
        let after = g.generations[0].blocks[j][k];
        assert(fingerprint_at(after) == fp && j == b || fingerprint_at(after) == fingerprint_at(
            before,
        ));
    }
}

proof fn lemma_alone_is_not_rotated(f: FilterModel, blocks: nat, count: nat, s: int, now: u64)
    requires
        alone(f, blocks, count, s),
    ensures
        f.rotated(now) == f,
        f.back(0) == 0,
{
    vstd::arithmetic::div_mod::lemma_mod_self_0(f.generations.len() as int);
}

proof fn lemma_recorded_gains(
    f: FilterModel,
    fp: ArticleFingerprint,
    bits: usize,
    b: int,
    now: u64,
    blocks: nat,
    count: nat,
    s: int,
)
    requires
        alone(f, blocks, count, s),
        f.keeps(bits),
    ensures
        gained(f, f.recorded(fp, bits, b, now), fp, bits, b),
{
    lemma_alone_is_not_rotated(f, blocks, count, s, now);
    if f.live == 0 {
        assert(f.generations[0] == free_generation(f.width));
    }
}

proof fn lemma_restored_gains(
    f: FilterModel,
    e: PersistedEntry,
    b: int,
    now: u64,
    ttl: u64,
    blocks: nat,
    count: nat,
    s: int,
)
    requires
        alone(f, blocks, count, s),
        f.accepts(e, now, ttl),
    ensures
        gained(f, f.restored(e, b, now, ttl), fingerprint_in(e), e.missing, b),
        f.restoring_replaces(e, b, now, ttl) == (block_insert(
            f.generations[0].blocks[b],
            fingerprint_in(e),
            e.missing,
            victim_of(e.hash),
        ).1 == InsertOutcome::Replaced),
{
    lemma_alone_is_not_rotated(f, blocks, count, s, now);
    assert(f.age_in_turns(now, e.inserted_at) == 0);
}

proof fn lemma_alone_emptied(f: FilterModel, blocks: nat, count: nat, s: int)
    requires
        f.wf(),
        f.interval == u64::MAX,
    ensures
        alone(f.emptied(), blocks, count, s),
        f.emptied().generations[0] == free_generation(f.width),
{
    let e = f.emptied();
    assert forall|i: int, j: int| #![trigger e.generations[i].blocks[j]]
        0 <= i < e.generations.len() && 0 <= j < e.width implies e.generations[i].blocks[j].len()
        == BLOCK_SLOTS by {
        assert(e.generations[i] == free_generation(e.width));
        assert(e.generations[i].blocks[j] == free_block());
    }
    assert forall|j: int, k: int| #![trigger e.generations[0].blocks[j][k]]
        0 <= j < e.width && 0 <= k < BLOCK_SLOTS implies e.generations[0].blocks[j][k].hash
        == 0 by {
        assert(e.generations[0].blocks[j] == free_block());
    }
}

proof fn lemma_alone_reanchored(f: FilterModel, blocks: nat, count: nat, s: int)
    requires
        alone(f, blocks, count, s),
    ensures
        alone(f.reanchored(), blocks, count, s),
        f.reanchored().generations == f.generations,
        f.reanchored().live == f.live,
        f.reanchored().width == f.width,
{
    let p = latest_started(f.generations);
    lemma_latest_started(f.generations);
    if p > 0 {
        assert(f.generations[p] == free_generation(f.width));
    }
}

/// What a filter that never turns has for a fingerprint.
proof fn lemma_alone_bits(
    f: FilterModel,
    fp: ArticleFingerprint,
    b: int,
    blocks: nat,
    count: nat,
    s: int,
)
    requires
        alone(f, blocks, count, s),
        0 <= b < f.width,
    ensures
        f.bits_of(fp, b) == slots_missing(f.generations[0].blocks[b], fp.hash, fp.tag),
        f.used_back(f.live) == 0 && fp.hash != 0 ==> f.bits_of(fp, b) == 0,
{
    lemma_alone_is_not_rotated(f, blocks, count, s, 0);
    let there = slots_missing(f.generations[0].blocks[b], fp.hash, fp.tag);
    if f.live == 0 {
        assert(f.generations[0] == free_generation(f.width));
        assert(f.generations[0].blocks[b] == free_block());
        lemma_free_block_misses_nothing(fp.hash, fp.tag);
        assert(f.bits_in(fp, b, 0) == 0);
    } else {
        assert(f.bits_in(fp, b, 0) == 0);
        assert(f.bits_in(fp, b, 1) == f.bits_in(fp, b, 0) | there);
        assert(0usize | there == there) by (bit_vector);
        if there != 0 && fp.hash != 0 {
            lemma_known_slots_are_used(f.generations[0].blocks[b], fp.hash, fp.tag);
            assert(f.generations[0].blocks.len() == f.width);
            lemma_block_counts(f.generations[0].blocks, b);
            lemma_generation_counts(f, 0, 1);
        }
    }
}

// ---------------------------------------------------------------------------
// Indexes
// ---------------------------------------------------------------------------

impl IndexModel {
    /// Facts never age: each shard has them in one generation, each in the block
    /// that its hash belongs to. An index that is not marked as populated has
    /// none.
    pub open spec fn lasting(self) -> bool {
        &&& self.ttl == u64::MAX
        &&& forall|s: int| #![trigger self.shards[s]]
            0 <= s < self.shards.len() ==> alone(
                self.shards[s].filter,
                self.blocks,
                self.shards.len(),
                s,
            )
        &&& self.populated || total_used(self.shards) == 0
    }
}

proof fn lemma_total_used_same(a: Seq<ShardModel>, b: Seq<ShardModel>)
    requires
        a.len() == b.len(),
        forall|s: int| 0 <= s < a.len() ==> (#[trigger] a[s]).filter == b[s].filter,
    ensures
        total_used(a) == total_used(b),
    decreases a.len(),
{
    if a.len() > 0 {
        assert forall|s: int| 0 <= s < a.len() - 1 implies (
        #[trigger] a.drop_last()[s]).filter == b.drop_last()[s].filter by {
            assert(a[s].filter == b[s].filter);
        }
        lemma_total_used_same(a.drop_last(), b.drop_last());
        assert(a[a.len() - 1].filter == b[b.len() - 1].filter);
    }
}

proof fn lemma_none_used(shards: Seq<ShardModel>)
    requires
        forall|s: int| 0 <= s < shards.len() ==> (#[trigger] shards[s]).filter.live == 0,
    ensures
        total_used(shards) == 0,
    decreases shards.len(),
{
    if shards.len() > 0 {
        lemma_none_used(shards.drop_last());
        let f = shards[shards.len() - 1].filter;
        assert(f.used_back(0) == 0);
    }
}

/// A new index whose facts never age is such an index.
pub proof fn law_new_index_lasts(
    capacity: u64,
    generations: nat,
    shards: nat,
    providers: Seq<IdentityModel>,
)
    requires
        fresh_index(capacity, u64::MAX, generations, shards, providers).wf(),
    ensures
        fresh_index(capacity, u64::MAX, generations, shards, providers).lasting(),
{
    let m = fresh_index(capacity, u64::MAX, generations, shards, providers);
    assert forall|s: int| #![trigger m.shards[s]] 0 <= s < m.shards.len() implies alone(
        m.shards[s].filter,
        m.blocks,
        m.shards.len(),
        s,
    ) && m.shards[s].filter.live == 0 by {
        let f = m.shards[s].filter;
        assert(f.wf());
        lemma_alone_emptied(f, m.blocks, m.shards.len(), s);
        assert(f.emptied().generations =~= f.generations);
    }
    lemma_none_used(m.shards);
}

/// A shard of an index without blocks has none.
proof fn lemma_no_blocks(m: IndexModel, s: int)
    requires
        m.wf(),
        m.blocks == 0,
        0 <= s < m.shards.len(),
    ensures
        m.shards[s].filter.width == 0,
{
    assert(m.shards[s].filter.width == width_of(0, 1, 0));
    assert(0nat / 1nat == 0 && 0nat % 1nat == 0);
}

proof fn lemma_hash_at_home(m: IndexModel, hash: u64)
    requires
        m.wf(),
        m.blocks > 0,
    ensures
        0 <= m.shard_of(hash) < m.shards.len(),
        0 <= m.local_of(hash) < m.shards[m.shard_of(hash)].filter.width,
        at_home(hash, m.blocks, m.shards.len(), m.shard_of(hash), m.local_of(hash)),
{
    lemma_hash_place(m, hash);
}

/// Taking back facts leaves each of them in the block that its hash belongs to.
proof fn lemma_restored_alone(
    m: IndexModel,
    table: Seq<IdentityModel>,
    entries: Seq<PersistedEntry>,
    n: nat,
    now: u64,
)
    requires
        m.wf(),
        m.ttl == u64::MAX,
        n <= entries.len(),
    ensures
        ({
            let r = m.emptied().restored_all(table, entries, n, now);
            &&& r.same_shape(m)
            &&& forall|s: int| #![trigger r.shards[s]]
                0 <= s < r.shards.len() ==> {
                    &&& alone(r.shards[s].filter, m.blocks, m.shards.len(), s)
                    &&& r.shards[s].filter.width == m.shards[s].filter.width
                }
        }),
    decreases n,
{
    let start = m.emptied();
    if n == 0 {
        assert forall|s: int| #![trigger start.shards[s]] 0 <= s < start.shards.len() implies {
            &&& alone(start.shards[s].filter, m.blocks, m.shards.len(), s)
            &&& start.shards[s].filter.width == m.shards[s].filter.width
        } by {
            assert(m.shards[s].filter.wf());
            lemma_alone_emptied(m.shards[s].filter, m.blocks, m.shards.len(), s);
        }
    } else {
        let k = (n - 1) as nat;
        lemma_restored_alone(m, table, entries, k, now);
        let before = start.restored_all(table, entries, k, now);
        let after = start.restored_all(table, entries, n, now);
        let e = translated_entry(m.providers, table, entries[n - 1]);
        let s = before.shard_of(e.hash);
        let b = before.local_of(e.hash);
        vstd::arithmetic::div_mod::lemma_mod_bound(
            bucket_of(e.hash, m.blocks) as int,
            m.shards.len() as int,
        );
        let f = before.shards[s].filter;
        assert(after.shards == before.shards.update(
            s,
            before.shards[s].restored(e, b, now, m.ttl),
        ));
        if f.accepts(e, now, m.ttl) {
            if m.blocks == 0 {
                lemma_no_blocks(m, s);
            }
            lemma_hash_at_home(m, e.hash);
            lemma_restored_gains(f, e, b, now, m.ttl, m.blocks, m.shards.len(), s);
            lemma_alone_gained(
                f,
                f.restored(e, b, now, m.ttl),
                fingerprint_in(e),
                e.missing,
                b,
                m.blocks,
                m.shards.len(),
                s,
            );
        }
    }
}

/// An index whose facts never age stays one, whatever is asked of it, recorded
/// in it or loaded into it.
pub proof fn law_lasting_is_kept(
    m: IndexModel,
    key: Seq<u8>,
    bits: usize,
    table: Seq<IdentityModel>,
    entries: Seq<PersistedEntry>,
    now: u64,
)
    requires
        m.wf(),
        m.lasting(),
    ensures
        m.asked(key, now).lasting(),
        m.recorded(key, bits, now).lasting(),
        m.aged(now).lasting(),
        m.with_snapshot(table, entries, now).lasting(),
{
    let fp = fingerprint_of(key);
    let s = m.shard_of(fp.hash);
    vstd::arithmetic::div_mod::lemma_mod_bound(
        bucket_of(fp.hash, m.blocks) as int,
        m.shards.len() as int,
    );
    assert forall|q: int| #![trigger m.shards[q]] 0 <= q < m.shards.len() implies m.shards[
        q].filter.rotated(now) == m.shards[q].filter by {
        lemma_alone_is_not_rotated(m.shards[q].filter, m.blocks, m.shards.len(), q, now);
    }
    let asked = m.asked(key, now);
    assert forall|q: int| #![trigger asked.shards[q]] 0 <= q < asked.shards.len() implies alone(
        asked.shards[q].filter,
        m.blocks,
        m.shards.len(),
        q,
    ) by {
        assert(asked.shards[q].filter == m.shards[q].filter);
    }
    let aged = m.aged(now);
    assert forall|q: int| #![trigger aged.shards[q]] 0 <= q < aged.shards.len() implies aged.shards[
        q].filter == m.shards[q].filter by {}
    lemma_total_used_same(aged.shards, m.shards);
    let f = m.shards[s].filter;
    if key.len() > 0 && bits != 0 {
        if f.keeps(bits) {
            if m.blocks == 0 {
                lemma_no_blocks(m, s);
            }
            lemma_hash_at_home(m, fp.hash);
            let b = m.local_of(fp.hash);
            lemma_recorded_gains(f, fp, bits, b, now, m.blocks, m.shards.len(), s);
            lemma_alone_gained(
                f,
                f.recorded(fp, bits, b, now),
                fp,
                bits,
                b,
                m.blocks,
                m.shards.len(),
                s,
            );
        }
        let recorded = m.recorded(key, bits, now);
        assert forall|q: int| #![trigger recorded.shards[q]]
            0 <= q < recorded.shards.len() implies alone(
            recorded.shards[q].filter,
            m.blocks,
            m.shards.len(),
            q,
        ) by {
            assert(m.shards[q].filter.wf());
        }
    }
    lemma_restored_alone(m, table, entries, entries.len(), now);
    let r = m.emptied().restored_all(table, entries, entries.len(), now);
    let end = m.with_snapshot(table, entries, now);
    assert forall|q: int| #![trigger end.shards[q]] 0 <= q < end.shards.len() implies alone(
        end.shards[q].filter,
        m.blocks,
        m.shards.len(),
        q,
    ) by {
        assert(end.shards[q] == r.shards[q].settled());
        lemma_alone_reanchored(r.shards[q].filter, m.blocks, m.shards.len(), q);
    }
}

// ---------------------------------------------------------------------------
// What a snapshot gives back
// ---------------------------------------------------------------------------

/// Slots of the providers that the first `n` stored facts say of a fingerprint,
/// as far as these providers are there.
pub open spec fn slots_restored(
    providers: Seq<IdentityModel>,
    table: Seq<IdentityModel>,
    entries: Seq<PersistedEntry>,
    n: nat,
    fp: ArticleFingerprint,
) -> Set<nat> {
    Set::new(
        |i: nat|
            exists|k: int|
                0 <= k < n && fingerprint_in(#[trigger] entries[k]) == fp && slots_carried(
                    providers,
                    table,
                    entries[k].missing,
                    table.len(),
                ).contains(i),
    )
}

impl IndexModel {
    /// The stored fact names an article, and a provider that the index has.
    pub open spec fn takes(self, table: Seq<IdentityModel>, e: PersistedEntry) -> bool {
        e.hash != 0 && translated(self.providers, table, e.missing, table.len()) != 0
    }

    /// No two of the stored facts that are taken back compete for a slot: a
    /// block is asked to hold no more than two fingerprints.
    pub open spec fn uncrowded(
        self,
        table: Seq<IdentityModel>,
        entries: Seq<PersistedEntry>,
    ) -> bool {
        forall|i: int, j: int, k: int|
            #![trigger entries[i], entries[j], entries[k]]
            0 <= i < entries.len() && 0 <= j < entries.len() && 0 <= k < entries.len()
                && self.takes(table, entries[i]) && self.takes(table, entries[j]) && self.takes(
                table,
                entries[k],
            ) && bucket_of(entries[i].hash, self.blocks) == bucket_of(entries[j].hash, self.blocks)
                && bucket_of(entries[j].hash, self.blocks) == bucket_of(
                entries[k].hash,
                self.blocks,
            ) ==> fingerprint_in(entries[i]) == fingerprint_in(entries[j]) || fingerprint_in(
                entries[j],
            ) == fingerprint_in(entries[k]) || fingerprint_in(entries[i]) == fingerprint_in(
                entries[k],
            )
    }

    /// No stored fact that is taken back is as old as a clock can count. Only a
    /// fact of moment zero ever is, at the last moment that a clock can show.
    pub open spec fn countable(
        self,
        table: Seq<IdentityModel>,
        entries: Seq<PersistedEntry>,
        now: u64,
    ) -> bool {
        forall|i: int| #![trigger entries[i]]
            0 <= i < entries.len() && self.takes(table, entries[i]) ==> elapsed(
                now,
                entries[i].inserted_at,
            ) < u64::MAX
    }

    /// One of the first `n` stored facts is taken back and is about the
    /// fingerprint.
    spec fn seen(
        self,
        table: Seq<IdentityModel>,
        entries: Seq<PersistedEntry>,
        n: nat,
        fp: ArticleFingerprint,
    ) -> bool {
        exists|i: int|
            0 <= i < n && self.takes(table, #[trigger] entries[i]) && fingerprint_in(entries[i])
                == fp
    }

    /// A block holds fingerprints of stored facts, none of them twice.
    spec fn from_facts(
        self,
        table: Seq<IdentityModel>,
        entries: Seq<PersistedEntry>,
        n: nat,
        slots: Seq<SlotModel>,
    ) -> bool {
        &&& no_repeats(slots)
        &&& forall|k: int| #![trigger slots[k]]
            0 <= k < slots.len() && slots[k].hash != 0 ==> self.seen(
                table,
                entries,
                n,
                fingerprint_at(slots[k]),
            )
    }

    /// The block that a fingerprint belongs to.
    spec fn block_of(self, fp: ArticleFingerprint) -> Seq<SlotModel> {
        self.shards[self.shard_of(fp.hash)].filter.generations[0].blocks[self.local_of(fp.hash)]
    }

    /// The index after the first `n` stored facts were taken back.
    spec fn given_back(
        self,
        table: Seq<IdentityModel>,
        entries: Seq<PersistedEntry>,
        n: nat,
        now: u64,
    ) -> IndexModel {
        self.emptied().restored_all(table, entries, n, now)
    }

    /// The first `n` stored facts are in their blocks, and nothing else is.
    spec fn exactly_back(
        self,
        table: Seq<IdentityModel>,
        entries: Seq<PersistedEntry>,
        n: nat,
        now: u64,
    ) -> bool {
        let r = self.given_back(table, entries, n, now);
        &&& no_losses(r.shards)
        &&& forall|s: int, j: int|
            #![trigger r.shards[s].filter.generations[0].blocks[j]]
            0 <= s < r.shards.len() && 0 <= j < r.shards[s].filter.width ==> self.from_facts(
                table,
                entries,
                n,
                r.shards[s].filter.generations[0].blocks[j],
            )
        &&& forall|fp: ArticleFingerprint|
            #![trigger r.block_of(fp)]
            fp.hash != 0 ==> bit_set(slots_missing(r.block_of(fp), fp.hash, fp.tag))
                == slots_restored(self.providers, table, entries, n, fp)
    }
}

/// Hashes of one block of one shard are of one bucket.
proof fn lemma_one_bucket(x: u64, y: u64, blocks: nat, count: nat, s: int, j: int)
    requires
        count > 0,
        at_home(x, blocks, count, s, j),
        at_home(y, blocks, count, s, j),
    ensures
        bucket_of(x, blocks) == bucket_of(y, blocks),
{
    vstd::arithmetic::div_mod::lemma_fundamental_div_mod(
        bucket_of(x, blocks) as int,
        count as int,
    );
    vstd::arithmetic::div_mod::lemma_fundamental_div_mod(
        bucket_of(y, blocks) as int,
        count as int,
    );
}

/// A block that holds nothing but stored facts has room for another one.
proof fn lemma_room_for_fact(
    m: IndexModel,
    table: Seq<IdentityModel>,
    entries: Seq<PersistedEntry>,
    n: int,
    slots: Seq<SlotModel>,
    s: int,
    j: int,
    bits: usize,
)
    requires
        m.shards.len() > 0,
        m.uncrowded(table, entries),
        0 <= n < entries.len(),
        m.takes(table, entries[n]),
        m.from_facts(table, entries, n as nat, slots),
        slots.len() == BLOCK_SLOTS,
        at_home(entries[n].hash, m.blocks, m.shards.len(), s, j),
        forall|k: int| #![trigger slots[k]]
            0 <= k < BLOCK_SLOTS && slots[k].hash != 0 ==> at_home(
                slots[k].hash,
                m.blocks,
                m.shards.len(),
                s,
                j,
            ),
    ensures
        block_insert(slots, fingerprint_in(entries[n]), bits, victim_of(entries[n].hash)).1
            != InsertOutcome::Replaced,
{
    let fp = fingerprint_in(entries[n]);
    lemma_first_holding(slots, fp.hash, fp.tag);
    lemma_first_free(slots);
    if first_holding(slots, fp.hash, fp.tag) == 2 && first_free(slots) == 2 {
        let x = fingerprint_at(slots[0]);
        let y = fingerprint_at(slots[1]);
        assert(slots[0].hash != 0 && slots[1].hash != 0);
        assert(!slots[0].holds(fp.hash, fp.tag) && !slots[1].holds(fp.hash, fp.tag));
        assert(x != y);
        assert(m.seen(table, entries, n as nat, x) && m.seen(table, entries, n as nat, y));
        let a = choose|i: int|
            0 <= i < n && m.takes(table, #[trigger] entries[i]) && fingerprint_in(entries[i]) == x;
        let b = choose|i: int|
            0 <= i < n && m.takes(table, #[trigger] entries[i]) && fingerprint_in(entries[i]) == y;
        lemma_one_bucket(entries[a].hash, entries[n].hash, m.blocks, m.shards.len(), s, j);
        lemma_one_bucket(entries[b].hash, entries[n].hash, m.blocks, m.shards.len(), s, j);
        assert(fingerprint_in(entries[a]) == fingerprint_in(entries[b]) || fingerprint_in(
            entries[b],
        ) == fingerprint_in(entries[n]) || fingerprint_in(entries[a]) == fingerprint_in(
            entries[n],
        ));
    }
}

/// One more stored fact adds what it says of its own fingerprint.
proof fn lemma_slots_restored_step(
    providers: Seq<IdentityModel>,
    table: Seq<IdentityModel>,
    entries: Seq<PersistedEntry>,
    n: nat,
    fp: ArticleFingerprint,
)
    requires
        providers.len() <= max_backends(),
        0 < n <= entries.len(),
    ensures
        slots_restored(providers, table, entries, n, fp) == if fingerprint_in(entries[n - 1])
            == fp {
            slots_restored(providers, table, entries, (n - 1) as nat, fp).union(
                bit_set(translated(providers, table, entries[n - 1].missing, table.len())),
            )
        } else {
            slots_restored(providers, table, entries, (n - 1) as nat, fp)
        },
{
    let k = n - 1;
    let all = slots_restored(providers, table, entries, n, fp);
    let before = slots_restored(providers, table, entries, k as nat, fp);
    let more = slots_carried(providers, table, entries[k].missing, table.len());
    law_facts_follow_their_providers(providers, table, entries[k].missing, table.len());
    if fingerprint_in(entries[k]) == fp {
        assert forall|i: nat| all.contains(i) == before.union(more).contains(i) by {
            if all.contains(i) {
                let q = choose|q: int|
                    0 <= q < n && fingerprint_in(#[trigger] entries[q]) == fp && slots_carried(
                        providers,
                        table,
                        entries[q].missing,
                        table.len(),
                    ).contains(i);
                if q < k {
                    assert(before.contains(i));
                }
            }
            if before.contains(i) {
                let q = choose|q: int|
                    0 <= q < k && fingerprint_in(#[trigger] entries[q]) == fp && slots_carried(
                        providers,
                        table,
                        entries[q].missing,
                        table.len(),
                    ).contains(i);
                assert(0 <= q < n);
            }
        }
        assert(all =~= before.union(more));
    } else {
        assert forall|i: nat| all.contains(i) == before.contains(i) by {
            if all.contains(i) {
                let q = choose|q: int|
                    0 <= q < n && fingerprint_in(#[trigger] entries[q]) == fp && slots_carried(
                        providers,
                        table,
                        entries[q].missing,
                        table.len(),
                    ).contains(i);
                assert(q < k);
            }
            if before.contains(i) {
                let q = choose|q: int|
                    0 <= q < k && fingerprint_in(#[trigger] entries[q]) == fp && slots_carried(
                        providers,
                        table,
                        entries[q].missing,
                        table.len(),
                    ).contains(i);
                assert(0 <= q < n);
            }
        }
        assert(all =~= before);
    }
}

/// A block that stored facts came from is still one after one more of them.
proof fn lemma_from_facts_step(
    m: IndexModel,
    table: Seq<IdentityModel>,
    entries: Seq<PersistedEntry>,
    n: nat,
    slots: Seq<SlotModel>,
)
    requires
        m.from_facts(table, entries, n, slots),
    ensures
        m.from_facts(table, entries, n + 1, slots),
{
    assert forall|k: int| #![trigger slots[k]]
        0 <= k < slots.len() && slots[k].hash != 0 implies m.seen(
        table,
        entries,
        n + 1,
        fingerprint_at(slots[k]),
    ) by {
        let fp = fingerprint_at(slots[k]);
        assert(m.seen(table, entries, n, fp));
        let i = choose|i: int|
            0 <= i < n && m.takes(table, #[trigger] entries[i]) && fingerprint_in(entries[i])
                == fp;
        assert(0 <= i < n + 1 && m.takes(table, entries[i]));
    }
}

proof fn lemma_exactly_back_start(
    m: IndexModel,
    table: Seq<IdentityModel>,
    entries: Seq<PersistedEntry>,
    now: u64,
)
    requires
        m.wf(),
        m.ttl == u64::MAX,
        m.blocks > 0,
    ensures
        m.exactly_back(table, entries, 0, now),
{
    let r = m.given_back(table, entries, 0, now);
    assert(r == m.emptied());
    assert forall|s: int, j: int|
        #![trigger r.shards[s].filter.generations[0].blocks[j]]
        0 <= s < r.shards.len() && 0 <= j < r.shards[s].filter.width implies m.from_facts(
        table,
        entries,
        0,
        r.shards[s].filter.generations[0].blocks[j],
    ) by {
        assert(m.shards[s].filter.wf());
        assert(r.shards[s].filter.generations[0].blocks[j] == free_block());
    }
    assert forall|fp: ArticleFingerprint| #![trigger r.block_of(fp)] fp.hash != 0 implies bit_set(
        slots_missing(r.block_of(fp), fp.hash, fp.tag),
    ) == slots_restored(m.providers, table, entries, 0, fp) by {
        lemma_hash_at_home(m, fp.hash);
        assert(m.shards[m.shard_of(fp.hash)].filter.wf());
        assert(r.block_of(fp) == free_block());
        lemma_free_block_misses_nothing(fp.hash, fp.tag);
        lemma_empty();
        assert(slots_restored(m.providers, table, entries, 0, fp) =~= Set::<nat>::empty());
    }
}

/// A stored fact that is not taken back changes nothing.
proof fn lemma_untaken_step(
    m: IndexModel,
    table: Seq<IdentityModel>,
    entries: Seq<PersistedEntry>,
    n: nat,
    now: u64,
)
    requires
        m.wf(),
        m.ttl == u64::MAX,
        m.blocks > 0,
        0 < n <= entries.len(),
        !m.takes(table, entries[n - 1]),
        m.exactly_back(table, entries, (n - 1) as nat, now),
    ensures
        m.exactly_back(table, entries, n, now),
{
    let k = (n - 1) as nat;
    let before = m.given_back(table, entries, k, now);
    let after = m.given_back(table, entries, n, now);
    lemma_restored_alone(m, table, entries, k, now);
    let e = translated_entry(m.providers, table, entries[n - 1]);
    lemma_hash_at_home(m, e.hash);
    let s = m.shard_of(e.hash);
    assert(before.shard_of(e.hash) == s);
    assert(!before.shards[s].filter.accepts(e, now, m.ttl));
    assert(after.shards =~= before.shards);
    assert forall|q: int, j: int|
        #![trigger after.shards[q].filter.generations[0].blocks[j]]
        0 <= q < after.shards.len() && 0 <= j < after.shards[q].filter.width implies m.from_facts(
        table,
        entries,
        n,
        after.shards[q].filter.generations[0].blocks[j],
    ) by {
        lemma_from_facts_step(
            m,
            table,
            entries,
            k,
            before.shards[q].filter.generations[0].blocks[j],
        );
    }
    assert forall|fp: ArticleFingerprint| #![trigger after.block_of(fp)]
        fp.hash != 0 implies bit_set(slots_missing(after.block_of(fp), fp.hash, fp.tag))
        == slots_restored(m.providers, table, entries, n, fp) by {
        assert(before.block_of(fp) == after.block_of(fp));
        lemma_slots_restored_step(m.providers, table, entries, n, fp);
        if fingerprint_in(entries[n - 1]) == fp {
            lemma_empty();
            let old = slots_restored(m.providers, table, entries, k, fp);
            assert(old.union(Set::<nat>::empty()) =~= old);
        }
    }
}

/// What the blocks are after a stored fact was taken back.
proof fn lemma_taken_blocks(
    m: IndexModel,
    table: Seq<IdentityModel>,
    entries: Seq<PersistedEntry>,
    n: nat,
    now: u64,
)
    requires
        m.wf(),
        m.ttl == u64::MAX,
        m.blocks > 0,
        m.countable(table, entries, now),
        0 < n <= entries.len(),
        m.uncrowded(table, entries),
        m.takes(table, entries[n - 1]),
        m.exactly_back(table, entries, (n - 1) as nat, now),
    ensures
        ({
            let before = m.given_back(table, entries, (n - 1) as nat, now);
            let after = m.given_back(table, entries, n, now);
            let fp = fingerprint_in(entries[n - 1]);
            let bits = translated(m.providers, table, entries[n - 1].missing, table.len());
            let old = before.block_of(fp);
            let (new, outcome) = block_insert(old, fp, bits, victim_of(fp.hash));
            let s = m.shard_of(fp.hash);
            let b = m.local_of(fp.hash);
            &&& outcome != InsertOutcome::Replaced
            &&& old.len() == BLOCK_SLOTS
            &&& 0 <= s < after.shards.len()
            &&& after.shards.len() == before.shards.len()
            &&& after.shards.len() == m.shards.len()
            &&& after.blocks == m.blocks && before.blocks == m.blocks
            &&& 0 <= b < after.shards[s].filter.width
            &&& after.shards[s].filter.width == before.shards[s].filter.width
            &&& after.shards[s].filter.width == m.shards[s].filter.width
            &&& before.shards[s].filter.generations[0].blocks.len()
                == before.shards[s].filter.width
            &&& after.shards[s].filter.generations[0].blocks
                == before.shards[s].filter.generations[0].blocks.update(b, new)
            &&& forall|q: int| #![trigger after.shards[q]]
                0 <= q < after.shards.len() && q != s ==> after.shards[q] == before.shards[q]
            &&& no_losses(after.shards)
            &&& m.from_facts(table, entries, (n - 1) as nat, old)
        }),
{
    let k = (n - 1) as nat;
    let before = m.given_back(table, entries, k, now);
    let after = m.given_back(table, entries, n, now);
    lemma_restored_alone(m, table, entries, k, now);
    lemma_restored_alone(m, table, entries, n, now);
    let e = translated_entry(m.providers, table, entries[n - 1]);
    lemma_hash_at_home(m, e.hash);
    let s = m.shard_of(e.hash);
    let b = m.local_of(e.hash);
    assert(before.shard_of(e.hash) == s && before.local_of(e.hash) == b);
    let f = before.shards[s].filter;
    let old = f.generations[0].blocks[b];
    assert(f.generations[0].blocks.len() == f.width);
    assert(old.len() == BLOCK_SLOTS);
    assert(m.from_facts(table, entries, k, old));
    assert forall|q: int| #![trigger old[q]]
        0 <= q < BLOCK_SLOTS && old[q].hash != 0 implies at_home(
        old[q].hash,
        m.blocks,
        m.shards.len(),
        s,
        b,
    ) by {
        assert(f.generations[0].blocks[b][q] == old[q]);
    }
    lemma_room_for_fact(m, table, entries, n - 1, old, s, b, e.missing);
    assert(f.accepts(e, now, m.ttl));
    lemma_restored_gains(f, e, b, now, m.ttl, m.blocks, m.shards.len(), s);
    assert(after.shards == before.shards.update(s, before.shards[s].restored(e, b, now, m.ttl)));
    assert forall|q: int| 0 <= q < after.shards.len() implies (#[trigger] after.shards[q]).evictions
        == 0 by {
        assert(before.shards[q].evictions == 0);
    }
}

/// A stored fact that is taken back adds its bits under its fingerprint.
proof fn lemma_taken_step(
    m: IndexModel,
    table: Seq<IdentityModel>,
    entries: Seq<PersistedEntry>,
    n: nat,
    now: u64,
)
    requires
        m.wf(),
        m.ttl == u64::MAX,
        m.blocks > 0,
        m.countable(table, entries, now),
        0 < n <= entries.len(),
        m.uncrowded(table, entries),
        m.takes(table, entries[n - 1]),
        m.exactly_back(table, entries, (n - 1) as nat, now),
    ensures
        m.exactly_back(table, entries, n, now),
{
    let k = (n - 1) as nat;
    let before = m.given_back(table, entries, k, now);
    let after = m.given_back(table, entries, n, now);
    lemma_taken_blocks(m, table, entries, n, now);
    let fp = fingerprint_in(entries[n - 1]);
    let bits = translated(m.providers, table, entries[n - 1].missing, table.len());
    let old = before.block_of(fp);
    let new = block_insert(old, fp, bits, victim_of(fp.hash)).0;
    let s = m.shard_of(fp.hash);
    let b = m.local_of(fp.hash);
    lemma_block_holds(old, fp, bits, victim_of(fp.hash));
    lemma_from_facts_step(m, table, entries, k, old);
    assert(m.from_facts(table, entries, n, new)) by {
        assert forall|q: int| #![trigger new[q]] 0 <= q < new.len() && new[q].hash
            != 0 implies m.seen(table, entries, n, fingerprint_at(new[q])) by {
            if fingerprint_at(new[q]) == fp {
                assert(m.takes(table, entries[n - 1]));
            } else {
                assert(fingerprint_at(new[q]) == fingerprint_at(old[q]));
            }
        }
    }
    assert forall|q: int, j: int|
        #![trigger after.shards[q].filter.generations[0].blocks[j]]
        0 <= q < after.shards.len() && 0 <= j < after.shards[q].filter.width implies m.from_facts(
        table,
        entries,
        n,
        after.shards[q].filter.generations[0].blocks[j],
    ) by {
        if q == s && j == b {
            assert(after.shards[q].filter.generations[0].blocks[j] == new);
        } else {
            let same = before.shards[q].filter.generations[0].blocks[j];
            assert(after.shards[q].filter.generations[0].blocks[j] == same);
            lemma_from_facts_step(m, table, entries, k, same);
        }
    }
    assert forall|o: ArticleFingerprint| #![trigger after.block_of(o)]
        o.hash != 0 implies bit_set(slots_missing(after.block_of(o), o.hash, o.tag))
        == slots_restored(m.providers, table, entries, n, o) by {
        lemma_hash_at_home(m, o.hash);
        let p = m.shard_of(o.hash);
        let j = m.local_of(o.hash);
        assert(after.shard_of(o.hash) == p && before.shard_of(o.hash) == p);
        assert(after.local_of(o.hash) == j && before.local_of(o.hash) == j);
        assert(bit_set(slots_missing(before.block_of(o), o.hash, o.tag)) == slots_restored(
            m.providers,
            table,
            entries,
            k,
            o,
        ));
        lemma_slots_restored_step(m.providers, table, entries, n, o);
        if p == s && j == b {
            assert(after.block_of(o) == new && before.block_of(o) == old);
            if o == fp {
                lemma_block_gains(old, fp, bits, victim_of(fp.hash));
                lemma_or(slots_missing(old, o.hash, o.tag), bits);
            } else {
                lemma_block_insert_other(old, fp, bits, victim_of(fp.hash), o);
            }
        } else {
            assert(after.block_of(o) == before.block_of(o));
        }
    }
}

proof fn lemma_exactly_back(
    m: IndexModel,
    table: Seq<IdentityModel>,
    entries: Seq<PersistedEntry>,
    n: nat,
    now: u64,
)
    requires
        m.wf(),
        m.ttl == u64::MAX,
        m.blocks > 0,
        m.countable(table, entries, now),
        n <= entries.len(),
        m.uncrowded(table, entries),
    ensures
        m.exactly_back(table, entries, n, now),
    decreases n,
{
    if n == 0 {
        lemma_exactly_back_start(m, table, entries, now);
    } else {
        lemma_exactly_back(m, table, entries, (n - 1) as nat, now);
        if m.takes(table, entries[n - 1]) {
            lemma_taken_step(m, table, entries, n, now);
        } else {
            lemma_untaken_step(m, table, entries, n, now);
        }
    }
}

/// After a snapshot took the place of what an index held, the index knows what
/// the snapshot says and nothing else. For every fingerprint a lookup gives
/// exactly the providers that the stored facts name, each in the slot of the
/// first provider here that has its name; a provider whose name is not here is
/// dropped, and a fact that is left with none is not taken back. That holds where
/// facts never age, the index has room for a block, and no two facts compete for
/// a slot; none is lost then. A fact of moment zero is left out at the last
/// moment that a clock can show.
pub proof fn law_snapshot_is_given_back(
    m: IndexModel,
    table: Seq<IdentityModel>,
    entries: Seq<PersistedEntry>,
    fp: ArticleFingerprint,
    now: u64,
    then: u64,
)
    requires
        m.wf(),
        m.ttl == u64::MAX,
        m.blocks > 0,
        m.countable(table, entries, now),
        m.uncrowded(table, entries),
        fp.hash != 0,
    ensures
        ({
            let r = m.with_snapshot(table, entries, now);
            &&& bit_set(r.bits_at(fp, then)) == slots_restored(
                m.providers,
                table,
                entries,
                entries.len(),
                fp,
            )
            &&& r.bits_at(fp, then) != 0 ==> r.populated
            &&& no_losses(r.shards)
        }),
        forall|e: PersistedEntry, t: u64|
            #![trigger m.restored(translated_entry(m.providers, table, e), t)]
            translated(m.providers, table, e.missing, table.len()) == 0 ==> m.restored(
                translated_entry(m.providers, table, e),
                t,
            ) == m,
{
    let n = entries.len();
    let r = m.given_back(table, entries, n, now);
    let end = m.with_snapshot(table, entries, now);
    lemma_exactly_back(m, table, entries, n, now);
    lemma_restored_alone(m, table, entries, n, now);
    lemma_hash_at_home(m, fp.hash);
    let s = m.shard_of(fp.hash);
    let b = m.local_of(fp.hash);
    assert(r.shard_of(fp.hash) == s && r.local_of(fp.hash) == b);
    assert(end.shard_of(fp.hash) == s && end.local_of(fp.hash) == b);
    assert(end.shards[s] == r.shards[s].settled());
    let f = r.shards[s].filter;
    let g = end.shards[s].filter;
    lemma_alone_reanchored(f, m.blocks, m.shards.len(), s);
    assert(alone(g, m.blocks, m.shards.len(), s));
    lemma_alone_is_not_rotated(g, m.blocks, m.shards.len(), s, then);
    lemma_alone_bits(g, fp, b, m.blocks, m.shards.len(), s);
    assert(g.generations == f.generations);
    assert(r.block_of(fp) == g.generations[0].blocks[b]);
    lemma_shard_counts(end.shards, s);
    assert(no_losses(end.shards)) by {
        assert forall|q: int| 0 <= q < end.shards.len() implies (#[trigger] end.shards[q]).evictions
            == 0 by {
            assert(end.shards[q] == r.shards[q].settled());
            assert(r.shards[q].evictions == 0);
        }
    }
    assert forall|e: PersistedEntry, t: u64|
        #![trigger m.restored(translated_entry(m.providers, table, e), t)]
        translated(m.providers, table, e.missing, table.len()) == 0 implies m.restored(
        translated_entry(m.providers, table, e),
        t,
    ) == m by {
        let x = translated_entry(m.providers, table, e);
        lemma_hash_at_home(m, x.hash);
        assert(m.restored(x, t).shards =~= m.shards);
    }
}

// ---------------------------------------------------------------------------
// From one index to another
// ---------------------------------------------------------------------------

/// A stored fact of some slots is in one of them.
proof fn lemma_slot_of_entry(slots: Seq<SlotModel>, started: u64, e: PersistedEntry) -> (k: int)
    requires
        slot_entries(slots, started).contains(e),
    ensures
        0 <= k < slots.len(),
        slots[k].hash != 0,
        fingerprint_at(slots[k]) == fingerprint_in(e),
        slots[k].missing == e.missing,
    decreases slots.len(),
{
    let all = slot_entries(slots, started);
    let i = choose|i: int| 0 <= i < all.len() && all[i] == e;
    let before = slot_entries(slots.drop_last(), started);
    if i < before.len() {
        assert(before[i] == e);
        assert(before.contains(e));
        lemma_slot_of_entry(slots.drop_last(), started, e)
    } else {
        slots.len() - 1
    }
}

/// A stored fact of some blocks is in a slot of one of them.
proof fn lemma_block_of_entry(
    blocks: Seq<Seq<SlotModel>>,
    started: u64,
    e: PersistedEntry,
) -> (r: (int, int))
    requires
        block_entries(blocks, started).contains(e),
    ensures
        0 <= r.0 < blocks.len(),
        0 <= r.1 < blocks[r.0].len(),
        blocks[r.0][r.1].hash != 0,
        fingerprint_at(blocks[r.0][r.1]) == fingerprint_in(e),
        blocks[r.0][r.1].missing == e.missing,
    decreases blocks.len(),
{
    let all = block_entries(blocks, started);
    let i = choose|i: int| 0 <= i < all.len() && all[i] == e;
    let before = block_entries(blocks.drop_last(), started);
    let last = slot_entries(blocks.last(), started);
    if i < before.len() {
        assert(before[i] == e);
        assert(before.contains(e));
        lemma_block_of_entry(blocks.drop_last(), started, e)
    } else {
        assert(last[i - before.len()] == e);
        assert(last.contains(e));
        let k = lemma_slot_of_entry(blocks.last(), started, e);
        (blocks.len() - 1, k)
    }
}

/// A stored fact of all shards is one of a shard.
proof fn lemma_shard_of_entry(shards: Seq<ShardModel>, e: PersistedEntry) -> (s: int)
    requires
        all_entries(shards).contains(e),
    ensures
        0 <= s < shards.len(),
        shards[s].filter.entries_in(shards[s].filter.live).contains(e),
    decreases shards.len(),
{
    let all = all_entries(shards);
    let i = choose|i: int| 0 <= i < all.len() && all[i] == e;
    let before = all_entries(shards.drop_last());
    let f = shards.last().filter;
    let last = f.entries_in(f.live);
    if i < before.len() {
        assert(before[i] == e);
        assert(before.contains(e));
        lemma_shard_of_entry(shards.drop_last(), e)
    } else {
        assert(last[i - before.len()] == e);
        assert(last.contains(e));
        shards.len() - 1
    }
}

/// A stored fact of an index whose facts never age is in the block that its hash
/// belongs to.
proof fn lemma_entry_at_home(m: IndexModel, e: PersistedEntry) -> (k: int)
    requires
        m.wf(),
        m.lasting(),
        all_entries(m.shards).contains(e),
    ensures
        ({
            let block = m.block_of(fingerprint_in(e));
            &&& m.blocks > 0
            &&& block.len() == BLOCK_SLOTS
            &&& 0 <= k < BLOCK_SLOTS
            &&& e.hash != 0
            &&& fingerprint_at(block[k]) == fingerprint_in(e)
            &&& block[k].missing == e.missing
        }),
{
    let s = lemma_shard_of_entry(m.shards, e);
    let f = m.shards[s].filter;
    lemma_alone_is_not_rotated(f, m.blocks, m.shards.len(), s, 0);
    assert(f.entries_in(0) =~= Seq::<PersistedEntry>::empty());
    assert(f.live == 1);
    let g = f.generations[0];
    assert(f.entries_in(1) == f.entries_in(0) + block_entries(g.blocks, g.started_at));
    assert(f.entries_in(1) =~= block_entries(g.blocks, g.started_at));
    let (j, k) = lemma_block_of_entry(g.blocks, g.started_at, e);
    assert(g.blocks.len() == f.width);
    assert(f.generations[0].blocks[j].len() == BLOCK_SLOTS);
    assert(at_home(f.generations[0].blocks[j][k].hash, m.blocks, m.shards.len(), s, j));
    if m.blocks == 0 {
        lemma_no_blocks(m, s);
    }
    k
}

/// The facts of an index whose facts never age fit into another one with the
/// same blocks.
proof fn lemma_saved_are_uncrowded(
    a: IndexModel,
    b: IndexModel,
    table: Seq<IdentityModel>,
    entries: Seq<PersistedEntry>,
)
    requires
        a.wf(),
        a.lasting(),
        a.blocks == b.blocks,
        forall|i: int| #![trigger entries[i]]
            0 <= i < entries.len() ==> all_entries(a.shards).contains(entries[i]),
    ensures
        b.uncrowded(table, entries),
{
    assert forall|i: int, j: int, k: int|
        #![trigger entries[i], entries[j], entries[k]]
        0 <= i < entries.len() && 0 <= j < entries.len() && 0 <= k < entries.len() && bucket_of(
            entries[i].hash,
            b.blocks,
        ) == bucket_of(entries[j].hash, b.blocks) && bucket_of(entries[j].hash, b.blocks)
            == bucket_of(entries[k].hash, b.blocks) implies fingerprint_in(entries[i])
        == fingerprint_in(entries[j]) || fingerprint_in(entries[j]) == fingerprint_in(entries[k])
        || fingerprint_in(entries[i]) == fingerprint_in(entries[k]) by {
        let x = lemma_entry_at_home(a, entries[i]);
        let y = lemma_entry_at_home(a, entries[j]);
        let z = lemma_entry_at_home(a, entries[k]);
        assert(x == y || y == z || x == z);
    }
}

/// What an index whose facts never age has for a fingerprint is what its stored
/// facts say of it.
proof fn lemma_known_is_told(m: IndexModel, fp: ArticleFingerprint, i: nat)
    requires
        m.wf(),
        m.lasting(),
        m.blocks > 0,
        fp.hash != 0,
        i < usize::BITS,
    ensures
        bit(slots_missing(m.block_of(fp), fp.hash, fp.tag), i) <==> told(
            all_entries(m.shards),
            fp,
            i,
        ),
{
    let entries = all_entries(m.shards);
    let there = slots_missing(m.block_of(fp), fp.hash, fp.tag);
    lemma_hash_at_home(m, fp.hash);
    let s = m.shard_of(fp.hash);
    let b = m.local_of(fp.hash);
    let f = m.shards[s].filter;
    lemma_alone_bits(f, fp, b, m.blocks, m.shards.len(), s);
    if bit(there, i) {
        lemma_filter_told(f, b, f.live, fp, i);
        lemma_shards_told(m.shards, s, fp, i);
    }
    if told(entries, fp, i) {
        let q = choose|q: int| 0 <= q < entries.len() && tells(#[trigger] entries[q], fp, i);
        let e = entries[q];
        assert(entries.contains(e));
        let k = lemma_entry_at_home(m, e);
        let x = e.missing;
        assert(x & x == x) by (bit_vector);
        lemma_slots_hold(m.block_of(fp), k, fp.hash, fp.tag, x);
        let j = i as usize;
        assert(there & (1usize << j) != 0) by (bit_vector)
            requires
                there & x == x,
                x & (1usize << j) != 0,
        ;
    }
}

/// Through a table of the providers' own names, a fact keeps its bits.
proof fn lemma_carried_to_itself(providers: Seq<IdentityModel>, bits: usize, i: nat)
    requires
        stored_identities(providers).no_duplicates(),
        providers.len() <= max_backends(),
    ensures
        slots_carried(providers, stored_identities(providers), bits, providers.len()).contains(i)
            <==> i < providers.len() && bit(bits, i),
{
    let names = stored_identities(providers);
    if slots_carried(providers, names, bits, providers.len()).contains(i) {
        let p = choose|p: nat|
            p < providers.len() && #[trigger] bit(bits, p) && host_position(
                providers,
                names[p as int],
            ) == i;
        lemma_host_position(providers, names[p as int]);
        assert(names[i as int] == names[p as int]);
    }
    if i < providers.len() && bit(bits, i) {
        let p = host_position(providers, names[i as int]);
        lemma_host_position(providers, names[i as int]);
        assert(providers[i as int].namespace == names[i as int].namespace);
        assert(names[p] == names[i as int]);
        assert(p == i);
    }
}

/// What the stored facts of an index say of a fingerprint, in the order that
/// they are read in, is what the index has for it.
proof fn lemma_restored_is_known(
    m: IndexModel,
    sorted: Seq<PersistedEntry>,
    fp: ArticleFingerprint,
)
    requires
        m.wf(),
        m.lasting(),
        m.blocks > 0,
        fp.hash != 0,
        snapshot_valid(m.snapshot()),
        by_age(m.snapshot().entries, sorted),
    ensures
        slots_restored(
            m.providers,
            stored_identities(m.providers),
            sorted,
            sorted.len(),
            fp,
        ) == bit_set(slots_missing(m.block_of(fp), fp.hash, fp.tag)),
{
    let entries = m.snapshot().entries;
    let ids = m.providers;
    let names = stored_identities(ids);
    let there = slots_missing(m.block_of(fp), fp.hash, fp.tag);
    let back = slots_restored(ids, names, sorted, sorted.len(), fp);
    assert forall|i: nat| back.contains(i) == bit_set(there).contains(i) by {
        if back.contains(i) {
            let k = choose|k: int|
                0 <= k < sorted.len() && fingerprint_in(#[trigger] sorted[k]) == fp
                    && slots_carried(ids, names, sorted[k].missing, names.len()).contains(i);
            let e = sorted[k];
            lemma_carried_to_itself(ids, e.missing, i);
            assert(sorted.contains(e));
            lemma_by_age_same(entries, sorted, e);
            let q = choose|q: int| 0 <= q < entries.len() && entries[q] == e;
            assert(tells(entries[q], fp, i));
            lemma_known_is_told(m, fp, i);
        }
        if bit_set(there).contains(i) {
            lemma_known_is_told(m, fp, i);
            let q = choose|q: int| 0 <= q < entries.len() && tells(#[trigger] entries[q], fp, i);
            let e = entries[q];
            assert(e.missing <= crate::bits::low_mask(ids.len()));
            if i >= ids.len() {
                lemma_above_low_mask(e.missing, ids.len(), i);
            }
            lemma_carried_to_itself(ids, e.missing, i);
            assert(entries.contains(e));
            lemma_by_age_same(entries, sorted, e);
            let k = choose|k: int| 0 <= k < sorted.len() && sorted[k] == e;
            assert(fingerprint_in(sorted[k]) == fp);
        }
    }
    assert(back =~= bit_set(there));
}

/// An index without blocks answers nothing after a snapshot was read into it.
proof fn lemma_no_room_after_snapshot(
    m: IndexModel,
    table: Seq<IdentityModel>,
    entries: Seq<PersistedEntry>,
    key: Seq<u8>,
    now: u64,
    then: u64,
)
    requires
        m.wf(),
        m.ttl == u64::MAX,
        m.blocks == 0,
    ensures
        m.with_snapshot(table, entries, now).answer(key, then) == 0,
{
    let r = m.given_back(table, entries, entries.len(), now);
    let end = m.with_snapshot(table, entries, now);
    lemma_restored_alone(m, table, entries, entries.len(), now);
    let s = end.shard_of(fingerprint_of(key).hash);
    vstd::arithmetic::div_mod::lemma_mod_bound(
        bucket_of(fingerprint_of(key).hash, end.blocks) as int,
        end.shards.len() as int,
    );
    assert(end.shards[s] == r.shards[s].settled());
    lemma_no_blocks(m, s);
}

/// An index that was saved and read into another one gives the same answers
/// there as here, for every article. The facts of both never age, and both have
/// the same capacity, number of generations and providers, though they may be
/// cut into different numbers of shards. A snapshot stores the providers by
/// their names, so these have to be distinct, and no fact may have a bit beyond
/// the providers; [`law_saved_is_readable`] says that nothing else is read back.
/// A fact of moment zero is left out at the last moment that a clock can show.
///
/// [`law_saved_is_readable`]: crate::cache::availability_snapshot::law_saved_is_readable
pub proof fn law_saved_answers_are_loaded(
    saved: IndexModel,
    other: IndexModel,
    sorted: Seq<PersistedEntry>,
    key: Seq<u8>,
    now: u64,
    here: u64,
    there: u64,
)
    requires
        saved.wf(),
        saved.lasting(),
        other.wf(),
        other.ttl == u64::MAX,
        saved.capacity_bytes == other.capacity_bytes,
        saved.generation_count() == other.generation_count(),
        saved.providers == other.providers,
        snapshot_valid(saved.snapshot()),
        by_age(saved.snapshot().entries, sorted),
        forall|i: int| #![trigger saved.snapshot().entries[i]]
            0 <= i < saved.snapshot().entries.len() ==> elapsed(
                now,
                saved.snapshot().entries[i].inserted_at,
            ) < u64::MAX,
    ensures
        parse_snapshot_spec(snapshot_bytes(saved.snapshot())) == Ok::<
            Option<SnapshotModel>,
            SnapshotError,
        >(
            Some(
                SnapshotModel {
                    identities: stored_identities(saved.providers),
                    entries: saved.snapshot().entries,
                },
            ),
        ),
        other.with_snapshot(stored_identities(saved.providers), sorted, now).answer(key, there)
            == saved.answer(key, here),
{
    crate::cache::availability_snapshot::law_snapshot_round_trip(saved.snapshot());
    let fp = fingerprint_of(key);
    let table = stored_identities(saved.providers);
    let r = other.with_snapshot(table, sorted, now);
    if saved.blocks == 0 {
        crate::cache::availability_index::law_no_room_no_facts(saved, key, here);
        lemma_no_room_after_snapshot(other, table, sorted, key, now, there);
    } else {
        let entries = saved.snapshot().entries;
        assert forall|i: int| #![trigger sorted[i]] 0 <= i < sorted.len() implies all_entries(
            saved.shards,
        ).contains(sorted[i]) by {
            assert(sorted.contains(sorted[i]));
            lemma_by_age_same(entries, sorted, sorted[i]);
        }
        assert forall|i: int| #![trigger sorted[i]] 0 <= i < sorted.len() implies elapsed(
            now,
            sorted[i].inserted_at,
        ) < u64::MAX by {
            assert(entries.contains(sorted[i]));
            let q = choose|q: int| 0 <= q < entries.len() && entries[q] == sorted[i];
            assert(elapsed(now, saved.snapshot().entries[q].inserted_at) < u64::MAX);
        }
        lemma_saved_are_uncrowded(saved, other, table, sorted);
        law_snapshot_is_given_back(other, table, sorted, fp, now, there);
        lemma_restored_is_known(saved, sorted, fp);
        lemma_hash_at_home(saved, fp.hash);
        let s = saved.shard_of(fp.hash);
        let b = saved.local_of(fp.hash);
        let f = saved.shards[s].filter;
        lemma_alone_is_not_rotated(f, saved.blocks, saved.shards.len(), s, here);
        lemma_alone_bits(f, fp, b, saved.blocks, saved.shards.len(), s);
        lemma_same_bits(r.bits_at(fp, there), saved.bits_at(fp, here));
        lemma_shard_counts(saved.shards, s);
    }
}

/// The ring with the bits in its current generation knows them besides what it
/// knew.
proof fn lemma_bits_gain(
    r: FilterModel,
    g: FilterModel,
    fp: ArticleFingerprint,
    bucket: int,
    bits: usize,
    k: nat,
)
    requires
        r.wf(),
        1 <= k <= r.generations.len(),
        r.generations.len() == g.generations.len(),
        r.current == g.current,
        forall|i: int| #![trigger r.generations[i]]
            0 <= i < r.generations.len() && i != r.current ==> r.generations[i].blocks
                == g.generations[i].blocks,
        slots_missing(g.generations[g.current].blocks[bucket], fp.hash, fp.tag) == slots_missing(
            r.generations[r.current].blocks[bucket],
            fp.hash,
            fp.tag,
        ) | bits,
    ensures
        g.bits_in(fp, bucket, k) == r.bits_in(fp, bucket, k) | bits,
    decreases k,
{
    let n = r.generations.len() as int;
    r.lemma_back_range(k - 1);
    if k == 1 {
        reveal_with_fuel(FilterModel::bits_in, 2);
        let x = slots_missing(r.generations[r.current].blocks[bucket], fp.hash, fp.tag);
        assert(0usize | (x | bits) == (0usize | x) | bits) by (bit_vector);
    } else {
        lemma_bits_gain(r, g, fp, bucket, bits, (k - 1) as nat);
        let i = r.back(k - 1);
        let c = r.current;
        assert(i != c) by (nonlinear_arith)
            requires
                i == (c + n - (k - 1)) % n,
                0 <= c < n,
                0 < k - 1 < n,
        ;
        assert(r.generations[i].blocks == g.generations[i].blocks);
        let a = r.bits_in(fp, bucket, (k - 1) as nat);
        let x = slots_missing(r.generations[i].blocks[bucket], fp.hash, fp.tag);
        assert((a | bits) | x == (a | x) | bits) by (bit_vector);
    }
}

/// Recording a fact adds its bits to what was known of the article and nothing
/// else, unless a full block had to give up a slot for it.
pub proof fn law_recording_adds_the_fact(m: IndexModel, key: Seq<u8>, bits: usize, now: u64)
    requires
        m.wf(),
        m.blocks > 0,
        m.ttl > 0,
        key.len() > 0,
        bits != 0,
        now < u64::MAX,
        ({
            let fp = fingerprint_of(key);
            let f = m.shards[m.shard_of(fp.hash)].filter;
            f.rotated(now).started(now).outcome_at(
                f.rotated(now).current,
                fp,
                m.local_of(fp.hash),
                bits,
            ) != InsertOutcome::Replaced
        }),
    ensures
        m.recorded(key, bits, now).answer(key, now) == m.bits_at(fingerprint_of(key), now) | bits,
        m.populated ==> m.recorded(key, bits, now).answer(key, now) == m.answer(key, now) | bits,
{
    let fp = fingerprint_of(key);
    lemma_hash_place(m, fp.hash);
    let s = m.shard_of(fp.hash);
    let b = m.local_of(fp.hash);
    let f = m.shards[s].filter;
    vstd::arithmetic::div_mod::lemma_div_pos_is_pos(m.ttl as int, f.generations.len() as int);
    let r = f.rotated(now);
    f.lemma_rotated_wf(now);
    crate::cache::filter::lemma_rotated_fields(f, now);
    let t = r.started(now);
    let g = f.recorded(fp, bits, b, now);
    crate::cache::filter::law_recorded_fact_is_found(f, fp, bits, b, now);
    assert(m.recorded(key, bits, now).shards[s].filter == g);
    let slots = r.generations[r.current].blocks[b];
    assert(r.generations[r.current].blocks.len() == r.width);
    assert(slots.len() == BLOCK_SLOTS);
    assert(t.generations[t.current].blocks == r.generations[r.current].blocks);
    lemma_block_gains(slots, fp, bits, victim_of(fp.hash));
    assert(g.generations[g.current].blocks[b] == block_insert(
        slots,
        fp,
        bits,
        victim_of(fp.hash),
    ).0);
    if r.live == 0 {
        lemma_bits_gain(r, g, fp, b, bits, 1);
        r.lemma_back_range(0);
        assert(r.generations[r.current] == free_generation(r.width));
        assert(g.live == 1);
        lemma_free_block_misses_nothing(fp.hash, fp.tag);
        reveal_with_fuel(FilterModel::bits_in, 2);
        assert(0usize | 0usize == 0usize) by (bit_vector);
    } else {
        assert(g.live == r.live);
        lemma_bits_gain(r, g, fp, b, bits, r.live);
    }
}

} // verus!
