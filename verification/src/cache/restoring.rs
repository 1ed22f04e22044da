//! What an index knows after a stored one was read into it.
use crate::bits::{bit, bit_set, lemma_empty, lemma_or};
use crate::cache::availability_identity::{
    host_position, lemma_host_position, stored_identities, stored_identity, IdentityModel,
};
use crate::cache::availability_index::{
    all_entries, bucket_of, by_age, law_facts_follow_their_providers, lemma_hash_place,
    observed_at, slots_carried, total_used, translated_entry, IndexModel, ShardModel,
};
use crate::cache::availability_snapshot::{
    law_snapshot_round_trip, parse_snapshot_spec, snapshot_bytes, snapshot_valid,
    SnapshotError, SnapshotModel,
};
use crate::cache::filter::{
    block_entries, block_insert, blocks_used, elapsed, first_holding, free_block, free_generation,
    latest_started, lemma_block_insert_found, lemma_block_insert_other,
    lemma_first_holding, lemma_free_block_misses_nothing, lemma_insert_used, lemma_or_keeps, lemma_turned_fields, slot_entries, slots_missing, slots_used,
    victim_of, ArticleFingerprint, FilterModel, GenerationModel, InsertOutcome, PersistedEntry,
    SlotModel, BLOCK_SLOTS,
};
use vstd::prelude::*;

verus! {

/// The fingerprint that a stored fact is about.
pub open spec fn fingerprint_in(e: PersistedEntry) -> ArticleFingerprint {
    ArticleFingerprint { hash: e.hash, tag: e.tag }
}

impl FilterModel {
    /// A moment that the ring still reaches back to.
    pub open spec fn reaches(self, then: u64, now: u64) -> bool {
        self.interval == u64::MAX || (self.interval > 0 && (elapsed(now, then) / self.interval)
            < self.generations.len())
    }

    /// Every generation that has started is where the age of its start puts it,
    /// and every other one is free.
    pub open spec fn in_place(self, now: u64) -> bool {
        &&& self.wf()
        &&& self.current == 0
        &&& self.width > 0
        &&& self.interval > 0
        &&& forall|k: int| #![trigger self.generations[self.back(k)]]
            0 <= k < self.generations.len() ==> {
                let g = self.generations[self.back(k)];
                if g.started_at == 0 {
                    g == free_generation(self.width)
                } else {
                    &&& self.reaches(g.started_at, now)
                    &&& self.age_in_turns(now, g.started_at) == k
                    &&& k < self.live
                }
            }
    }

    /// The fact is in the generation that its age puts it into, and that
    /// generation counts.
    pub open spec fn has_fact(self, e: PersistedEntry, bucket: int, now: u64) -> bool {
        let k = self.age_in_turns(now, e.inserted_at);
        &&& k < self.live
        &&& slots_missing(
            self.generations[self.back(k as int)].blocks[bucket],
            e.hash,
            e.tag,
        ) & e.missing == e.missing
    }

    /// Where the generations of a ring that starts at zero are.
    proof fn lemma_back_at_zero(self, k: int)
        requires
            self.generations.len() > 0,
            self.current == 0,
            0 <= k < self.generations.len(),
        ensures
            self.back(k) == (if k == 0 {
                0
            } else {
                self.generations.len() - k
            }),
    {
        let n = self.generations.len() as int;
        if k == 0 {
            vstd::arithmetic::div_mod::lemma_mod_self_0(n);
        } else {
            vstd::arithmetic::div_mod::lemma_small_mod((n - k) as nat, n as nat);
        }
    }
}

/// A block keeps what it has of a fingerprint when more bits come in for it.
proof fn lemma_slots_grow(slots: Seq<SlotModel>, i: int, bits: usize, hash: u64, tag: u16, x: usize)
    requires
        0 <= i < slots.len(),
        slots_missing(slots, hash, tag) & x == x,
    ensures
        slots_missing(
            slots.update(i, SlotModel { missing: slots[i].missing | bits, ..slots[i] }),
            hash,
            tag,
        ) & x == x,
    decreases slots.len(),
{
    let s = SlotModel { missing: slots[i].missing | bits, ..slots[i] };
    let t = slots.update(i, s);
    let head = slots_missing(slots.drop_last(), hash, tag);
    let tail = if slots.last().holds(hash, tag) {
        slots.last().missing
    } else {
        0
    };
    let new_head = slots_missing(t.drop_last(), hash, tag);
    let new_tail = if t.last().holds(hash, tag) {
        t.last().missing
    } else {
        0
    };
    if i == slots.len() - 1 {
        assert(t.drop_last() =~= slots.drop_last());
        assert((head | (tail | bits)) & x == x) by (bit_vector)
            requires
                (head | tail) & x == x,
        ;
    } else {
        assert(t.drop_last() =~= slots.drop_last().update(i, s));
        let y = head & x;
        assert(head & y == y) by (bit_vector)
            requires
                y == head & x,
        ;
        lemma_slots_grow(slots.drop_last(), i, bits, hash, tag, y);
        assert((new_head | tail) & x == x) by (bit_vector)
            requires
                (head | tail) & x == x,
                y == head & x,
                new_head & y == y,
        ;
    }
}

/// No slot holds the fingerprint: there is nothing of it.
proof fn lemma_slots_none(slots: Seq<SlotModel>, hash: u64, tag: u16)
    requires
        forall|j: int| #![trigger slots[j]] 0 <= j < slots.len() ==> !slots[j].holds(hash, tag),
    ensures
        slots_missing(slots, hash, tag) == 0,
    decreases slots.len(),
{
    if slots.len() > 0 {
        assert(slots.last() == slots[slots.len() - 1]);
        assert forall|j: int| #![trigger slots.drop_last()[j]]
            0 <= j < slots.len() - 1 implies !slots.drop_last()[j].holds(hash, tag) by {
            assert(slots.drop_last()[j] == slots[j]);
        }
        lemma_slots_none(slots.drop_last(), hash, tag);
        assert(0usize | 0usize == 0usize) by (bit_vector);
    }
}

/// Putting a fingerprint into a block keeps what the block has of every
/// fingerprint, unless it takes a slot in use.
proof fn lemma_insert_keeps(
    slots: Seq<SlotModel>,
    fp: ArticleFingerprint,
    bits: usize,
    victim: int,
    hash: u64,
    tag: u16,
    x: usize,
)
    requires
        0 <= victim < slots.len(),
        hash != 0,
        block_insert(slots, fp, bits, victim).1 != InsertOutcome::Replaced,
        slots_missing(slots, hash, tag) & x == x,
    ensures
        slots_missing(block_insert(slots, fp, bits, victim).0, hash, tag) & x == x,
{
    let other = ArticleFingerprint { hash, tag };
    if other != fp {
        lemma_block_insert_other(slots, fp, bits, victim, other);
    } else {
        lemma_first_holding(slots, hash, tag);
        let held = first_holding(slots, hash, tag);
        if held < slots.len() {
            lemma_slots_grow(slots, held, bits, hash, tag, x);
        } else {
            lemma_slots_none(slots, hash, tag);
            let now_there = slots_missing(block_insert(slots, fp, bits, victim).0, hash, tag);
            assert(now_there & x == x) by (bit_vector)
                requires
                    0usize & x == x,
            ;
        }
    }
}

/// A filter without facts is in place.
pub proof fn lemma_emptied_in_place(f: FilterModel, now: u64)
    requires
        f.wf(),
        f.width > 0,
        f.interval > 0,
    ensures
        f.emptied().in_place(now),
        f.emptied().live == 0,
{
    let e = f.emptied();
    assert forall|i: int| #![trigger e.generations[i]] 0 <= i < e.generations.len() implies
        e.generations[i] == free_generation(e.width) by {}
    assert forall|i: int, j: int| #![trigger e.generations[i].blocks[j]]
        0 <= i < e.generations.len() && 0 <= j < e.width implies e.generations[i].blocks[j].len()
        == BLOCK_SLOTS by {
        assert(e.generations[i].blocks[j] == free_block());
    }
    assert forall|k: int| #![trigger e.generations[e.back(k)]] 0 <= k < e.generations.len() implies
        e.generations[e.back(k)] == free_generation(e.width) by {
        e.lemma_back_at_zero(k);
    }
}

/// Taking back a fact at its own age puts it into the filter and keeps the
/// others, unless it costs one of them.
pub proof fn lemma_restored_in_place(
    f: FilterModel,
    e: PersistedEntry,
    bucket: int,
    now: u64,
    ttl: u64,
)
    requires
        f.in_place(now),
        0 <= bucket < f.width,
        e.inserted_at != 0,
        f.reaches(e.inserted_at, now),
        !f.restoring_replaces(e, bucket, now, ttl),
    ensures
        f.restored(e, bucket, now, ttl).in_place(now),
        f.restored(e, bucket, now, ttl).width == f.width,
        f.restored(e, bucket, now, ttl).interval == f.interval,
        f.restored(e, bucket, now, ttl).generations.len() == f.generations.len(),
        f.accepts(e, now, ttl) ==> f.restored(e, bucket, now, ttl).has_fact(e, bucket, now),
        forall|o: PersistedEntry, b: int|
            #![trigger f.has_fact(o, b, now)]
            0 <= b < f.width && o.hash != 0 && f.has_fact(o, b, now) ==> f.restored(
                e,
                bucket,
                now,
                ttl,
            ).has_fact(o, b, now),
{
    if f.accepts(e, now, ttl) {
        let n = f.generations.len() as int;
        let k = f.age_in_turns(now, e.inserted_at) as int;
        let i = f.back(k);
        f.lemma_back_at_zero(k);
        let fp = fingerprint_in(e);
        let a = f.aged(e, now);
        let r = f.restored(e, bucket, now, ttl);
        let g = f.generations[i];
        assert(g.blocks.len() == f.width);
        let slots = g.blocks[bucket];
        assert(slots.len() == BLOCK_SLOTS);
        let victim = victim_of(fp.hash);
        lemma_insert_used(slots, fp, e.missing, victim);
        lemma_block_insert_found(slots, fp, e.missing, victim);
        assert(a.generations[i].blocks == g.blocks);
        let block = block_insert(slots, fp, e.missing, victim).0;
        assert(r.generations[i].blocks == g.blocks.update(bucket, block));
        assert forall|q: int| #![trigger r.generations[q]]
            0 <= q < n implies r.generations[q].blocks.len() == r.width by {
            assert(f.generations[q].blocks.len() == f.width);
        }
        assert forall|q: int, j: int| #![trigger r.generations[q].blocks[j]]
            0 <= q < n && 0 <= j < r.width implies r.generations[q].blocks[j].len()
            == BLOCK_SLOTS by {
            assert(f.generations[q].blocks[j].len() == BLOCK_SLOTS);
        }
        assert(r.live >= k + 1);
        assert(r.live <= n);
        assert(r.wf());
        assert forall|q: int| #![trigger r.generations[r.back(q)]] 0 <= q < n implies {
            let h = r.generations[r.back(q)];
            if h.started_at == 0 {
                h == free_generation(r.width)
            } else {
                &&& r.reaches(h.started_at, now)
                &&& r.age_in_turns(now, h.started_at) == q
                &&& q < r.live
            }
        } by {
            f.lemma_back_at_zero(q);
            assert(r.back(q) == f.back(q));
            let h = f.generations[f.back(q)];
            if q != k {
                assert(f.back(q) != i);
            } else {
                assert(f.generations[f.back(k)] == h);
            }
        }
        assert(r.back(k) == i);
        assert forall|o: PersistedEntry, b: int|
            #![trigger f.has_fact(o, b, now)]
            0 <= b < f.width && o.hash != 0 && f.has_fact(o, b, now) implies r.has_fact(
            o,
            b,
            now,
        ) by {
            let q = f.age_in_turns(now, o.inserted_at) as int;
            f.lemma_back_at_zero(q);
            assert(r.back(q) == f.back(q));
            if q == k && b == bucket {
                lemma_insert_keeps(slots, fp, e.missing, victim, o.hash, o.tag, o.missing);
            } else if q != k {
                assert(f.back(q) != i);
            }
        }
    }
}

/// What the generation that started latest is.
pub(crate) proof fn lemma_latest_started(gens: Seq<GenerationModel>)
    ensures
        ({
            let p = latest_started(gens);
            &&& -1 <= p < gens.len()
            &&& p < 0 ==> forall|q: int| #![trigger gens[q]]
                0 <= q < gens.len() ==> gens[q].started_at == 0
            &&& p >= 0 ==> gens[p].started_at != 0 && forall|q: int| #![trigger gens[q]]
                0 <= q < gens.len() ==> gens[q].started_at <= gens[p].started_at
        }),
    decreases gens.len(),
{
    if gens.len() > 0 {
        let head = gens.drop_last();
        lemma_latest_started(head);
        let p = latest_started(head);
        assert forall|q: int| #![trigger gens[q]] 0 <= q < gens.len() - 1 implies gens[q]
            == head[q] by {}
        if p >= 0 {
            assert(head[p] == gens[p]);
        }
    }
}

/// Of two moments, the one that lies more turns back is the earlier one.
proof fn lemma_more_turns_is_earlier(now: u64, a: u64, b: u64, interval: u64)
    requires
        interval > 0,
        elapsed(now, a) / interval < elapsed(now, b) / interval,
    ensures
        b < a,
{
    if elapsed(now, b) <= elapsed(now, a) {
        vstd::arithmetic::div_mod::lemma_div_is_ordered(
            elapsed(now, b) as int,
            elapsed(now, a) as int,
            interval as int,
        );
    }
}

impl FilterModel {
    /// What the `k`-th generation back has of a fingerprint is found.
    proof fn lemma_found_back(self, fp: ArticleFingerprint, bucket: int, k: int, m: nat, x: usize)
        requires
            0 <= k < m,
            slots_missing(self.generations[self.back(k)].blocks[bucket], fp.hash, fp.tag) & x == x,
        ensures
            self.bits_in(fp, bucket, m) & x == x,
        decreases m,
    {
        if k < m - 1 {
            self.lemma_found_back(fp, bucket, k, (m - 1) as nat, x);
        }
        lemma_or_keeps(
            self.bits_in(fp, bucket, (m - 1) as nat),
            slots_missing(self.generations[self.back(m - 1)].blocks[bucket], fp.hash, fp.tag),
            x,
        );
    }

    /// A ring that was set to its latest generation, `j` turns back, comes
    /// around in `j` turns and loses nothing on the way.
    proof fn lemma_turns_lose_nothing(self, r: FilterModel, now: u64, j: int, t: nat)
        requires
            self.in_place(now),
            r.generations == self.generations,
            r.width == self.width,
            0 <= j < self.generations.len(),
            r.current == self.back(j),
            forall|k: int| #![trigger self.back(k)]
                0 <= k < j ==> self.generations[self.back(k)] == free_generation(self.width),
            t <= j,
        ensures
            r.turned_times(t).generations == self.generations,
            r.turned_times(t).current == self.back(j - t),
        decreases t,
    {
        if t > 0 {
            self.lemma_turns_lose_nothing(r, now, j, (t - 1) as nat);
            lemma_turned_fields(r, (t - 1) as nat);
            let n = self.generations.len() as int;
            let before = r.turned_times((t - 1) as nat);
            self.lemma_back_at_zero(j - t + 1);
            self.lemma_back_at_zero(j - t);
            let next = (before.current + 1) % n;
            if j == t {
                assert(before.current == n - 1);
                vstd::arithmetic::div_mod::lemma_mod_self_0(n);
            } else {
                vstd::arithmetic::div_mod::lemma_small_mod((n - j + t) as nat, n as nat);
            }
            assert(next == self.back(j - t));
            assert(self.generations.update(next, free_generation(self.width)) =~= self.generations);
        }
    }
}

/// Slots that have something of a fingerprint are in use.
pub(crate) proof fn lemma_known_slots_are_used(slots: Seq<SlotModel>, hash: u64, tag: u16)
    requires
        hash != 0,
        slots_missing(slots, hash, tag) != 0,
    ensures
        slots_used(slots) > 0,
    decreases slots.len(),
{
    if slots.len() > 0 {
        let head = slots_missing(slots.drop_last(), hash, tag);
        if head == 0 && !slots.last().holds(hash, tag) {
            assert(0usize | 0usize == 0usize) by (bit_vector);
        }
        if head != 0 {
            lemma_known_slots_are_used(slots.drop_last(), hash, tag);
        }
    }
}

pub(crate) proof fn lemma_block_counts(blocks: Seq<Seq<SlotModel>>, b: int)
    requires
        0 <= b < blocks.len(),
    ensures
        blocks_used(blocks) >= slots_used(blocks[b]),
    decreases blocks.len(),
{
    if b < blocks.len() - 1 {
        lemma_block_counts(blocks.drop_last(), b);
    }
}

pub(crate) proof fn lemma_generation_counts(f: FilterModel, k: int, m: nat)
    requires
        0 <= k < m,
    ensures
        f.used_back(m) >= blocks_used(f.generations[f.back(k)].blocks),
    decreases m,
{
    if k < m - 1 {
        lemma_generation_counts(f, k, (m - 1) as nat);
    }
}

pub(crate) proof fn lemma_shard_counts(shards: Seq<ShardModel>, s: int)
    requires
        0 <= s < shards.len(),
    ensures
        total_used(shards) >= shards[s].filter.used_back(shards[s].filter.live),
    decreases shards.len(),
{
    if s < shards.len() - 1 {
        lemma_shard_counts(shards.drop_last(), s);
    }
}

/// Once the ring is set to its latest generation, every fact is found, and the
/// slots in use show that there is one.
pub proof fn lemma_reanchored_finds(f: FilterModel, e: PersistedEntry, bucket: int, now: u64)
    requires
        f.in_place(now),
        f.has_fact(e, bucket, now),
        0 <= bucket < f.width,
        e.hash != 0,
        now < u64::MAX,
    ensures
        f.reanchored().rotated(now).bits_of(fingerprint_in(e), bucket) & e.missing == e.missing,
        e.missing != 0 ==> f.reanchored().used_back(f.reanchored().live) > 0,
{
    let n = f.generations.len() as int;
    let r = f.reanchored();
    let p = latest_started(f.generations);
    lemma_latest_started(f.generations);
    let fp = fingerprint_in(e);
    let k = f.age_in_turns(now, e.inserted_at) as int;
    f.lemma_back_at_zero(k);
    if p < 0 {
        assert(f.generations[f.back(k)] == free_generation(f.width));
        lemma_free_block_misses_nothing(e.hash, e.tag);
        let found = f.reanchored().rotated(now).bits_of(fp, bucket);
        let x = e.missing;
        assert(found & x == x && x == 0) by (bit_vector)
            requires
                0usize & x == x,
        ;
    } else {
        let j = if p == 0 {
            0
        } else {
            n - p
        };
        f.lemma_back_at_zero(j);
        assert(f.back(j) == p);
        let start = f.generations[p].started_at;
        assert(f.generations[f.back(j)].started_at == start);
        assert(f.age_in_turns(now, start) == j && f.reaches(start, now) && j < f.live);
        assert forall|q: int| #![trigger f.back(q)] 0 <= q < j implies f.generations[f.back(q)]
            == free_generation(f.width) by {
            f.lemma_back_at_zero(q);
            let h = f.generations[f.back(q)];
            if h.started_at != 0 {
                assert(f.age_in_turns(now, h.started_at) == q);
                lemma_more_turns_is_earlier(now, h.started_at, start, f.interval);
            }
        }
        assert(r.turns_due(now) == j) by {
            if f.interval != u64::MAX {
                lemma_turns_due_to(now, start, f.interval, j);
            }
        }
        f.lemma_turns_lose_nothing(r, now, j, j as nat);
        lemma_turned_fields(r, j as nat);
        let end = r.rotated(now);
        assert(end.generations == f.generations);
        assert(end.current == f.back(0)) by {
            f.lemma_back_at_zero(0);
        }
        f.lemma_back_at_zero(0);
        assert(end.back(k) == f.back(k));
        end.lemma_found_back(fp, bucket, k, end.live, e.missing);
        let x = e.missing;
        if x != 0 {
            let slots = f.generations[f.back(k)].blocks[bucket];
            let there = slots_missing(slots, e.hash, e.tag);
            assert(there != 0) by (bit_vector)
                requires
                    there & x == x,
                    x != 0,
            ;
            if k < j {
                assert(f.generations[f.back(k)] == free_generation(f.width));
                lemma_free_block_misses_nothing(e.hash, e.tag);
            }
            assert(r.back(k - j) == f.back(k)) by {
                if j == 0 {
                } else {
                    vstd::arithmetic::div_mod::lemma_mod_add_multiples_vanish(n - k, n);
                    vstd::arithmetic::div_mod::lemma_small_mod((n - k) as nat, n as nat);
                }
            }
            assert(f.generations[f.back(k)].blocks.len() == f.width);
            lemma_known_slots_are_used(slots, e.hash, e.tag);
            lemma_block_counts(f.generations[f.back(k)].blocks, bucket);
            lemma_generation_counts(r, k - j, r.live);
        }
    }
}

/// How many turns are due for a generation that started so many turns back.
proof fn lemma_turns_due_to(now: u64, start: u64, interval: u64, j: int)
    requires
        0 < interval < u64::MAX,
        now < u64::MAX,
        elapsed(now, start) / interval == j,
    ensures
        start + interval > u64::MAX ==> j == 0,
        start + interval <= u64::MAX && now < start + interval ==> j == 0,
        start + interval <= u64::MAX && now >= start + interval ==> j == 1 + (now - (start
            + interval)) / (interval as int),
{
    let e = elapsed(now, start) as int;
    let i = interval as int;
    if e < i {
        vstd::arithmetic::div_mod::lemma_basic_div(e, i);
    } else {
        vstd::arithmetic::div_mod::lemma_div_minus_one(e, i);
    }
}

// ---------------------------------------------------------------------------
// The index
// ---------------------------------------------------------------------------

/// No shard counts a fact that it had to give up.
pub open spec fn no_losses(shards: Seq<ShardModel>) -> bool {
    forall|s: int| 0 <= s < shards.len() ==> (#[trigger] shards[s]).evictions == 0
}

impl IndexModel {
    /// A stored fact that can be taken back at `now`: its article and its
    /// moment are known, it has not outlived its time, and the ring still
    /// reaches back to it.
    pub open spec fn in_time(self, e: PersistedEntry, now: u64) -> bool {
        &&& e.hash != 0
        &&& e.inserted_at != 0
        &&& elapsed(now, e.inserted_at) < self.ttl
        &&& self.shards[self.shard_of(e.hash)].filter.reaches(e.inserted_at, now)
    }

    /// The first `n` stored facts are taken back, each at its place.
    spec fn taken_back(
        self,
        table: Seq<IdentityModel>,
        entries: Seq<PersistedEntry>,
        n: nat,
        now: u64,
    ) -> bool {
        let r = self.emptied().restored_all(table, entries, n, now);
        &&& r.shards.len() == self.shards.len()
        &&& r.blocks == self.blocks
        &&& r.providers == self.providers
        &&& r.ttl == self.ttl
        &&& forall|s: int| #![trigger r.shards[s]]
            0 <= s < r.shards.len() ==> {
                &&& r.shards[s].filter.in_place(now)
                &&& r.shards[s].filter.width == self.shards[s].filter.width
                &&& r.shards[s].filter.interval == self.shards[s].filter.interval
                &&& r.shards[s].filter.generations.len() == self.shards[s].filter.generations.len()
                &&& r.shards[s].evictions == 0
            }
        &&& forall|i: int| #![trigger entries[i]]
            0 <= i < n ==> {
                let e = translated_entry(self.providers, table, entries[i]);
                e.missing != 0 ==> r.shards[self.shard_of(e.hash)].filter.has_fact(
                    e,
                    self.local_of(e.hash),
                    now,
                )
            }
    }

    /// Counts of losses never go down.
    proof fn lemma_losses_add_up(
        self,
        table: Seq<IdentityModel>,
        entries: Seq<PersistedEntry>,
        n: nat,
        m: nat,
        now: u64,
    )
        requires
            n <= m,
            self.shards.len() > 0,
        ensures
            self.restored_all(table, entries, n, now).shards.len() == self.shards.len(),
            self.restored_all(table, entries, m, now).shards.len() == self.shards.len(),
            forall|s: int| #![trigger self.restored_all(table, entries, n, now).shards[s]]
                0 <= s < self.shards.len() ==> self.restored_all(
                    table,
                    entries,
                    n,
                    now,
                ).shards[s].evictions <= self.restored_all(table, entries, m, now).shards[s].evictions,
        decreases m,
    {
        if m > 0 {
            let k = if n < m {
                n
            } else {
                (m - 1) as nat
            };
            self.lemma_losses_add_up(table, entries, k, (m - 1) as nat, now);
            let before = self.restored_all(table, entries, (m - 1) as nat, now);
            let after = self.restored_all(table, entries, m, now);
            let e = translated_entry(self.providers, table, entries[m - 1]);
            vstd::arithmetic::div_mod::lemma_mod_bound(
                bucket_of(e.hash, before.blocks) as int,
                before.shards.len() as int,
            );
            assert forall|s: int| 0 <= s < self.shards.len() implies before.shards[s].evictions
                <= after.shards[s].evictions by {}
        }
    }

    /// Taking back facts that are in time loses none of them, as long as no
    /// loss is counted.
    proof fn lemma_taken_back(
        self,
        table: Seq<IdentityModel>,
        entries: Seq<PersistedEntry>,
        n: nat,
        now: u64,
    )
        requires
            self.wf(),
            self.blocks > 0,
            self.ttl > 0,
            n <= entries.len(),
            forall|i: int| #![trigger entries[i]]
                0 <= i < entries.len() ==> self.in_time(entries[i], now),
            no_losses(self.emptied().restored_all(table, entries, n, now).shards),
        ensures
            self.taken_back(table, entries, n, now),
        decreases n,
    {
        let start = self.emptied();
        if n == 0 {
            assert forall|s: int| #![trigger start.shards[s]] 0 <= s < start.shards.len() implies {
                &&& start.shards[s].filter.in_place(now)
                &&& start.shards[s].filter.width == self.shards[s].filter.width
                &&& start.shards[s].filter.interval == self.shards[s].filter.interval
                &&& start.shards[s].filter.generations.len()
                    == self.shards[s].filter.generations.len()
                &&& start.shards[s].evictions == 0
            } by {
                let f = self.shards[s].filter;
                assert(f.wf());
                lemma_shard_has_blocks(self, s);
                vstd::arithmetic::div_mod::lemma_div_pos_is_pos(
                    self.ttl as int,
                    f.generations.len() as int,
                );
                lemma_emptied_in_place(f, now);
            }
        } else {
            let k = (n - 1) as nat;
            let before = start.restored_all(table, entries, k, now);
            let after = start.restored_all(table, entries, n, now);
            start.lemma_losses_add_up(table, entries, k, n, now);
            assert(no_losses(before.shards)) by {
                assert forall|s: int| 0 <= s < before.shards.len() implies (
                #[trigger] before.shards[s]).evictions == 0 by {
                    assert(after.shards[s].evictions == 0);
                }
            }
            self.lemma_taken_back(table, entries, k, now);
            let e = translated_entry(self.providers, table, entries[n - 1]);
            assert(self.in_time(entries[n - 1], now));
            lemma_hash_place(self, e.hash);
            let s = self.shard_of(e.hash);
            let b = self.local_of(e.hash);
            assert(before.shard_of(e.hash) == s && before.local_of(e.hash) == b);
            let f = before.shards[s].filter;
            assert(after.shards[s] == before.shards[s].restored(e, b, now, self.ttl));
            assert(self.shards[s].filter.width == self.shards[s].filter.width);
            assert(after.shards[s].evictions == 0);
            assert(!f.restoring_replaces(e, b, now, self.ttl));
            lemma_restored_in_place(f, e, b, now, self.ttl);
            assert forall|i: int| #![trigger entries[i]] 0 <= i < n implies {
                let o = translated_entry(self.providers, table, entries[i]);
                o.missing != 0 ==> after.shards[self.shard_of(o.hash)].filter.has_fact(
                    o,
                    self.local_of(o.hash),
                    now,
                )
            } by {
                let o = translated_entry(self.providers, table, entries[i]);
                assert(self.in_time(entries[i], now));
                lemma_hash_place(self, o.hash);
                if o.missing != 0 && i < n - 1 && self.shard_of(o.hash) == s {
                    assert(f.has_fact(o, self.local_of(o.hash), now));
                }
            }
        }
    }
}

/// Every shard of an index that has blocks has one.
proof fn lemma_shard_has_blocks(m: IndexModel, s: int)
    requires
        m.wf(),
        m.blocks > 0,
        0 <= s < m.shards.len(),
    ensures
        m.shards[s].filter.width > 0,
{
    vstd::arithmetic::div_mod::lemma_div_non_zero(m.blocks as int, m.shards.len() as int);
}

/// Every fact of a snapshot that is in time is found after the snapshot was
/// taken back, unless full blocks had to give up facts, which the index counts.
pub proof fn law_restored_facts_are_found(
    m: IndexModel,
    table: Seq<IdentityModel>,
    entries: Seq<PersistedEntry>,
    i: int,
    now: u64,
)
    requires
        m.wf(),
        m.blocks > 0,
        m.ttl > 0,
        now < u64::MAX,
        forall|k: int| #![trigger entries[k]]
            0 <= k < entries.len() ==> m.in_time(entries[k], now),
        no_losses(m.with_snapshot(table, entries, now).shards),
        0 <= i < entries.len(),
    ensures
        ({
            let e = translated_entry(m.providers, table, entries[i]);
            let r = m.with_snapshot(table, entries, now);
            &&& r.bits_at(fingerprint_in(e), now) & e.missing == e.missing
            &&& e.missing != 0 ==> r.populated
        }),
{
    let r = m.emptied().restored_all(table, entries, entries.len(), now);
    let end = m.with_snapshot(table, entries, now);
    m.emptied().lemma_losses_add_up(table, entries, entries.len(), entries.len(), now);
    assert(no_losses(r.shards)) by {
        assert forall|s: int| 0 <= s < r.shards.len() implies (#[trigger] r.shards[s]).evictions
            == 0 by {
            assert(end.shards[s] == r.shards[s].settled());
        }
    }
    m.lemma_taken_back(table, entries, entries.len(), now);
    let e = translated_entry(m.providers, table, entries[i]);
    assert(m.in_time(entries[i], now));
    lemma_hash_place(m, e.hash);
    let s = m.shard_of(e.hash);
    let found = end.bits_at(fingerprint_in(e), now);
    let x = e.missing;
    if x == 0 {
        assert(found & x == x) by (bit_vector)
            requires
                x == 0,
        ;
    } else {
        assert(end.shards[s] == r.shards[s].settled());
        lemma_reanchored_finds(r.shards[s].filter, e, m.local_of(e.hash), now);
        lemma_shard_counts(end.shards, s);
    }
}

// ---------------------------------------------------------------------------
// From one index to another
// ---------------------------------------------------------------------------

impl IndexModel {
    /// What the index has for a fingerprint, as it stands.
    pub open spec fn known(self, fp: ArticleFingerprint) -> usize {
        self.shards[self.shard_of(fp.hash)].filter.bits_of(fp, self.local_of(fp.hash))
    }

    /// The stored form of the index.
    pub open spec fn snapshot(self) -> SnapshotModel {
        SnapshotModel { identities: self.providers, entries: all_entries(self.shards) }
    }
}

/// The entry is about the fingerprint and has the bit.
pub open spec fn tells(e: PersistedEntry, fp: ArticleFingerprint, b: nat) -> bool {
    fingerprint_in(e) == fp && bit(e.missing, b)
}

/// One of the entries is about the fingerprint and has the bit.
pub open spec fn told(entries: Seq<PersistedEntry>, fp: ArticleFingerprint, b: nat) -> bool {
    exists|i: int| 0 <= i < entries.len() && tells(#[trigger] entries[i], fp, b)
}

proof fn lemma_told_either(
    x: Seq<PersistedEntry>,
    y: Seq<PersistedEntry>,
    fp: ArticleFingerprint,
    b: nat,
)
    requires
        told(x, fp, b) || told(y, fp, b),
    ensures
        told(x + y, fp, b),
{
    if told(x, fp, b) {
        let i = choose|i: int| 0 <= i < x.len() && tells(#[trigger] x[i], fp, b);
        assert((x + y)[i] == x[i]);
    } else {
        let i = choose|i: int| 0 <= i < y.len() && tells(#[trigger] y[i], fp, b);
        assert((x + y)[x.len() + i] == y[i]);
    }
}

proof fn lemma_bit_of_or(x: usize, y: usize, b: nat)
    requires
        bit(x | y, b),
        b < usize::BITS,
    ensures
        bit(x, b) || bit(y, b),
{
    lemma_or(x, y);
    assert(bit_set(x | y).contains(b));
}

proof fn lemma_no_bit_of_zero(b: nat)
    requires
        b < usize::BITS,
    ensures
        !bit(0, b),
{
    lemma_empty();
    assert(!bit_set(0).contains(b));
}

/// Whatever the slots have of a fingerprint is in their entries.
proof fn lemma_slots_told(slots: Seq<SlotModel>, started: u64, fp: ArticleFingerprint, b: nat)
    requires
        fp.hash != 0,
        b < usize::BITS,
        bit(slots_missing(slots, fp.hash, fp.tag), b),
    ensures
        told(slot_entries(slots, started), fp, b),
    decreases slots.len(),
{
    lemma_no_bit_of_zero(b);
    if slots.len() > 0 {
        let s = slots.last();
        let head = slots_missing(slots.drop_last(), fp.hash, fp.tag);
        let tail = if s.holds(fp.hash, fp.tag) {
            s.missing
        } else {
            0
        };
        lemma_bit_of_or(head, tail, b);
        let before = slot_entries(slots.drop_last(), started);
        let all = slot_entries(slots, started);
        if bit(head, b) {
            lemma_slots_told(slots.drop_last(), started, fp, b);
            let i = choose|i: int| 0 <= i < before.len() && tells(#[trigger] before[i], fp, b);
            assert(all[i] == before[i]);
        } else {
            assert(tells(all[all.len() - 1], fp, b));
        }
    }
}

/// Whatever a block has of a fingerprint is in the entries of the blocks.
proof fn lemma_blocks_told(
    blocks: Seq<Seq<SlotModel>>,
    started: u64,
    bucket: int,
    fp: ArticleFingerprint,
    b: nat,
)
    requires
        fp.hash != 0,
        b < usize::BITS,
        0 <= bucket < blocks.len(),
        bit(slots_missing(blocks[bucket], fp.hash, fp.tag), b),
    ensures
        told(block_entries(blocks, started), fp, b),
    decreases blocks.len(),
{
    if bucket == blocks.len() - 1 {
        lemma_slots_told(blocks.last(), started, fp, b);
    } else {
        lemma_blocks_told(blocks.drop_last(), started, bucket, fp, b);
    }
    lemma_told_either(
        block_entries(blocks.drop_last(), started),
        slot_entries(blocks.last(), started),
        fp,
        b,
    );
}

/// Whatever a filter has of a fingerprint is in its entries.
pub(crate) proof fn lemma_filter_told(f: FilterModel, bucket: int, k: nat, fp: ArticleFingerprint, b: nat)
    requires
        f.wf(),
        fp.hash != 0,
        b < usize::BITS,
        0 <= bucket < f.width,
        k <= f.generations.len(),
        bit(f.bits_in(fp, bucket, k), b),
    ensures
        told(f.entries_in(k), fp, b),
    decreases k,
{
    lemma_no_bit_of_zero(b);
    if k > 0 {
        let n = f.generations.len() as int;
        vstd::arithmetic::div_mod::lemma_mod_bound(f.current + n - (k - 1), n);
        let g = f.generations[f.back(k - 1)];
        let head = f.bits_in(fp, bucket, (k - 1) as nat);
        let tail = slots_missing(g.blocks[bucket], fp.hash, fp.tag);
        lemma_bit_of_or(head, tail, b);
        if bit(head, b) {
            lemma_filter_told(f, bucket, (k - 1) as nat, fp, b);
        } else {
            lemma_blocks_told(g.blocks, g.started_at, bucket, fp, b);
        }
        lemma_told_either(
            f.entries_in((k - 1) as nat),
            block_entries(g.blocks, g.started_at),
            fp,
            b,
        );
    }
}

/// Whatever a shard has of a fingerprint is in the entries of all shards.
pub(crate) proof fn lemma_shards_told(shards: Seq<ShardModel>, s: int, fp: ArticleFingerprint, b: nat)
    requires
        0 <= s < shards.len(),
        told(shards[s].filter.entries_in(shards[s].filter.live), fp, b),
    ensures
        told(all_entries(shards), fp, b),
    decreases shards.len(),
{
    let f = shards.last().filter;
    if s < shards.len() - 1 {
        lemma_shards_told(shards.drop_last(), s, fp, b);
    }
    lemma_told_either(all_entries(shards.drop_last()), f.entries_in(f.live), fp, b);
}

/// The entries in the order of their moments are the same entries.
pub(crate) proof fn lemma_by_age_same(
    entries: Seq<PersistedEntry>,
    sorted: Seq<PersistedEntry>,
    e: PersistedEntry,
)
    requires
        by_age(entries, sorted),
    ensures
        entries.contains(e) <==> sorted.contains(e),
{
    broadcast use vstd::seq_lib::group_filter_ensures;

    let keep = observed_at(e.inserted_at);
    assert(sorted.filter(keep) == entries.filter(keep));
    if entries.contains(e) {
        assert(entries.filter(keep).contains(e));
        sorted.lemma_filter_contains_rev(keep, e);
    }
    if sorted.contains(e) {
        assert(sorted.filter(keep).contains(e));
        entries.lemma_filter_contains_rev(keep, e);
    }
}

/// What one index knows, another knows after it read the stored form: the bit
/// of a provider becomes the bit of the first provider of the other index that
/// has its name. That holds of every fact, as long as the facts are in time when they are read and
/// the other index counts no loss. An index in which two accounts share a name
/// is left out, and so is the last moment that a clock can show.
pub proof fn law_saved_facts_are_loaded(
    saved: IndexModel,
    other: IndexModel,
    sorted: Seq<PersistedEntry>,
    fp: ArticleFingerprint,
    b: nat,
    now: u64,
)
    requires
        saved.wf(),
        saved.blocks > 0,
        snapshot_valid(saved.snapshot()),
        other.wf(),
        other.blocks > 0,
        other.ttl > 0,
        now < u64::MAX,
        by_age(saved.snapshot().entries, sorted),
        forall|i: int| #![trigger saved.snapshot().entries[i]]
            0 <= i < saved.snapshot().entries.len() ==> other.in_time(
                saved.snapshot().entries[i],
                now,
            ),
        no_losses(
            other.with_snapshot(stored_identities(saved.providers), sorted, now).shards,
        ),
        fp.hash != 0,
        b < saved.providers.len(),
        bit(saved.known(fp), b),
        host_position(other.providers, saved.providers[b as int])
            < other.providers.len(),
    ensures
        parse_snapshot_spec(snapshot_bytes(saved.snapshot())) == Ok::<
            Option<SnapshotModel>,
            SnapshotError,
        >(
            Some(
                SnapshotModel {
                    identities: stored_identities(saved.providers),
                    entries: saved.snapshot().entries,
                },
            ),
        ),
        other.with_snapshot(stored_identities(saved.providers), sorted, now).populated,
        bit(
            other.with_snapshot(stored_identities(saved.providers), sorted, now).bits_at(fp, now),
            host_position(other.providers, saved.providers[b as int]) as nat,
        ),
{
    let snap = saved.snapshot();
    let entries = snap.entries;
    law_snapshot_round_trip(snap);
    let table = stored_identities(saved.providers);
    let s = saved.shard_of(fp.hash);
    lemma_hash_place(saved, fp.hash);
    let f = saved.shards[s].filter;
    lemma_filter_told(f, saved.local_of(fp.hash), f.live, fp, b);
    lemma_shards_told(saved.shards, s, fp, b);
    let i = choose|i: int| 0 <= i < entries.len() && tells(#[trigger] entries[i], fp, b);
    let e = entries[i];
    assert(entries.contains(e));
    lemma_by_age_same(entries, sorted, e);
    let j = choose|j: int| 0 <= j < sorted.len() && sorted[j] == e;
    assert forall|k: int| #![trigger sorted[k]] 0 <= k < sorted.len() implies other.in_time(
        sorted[k],
        now,
    ) by {
        let o = sorted[k];
        assert(sorted.contains(o));
        lemma_by_age_same(entries, sorted, o);
        let q = choose|q: int| 0 <= q < entries.len() && entries[q] == o;
        assert(other.in_time(saved.snapshot().entries[q], now));
    }
    law_restored_facts_are_found(other, table, sorted, j, now);
    let x = translated_entry(other.providers, table, e).missing;
    let p = host_position(other.providers, saved.providers[b as int]);
    lemma_host_position(other.providers, saved.providers[b as int]);
    law_facts_follow_their_providers(other.providers, table, e.missing, table.len());
    assert(table[b as int] == stored_identity(saved.providers[b as int]));
    assert(slots_carried(other.providers, table, e.missing, table.len()).contains(p as nat)) by {
        assert(bit(e.missing, b));
    }
    assert(bit_set(x).contains(p as nat));
    let found = other.with_snapshot(table, sorted, now).bits_at(fp, now);
    let q = p as usize;
    assert(found & (1usize << q) != 0 && x != 0) by (bit_vector)
        requires
            found & x == x,
            x & (1usize << q) != 0,
    ;
}

} // verus!
