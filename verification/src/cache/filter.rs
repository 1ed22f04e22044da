//! Rotating blocked fingerprint filter.
//!
//! A filter is a ring of generations of equal size, each a table of blocks of
//! fingerprint slots. Facts go into the current generation; with time the ring
//! turns, and the generation that becomes current loses its facts. Space is
//! bounded, so a full block gives up a slot for a new fingerprint.
use crate::cache::ttl::CacheTtlMillis;
use vstd::prelude::*;

verus! {

/// Fingerprint slots of a block.
pub const BLOCK_SLOTS: usize = 2;

/// Bytes that one block accounts for in a capacity.
pub const BLOCK_BYTES: usize = 40;

/// A keyed 64-bit hash, never zero, and a keyed tag that confirms it.
#[derive(Clone, Copy, Debug, PartialEq, Eq, Structural)]
pub struct ArticleFingerprint {
    pub hash: u64,
    pub tag: u16,
}

/// Position of a block in the generations of one filter.
#[derive(Clone, Copy, Debug, PartialEq, Eq, Structural)]
pub struct LocalBlockIndex {
    pub value: usize,
}

/// What became of a fingerprint that was put into a block.
#[derive(Clone, Copy, Debug, PartialEq, Eq, Structural)]
pub enum InsertOutcome {
    /// It took a free slot.
    Inserted,
    /// It was there already, and gained bits.
    Updated,
    /// It took the slot of another fingerprint.
    Replaced,
}

/// A fact with the moment that it was observed.
#[derive(Clone, Copy, Debug, PartialEq, Eq, Structural)]
pub struct PersistedEntry {
    pub hash: u64,
    pub tag: u16,
    /// Bitmap of the providers that miss the article.
    pub missing: usize,
    pub inserted_at: u64,
}

// ---------------------------------------------------------------------------
// Blocks
// ---------------------------------------------------------------------------

/// A slot: free when its hash is zero.
pub struct SlotModel {
    pub hash: u64,
    pub tag: u16,
    pub missing: usize,
}

impl SlotModel {
    pub open spec fn holds(self, hash: u64, tag: u16) -> bool {
        self.hash == hash && self.tag == tag
    }
}

pub open spec fn free_slot() -> SlotModel {
    SlotModel { hash: 0, tag: 0, missing: 0 }
}

pub open spec fn free_block() -> Seq<SlotModel> {
    Seq::new(BLOCK_SLOTS as nat, |i: int| free_slot())
}

/// Union of the bitmaps of the slots that hold the fingerprint.
pub open spec fn slots_missing(slots: Seq<SlotModel>, hash: u64, tag: u16) -> usize
    decreases slots.len(),
{
    if slots.len() == 0 {
        0
    } else {
        slots_missing(slots.drop_last(), hash, tag) | if slots.last().holds(hash, tag) {
            slots.last().missing
        } else {
            0
        }
    }
}

/// First slot that holds the fingerprint, the length where there is none.
pub open spec fn first_holding(slots: Seq<SlotModel>, hash: u64, tag: u16) -> int
    decreases slots.len(),
{
    if slots.len() == 0 || slots[0].holds(hash, tag) {
        0
    } else {
        1 + first_holding(slots.subrange(1, slots.len() as int), hash, tag)
    }
}

/// First free slot, the length where there is none.
pub open spec fn first_free(slots: Seq<SlotModel>) -> int
    decreases slots.len(),
{
    if slots.len() == 0 || slots[0].hash == 0 {
        0
    } else {
        1 + first_free(slots.subrange(1, slots.len() as int))
    }
}

/// Number of slots in use.
pub open spec fn slots_used(slots: Seq<SlotModel>) -> nat
    decreases slots.len(),
{
    if slots.len() == 0 {
        0
    } else {
        slots_used(slots.drop_last()) + if slots.last().hash != 0 {
            1nat
        } else {
            0nat
        }
    }
}

/// A block after a fingerprint was put into it: the slot that holds the
/// fingerprint gains the bits; else a free slot takes it; else the victim's
/// slot does.
pub open spec fn block_insert(
    slots: Seq<SlotModel>,
    fp: ArticleFingerprint,
    bits: usize,
    victim: int,
) -> (Seq<SlotModel>, InsertOutcome) {
    let held = first_holding(slots, fp.hash, fp.tag);
    let free = first_free(slots);
    let fresh = SlotModel { hash: fp.hash, tag: fp.tag, missing: bits };
    if held < slots.len() {
        (
            slots.update(held, SlotModel { missing: slots[held].missing | bits, ..slots[held] }),
            InsertOutcome::Updated,
        )
    } else if free < slots.len() {
        (slots.update(free, fresh), InsertOutcome::Inserted)
    } else {
        (slots.update(victim, fresh), InsertOutcome::Replaced)
    }
}

pub proof fn lemma_first_holding(slots: Seq<SlotModel>, hash: u64, tag: u16)
    ensures
        0 <= first_holding(slots, hash, tag) <= slots.len(),
        first_holding(slots, hash, tag) < slots.len() ==> slots[first_holding(
            slots,
            hash,
            tag,
        )].holds(hash, tag),
        forall|j: int| #![trigger slots[j]]
            0 <= j < first_holding(slots, hash, tag) ==> !slots[j].holds(hash, tag),
    decreases slots.len(),
{
    if slots.len() > 0 && !slots[0].holds(hash, tag) {
        let rest = slots.subrange(1, slots.len() as int);
        lemma_first_holding(rest, hash, tag);
        assert forall|j: int| #![trigger slots[j]] 0 <= j < first_holding(
            slots,
            hash,
            tag,
        ) implies !slots[j].holds(hash, tag) by {
            if j > 0 {
                assert(!rest[j - 1].holds(hash, tag));
            }
        }
    }
}

pub proof fn lemma_first_free(slots: Seq<SlotModel>)
    ensures
        0 <= first_free(slots) <= slots.len(),
        first_free(slots) < slots.len() ==> slots[first_free(slots)].hash == 0,
        forall|j: int| #![trigger slots[j]] 0 <= j < first_free(slots) ==> slots[j].hash != 0,
    decreases slots.len(),
{
    if slots.len() > 0 && slots[0].hash != 0 {
        let rest = slots.subrange(1, slots.len() as int);
        lemma_first_free(rest);
        assert forall|j: int| #![trigger slots[j]] 0 <= j < first_free(slots) implies slots[j].hash
            != 0 by {
            if j > 0 {
                assert(rest[j - 1].hash != 0);
            }
        }
    }
}

proof fn lemma_slots_used_update(slots: Seq<SlotModel>, i: int, s: SlotModel)
    requires
        0 <= i < slots.len(),
    ensures
        slots_used(slots.update(i, s)) == slots_used(slots) - (if slots[i].hash != 0 {
            1int
        } else {
            0
        }) + (if s.hash != 0 {
            1int
        } else {
            0
        }),
    decreases slots.len(),
{
    let t = slots.update(i, s);
    if i == slots.len() - 1 {
        assert(t.drop_last() =~= slots.drop_last());
    } else {
        lemma_slots_used_update(slots.drop_last(), i, s);
        assert(t.drop_last() =~= slots.drop_last().update(i, s));
    }
}

proof fn lemma_slots_used_bound(slots: Seq<SlotModel>)
    ensures
        slots_used(slots) <= slots.len(),
    decreases slots.len(),
{
    if slots.len() > 0 {
        lemma_slots_used_bound(slots.drop_last());
    }
}

proof fn lemma_slots_used_free(slots: Seq<SlotModel>)
    requires
        forall|i: int| 0 <= i < slots.len() ==> (#[trigger] slots[i]).hash == 0,
    ensures
        slots_used(slots) == 0,
    decreases slots.len(),
{
    if slots.len() > 0 {
        lemma_slots_used_free(slots.drop_last());
    }
}

/// A fingerprint that was put into a block uses one more slot of it only when
/// the slot was free.
pub(crate) proof fn lemma_insert_used(slots: Seq<SlotModel>, fp: ArticleFingerprint, bits: usize, victim: int)
    requires
        fp.hash != 0,
        0 <= victim < slots.len(),
    ensures
        slots_used(block_insert(slots, fp, bits, victim).0) == slots_used(slots) + (if block_insert(
            slots,
            fp,
            bits,
            victim,
        ).1 == InsertOutcome::Inserted {
            1nat
        } else {
            0nat
        }),
        block_insert(slots, fp, bits, victim).0.len() == slots.len(),
{
    lemma_first_holding(slots, fp.hash, fp.tag);
    lemma_first_free(slots);
    let held = first_holding(slots, fp.hash, fp.tag);
    let free = first_free(slots);
    let fresh = SlotModel { hash: fp.hash, tag: fp.tag, missing: bits };
    if held < slots.len() {
        lemma_slots_used_update(
            slots,
            held,
            SlotModel { missing: slots[held].missing | bits, ..slots[held] },
        );
    } else if free < slots.len() {
        lemma_slots_used_update(slots, free, fresh);
    } else {
        assert(slots[victim].hash != 0);
        lemma_slots_used_update(slots, victim, fresh);
    }
}

/// A block of fingerprint slots.
#[derive(Clone, Copy, Debug)]
pub struct Block {
    pub hashes: [u64; 2],
    pub tags: [u16; 2],
    pub missing: [usize; 2],
}

impl View for Block {
    type V = Seq<SlotModel>;

    open spec fn view(&self) -> Seq<SlotModel> {
        Seq::new(
            BLOCK_SLOTS as nat,
            |i: int|
                SlotModel { hash: self.hashes@[i], tag: self.tags@[i], missing: self.missing@[i] },
        )
    }
}

impl Default for Block {
    fn default() -> (r: Self)
        ensures
            r@ == free_block(),
    {
        let r = Block { hashes: [0, 0], tags: [0, 0], missing: [0, 0] };
        assert(r@ =~= free_block());
        r
    }
}

impl Block {
    /// Union of the bitmaps under the fingerprint.
    pub fn missing_bits(&self, hash: u64, tag: u16) -> (r: usize)
        ensures
            r == slots_missing(self@, hash, tag),
    {
        let mut bits: usize = 0;
        assert(self@.take(0) =~= Seq::<SlotModel>::empty());
        for i in 0..BLOCK_SLOTS
            invariant
                bits == slots_missing(self@.take(i as int), hash, tag),
        {
            assert(self@.take(i + 1).drop_last() =~= self@.take(i as int));
            assert(self@.take(i + 1).last() == self@[i as int]);
            let found: usize = if self.hashes[i] == hash && self.tags[i] == tag {
                self.missing[i]
            } else {
                0
            };
            bits = bits | found;
        }
        assert(self@.take(BLOCK_SLOTS as int) =~= self@);
        bits
    }

    fn holding_slot(&self, hash: u64, tag: u16) -> (r: Option<usize>)
        ensures
            match r {
                Some(i) => i == first_holding(self@, hash, tag) && i < BLOCK_SLOTS,
                None => first_holding(self@, hash, tag) == BLOCK_SLOTS,
            },
    {
        proof {
            lemma_first_holding(self@, hash, tag);
        }
        for i in 0..BLOCK_SLOTS
            invariant
                0 <= first_holding(self@, hash, tag) <= BLOCK_SLOTS,
                first_holding(self@, hash, tag) < BLOCK_SLOTS ==> self@[first_holding(
                    self@,
                    hash,
                    tag,
                )].holds(hash, tag),
                forall|j: int| #![trigger self@[j]]
                    0 <= j < first_holding(self@, hash, tag) ==> !self@[j].holds(hash, tag),
                forall|j: int| #![trigger self@[j]] 0 <= j < i ==> !self@[j].holds(hash, tag),
        {
            assert(self@[i as int].holds(hash, tag) == (self.hashes@[i as int] == hash
                && self.tags@[i as int] == tag));
            if self.hashes[i] == hash && self.tags[i] == tag {
                return Some(i);
            }
        }
        None
    }

    fn free_slot_index(&self) -> (r: Option<usize>)
        ensures
            match r {
                Some(i) => i == first_free(self@) && i < BLOCK_SLOTS,
                None => first_free(self@) == BLOCK_SLOTS,
            },
    {
        proof {
            lemma_first_free(self@);
        }
        for i in 0..BLOCK_SLOTS
            invariant
                0 <= first_free(self@) <= BLOCK_SLOTS,
                first_free(self@) < BLOCK_SLOTS ==> self@[first_free(self@)].hash == 0,
                forall|j: int| #![trigger self@[j]] 0 <= j < first_free(self@) ==> self@[j].hash != 0,
                forall|j: int| #![trigger self@[j]] 0 <= j < i ==> self@[j].hash != 0,
        {
            assert(self@[i as int].hash == self.hashes@[i as int]);
            if self.hashes[i] == 0 {
                return Some(i);
            }
        }
        None
    }

    fn put(&mut self, slot: usize, hash: u64, tag: u16, missing: usize)
        requires
            slot < BLOCK_SLOTS,
        ensures
            final(self)@ == old(self)@.update(slot as int, SlotModel { hash, tag, missing }),
    {
        self.hashes[slot] = hash;
        self.tags[slot] = tag;
        self.missing[slot] = missing;
        assert(self@ =~= old(self)@.update(slot as int, SlotModel { hash, tag, missing }));
    }

    /// Puts a fingerprint into the block.
    pub fn insert(&mut self, hash: u64, tag: u16, missing_bits: usize, victim: usize) -> (r:
        InsertOutcome)
        requires
            hash != 0,
            victim < BLOCK_SLOTS,
        ensures
            (final(self)@, r) == block_insert(
                old(self)@,
                ArticleFingerprint { hash, tag },
                missing_bits,
                victim as int,
            ),
    {
        if let Some(slot) = self.holding_slot(hash, tag) {
            let h = self.hashes[slot];
            let t = self.tags[slot];
            let m = self.missing[slot];
            self.put(slot, h, t, m | missing_bits);
            return InsertOutcome::Updated;
        }
        if let Some(slot) = self.free_slot_index() {
            self.put(slot, hash, tag, missing_bits);
            return InsertOutcome::Inserted;
        }
        self.put(victim, hash, tag, missing_bits);
        InsertOutcome::Replaced
    }
}

// ---------------------------------------------------------------------------
// Generations
// ---------------------------------------------------------------------------

/// A table of blocks, and the moment of its first fact; zero before one came.
#[verifier::ext_equal]
pub struct GenerationModel {
    pub started_at: u64,
    pub blocks: Seq<Seq<SlotModel>>,
}

pub open spec fn free_generation(width: nat) -> GenerationModel {
    GenerationModel { started_at: 0, blocks: Seq::new(width, |i: int| free_block()) }
}

/// Number of slots in use in the blocks.
pub open spec fn blocks_used(blocks: Seq<Seq<SlotModel>>) -> nat
    decreases blocks.len(),
{
    if blocks.len() == 0 {
        0
    } else {
        blocks_used(blocks.drop_last()) + slots_used(blocks.last())
    }
}

proof fn lemma_blocks_used_update(blocks: Seq<Seq<SlotModel>>, i: int, b: Seq<SlotModel>)
    requires
        0 <= i < blocks.len(),
    ensures
        blocks_used(blocks.update(i, b)) == blocks_used(blocks) - slots_used(blocks[i])
            + slots_used(b),
    decreases blocks.len(),
{
    let t = blocks.update(i, b);
    if i == blocks.len() - 1 {
        assert(t.drop_last() =~= blocks.drop_last());
    } else {
        lemma_blocks_used_update(blocks.drop_last(), i, b);
        assert(t.drop_last() =~= blocks.drop_last().update(i, b));
    }
}

proof fn lemma_blocks_used_free(width: nat)
    ensures
        blocks_used(free_generation(width).blocks) == 0,
    decreases width,
{
    if width > 0 {
        lemma_blocks_used_free((width - 1) as nat);
        let b = free_generation(width).blocks;
        assert(b.drop_last() =~= free_generation((width - 1) as nat).blocks);
        lemma_slots_used_free(free_block());
    }
}

proof fn lemma_blocks_used_bound(blocks: Seq<Seq<SlotModel>>)
    requires
        forall|i: int| 0 <= i < blocks.len() ==> (#[trigger] blocks[i]).len() == BLOCK_SLOTS,
    ensures
        blocks_used(blocks) <= BLOCK_SLOTS * blocks.len(),
    decreases blocks.len(),
{
    if blocks.len() > 0 {
        lemma_blocks_used_bound(blocks.drop_last());
        lemma_slots_used_bound(blocks.last());
    }
}

/// The slot that a fingerprint takes in a full block.
pub open spec fn victim_of(hash: u64) -> int {
    ((hash / 0x1_0000_0000_0000) % 2) as int
}

fn victim_slot(hash: u64) -> (r: usize)
    ensures
        r == victim_of(hash),
        r < BLOCK_SLOTS,
{
    ((hash / 0x1_0000_0000_0000) % 2) as usize
}

/// A table of blocks with the number of its slots in use.
#[derive(Debug)]
pub struct Generation {
    pub started_at: u64,
    pub occupied: usize,
    pub blocks: Vec<Block>,
}

pub open spec fn block_views(blocks: Seq<Block>) -> Seq<Seq<SlotModel>> {
    blocks.map_values(|b: Block| b@)
}

impl View for Generation {
    type V = GenerationModel;

    open spec fn view(&self) -> GenerationModel {
        GenerationModel { started_at: self.started_at, blocks: block_views(self.blocks@) }
    }
}

impl Generation {
    /// The count of used slots is right, and no count can overflow.
    pub open spec fn wf(&self) -> bool {
        &&& self.occupied == blocks_used(self@.blocks)
        &&& BLOCK_SLOTS * self.blocks@.len() <= usize::MAX
    }

    pub fn new(width: usize) -> (r: Self)
        requires
            BLOCK_SLOTS * width <= usize::MAX,
        ensures
            r.wf(),
            r@ == free_generation(width as nat),
    {
        let mut blocks: Vec<Block> = Vec::new();
        for i in 0..width
            invariant
                blocks@.len() == i,
                forall|j: int| 0 <= j < i ==> (#[trigger] blocks@[j])@ == free_block(),
        {
            blocks.push(Block::default());
        }
        let r = Generation { started_at: 0, occupied: 0, blocks };
        assert(r@ =~= free_generation(width as nat));
        proof {
            lemma_blocks_used_free(width as nat);
        }
        r
    }

    /// Frees every slot. Says how many were in use.
    pub fn clear(&mut self) -> (r: usize)
        requires
            old(self).wf(),
        ensures
            final(self).wf(),
            final(self)@ == free_generation(old(self).blocks@.len()),
            final(self).blocks@.len() == old(self).blocks@.len(),
            r == blocks_used(old(self)@.blocks),
    {
        let evicted = self.occupied;
        let n = self.blocks.len();
        for i in 0..n
            invariant
                n == self.blocks@.len(),
                n == old(self).blocks@.len(),
                forall|j: int| 0 <= j < i ==> (#[trigger] self.blocks@[j])@ == free_block(),
        {
            self.blocks.set(i, Block::default());
        }
        self.started_at = 0;
        self.occupied = 0;
        assert(self@ =~= free_generation(n as nat));
        proof {
            lemma_blocks_used_free(n as nat);
        }
        evicted
    }

    /// Puts a fingerprint into one block.
    pub fn insert(&mut self, fp: ArticleFingerprint, bits: usize, bucket: LocalBlockIndex) -> (r:
        InsertOutcome)
        requires
            old(self).wf(),
            fp.hash != 0,
            bucket.value < old(self).blocks@.len(),
        ensures
            final(self).wf(),
            final(self).started_at == old(self).started_at,
            final(self).blocks@.len() == old(self).blocks@.len(),
            ({
                let i = bucket.value as int;
                let (after, outcome) = block_insert(
                    old(self)@.blocks[i],
                    fp,
                    bits,
                    victim_of(fp.hash),
                );
                &&& final(self)@.blocks == old(self)@.blocks.update(i, after)
                &&& r == outcome
            }),
    {
        let ghost before = self@.blocks;
        let i = bucket.value;
        let mut block = self.blocks[i];
        let outcome = block.insert(fp.hash, fp.tag, bits, victim_slot(fp.hash));
        self.blocks.set(i, block);
        proof {
            assert(block_views(self.blocks@) =~= before.update(i as int, block@));
            lemma_blocks_used_update(before, i as int, block@);
            lemma_insert_used(before[i as int], fp, bits, victim_of(fp.hash));
            let after = block_views(self.blocks@);
            assert forall|j: int| 0 <= j < after.len() implies (#[trigger] after[j]).len()
                == BLOCK_SLOTS by {}
            lemma_blocks_used_bound(after);
        }
        if let InsertOutcome::Inserted = outcome {
            self.occupied = self.occupied + 1;
        }
        outcome
    }
}

// ---------------------------------------------------------------------------
// Filters
// ---------------------------------------------------------------------------

/// A ring of generations of `width` blocks each.
#[verifier::ext_equal]
pub struct FilterModel {
    pub generations: Seq<GenerationModel>,
    /// The generation that facts go into.
    pub current: int,
    /// How many generations count, the current one and those before it.
    pub live: nat,
    /// Milliseconds between two turns of the ring; the largest value stands for
    /// never, and zero for no retention at all.
    pub interval: u64,
    /// When the ring turns next; zero for no such moment.
    pub next_rotation_at: u64,
    pub width: nat,
}

pub open spec fn used_in(generations: Seq<GenerationModel>) -> nat
    decreases generations.len(),
{
    if generations.len() == 0 {
        0
    } else {
        used_in(generations.drop_last()) + blocks_used(generations.last().blocks)
    }
}

impl FilterModel {
    pub open spec fn wf(self) -> bool {
        &&& self.generations.len() > 0
        &&& 0 <= self.current < self.generations.len()
        &&& self.live <= self.generations.len()
        &&& forall|i: int| #![trigger self.generations[i]]
            0 <= i < self.generations.len() ==> self.generations[i].blocks.len() == self.width
        &&& forall|i: int, j: int| #![trigger self.generations[i].blocks[j]]
            0 <= i < self.generations.len() && 0 <= j < self.width
                ==> self.generations[i].blocks[j].len() == BLOCK_SLOTS
        &&& self.live == 0 ==> forall|i: int| #![trigger self.generations[i]]
            0 <= i < self.generations.len() ==> self.generations[i] == free_generation(self.width)
    }

    /// The `k`-th generation back from the current one.
    pub open spec fn back(self, k: int) -> int {
        (self.current + self.generations.len() - k) % (self.generations.len() as int)
    }

    /// The ring one turn on: the next generation, emptied, becomes current.
    pub open spec fn turned(self) -> FilterModel {
        let next = (self.current + 1) % (self.generations.len() as int);
        FilterModel {
            current: next,
            generations: self.generations.update(next, free_generation(self.width)),
            ..self
        }
    }

    pub open spec fn turned_times(self, n: nat) -> FilterModel
        decreases n,
    {
        if n == 0 {
            self
        } else {
            self.turned_times((n - 1) as nat).turned()
        }
    }

    /// How many turns are due at `now`.
    pub open spec fn turns_due(self, now: u64) -> nat {
        if self.interval == 0 || self.interval == u64::MAX || self.live == 0
            || self.next_rotation_at == 0 || now < self.next_rotation_at {
            0
        } else {
            let due = 1 + (now - self.next_rotation_at) / (self.interval as int);
            if due < self.generations.len() {
                due as nat
            } else {
                self.generations.len()
            }
        }
    }

    /// The filter at `now`, all due turns taken.
    pub open spec fn rotated(self, now: u64) -> FilterModel {
        if self.width == 0 {
            self
        } else if self.interval == 0 {
            self.emptied()
        } else {
            let n = self.turns_due(now);
            if n == 0 {
                self
            } else {
                let next = self.next_rotation_at + n * self.interval;
                let live = self.live + n;
                FilterModel {
                    live: if live < self.generations.len() {
                        live
                    } else {
                        self.generations.len()
                    },
                    next_rotation_at: if next < u64::MAX {
                        next as u64
                    } else {
                        u64::MAX
                    },
                    ..self.turned_times(n)
                }
            }
        }
    }

    /// The filter without any fact.
    pub open spec fn emptied(self) -> FilterModel {
        FilterModel {
            generations: Seq::new(
                self.generations.len(),
                |i: int| free_generation(self.width),
            ),
            current: 0,
            live: 0,
            next_rotation_at: 0,
            ..self
        }
    }

    /// Union of the bitmaps under the fingerprint in the `k` latest
    /// generations.
    pub open spec fn bits_in(self, fp: ArticleFingerprint, bucket: int, k: nat) -> usize
        decreases k,
    {
        if k == 0 {
            0
        } else {
            self.bits_in(fp, bucket, (k - 1) as nat) | slots_missing(
                self.generations[self.back(k - 1)].blocks[bucket],
                fp.hash,
                fp.tag,
            )
        }
    }

    /// The bitmap that the filter holds for the fingerprint.
    pub open spec fn bits_of(self, fp: ArticleFingerprint, bucket: int) -> usize {
        if self.width == 0 {
            0
        } else {
            self.bits_in(fp, bucket, self.live)
        }
    }

    /// The next turn of a ring whose current generation started at `start`.
    pub open spec fn turn_after(self, start: u64) -> u64 {
        if self.interval == 0 || self.interval == u64::MAX {
            0
        } else if start + self.interval > u64::MAX {
            u64::MAX
        } else {
            (start + self.interval) as u64
        }
    }

    /// The filter with its current generation started, at `now` if not before.
    pub open spec fn started(self, now: u64) -> FilterModel {
        let g = self.generations[self.current];
        if g.started_at != 0 {
            self
        } else {
            FilterModel {
                generations: self.generations.update(
                    self.current,
                    GenerationModel { started_at: now, ..g },
                ),
                live: if self.live < 1 {
                    1
                } else {
                    self.live
                },
                next_rotation_at: self.turn_after(now),
                ..self
            }
        }
    }

    /// The filter with the bits put under the fingerprint in generation `g`.
    pub open spec fn with_bits(self, g: int, fp: ArticleFingerprint, bucket: int, bits: usize) -> FilterModel {
        let old = self.generations[g];
        let block = block_insert(old.blocks[bucket], fp, bits, victim_of(fp.hash)).0;
        FilterModel {
            generations: self.generations.update(
                g,
                GenerationModel { blocks: old.blocks.update(bucket, block), ..old },
            ),
            ..self
        }
    }

    /// What putting the bits there does to the slots.
    pub open spec fn outcome_at(self, g: int, fp: ArticleFingerprint, bucket: int, bits: usize) -> InsertOutcome {
        block_insert(self.generations[g].blocks[bucket], fp, bits, victim_of(fp.hash)).1
    }

    /// Is a fact with these bits kept at all?
    pub open spec fn keeps(self, bits: usize) -> bool {
        self.width != 0 && bits != 0 && self.interval != 0
    }

    /// The filter after a fact was recorded at `now`.
    pub open spec fn recorded(self, fp: ArticleFingerprint, bits: usize, bucket: int, now: u64) -> FilterModel {
        let f = self.rotated(now);
        if f.keeps(bits) {
            f.started(now).with_bits(f.current, fp, bucket, bits)
        } else {
            f
        }
    }
}

proof fn lemma_used_in_update(generations: Seq<GenerationModel>, i: int, g: GenerationModel)
    requires
        0 <= i < generations.len(),
    ensures
        used_in(generations.update(i, g)) == used_in(generations) - blocks_used(
            generations[i].blocks,
        ) + blocks_used(g.blocks),
    decreases generations.len(),
{
    let t = generations.update(i, g);
    if i == generations.len() - 1 {
        assert(t.drop_last() =~= generations.drop_last());
    } else {
        lemma_used_in_update(generations.drop_last(), i, g);
        assert(t.drop_last() =~= generations.drop_last().update(i, g));
    }
}

proof fn lemma_used_in_free(generations: Seq<GenerationModel>, width: nat)
    requires
        forall|i: int| #![trigger generations[i]]
            0 <= i < generations.len() ==> generations[i] == free_generation(width),
    ensures
        used_in(generations) == 0,
    decreases generations.len(),
{
    if generations.len() > 0 {
        lemma_used_in_free(generations.drop_last(), width);
        lemma_blocks_used_free(width);
    }
}

proof fn lemma_used_in_bound(generations: Seq<GenerationModel>, width: nat)
    requires
        forall|i: int| #![trigger generations[i]]
            0 <= i < generations.len() ==> blocks_used(generations[i].blocks) <= BLOCK_SLOTS
                * width,
    ensures
        used_in(generations) <= generations.len() * (BLOCK_SLOTS * width),
    decreases generations.len(),
{
    if generations.len() > 0 {
        lemma_used_in_bound(generations.drop_last(), width);
        let n = generations.len();
        assert(n * (BLOCK_SLOTS * width) == (n - 1) * (BLOCK_SLOTS * width) + BLOCK_SLOTS * width)
            by (nonlinear_arith)
            requires
                n > 0,
        ;
        assert(generations.last() == generations[n - 1]);
    }
}

/// Milliseconds from `then` to `now`, none for a moment yet to come.
pub open spec fn elapsed(now: u64, then: u64) -> u64 {
    if now >= then {
        (now - then) as u64
    } else {
        0
    }
}

/// Facts in the slots, with the moment that stands for all of them.
pub open spec fn slot_entries(slots: Seq<SlotModel>, started_at: u64) -> Seq<PersistedEntry>
    decreases slots.len(),
{
    if slots.len() == 0 {
        Seq::empty()
    } else {
        let s = slots.last();
        let before = slot_entries(slots.drop_last(), started_at);
        if s.hash == 0 || s.missing == 0 {
            before
        } else {
            before.push(
                PersistedEntry {
                    hash: s.hash,
                    tag: s.tag,
                    missing: s.missing,
                    inserted_at: started_at,
                },
            )
        }
    }
}

pub open spec fn block_entries(blocks: Seq<Seq<SlotModel>>, started_at: u64) -> Seq<PersistedEntry>
    decreases blocks.len(),
{
    if blocks.len() == 0 {
        Seq::empty()
    } else {
        block_entries(blocks.drop_last(), started_at) + slot_entries(blocks.last(), started_at)
    }
}

/// Last of the generations that started latest; `-1` where none started.
pub open spec fn latest_started(generations: Seq<GenerationModel>) -> int
    decreases generations.len(),
{
    if generations.len() == 0 {
        -1
    } else {
        let p = latest_started(generations.drop_last());
        let s = generations.last().started_at;
        if s != 0 && (p < 0 || generations[p].started_at <= s) {
            generations.len() - 1
        } else {
            p
        }
    }
}

impl FilterModel {
    /// Facts in the `k` latest generations, the current one first.
    pub open spec fn entries_in(self, k: nat) -> Seq<PersistedEntry>
        decreases k,
    {
        if k == 0 {
            Seq::empty()
        } else {
            let g = self.generations[self.back(k - 1)];
            self.entries_in((k - 1) as nat) + block_entries(g.blocks, g.started_at)
        }
    }

    /// How many generations back a fact of this age belongs.
    pub open spec fn age_in_turns(self, now: u64, then: u64) -> nat {
        let turns = if self.interval == 0 || self.interval == u64::MAX {
            0
        } else {
            elapsed(now, then) / self.interval
        };
        if turns < self.generations.len() {
            turns as nat
        } else {
            (self.generations.len() - 1) as nat
        }
    }

    /// Does a stored fact still count at `now`?
    pub open spec fn accepts(self, entry: PersistedEntry, now: u64, ttl: u64) -> bool {
        &&& self.width != 0
        &&& entry.hash != 0
        &&& entry.missing != 0
        &&& elapsed(now, entry.inserted_at) < ttl
    }

    /// The generation of a stored fact, made to start no later than the fact.
    pub open spec fn aged(self, entry: PersistedEntry, now: u64) -> FilterModel {
        let k = self.age_in_turns(now, entry.inserted_at);
        let i = self.back(k as int);
        let g = self.generations[i];
        let start = if g.started_at == 0 || entry.inserted_at < g.started_at {
            entry.inserted_at
        } else {
            g.started_at
        };
        FilterModel {
            generations: self.generations.update(
                i,
                GenerationModel { started_at: start, ..g },
            ),
            live: if self.live < k + 1 {
                k + 1
            } else {
                self.live
            },
            ..self
        }
    }

    /// The filter after a stored fact was taken back at its own age.
    pub open spec fn restored(self, entry: PersistedEntry, bucket: int, now: u64, ttl: u64) -> FilterModel {
        if self.accepts(entry, now, ttl) {
            let i = self.back(self.age_in_turns(now, entry.inserted_at) as int);
            let fp = ArticleFingerprint { hash: entry.hash, tag: entry.tag };
            self.aged(entry, now).with_bits(i, fp, bucket, entry.missing)
        } else {
            self
        }
    }

    /// The filter with the generation that started latest as its current one.
    pub open spec fn reanchored(self) -> FilterModel {
        let i = latest_started(self.generations);
        if i < 0 {
            self
        } else {
            FilterModel {
                current: i,
                next_rotation_at: self.turn_after(self.generations[i].started_at),
                ..self
            }
        }
    }

    /// Slots in use in the `k` latest generations.
    pub open spec fn used_back(self, k: nat) -> nat
        decreases k,
    {
        if k == 0 {
            0
        } else {
            self.used_back((k - 1) as nat) + blocks_used(
                self.generations[self.back(k - 1)].blocks,
            )
        }
    }
}

/// The bits found for a fingerprint, and the facts that aged out on the way.
#[derive(Clone, Copy, Debug, PartialEq, Eq, Structural)]
pub struct LookupResult {
    pub missing_bits: usize,
    pub evicted: usize,
}

/// The facts of a filter, and those that aged out on the way.
#[derive(Debug)]
pub struct SnapshotResult {
    pub entries: Vec<PersistedEntry>,
    pub evicted: usize,
}

pub open spec fn generation_views(generations: Seq<Generation>) -> Seq<GenerationModel> {
    generations.map_values(|g: Generation| g@)
}

/// A rotating blocked fingerprint filter.
#[derive(Debug)]
pub struct FilterState {
    pub generations: Vec<Generation>,
    pub current_generation: usize,
    pub blocks_per_generation: usize,
    pub live_generations: usize,
    pub rotation_interval_millis: u64,
    pub next_rotation_at: u64,
}

impl View for FilterState {
    type V = FilterModel;

    open spec fn view(&self) -> FilterModel {
        FilterModel {
            generations: generation_views(self.generations@),
            current: self.current_generation as int,
            live: self.live_generations as nat,
            interval: self.rotation_interval_millis,
            next_rotation_at: self.next_rotation_at,
            width: self.blocks_per_generation as nat,
        }
    }
}

impl FilterState {
    pub open spec fn wf(&self) -> bool {
        &&& self@.wf()
        &&& self.generations@.len() * (BLOCK_SLOTS * self.blocks_per_generation) <= usize::MAX
        &&& forall|i: int| #![trigger self.generations@[i]]
            0 <= i < self.generations@.len() ==> self.generations@[i].wf()
    }

    proof fn lemma_used_fits(&self)
        requires
            self.wf(),
        ensures
            used_in(self@.generations) <= usize::MAX,
            forall|i: int| #![trigger self@.generations[i]]
                0 <= i < self@.generations.len() ==> blocks_used(self@.generations[i].blocks)
                    <= BLOCK_SLOTS * self.blocks_per_generation,
    {
        let g = self@.generations;
        assert forall|i: int| #![trigger g[i]] 0 <= i < g.len() implies blocks_used(g[i].blocks)
            <= BLOCK_SLOTS * self.blocks_per_generation by {
            assert(self.generations@[i].wf());
            assert(g[i].blocks.len() == self@.width);
            assert forall|j: int| 0 <= j < g[i].blocks.len() implies (
            #[trigger] g[i].blocks[j]).len() == BLOCK_SLOTS by {}
            lemma_blocks_used_bound(g[i].blocks);
        }
        lemma_used_in_bound(g, self.blocks_per_generation as nat);
    }

    /// An empty filter of at least one generation.
    pub fn new(
        blocks_per_generation: usize,
        generation_count: usize,
        rotation_interval_millis: u64,
    ) -> (r: Self)
        requires
            (if generation_count == 0 { 1 } else { generation_count as int }) * (BLOCK_SLOTS
                * blocks_per_generation) <= usize::MAX,
        ensures
            r.wf(),
            r@ == (FilterModel {
                generations: Seq::new(
                    if generation_count == 0 {
                        1
                    } else {
                        generation_count as nat
                    },
                    |i: int| free_generation(blocks_per_generation as nat),
                ),
                current: 0,
                live: 0,
                interval: rotation_interval_millis,
                next_rotation_at: 0,
                width: blocks_per_generation as nat,
            }),
    {
        let count: usize = if generation_count == 0 {
            1
        } else {
            generation_count
        };
        assert(BLOCK_SLOTS * blocks_per_generation <= count * (BLOCK_SLOTS
            * blocks_per_generation)) by (nonlinear_arith)
            requires
                count >= 1,
        ;
        let mut generations: Vec<Generation> = Vec::new();
        for i in 0..count
            invariant
                BLOCK_SLOTS * blocks_per_generation <= usize::MAX,
                generations@.len() == i,
                forall|j: int| #![trigger generations@[j]]
                    0 <= j < i ==> generations@[j].wf() && generations@[j]@ == free_generation(
                        blocks_per_generation as nat,
                    ),
        {
            generations.push(Generation::new(blocks_per_generation));
        }
        let r = FilterState {
            generations,
            current_generation: 0,
            blocks_per_generation,
            live_generations: 0,
            rotation_interval_millis,
            next_rotation_at: 0,
        };
        assert(r@.generations =~= Seq::new(
            count as nat,
            |i: int| free_generation(blocks_per_generation as nat),
        ));
        r
    }

    pub fn blocks_per_generation(&self) -> (r: usize)
        ensures
            r == self@.width,
    {
        self.blocks_per_generation
    }

    pub fn generation_count(&self) -> (r: usize)
        ensures
            r == self@.generations.len(),
    {
        self.generations.len()
    }

    fn back_index(&self, k: usize) -> (r: usize)
        requires
            self.wf(),
            k < self.generations@.len(),
        ensures
            r == self@.back(k as int),
            r < self.generations@.len(),
    {
        let n = self.generations.len();
        let c = self.current_generation;
        proof {
            let m = n as int;
            if c >= k {
                assert((c + m - k) % m == c - k) by (nonlinear_arith)
                    requires
                        0 <= c - k < m,
                ;
            } else {
                assert((c + m - k) % m == c + m - k) by (nonlinear_arith)
                    requires
                        0 <= c + m - k < m,
                ;
            }
        }
        if c >= k {
            c - k
        } else {
            c + (n - k)
        }
    }

    /// Slots in use in the generations that count.
    pub fn occupied_slots(&self) -> (r: usize)
        requires
            self.wf(),
        ensures
            r == self@.used_back(self@.live),
    {
        let mut total: usize = 0;
        proof {
            self.lemma_used_fits();
        }
        for k in 0..self.live_generations
            invariant
                self.wf(),
                total == self@.used_back(k as nat),
                total <= k * (BLOCK_SLOTS * self.blocks_per_generation),
                forall|i: int| #![trigger self@.generations[i]]
                    0 <= i < self@.generations.len() ==> blocks_used(self@.generations[i].blocks)
                        <= BLOCK_SLOTS * self.blocks_per_generation,
        {
            let i = self.back_index(k);
            proof {
                assert(self.generations@[i as int].wf());
                let g = self@.generations[i as int];
                assert(g == self.generations@[i as int]@);
                let w = BLOCK_SLOTS * self.blocks_per_generation;
                let n = self.generations@.len() as int;
                assert((k + 1) * w == k * w + w) by (nonlinear_arith);
                assert((k + 1) * w <= n * w) by (nonlinear_arith)
                    requires
                        k + 1 <= n,
                        w >= 0,
                ;
            }
            total = total + self.generations[i].occupied;
        }
        total
    }

    fn clear_generation(&mut self, i: usize) -> (r: usize)
        requires
            old(self).wf(),
            i < old(self).generations@.len(),
        ensures
            final(self).wf(),
            final(self)@ == (FilterModel {
                generations: old(self)@.generations.update(
                    i as int,
                    free_generation(old(self)@.width),
                ),
                ..old(self)@
            }),
            final(self).generations@.len() == old(self).generations@.len(),
            r == blocks_used(old(self)@.generations[i as int].blocks),
            r == used_in(old(self)@.generations) - used_in(final(self)@.generations),
    {
        let ghost before = self@;
        assert(self.generations@[i as int].wf());
        assert(before.generations[i as int].blocks.len() == before.width);
        let evicted = self.generations[i].clear();
        proof {
            lemma_used_in_update(before.generations, i as int, free_generation(before.width));
            lemma_blocks_used_free(before.width);
            assert(self@.generations =~= before.generations.update(
                i as int,
                free_generation(before.width),
            ));
        }
        evicted
    }

    fn clear_all(&mut self) -> (r: usize)
        requires
            old(self).wf(),
        ensures
            final(self).wf(),
            final(self)@ == (FilterModel {
                generations: old(self)@.emptied().generations,
                ..old(self)@
            }),
            final(self).generations@.len() == old(self).generations@.len(),
            r == used_in(old(self)@.generations),
            used_in(final(self)@.generations) == 0,
    {
        let ghost before = self@;
        let mut evicted: usize = 0;
        proof {
            self.lemma_used_fits();
        }
        let n = self.generations.len();
        for i in 0..n
            invariant
                self.wf(),
                before == old(self)@,
                used_in(before.generations) <= usize::MAX,
                n == self.generations@.len(),
                n == before.generations.len(),
                self@ == (FilterModel { generations: self@.generations, ..before }),
                forall|j: int| #![trigger self@.generations[j]]
                    0 <= j < i ==> self@.generations[j] == free_generation(before.width),
                forall|j: int| #![trigger self@.generations[j]]
                    i <= j < n ==> self@.generations[j] == before.generations[j],
                evicted == used_in(before.generations) - used_in(self@.generations),
        {
            let e = self.clear_generation(i);
            evicted = evicted + e;
        }
        proof {
            lemma_used_in_free(self@.generations, before.width);
            assert(self@.generations =~= before.emptied().generations);
        }
        evicted
    }

    /// Drops every fact.
    pub fn reset(&mut self)
        requires
            old(self).wf(),
        ensures
            final(self).wf(),
            final(self)@ == old(self)@.emptied(),
    {
        self.clear_all();
        self.current_generation = 0;
        self.live_generations = 0;
        self.next_rotation_at = 0;
        assert(self@ =~= old(self)@.emptied());
    }

    fn turn(&mut self) -> (r: usize)
        requires
            old(self).wf(),
        ensures
            final(self).wf(),
            final(self)@ == old(self)@.turned(),
            final(self).generations@.len() == old(self).generations@.len(),
            r == used_in(old(self)@.generations) - used_in(final(self)@.generations),
    {
        let n = self.generations.len();
        let next: usize = if self.current_generation + 1 == n {
            0
        } else {
            self.current_generation + 1
        };
        proof {
            let c = self.current_generation as int;
            let m = n as int;
            if c + 1 == m {
                assert((c + 1) % m == 0) by (nonlinear_arith)
                    requires
                        c + 1 == m,
                        m > 0,
                ;
            } else {
                assert((c + 1) % m == c + 1) by (nonlinear_arith)
                    requires
                        0 <= c + 1 < m,
                ;
            }
        }
        let evicted = self.clear_generation(next);
        self.current_generation = next;
        assert(self@ =~= old(self)@.turned());
        evicted
    }

    /// Takes the turns that are due at `now`. Says how many facts that cost.
    pub fn rotate_if_needed(&mut self, now: u64) -> (r: usize)
        requires
            old(self).wf(),
        ensures
            final(self).wf(),
            final(self)@ == old(self)@.rotated(now),
            final(self).generations@.len() == old(self).generations@.len(),
            r == used_in(old(self)@.generations) - used_in(final(self)@.generations),
    {
        let ghost before = self@;
        if self.blocks_per_generation == 0 {
            return 0;
        }
        let interval = self.rotation_interval_millis;
        if interval == 0 {
            let evicted = self.clear_all();
            self.current_generation = 0;
            self.live_generations = 0;
            self.next_rotation_at = 0;
            assert(self@ =~= before.emptied());
            return evicted;
        }
        if interval == u64::MAX {
            return 0;
        }
        if self.live_generations == 0 || self.next_rotation_at == 0 || now < self.next_rotation_at {
            return 0;
        }
        let scheduled_at = self.next_rotation_at;
        let n = self.generations.len();
        let behind: u64 = (now - scheduled_at) / interval;
        assert((now - scheduled_at) as int / interval as int <= (now - scheduled_at) as int)
            by (nonlinear_arith)
            requires
                interval >= 1,
                now >= scheduled_at,
        ;
        let rotations: usize = if 1 + behind < n as u64 {
            (1 + behind) as usize
        } else {
            n
        };
        assert(rotations == before.turns_due(now));
        proof {
            self.lemma_used_fits();
        }
        let mut evicted: usize = 0;
        for i in 0..rotations
            invariant
                self.wf(),
                n == self.generations@.len(),
                used_in(before.generations) <= usize::MAX,
                self@ == before.turned_times(i as nat),
                evicted == used_in(before.generations) - used_in(self@.generations),
        {
            let e = self.turn();
            evicted = evicted + e;
        }
        proof {
            lemma_turned_fields(before, rotations as nat);
        }
        self.live_generations = if self.live_generations < n - rotations {
            self.live_generations + rotations
        } else {
            n
        };
        self.next_rotation_at = match (rotations as u64).checked_mul(interval) {
            Some(span) => scheduled_at.saturating_add(span),
            None => u64::MAX,
        };
        proof {
            assert(self@.next_rotation_at == before.rotated(now).next_rotation_at);
            assert(self@ =~= before.rotated(now));
        }
        evicted
    }
}

/// Turning the ring changes nothing but its generations and the current one.
pub(crate) proof fn lemma_turned_fields(f: FilterModel, n: nat)
    requires
        f.generations.len() > 0,
    ensures
        f.turned_times(n).live == f.live,
        f.turned_times(n).interval == f.interval,
        f.turned_times(n).next_rotation_at == f.next_rotation_at,
        f.turned_times(n).width == f.width,
        f.turned_times(n).generations.len() == f.generations.len(),
    decreases n,
{
    if n > 0 {
        lemma_turned_fields(f, (n - 1) as nat);
        vstd::arithmetic::div_mod::lemma_mod_bound(
            f.turned_times((n - 1) as nat).current + 1,
            f.generations.len() as int,
        );
    }
}

impl FilterState {
    /// The bits that the filter holds for the fingerprint at `now`.
    pub fn lookup_missing_bits(
        &mut self,
        fingerprint: ArticleFingerprint,
        block_index: LocalBlockIndex,
        now: u64,
    ) -> (r: LookupResult)
        requires
            old(self).wf(),
            block_index.value < old(self).blocks_per_generation || old(self).blocks_per_generation
                == 0,
        ensures
            final(self).wf(),
            final(self)@ == old(self)@.rotated(now),
            final(self).generations@.len() == old(self).generations@.len(),
            r.missing_bits == final(self)@.bits_of(fingerprint, block_index.value as int),
            r.evicted == used_in(old(self)@.generations) - used_in(final(self)@.generations),
    {
        let ghost before = self@;
        let evicted = self.rotate_if_needed(now);
        proof {
            lemma_rotated_fields(before, now);
        }
        if self.blocks_per_generation == 0 {
            return LookupResult { missing_bits: 0, evicted };
        }
        let mut missing_bits: usize = 0;
        for k in 0..self.live_generations
            invariant
                self.wf(),
                block_index.value < self.blocks_per_generation,
                missing_bits == self@.bits_in(fingerprint, block_index.value as int, k as nat),
        {
            let i = self.back_index(k);
            proof {
                assert(self@.generations[i as int].blocks.len() == self@.width);
                assert(self@.generations[i as int].blocks[block_index.value as int]
                    == self.generations@[i as int].blocks@[block_index.value as int]@);
            }
            let found = self.generations[i].blocks[block_index.value].missing_bits(
                fingerprint.hash,
                fingerprint.tag,
            );
            missing_bits = missing_bits | found;
        }
        LookupResult { missing_bits, evicted }
    }

    fn ensure_current_generation_started(&mut self, now: u64)
        requires
            old(self).wf(),
        ensures
            final(self).wf(),
            final(self)@ == old(self)@.started(now),
            final(self).generations@.len() == old(self).generations@.len(),
    {
        let ghost before = self@;
        let c = self.current_generation;
        assert(self.generations@[c as int].wf());
        if self.generations[c].started_at != 0 {
            return;
        }
        self.generations[c].started_at = now;
        if self.live_generations < 1 {
            self.live_generations = 1;
        }
        self.next_rotation_at = self.turn_after(now);
        proof {
            assert(self@.generations =~= before.generations.update(
                c as int,
                GenerationModel { started_at: now, ..before.generations[c as int] },
            ));
            assert(self@ =~= before.started(now));
        }
    }

    fn turn_after(&self, start: u64) -> (r: u64)
        ensures
            r == self@.turn_after(start),
    {
        let interval = self.rotation_interval_millis;
        if interval == 0 || interval == u64::MAX {
            0
        } else {
            start.saturating_add(interval)
        }
    }

    fn put_bits(
        &mut self,
        g: usize,
        fp: ArticleFingerprint,
        bits: usize,
        bucket: LocalBlockIndex,
    ) -> (r: InsertOutcome)
        requires
            old(self).wf(),
            g < old(self).generations@.len(),
            old(self).live_generations > 0,
            fp.hash != 0,
            bucket.value < old(self).blocks_per_generation,
        ensures
            final(self).wf(),
            final(self)@ == old(self)@.with_bits(g as int, fp, bucket.value as int, bits),
            final(self).generations@.len() == old(self).generations@.len(),
            r == old(self)@.outcome_at(g as int, fp, bucket.value as int, bits),
    {
        let ghost before = self@;
        assert(self.generations@[g as int].wf());
        assert(before.generations[g as int].blocks.len() == before.width);
        let outcome = self.generations[g].insert(fp, bits, bucket);
        proof {
            let old_g = before.generations[g as int];
            let block = block_insert(
                old_g.blocks[bucket.value as int],
                fp,
                bits,
                victim_of(fp.hash),
            ).0;
            assert(self@.generations =~= before.generations.update(
                g as int,
                GenerationModel {
                    blocks: old_g.blocks.update(bucket.value as int, block),
                    ..old_g
                },
            ));
            assert(self@ =~= before.with_bits(g as int, fp, bucket.value as int, bits));
        }
        outcome
    }

    /// Records at `now` that the providers in `missing_bits` miss the article.
    /// Says how many facts were lost on the way.
    pub fn insert_missing_bits(
        &mut self,
        fingerprint: ArticleFingerprint,
        missing_bits: usize,
        block_index: LocalBlockIndex,
        now: u64,
    ) -> (r: usize)
        requires
            old(self).wf(),
            fingerprint.hash != 0,
            block_index.value < old(self).blocks_per_generation || old(self).blocks_per_generation
                == 0,
        ensures
            final(self).wf(),
            final(self)@ == old(self)@.recorded(
                fingerprint,
                missing_bits,
                block_index.value as int,
                now,
            ),
            final(self).generations@.len() == old(self).generations@.len(),
            r == old(self)@.lost_by_recording(
                fingerprint,
                missing_bits,
                block_index.value as int,
                now,
            ),
    {
        let ghost before = self@;
        proof {
            self.lemma_used_fits();
        }
        let evicted = self.rotate_if_needed(now);
        proof {
            lemma_rotated_fields(before, now);
        }
        if self.blocks_per_generation == 0 || missing_bits == 0 || self.rotation_interval_millis
            == 0 {
            return evicted;
        }
        self.ensure_current_generation_started(now);
        let c = self.current_generation;
        match self.put_bits(c, fingerprint, missing_bits, block_index) {
            InsertOutcome::Replaced => evicted.saturating_add(1),
            _ => evicted,
        }
    }

    /// Takes back a stored fact at its own age, if it still counts at `now`.
    /// Says how many facts were lost for it.
    pub fn restore_entry(
        &mut self,
        entry: PersistedEntry,
        block_index: LocalBlockIndex,
        now: u64,
        ttl_millis: CacheTtlMillis,
    ) -> (r: usize)
        requires
            old(self).wf(),
            block_index.value < old(self).blocks_per_generation || old(self).blocks_per_generation
                == 0,
        ensures
            final(self).wf(),
            final(self)@ == old(self)@.restored(
                entry,
                block_index.value as int,
                now,
                ttl_millis.value,
            ),
            final(self).generations@.len() == old(self).generations@.len(),
            final(self).blocks_per_generation == old(self).blocks_per_generation,
            r == (if old(self)@.restoring_replaces(
                entry,
                block_index.value as int,
                now,
                ttl_millis.value,
            ) {
                1int
            } else {
                0int
            }),
    {
        let ghost before = self@;
        let age = now.saturating_sub(entry.inserted_at);
        if self.blocks_per_generation == 0 || entry.hash == 0 || entry.missing == 0 || age
            >= ttl_millis.get() {
            return 0;
        }
        let interval = self.rotation_interval_millis;
        let n = self.generations.len();
        let turns: u64 = if interval == 0 || interval == u64::MAX {
            0
        } else {
            age / interval
        };
        let offset: usize = if turns < n as u64 {
            turns as usize
        } else {
            n - 1
        };
        assert(offset == before.age_in_turns(now, entry.inserted_at));
        let g = self.back_index(offset);
        assert(self.generations@[g as int].wf());
        let start = self.generations[g].started_at;
        if start == 0 || entry.inserted_at < start {
            self.generations[g].started_at = entry.inserted_at;
        }
        if self.live_generations < offset + 1 {
            self.live_generations = offset + 1;
        }
        proof {
            assert(self@.generations =~= before.aged(entry, now).generations);
            assert(self@ =~= before.aged(entry, now));
        }
        let fp = ArticleFingerprint { hash: entry.hash, tag: entry.tag };
        match self.put_bits(g, fp, entry.missing, block_index) {
            InsertOutcome::Replaced => 1,
            _ => 0,
        }
    }

    /// Makes the generation that started latest the current one.
    pub fn reanchor_current_generation(&mut self)
        requires
            old(self).wf(),
        ensures
            final(self).wf(),
            final(self)@ == old(self)@.reanchored(),
            final(self).generations@.len() == old(self).generations@.len(),
            final(self).blocks_per_generation == old(self).blocks_per_generation,
    {
        let ghost gens = self@.generations;
        let mut best: Option<usize> = None;
        assert(gens.take(0) =~= Seq::<GenerationModel>::empty());
        for i in 0..self.generations.len()
            invariant
                gens == self@.generations,
                match best {
                    Some(b) => b == latest_started(gens.take(i as int)) && b < i,
                    None => latest_started(gens.take(i as int)) < 0,
                },
        {
            assert(gens.take(i + 1).drop_last() =~= gens.take(i as int));
            assert(gens.take(i + 1).last() == gens[i as int]);
            let s = self.generations[i].started_at;
            match best {
                Some(b) => {
                    assert(gens.take(i + 1)[b as int] == gens[b as int]);
                    if s != 0 && self.generations[b].started_at <= s {
                        best = Some(i);
                    }
                },
                None => {
                    if s != 0 {
                        best = Some(i);
                    }
                },
            }
        }
        assert(gens.take(gens.len() as int) =~= gens);
        if let Some(b) = best {
            self.current_generation = b;
            let start = self.generations[b].started_at;
            self.next_rotation_at = self.turn_after(start);
            assert(self@ =~= old(self)@.reanchored());
        }
    }

    /// The facts of the filter at `now`.
    pub fn snapshot_entries(&mut self, now: u64) -> (r: SnapshotResult)
        requires
            old(self).wf(),
        ensures
            final(self).wf(),
            final(self)@ == old(self)@.rotated(now),
            final(self).generations@.len() == old(self).generations@.len(),
            r.entries@ == final(self)@.entries_in(final(self)@.live),
            r.evicted == used_in(old(self)@.generations) - used_in(final(self)@.generations),
    {
        let evicted = self.rotate_if_needed(now);
        let mut entries: Vec<PersistedEntry> = Vec::new();
        for k in 0..self.live_generations
            invariant
                self.wf(),
                entries@ == self@.entries_in(k as nat),
        {
            let i = self.back_index(k);
            let ghost before = entries@;
            assert(self@.generations[i as int] == self.generations@[i as int]@);
            let generation = &self.generations[i];
            let ghost blocks = generation@.blocks;
            let started_at = generation.started_at;
            assert(blocks.take(0) =~= Seq::<Seq<SlotModel>>::empty());
            for b in 0..generation.blocks.len()
                invariant
                    blocks == generation@.blocks,
                    entries@ == before + block_entries(blocks.take(b as int), started_at),
            {
                let ghost so_far = entries@;
                let block = &generation.blocks[b];
                assert(blocks[b as int] == block@);
                assert(blocks.take(b + 1).drop_last() =~= blocks.take(b as int));
                assert(block@.take(0) =~= Seq::<SlotModel>::empty());
                for s in 0..BLOCK_SLOTS
                    invariant
                        entries@ == so_far + slot_entries(block@.take(s as int), started_at),
                {
                    assert(block@.take(s + 1).drop_last() =~= block@.take(s as int));
                    assert(block@.take(s + 1).last() == block@[s as int]);
                    let hash = block.hashes[s];
                    let missing = block.missing[s];
                    if hash != 0 && missing != 0 {
                        entries.push(
                            PersistedEntry {
                                hash,
                                tag: block.tags[s],
                                missing,
                                inserted_at: started_at,
                            },
                        );
                    }
                    assert(entries@ =~= so_far + slot_entries(block@.take(s + 1), started_at));
                }
                assert(block@.take(BLOCK_SLOTS as int) =~= block@);
                assert(entries@ =~= before + block_entries(blocks.take(b + 1), started_at));
            }
            assert(blocks.take(blocks.len() as int) =~= blocks);
        }
        SnapshotResult { entries, evicted }
    }
}

impl FilterModel {
    /// Facts that recording a fact at `now` costs: those that age out, and one
    /// that gives up its slot.
    pub open spec fn lost_by_recording(
        self,
        fp: ArticleFingerprint,
        bits: usize,
        bucket: int,
        now: u64,
    ) -> int {
        let f = self.rotated(now);
        let aged = used_in(self.generations) - used_in(f.generations);
        if f.keeps(bits) && f.started(now).outcome_at(f.current, fp, bucket, bits)
            == InsertOutcome::Replaced && aged < usize::MAX {
            aged + 1
        } else {
            aged
        }
    }

    /// Does taking back the fact cost another one?
    pub open spec fn restoring_replaces(
        self,
        entry: PersistedEntry,
        bucket: int,
        now: u64,
        ttl: u64,
    ) -> bool {
        &&& self.accepts(entry, now, ttl)
        &&& self.aged(entry, now).outcome_at(
            self.back(self.age_in_turns(now, entry.inserted_at) as int),
            ArticleFingerprint { hash: entry.hash, tag: entry.tag },
            bucket,
            entry.missing,
        ) == InsertOutcome::Replaced
    }
}

/// Ageing a filter keeps its geometry and its interval.
pub proof fn lemma_rotated_fields(f: FilterModel, now: u64)
    requires
        f.generations.len() > 0,
    ensures
        f.rotated(now).width == f.width,
        f.rotated(now).interval == f.interval,
        f.rotated(now).generations.len() == f.generations.len(),
{
    lemma_turned_fields(f, f.turns_due(now));
}

// ---------------------------------------------------------------------------
// Laws
// ---------------------------------------------------------------------------

pub(crate) proof fn lemma_or_keeps(a: usize, b: usize, x: usize)
    requires
        a & x == x || b & x == x,
    ensures
        (a | b) & x == x,
{
    assert((a | b) & x == x) by (bit_vector)
        requires
            a & x == x || b & x == x,
    ;
}

pub(crate) proof fn lemma_slots_hold(slots: Seq<SlotModel>, i: int, hash: u64, tag: u16, bits: usize)
    requires
        0 <= i < slots.len(),
        slots[i].holds(hash, tag),
        slots[i].missing & bits == bits,
    ensures
        slots_missing(slots, hash, tag) & bits == bits,
    decreases slots.len(),
{
    let tail = if slots.last().holds(hash, tag) {
        slots.last().missing
    } else {
        0
    };
    if i < slots.len() - 1 {
        lemma_slots_hold(slots.drop_last(), i, hash, tag, bits);
    }
    lemma_or_keeps(slots_missing(slots.drop_last(), hash, tag), tail, bits);
}

/// A fingerprint that was put into a block is found in it with its bits.
pub(crate) proof fn lemma_block_insert_found(
    slots: Seq<SlotModel>,
    fp: ArticleFingerprint,
    bits: usize,
    victim: int,
)
    requires
        0 <= victim < slots.len(),
    ensures
        slots_missing(block_insert(slots, fp, bits, victim).0, fp.hash, fp.tag) & bits == bits,
{
    lemma_first_holding(slots, fp.hash, fp.tag);
    lemma_first_free(slots);
    let held = first_holding(slots, fp.hash, fp.tag);
    let free = first_free(slots);
    let after = block_insert(slots, fp, bits, victim).0;
    assert(bits & bits == bits) by (bit_vector);
    if held < slots.len() {
        lemma_or_keeps(slots[held].missing, bits, bits);
        lemma_slots_hold(after, held, fp.hash, fp.tag, bits);
    } else if free < slots.len() {
        lemma_slots_hold(after, free, fp.hash, fp.tag, bits);
    } else {
        lemma_slots_hold(after, victim, fp.hash, fp.tag, bits);
    }
}

proof fn lemma_slots_update_other(slots: Seq<SlotModel>, i: int, s: SlotModel, hash: u64, tag: u16)
    requires
        0 <= i < slots.len(),
        !slots[i].holds(hash, tag) || slots[i].missing == 0,
        !s.holds(hash, tag),
    ensures
        slots_missing(slots.update(i, s), hash, tag) == slots_missing(slots, hash, tag),
    decreases slots.len(),
{
    let t = slots.update(i, s);
    if i == slots.len() - 1 {
        assert(t.drop_last() =~= slots.drop_last());
    } else {
        lemma_slots_update_other(slots.drop_last(), i, s, hash, tag);
        assert(t.drop_last() =~= slots.drop_last().update(i, s));
    }
}

/// Putting a fingerprint into a block leaves every other fingerprint alone
/// unless it takes a slot in use.
pub(crate) proof fn lemma_block_insert_other(
    slots: Seq<SlotModel>,
    fp: ArticleFingerprint,
    bits: usize,
    victim: int,
    other: ArticleFingerprint,
)
    requires
        0 <= victim < slots.len(),
        other != fp,
        other.hash != 0,
        block_insert(slots, fp, bits, victim).1 != InsertOutcome::Replaced,
    ensures
        slots_missing(block_insert(slots, fp, bits, victim).0, other.hash, other.tag)
            == slots_missing(slots, other.hash, other.tag),
{
    lemma_first_holding(slots, fp.hash, fp.tag);
    lemma_first_free(slots);
    let held = first_holding(slots, fp.hash, fp.tag);
    let free = first_free(slots);
    let fresh = SlotModel { hash: fp.hash, tag: fp.tag, missing: bits };
    if held < slots.len() {
        let s = SlotModel { missing: slots[held].missing | bits, ..slots[held] };
        lemma_slots_update_other(slots, held, s, other.hash, other.tag);
    } else if free < slots.len() {
        lemma_slots_update_other(slots, free, fresh, other.hash, other.tag);
    }
}

impl FilterModel {
    pub(crate) proof fn lemma_back_range(self, k: int)
        requires
            self.wf(),
            0 <= k,
        ensures
            0 <= self.back(k) < self.generations.len(),
            k == 0 ==> self.back(k) == self.current,
    {
        let n = self.generations.len() as int;
        vstd::arithmetic::div_mod::lemma_mod_bound(self.current + n - k, n);
        if k == 0 {
            vstd::arithmetic::div_mod::lemma_mod_add_multiples_vanish(self.current, n);
            vstd::arithmetic::div_mod::lemma_small_mod(self.current as nat, n as nat);
        }
    }

    proof fn lemma_latest_found(self, fp: ArticleFingerprint, bucket: int, k: nat, bits: usize)
        requires
            k >= 1,
            slots_missing(self.generations[self.back(0)].blocks[bucket], fp.hash, fp.tag) & bits
                == bits,
        ensures
            self.bits_in(fp, bucket, k) & bits == bits,
        decreases k,
    {
        if k > 1 {
            self.lemma_latest_found(fp, bucket, (k - 1) as nat, bits);
        }
        lemma_or_keeps(
            self.bits_in(fp, bucket, (k - 1) as nat),
            slots_missing(self.generations[self.back(k - 1)].blocks[bucket], fp.hash, fp.tag),
            bits,
        );
    }

    pub(crate) proof fn lemma_rotated_wf(self, now: u64)
        requires
            self.wf(),
        ensures
            self.rotated(now).wf(),
    {
        let n = self.turns_due(now);
        lemma_turned_fields(self, n);
        lemma_turned_wf(self, n);
    }

    proof fn lemma_bits_agree(self, other: FilterModel, fp: ArticleFingerprint, bucket: int, k: nat)
        requires
            self.wf(),
            self.generations.len() == other.generations.len(),
            self.current == other.current,
            forall|i: int| 0 <= i < self.generations.len() ==> slots_missing(
                #[trigger] self.generations[i].blocks[bucket],
                fp.hash,
                fp.tag,
            ) == slots_missing(other.generations[i].blocks[bucket], fp.hash, fp.tag),
        ensures
            self.bits_in(fp, bucket, k) == other.bits_in(fp, bucket, k),
        decreases k,
    {
        if k > 0 {
            self.lemma_bits_agree(other, fp, bucket, (k - 1) as nat);
            self.lemma_back_range(k - 1);
            let i = self.back(k - 1);
            assert(self.generations[i].blocks[bucket] == self.generations[i].blocks[bucket]);
        }
    }
}

proof fn lemma_turned_wf(f: FilterModel, n: nat)
    requires
        f.wf(),
    ensures
        0 <= f.turned_times(n).current < f.generations.len(),
        forall|i: int| #![trigger f.turned_times(n).generations[i]]
            0 <= i < f.generations.len() ==> f.turned_times(n).generations[i].blocks.len()
                == f.width,
        forall|i: int, j: int| #![trigger f.turned_times(n).generations[i].blocks[j]]
            0 <= i < f.generations.len() && 0 <= j < f.width ==> f.turned_times(
                n,
            ).generations[i].blocks[j].len() == BLOCK_SLOTS,
    decreases n,
{
    if n > 0 {
        lemma_turned_wf(f, (n - 1) as nat);
        lemma_turned_fields(f, (n - 1) as nat);
        let g = f.turned_times((n - 1) as nat);
        vstd::arithmetic::div_mod::lemma_mod_bound(g.current + 1, f.generations.len() as int);
    }
}

/// A fact that was recorded is found by a lookup at the same moment, whatever
/// else the filter holds. The last moment that a clock can show is left out:
/// no turn of the ring can come after it.
pub proof fn law_recorded_fact_is_found(
    f: FilterModel,
    fp: ArticleFingerprint,
    bits: usize,
    bucket: int,
    now: u64,
)
    requires
        f.wf(),
        f.keeps(bits),
        0 <= bucket < f.width,
        now < u64::MAX,
    ensures
        f.recorded(fp, bits, bucket, now).rotated(now) == f.recorded(fp, bits, bucket, now),
        f.recorded(fp, bits, bucket, now).bits_of(fp, bucket) & bits == bits,
{
    lemma_just_recorded(f, fp, bits, bucket, now);
    let g = f.recorded(fp, bits, bucket, now);
    lemma_rotated_fields(f, now);
    assert(g.width == f.width);
}

/// A fact that was just recorded is in the current generation, and no turn of the
/// ring is due.
proof fn lemma_just_recorded(
    f: FilterModel,
    fp: ArticleFingerprint,
    bits: usize,
    bucket: int,
    now: u64,
)
    requires
        f.wf(),
        f.keeps(bits),
        0 <= bucket < f.width,
        now < u64::MAX,
    ensures
        ({
            let g = f.recorded(fp, bits, bucket, now);
            &&& g.rotated(now) == g
            &&& g.bits_in(fp, bucket, g.live) & bits == bits
            &&& g.live >= 1
            &&& g.turns_due(now) == 0
            &&& 0 <= g.current < g.generations.len()
            &&& g.generations.len() == f.generations.len()
            &&& g.interval == f.interval
            &&& g.width == f.width
            &&& slots_missing(g.generations[g.current].blocks[bucket], fp.hash, fp.tag) & bits
                == bits
        }),
{
    let r = f.rotated(now);
    f.lemma_rotated_wf(now);
    lemma_rotated_fields(f, now);
    let s = r.started(now);
    let g = f.recorded(fp, bits, bucket, now);
    s.lemma_back_range(0);
    assert(g.current == s.current && g.generations.len() == s.generations.len());
    assert(g.back(0) == s.back(0));
    let slots = s.generations[s.current].blocks[bucket];
    assert(r.generations[r.current].blocks.len() == r.width);
    assert(s.generations[s.current].blocks == r.generations[r.current].blocks);
    assert(r.generations[r.current].blocks[bucket].len() == BLOCK_SLOTS);
    lemma_block_insert_found(slots, fp, bits, victim_of(fp.hash));
    assert(g.generations[g.current].blocks[bucket] == block_insert(
        slots,
        fp,
        bits,
        victim_of(fp.hash),
    ).0);
    assert(g.live >= 1) by {
        if r.live == 0 {
            assert(r.generations[r.current] == free_generation(r.width));
        }
    }
    g.lemma_latest_found(fp, bucket, g.live, bits);
    assert(g.turns_due(now) == 0) by {
        if f.turns_due(now) > 0 {
            lemma_turned_current_is_free(f, f.turns_due(now));
        } else if r.live == 0 {
            assert(r.generations[r.current] == free_generation(r.width));
        }
    }
}

/// Recording a fact keeps a filter sound, and its shape.
pub proof fn lemma_recorded_wf(
    f: FilterModel,
    fp: ArticleFingerprint,
    bits: usize,
    bucket: int,
    now: u64,
)
    requires
        f.wf(),
        0 <= bucket < f.width,
        fp.hash != 0,
    ensures
        f.recorded(fp, bits, bucket, now).wf(),
        f.recorded(fp, bits, bucket, now).width == f.width,
        f.recorded(fp, bits, bucket, now).interval == f.interval,
        f.recorded(fp, bits, bucket, now).generations.len() == f.generations.len(),
{
    let r = f.rotated(now);
    f.lemma_rotated_wf(now);
    lemma_rotated_fields(f, now);
    if r.keeps(bits) {
        let s = r.started(now);
        assert(r.generations[r.current].blocks.len() == r.width);
        let slots = s.generations[s.current].blocks[bucket];
        assert(r.generations[r.current].blocks[bucket].len() == BLOCK_SLOTS);
        lemma_insert_used(slots, fp, bits, victim_of(fp.hash));
        assert(r.live == 0 ==> r.generations[r.current] == free_generation(r.width));
        let g = s.with_bits(s.current, fp, bucket, bits);
        assert forall|i: int, j: int| #![trigger g.generations[i].blocks[j]]
            0 <= i < g.generations.len() && 0 <= j < g.width implies g.generations[i].blocks[j].len()
            == BLOCK_SLOTS by {
            assert(r.generations[i].blocks[j].len() == BLOCK_SLOTS);
        }
        assert forall|i: int| #![trigger g.generations[i]]
            0 <= i < g.generations.len() implies g.generations[i].blocks.len() == g.width by {
            assert(r.generations[i].blocks.len() == r.width);
        }
    }
}

proof fn lemma_turned_current_is_free(f: FilterModel, n: nat)
    requires
        f.wf(),
        n > 0,
    ensures
        f.turned_times(n).generations[f.turned_times(n).current] == free_generation(f.width),
{
    let g = f.turned_times((n - 1) as nat);
    lemma_turned_fields(f, (n - 1) as nat);
    vstd::arithmetic::div_mod::lemma_mod_bound(g.current + 1, f.generations.len() as int);
}

/// Recording a fact leaves what is known under every other fingerprint as it
/// was, unless the fact takes a slot that is in use.
pub proof fn law_recording_keeps_other_facts(
    f: FilterModel,
    fp: ArticleFingerprint,
    bits: usize,
    bucket: int,
    now: u64,
    other: ArticleFingerprint,
    other_bucket: int,
)
    requires
        f.wf(),
        f.keeps(bits),
        0 <= bucket < f.width,
        0 <= other_bucket < f.width,
        other.hash != 0,
        other != fp,
        other_bucket != bucket || f.rotated(now).started(now).outcome_at(
            f.rotated(now).current,
            fp,
            bucket,
            bits,
        ) != InsertOutcome::Replaced,
    ensures
        f.recorded(fp, bits, bucket, now).bits_of(other, other_bucket) == f.rotated(now).bits_of(
            other,
            other_bucket,
        ),
{
    let r = f.rotated(now);
    f.lemma_rotated_wf(now);
    lemma_rotated_fields(f, now);
    let s = r.started(now);
    let g = f.recorded(fp, bits, bucket, now);
    let slots = s.generations[s.current].blocks[bucket];
    assert(s.generations[s.current].blocks == r.generations[r.current].blocks);
    assert(r.generations[r.current].blocks.len() == r.width);
    assert(r.generations[r.current].blocks[bucket].len() == BLOCK_SLOTS);
    if other_bucket == bucket {
        lemma_block_insert_other(slots, fp, bits, victim_of(fp.hash), other);
    }
    assert forall|i: int| 0 <= i < r.generations.len() implies slots_missing(
        #[trigger] r.generations[i].blocks[other_bucket],
        other.hash,
        other.tag,
    ) == slots_missing(g.generations[i].blocks[other_bucket], other.hash, other.tag) by {
        if i == r.current {
            assert(g.generations[i].blocks == s.generations[i].blocks.update(
                bucket,
                block_insert(slots, fp, bits, victim_of(fp.hash)).0,
            ));
        }
    }
    r.lemma_bits_agree(g, other, other_bucket, r.live);
    if r.live == 0 {
        r.lemma_bits_agree(g, other, other_bucket, 1);
        r.lemma_back_range(0);
        assert(r.generations[r.current] == free_generation(r.width));
        lemma_free_block_misses_nothing(other.hash, other.tag);
        assert(r.bits_in(other, other_bucket, 0) == 0);
        assert(0usize | 0usize == 0usize) by (bit_vector);
        reveal_with_fuel(FilterModel::bits_in, 2);
        assert(r.bits_in(other, other_bucket, 1) == 0);
    }
}

pub(crate) proof fn lemma_free_block_misses_nothing(hash: u64, tag: u16)
    ensures
        slots_missing(free_block(), hash, tag) == 0,
{
    lemma_free_slots_miss_nothing(free_block(), hash, tag);
}

proof fn lemma_free_slots_miss_nothing(slots: Seq<SlotModel>, hash: u64, tag: u16)
    requires
        forall|i: int| #![trigger slots[i]] 0 <= i < slots.len() ==> slots[i].missing == 0,
    ensures
        slots_missing(slots, hash, tag) == 0,
    decreases slots.len(),
{
    if slots.len() > 0 {
        lemma_free_slots_miss_nothing(slots.drop_last(), hash, tag);
        assert(0usize | 0usize == 0usize) by (bit_vector);
    }
}

proof fn lemma_turned_back_is_free(f: FilterModel, n: nat, k: nat)
    requires
        f.wf(),
        k < n <= f.generations.len(),
    ensures
        f.turned_times(n).generations[f.turned_times(n).back(k as int)] == free_generation(f.width),
    decreases n,
{
    let len = f.generations.len() as int;
    let g = f.turned_times((n - 1) as nat);
    let t = f.turned_times(n);
    lemma_turned_fields(f, (n - 1) as nat);
    lemma_turned_fields(f, n);
    lemma_turned_wf(f, (n - 1) as nat);
    lemma_turned_wf(f, n);
    vstd::arithmetic::div_mod::lemma_mod_bound(g.current + 1, len);
    if k == 0 {
        vstd::arithmetic::div_mod::lemma_mod_add_multiples_vanish(t.current, len);
        vstd::arithmetic::div_mod::lemma_small_mod(t.current as nat, len as nat);
        lemma_turned_current_is_free(f, n);
    } else {
        lemma_turned_back_is_free(f, (n - 1) as nat, (k - 1) as nat);
        assert(t.back(k as int) == g.back(k - 1)) by {
            let c = g.current;
            if c + 1 == len {
                assert((c + 1) % len == 0) by (nonlinear_arith)
                    requires
                        c + 1 == len,
                        len > 0,
                ;
            } else {
                assert((c + 1) % len == c + 1) by (nonlinear_arith)
                    requires
                        0 <= c + 1 < len,
                ;
            }
            if c + 1 == len {
                assert((0 + len - k) % len == len - k) by (nonlinear_arith)
                    requires
                        0 < k < len,
                ;
                assert((c + len - (k - 1)) % len == len - k) by (nonlinear_arith)
                    requires
                        c + 1 == len,
                        0 < k < len,
                ;
            }
        }
        vstd::arithmetic::div_mod::lemma_mod_bound(g.current + len - (k - 1), len);
    }
}

/// Once the ring has had time to turn all the way round since its next turn
/// was due, nothing that it held is found any more.
pub proof fn law_facts_expire(f: FilterModel, now: u64, fp: ArticleFingerprint, bucket: int)
    requires
        f.wf(),
        0 < f.interval < u64::MAX,
        f.live > 0,
        f.next_rotation_at > 0,
        now >= f.next_rotation_at + (f.generations.len() - 1) * f.interval,
        0 <= bucket < f.width,
    ensures
        f.rotated(now).bits_of(fp, bucket) == 0,
{
    let len = f.generations.len();
    let gap = now - f.next_rotation_at;
    assert(gap / (f.interval as int) >= len - 1) by (nonlinear_arith)
        requires
            gap >= (len - 1) * f.interval,
            f.interval > 0,
    ;
    assert(gap >= 0) by (nonlinear_arith)
        requires
            gap >= (len - 1) * f.interval,
            len >= 1,
            f.interval > 0,
    ;
    assert(f.turns_due(now) == len);
    let r = f.rotated(now);
    f.lemma_rotated_wf(now);
    lemma_turned_fields(f, len);
    assert forall|k: nat| k < len implies #[trigger] r.generations[r.back(k as int)]
        == free_generation(f.width) by {
        lemma_turned_back_is_free(f, len, k);
    }
    lemma_free_back_means_no_bits(r, fp, bucket, r.live);
}

proof fn lemma_free_back_means_no_bits(r: FilterModel, fp: ArticleFingerprint, bucket: int, k: nat)
    requires
        r.wf(),
        k <= r.generations.len(),
        0 <= bucket < r.width,
        forall|i: nat|
            i < r.generations.len() ==> #[trigger] r.generations[r.back(i as int)]
                == free_generation(r.width),
    ensures
        r.bits_in(fp, bucket, k) == 0,
    decreases k,
{
    if k > 0 {
        lemma_free_back_means_no_bits(r, fp, bucket, (k - 1) as nat);
        assert(r.generations[r.back((k - 1) as nat as int)] == free_generation(r.width));
        lemma_free_block_misses_nothing(fp.hash, fp.tag);
        assert(0usize | 0usize == 0usize) by (bit_vector);
    }
}

/// Taking back a stored fact never makes it look younger: its generation
/// starts no later than the fact.
pub proof fn law_restored_fact_keeps_its_age(
    f: FilterModel,
    entry: PersistedEntry,
    bucket: int,
    now: u64,
    ttl: u64,
)
    requires
        f.wf(),
        0 <= bucket < f.width,
        f.accepts(entry, now, ttl),
    ensures
        ({
            let i = f.back(f.age_in_turns(now, entry.inserted_at) as int);
            f.restored(entry, bucket, now, ttl).generations[i].started_at <= entry.inserted_at
        }),
{
    f.lemma_back_range(f.age_in_turns(now, entry.inserted_at) as int);
}

/// However many facts are recorded, a filter never uses more slots than its
/// generations have.
pub proof fn law_space_is_bounded(f: FilterModel)
    requires
        f.wf(),
    ensures
        used_in(f.generations) <= f.generations.len() * (BLOCK_SLOTS * f.width),
{
    let g = f.generations;
    assert forall|i: int| #![trigger g[i]] 0 <= i < g.len() implies blocks_used(g[i].blocks)
        <= BLOCK_SLOTS * f.width by {
        assert forall|j: int| 0 <= j < g[i].blocks.len() implies (#[trigger] g[i].blocks[j]).len()
            == BLOCK_SLOTS by {}
        lemma_blocks_used_bound(g[i].blocks);
    }
    lemma_used_in_bound(g, f.width);
}

/// The `k` latest generations use no more slots than they have.
pub(crate) proof fn lemma_used_back_bound(f: FilterModel, k: nat)
    requires
        f.wf(),
        k <= f.generations.len(),
    ensures
        f.used_back(k) <= k * (BLOCK_SLOTS * f.width),
    decreases k,
{
    let w = BLOCK_SLOTS * f.width;
    if k > 0 {
        lemma_used_back_bound(f, (k - 1) as nat);
        f.lemma_back_range(k - 1);
        let blocks = f.generations[f.back(k - 1)].blocks;
        assert forall|j: int| 0 <= j < blocks.len() implies (#[trigger] blocks[j]).len()
            == BLOCK_SLOTS by {}
        lemma_blocks_used_bound(blocks);
        assert(k * w == (k - 1) * w + w) by (nonlinear_arith);
    } else {
        assert(0 * w == 0) by (nonlinear_arith);
    }
}

/// After fewer turns than there are generations, the one that was current is still
/// there, as many turns back.
proof fn lemma_turned_keeps(f: FilterModel, n: nat)
    requires
        f.wf(),
        n < f.generations.len(),
    ensures
        ({
            let t = f.turned_times(n);
            &&& t.current == (f.current + n) % (f.generations.len() as int)
            &&& t.generations.len() == f.generations.len()
            &&& t.generations[f.current] == f.generations[f.current]
            &&& t.back(n as int) == f.current
        }),
    decreases n,
{
    let len = f.generations.len() as int;
    let c = f.current;
    let t = f.turned_times(n);
    if n == 0 {
        f.lemma_back_range(0);
        vstd::arithmetic::div_mod::lemma_small_mod(c as nat, len as nat);
    } else {
        lemma_turned_keeps(f, (n - 1) as nat);
        let g = f.turned_times((n - 1) as nat);
        assert(t == g.turned());
        assert((g.current + 1) % len == (c + n) % len) by (nonlinear_arith)
            requires
                g.current == (c + n - 1) % len,
                len > 0,
        ;
        assert(t.current == (c + n) % len);
        assert(t.current != c && (t.current + len - n) % len == c) by (nonlinear_arith)
            requires
                t.current == (c + n) % len,
                0 <= c < len,
                0 < n < len,
        ;
    }
}

impl FilterModel {
    /// What is found in one of the latest generations is found.
    proof fn lemma_found_in_turn(self, fp: ArticleFingerprint, bucket: int, j: nat, k: nat, bits: usize)
        requires
            j < k,
            slots_missing(self.generations[self.back(j as int)].blocks[bucket], fp.hash, fp.tag)
                & bits == bits,
        ensures
            self.bits_in(fp, bucket, k) & bits == bits,
        decreases k,
    {
        if j < k - 1 {
            self.lemma_found_in_turn(fp, bucket, j, (k - 1) as nat, bits);
        }
        lemma_or_keeps(
            self.bits_in(fp, bucket, (k - 1) as nat),
            slots_missing(self.generations[self.back(k - 1)].blocks[bucket], fp.hash, fp.tag),
            bits,
        );
    }
}

/// A fact that was recorded stays for as many turns of the ring as there are other
/// generations: it is found until as many intervals have passed, and for ever
/// where the ring never turns.
pub proof fn law_recorded_fact_stays(
    f: FilterModel,
    fp: ArticleFingerprint,
    bits: usize,
    bucket: int,
    then: u64,
    now: u64,
)
    requires
        f.wf(),
        f.keeps(bits),
        0 <= bucket < f.width,
        then < u64::MAX,
        f.interval == u64::MAX || then <= now <= then + (f.generations.len() - 1) * f.interval,
    ensures
        f.recorded(fp, bits, bucket, then).rotated(now).bits_of(fp, bucket) & bits == bits,
{
    lemma_just_recorded(f, fp, bits, bucket, then);
    let g = f.recorded(fp, bits, bucket, then);
    f.lemma_rotated_wf(then);
    lemma_rotated_fields(f, then);
    lemma_recorded_shape(f, fp, bits, bucket, then);
    let n = g.turns_due(now);
    let len = g.generations.len();
    assert(n < len) by {
        if n > 0 {
            assert(then < g.next_rotation_at);
            let gap = now - g.next_rotation_at;
            assert(gap / (g.interval as int) < len - 1) by (nonlinear_arith)
                requires
                    0 <= gap < (len - 1) * g.interval,
                    g.interval > 0,
            ;
        }
    }
    if n == 0 {
        assert(g.rotated(now) == g);
    } else {
        lemma_turned_keeps(g, n);
        let r = g.rotated(now);
        let t = g.turned_times(n);
        assert(r.generations == t.generations && r.current == t.current);
        assert(r.back(n as int) == t.back(n as int));
        assert(r.live > n);
        r.lemma_found_in_turn(fp, bucket, n, r.live, bits);
        lemma_turned_fields(g, n);
    }
}

proof fn lemma_recorded_shape(
    f: FilterModel,
    fp: ArticleFingerprint,
    bits: usize,
    bucket: int,
    now: u64,
)
    requires
        f.wf(),
        0 <= bucket < f.width,
        f.keeps(bits),
    ensures
        f.recorded(fp, bits, bucket, now).wf(),
{
    let r = f.rotated(now);
    f.lemma_rotated_wf(now);
    lemma_rotated_fields(f, now);
    let s = r.started(now);
    assert(r.generations[r.current].blocks.len() == r.width);
    let slots = s.generations[s.current].blocks[bucket];
    assert(r.generations[r.current].blocks[bucket].len() == BLOCK_SLOTS);
    assert(r.live == 0 ==> r.generations[r.current] == free_generation(r.width));
    let g = s.with_bits(s.current, fp, bucket, bits);
    lemma_first_holding(slots, fp.hash, fp.tag);
    lemma_first_free(slots);
    assert(block_insert(slots, fp, bits, victim_of(fp.hash)).0.len() == slots.len());
    assert forall|i: int, j: int| #![trigger g.generations[i].blocks[j]]
        0 <= i < g.generations.len() && 0 <= j < g.width implies g.generations[i].blocks[j].len()
        == BLOCK_SLOTS by {
        assert(r.generations[i].blocks[j].len() == BLOCK_SLOTS);
    }
    assert forall|i: int| #![trigger g.generations[i]]
        0 <= i < g.generations.len() implies g.generations[i].blocks.len() == g.width by {
        assert(r.generations[i].blocks.len() == r.width);
    }
}

/// Where a block is full, bit 48 of the hash says which of its two slots is given
/// up: the first where it is clear, the second where it is set.
pub proof fn law_slot_that_is_given_up(hash: u64)
    ensures
        (hash >> 48) & 1 == 0 ==> victim_of(hash) == 0,
        (hash >> 48) & 1 == 1 ==> victim_of(hash) == 1,
        (hash >> 48) & 1 <= 1,
{
    assert((hash >> 48) & 1 == (hash / 0x1_0000_0000_0000) % 2) by (bit_vector);
}

/// A stored fact is taken back where there is room, where it says something, and
/// while it is younger than the lifetime; one from the future counts as new.
pub proof fn law_what_is_taken_back(f: FilterModel, entry: PersistedEntry, now: u64, ttl: u64)
    ensures
        f.accepts(entry, now, ttl) <==> {
            &&& f.width > 0
            &&& entry.hash > 0
            &&& entry.missing > 0
            &&& ttl > 0
            &&& now < entry.inserted_at + ttl
        },
{
}

/// The generation that goes on after a restart is the one that was started last,
/// and of those started at the same moment the last; there is none where none was
/// started.
pub proof fn law_latest_generation(generations: Seq<GenerationModel>)
    ensures
        ({
            let i = latest_started(generations);
            &&& -1 <= i < generations.len()
            &&& i < 0 <==> forall|j: int|
                0 <= j < generations.len() ==> (#[trigger] generations[j]).started_at == 0
            &&& i >= 0 ==> generations[i].started_at > 0 && forall|j: int|
                0 <= j < generations.len() ==> (#[trigger] generations[j]).started_at
                    <= generations[i].started_at && (j > i ==> generations[j].started_at
                    < generations[i].started_at)
        }),
    decreases generations.len(),
{
    if generations.len() > 0 {
        let front = generations.drop_last();
        law_latest_generation(front);
        let i = latest_started(generations);
        assert(forall|j: int| 0 <= j < front.len() ==> front[j] == #[trigger] generations[j]);
        assert(generations.last() == generations[generations.len() - 1]);
        if i < 0 {
            assert forall|j: int| 0 <= j < generations.len() implies (
            #[trigger] generations[j]).started_at == 0 by {
                if j < front.len() {
                    assert(front[j].started_at == 0);
                }
            }
        } else {
            assert forall|j: int| 0 <= j < generations.len() implies (
            #[trigger] generations[j]).started_at <= generations[i].started_at && (j > i
                ==> generations[j].started_at < generations[i].started_at) by {
                if j < front.len() {
                    assert(front[j] == generations[j]);
                }
            }
        }
    }
}

} // verus!
