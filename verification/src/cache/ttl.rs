//! Tier-aware lifetimes of cache entries.
//!
//! Entries from higher tiers live longer: the lifetime doubles with each tier,
//! `base * 2^tier`. Tiers above 63 count as 63.
use crate::types::Duration;
use vstd::arithmetic::power2::{lemma_pow2_pos, lemma_pow2_strictly_increases, pow2};
use vstd::bits::lemma_u64_shl_is_mul;
use vstd::prelude::*;

verus! {

/// The highest tier with a lifetime of its own.
pub const MAX_TTL_TIER: u8 = 63;

/// Tier of the backend that an entry came from.
#[derive(Clone, Copy, Debug, PartialEq, Eq, PartialOrd, Ord, Hash, Structural)]
pub struct CacheTier {
    pub value: u8,
}

impl CacheTier {
    pub fn new(value: u8) -> (r: Self)
        ensures
            r.value == value,
    {
        CacheTier { value }
    }

    pub fn get(self) -> (r: u8)
        ensures
            r == self.value,
    {
        self.value
    }
}

impl Default for CacheTier {
    fn default() -> (r: Self)
        ensures
            r.value == 0,
    {
        CacheTier { value: 0 }
    }
}

impl From<u8> for CacheTier {
    fn from(value: u8) -> (r: Self) {
        CacheTier { value }
    }
}

impl vstd::std_specs::convert::FromSpecImpl<u8> for CacheTier {
    open spec fn obeys_from_spec() -> bool {
        true
    }

    open spec fn from_spec(v: u8) -> Self {
        CacheTier { value: v }
    }
}

/// Milliseconds since the Unix epoch.
#[derive(Clone, Copy, Debug, PartialEq, Eq, PartialOrd, Ord, Hash, Structural)]
pub struct CacheTimestampMillis {
    pub value: u64,
}

impl CacheTimestampMillis {
    pub fn new(value: u64) -> (r: Self)
        ensures
            r.value == value,
    {
        CacheTimestampMillis { value }
    }

    pub fn get(self) -> (r: u64)
        ensures
            r == self.value,
    {
        self.value
    }

    /// The present moment, as the system clock has it. Nothing is known of the
    /// value.
    pub fn now() -> (r: Self) {
        CacheTimestampMillis { value: now_millis() }
    }
}

impl Default for CacheTimestampMillis {
    fn default() -> (r: Self)
        ensures
            r.value == 0,
    {
        CacheTimestampMillis { value: 0 }
    }
}

impl From<u64> for CacheTimestampMillis {
    fn from(value: u64) -> (r: Self) {
        CacheTimestampMillis { value }
    }
}

impl vstd::std_specs::convert::FromSpecImpl<u64> for CacheTimestampMillis {
    open spec fn obeys_from_spec() -> bool {
        true
    }

    open spec fn from_spec(v: u64) -> Self {
        CacheTimestampMillis { value: v }
    }
}

/// Base lifetime in milliseconds.
#[derive(Clone, Copy, Debug, PartialEq, Eq, PartialOrd, Ord, Hash, Structural)]
pub struct CacheTtlMillis {
    pub value: u64,
}

impl CacheTtlMillis {
    pub fn new(value: u64) -> (r: Self)
        ensures
            r.value == value,
    {
        CacheTtlMillis { value }
    }

    pub fn get(self) -> (r: u64)
        ensures
            r == self.value,
    {
        self.value
    }

    /// The whole milliseconds of a duration, the largest value standing for
    /// every longer one.
    pub fn from_duration(duration: Duration) -> (r: Self)
        ensures
            r.value == clamp_u64(duration@ / 1_000_000),
    {
        CacheTtlMillis { value: duration_millis_u64(duration) }
    }
}

impl Default for CacheTtlMillis {
    fn default() -> (r: Self)
        ensures
            r.value == 0,
    {
        CacheTtlMillis { value: 0 }
    }
}

impl From<u64> for CacheTtlMillis {
    fn from(value: u64) -> (r: Self) {
        CacheTtlMillis { value }
    }
}

impl vstd::std_specs::convert::FromSpecImpl<u64> for CacheTtlMillis {
    open spec fn obeys_from_spec() -> bool {
        true
    }

    open spec fn from_spec(v: u64) -> Self {
        CacheTtlMillis { value: v }
    }
}

/// `n`, or the largest 64-bit value where `n` is larger.
pub open spec fn clamp_u64(n: nat) -> u64 {
    if n > u64::MAX {
        u64::MAX
    } else {
        n as u64
    }
}

fn duration_millis_u64(duration: Duration) -> (r: u64)
    ensures
        r == clamp_u64(duration@ / 1_000_000),
{
    clamp_millis(duration.as_millis())
}

/// The tier that counts for lifetimes.
pub open spec fn capped_tier(tier: CacheTier) -> nat {
    if tier.value > MAX_TTL_TIER {
        MAX_TTL_TIER as nat
    } else {
        tier.value as nat
    }
}

/// Lifetime of an entry of `tier`: the base lifetime doubled once per tier,
/// held at the largest 64-bit value.
pub open spec fn effective_ttl_spec(base: nat, tier: CacheTier) -> u64 {
    clamp_u64(base * pow2(capped_tier(tier)))
}

/// Has an entry stored at `inserted_at` outlived its lifetime at `now`? An
/// entry from the future counts as brand new.
pub open spec fn expired_at(now: u64, inserted_at: u64, base: u64, tier: CacheTier) -> bool {
    let elapsed = if now >= inserted_at {
        now - inserted_at
    } else {
        0
    };
    elapsed >= effective_ttl_spec(base as nat, tier)
}

proof fn lemma_shift_is_power(t: u64)
    requires
        t < 64,
    ensures
        1u64 << t == pow2(t as nat),
        0 < pow2(t as nat) <= u64::MAX,
{
    lemma_pow2_pos(t as nat);
    vstd::bits::lemma_u64_pow2_no_overflow(t as nat);
    lemma_u64_shl_is_mul(1, t);
}

/// How many times the base lifetime an entry of `tier` lives.
pub fn ttl_multiplier(tier: CacheTier) -> (r: u64)
    ensures
        r == pow2(capped_tier(tier)),
{
    let capped: u64 = if tier.get() > MAX_TTL_TIER {
        MAX_TTL_TIER as u64
    } else {
        tier.get() as u64
    };
    proof {
        lemma_shift_is_power(capped);
    }
    1u64 << capped
}

/// Lifetime of an entry of `tier`.
pub fn effective_ttl(base_ttl: CacheTtlMillis, tier: CacheTier) -> (r: CacheTtlMillis)
    ensures
        r.value == effective_ttl_spec(base_ttl.value as nat, tier),
{
    let value: u64 = match base_ttl.get().checked_mul(ttl_multiplier(tier)) {
        Some(v) => v,
        None => u64::MAX,
    };
    CacheTtlMillis { value }
}

/// The system clock, `std::time::SystemTime::now`, in milliseconds since the
/// Unix epoch; zero for a clock set before it. The reading depends on the
/// machine's clock, so nothing is stated of it.
#[verifier::external_body]
fn clock_millis() -> u128 {
    std::time::SystemTime::now()
        .duration_since(std::time::UNIX_EPOCH)
        .map_or(0, |d| d.as_millis())
}

/// A number of milliseconds in 64 bits; the largest value for a larger one.
pub fn clamp_millis(millis: u128) -> (r: u64)
    ensures
        r == clamp_u64(millis as nat),
{
    if millis > u64::MAX as u128 {
        u64::MAX
    } else {
        millis as u64
    }
}

/// The present moment, in milliseconds since the Unix epoch. Whatever the clock
/// shows can come back.
pub fn now_millis() -> u64 {
    clamp_millis(clock_millis())
}

/// Has the entry outlived its lifetime at `now`?
pub fn is_expired_at(
    now: u64,
    inserted_at: CacheTimestampMillis,
    base_ttl: CacheTtlMillis,
    tier: CacheTier,
) -> (r: bool)
    ensures
        r == expired_at(now, inserted_at.value, base_ttl.value, tier),
{
    now.saturating_sub(inserted_at.get()) >= effective_ttl(base_ttl, tier).get()
}

/// Has the entry outlived its lifetime by the system clock?
pub fn is_expired(
    inserted_at: CacheTimestampMillis,
    base_ttl: CacheTtlMillis,
    tier: CacheTier,
) -> (r: bool)
    ensures
        exists|now: u64| r == #[trigger] expired_at(now, inserted_at.value, base_ttl.value, tier),
{
    let now = now_millis();
    let r = is_expired_at(now, inserted_at, base_ttl, tier);
    assert(r == expired_at(now, inserted_at.value, base_ttl.value, tier));
    r
}

/// A higher tier never shortens a lifetime.
pub proof fn law_higher_tier_lives_longer(base: u64, low: CacheTier, high: CacheTier)
    requires
        low.value <= high.value,
    ensures
        effective_ttl_spec(base as nat, low) <= effective_ttl_spec(base as nat, high),
{
    let a = capped_tier(low);
    let b = capped_tier(high);
    if a < b {
        lemma_pow2_strictly_increases(a, b);
    }
    assert(base as nat * pow2(a) <= base as nat * pow2(b)) by (nonlinear_arith)
        requires
            pow2(a) <= pow2(b),
    ;
}

/// An entry that has expired stays expired.
pub proof fn law_expiry_is_final(now: u64, later: u64, inserted_at: u64, base: u64, tier: CacheTier)
    requires
        now <= later,
        expired_at(now, inserted_at, base, tier),
    ensures
        expired_at(later, inserted_at, base, tier),
{
}

/// With a base lifetime of zero every entry is expired at once.
pub proof fn law_zero_lifetime(now: u64, inserted_at: u64, tier: CacheTier)
    ensures
        expired_at(now, inserted_at, 0, tier),
{
    assert(0 * pow2(capped_tier(tier)) == 0) by (nonlinear_arith);
}

/// The first tier lives for the base lifetime. Each tier above it doubles the
/// lifetime of the one below, up to the largest value that 64 bits hold; from the
/// highest of them on it stays.
pub proof fn law_lifetime_doubles(base: u64, tier: CacheTier)
    ensures
        effective_ttl_spec(base as nat, CacheTier { value: 0 }) == base,
        tier.value < 63 ==> {
            let lower = effective_ttl_spec(base as nat, tier);
            let higher = effective_ttl_spec(
                base as nat,
                CacheTier { value: (tier.value + 1) as u8 },
            );
            higher == (if 2 * lower > u64::MAX {
                u64::MAX as int
            } else {
                2 * lower
            })
        },
        tier.value >= 63 ==> effective_ttl_spec(base as nat, tier) == effective_ttl_spec(
            base as nat,
            CacheTier { value: 63 },
        ),
{
    vstd::arithmetic::power2::lemma2_to64();
    assert(base as nat * pow2(0) == base) by (nonlinear_arith)
        requires
            pow2(0) == 1,
    ;
    if tier.value < 63 {
        let t = tier.value as nat;
        vstd::arithmetic::power2::lemma_pow2_unfold(t + 1);
        assert(base as nat * pow2(t + 1) == 2 * (base as nat * pow2(t))) by (nonlinear_arith)
            requires
                pow2(t + 1) == 2 * pow2(t),
        ;
    }
}

/// An entry expires when its lifetime is over and not before: it is alive until
/// then, and one from the future is brand new.
pub proof fn law_expiry_is_exact(now: u64, inserted_at: u64, base: u64, tier: CacheTier)
    ensures
        ({
            let ttl = effective_ttl_spec(base as nat, tier);
            &&& now >= inserted_at + ttl ==> expired_at(now, inserted_at, base, tier)
            &&& now < inserted_at + ttl && ttl > 0 ==> !expired_at(now, inserted_at, base, tier)
        }),
{
}

} // verus!
