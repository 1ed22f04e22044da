//! Bitmaps of machine words as sets of bit positions.
use vstd::prelude::*;

verus! {

/// Is bit `i` of `bits` set?
pub open spec fn bit(bits: usize, i: nat) -> bool {
    bits & (1usize << (i as usize)) != 0
}

/// Positions of the bits that are set.
pub open spec fn bit_set(bits: usize) -> Set<nat> {
    Set::new(|i: nat| i < usize::BITS && bit(bits, i))
}

/// The word whose lowest `n` bits are set and no others.
pub open spec fn low_mask(n: nat) -> usize {
    if n >= usize::BITS {
        !0usize
    } else {
        ((1usize << (n as usize)) - 1) as usize
    }
}

/// The word whose lowest `n` bits are set and no others.
pub fn low_mask_of(n: usize) -> (r: usize)
    requires
        n <= usize::BITS,
    ensures
        r == low_mask(n as nat),
{
    if n == usize::BITS as usize {
        !0usize
    } else {
        assert((1usize << n) >= 1) by (bit_vector)
            requires
                n < usize::BITS,
        ;
        (1usize << n) - 1
    }
}

pub proof fn lemma_or_one(bits: usize, i: usize, j: usize)
    requires
        i < usize::BITS,
        j < usize::BITS,
    ensures
        bit(bits | (1usize << i), j as nat) == (bit(bits, j as nat) || i == j),
        bit(1usize << i, j as nat) == (i == j),
{
    assert(((bits | (1usize << i)) & (1usize << j) != 0) == ((bits & (1usize << j) != 0) || i == j))
        by (bit_vector)
        requires
            i < usize::BITS,
            j < usize::BITS,
    ;
    assert(((1usize << i) & (1usize << j) != 0) == (i == j)) by (bit_vector)
        requires
            i < usize::BITS,
            j < usize::BITS,
    ;
}

/// Setting bit `i` adds `i` to the set of positions.
pub proof fn lemma_insert_bit(bits: usize, i: usize)
    requires
        i < usize::BITS,
    ensures
        bit_set(bits | (1usize << i)) == bit_set(bits).insert(i as nat),
{
    assert forall|j: nat| bit_set(bits | (1usize << i)).contains(j) == bit_set(bits).insert(
        i as nat,
    ).contains(j) by {
        if j < usize::BITS {
            lemma_or_one(bits, i, j as usize);
        }
    }
    assert(bit_set(bits | (1usize << i)) =~= bit_set(bits).insert(i as nat));
}

/// The bitwise union of two words has the bits of both.
pub proof fn lemma_or(a: usize, b: usize)
    ensures
        bit_set(a | b) == bit_set(a).union(bit_set(b)),
{
    assert forall|j: nat| j < usize::BITS implies bit(a | b, j) == (bit(a, j) || bit(b, j)) by {
        let k = j as usize;
        assert(((a | b) & (1usize << k) != 0) == ((a & (1usize << k) != 0) || (b & (1usize << k)
            != 0))) by (bit_vector)
            requires
                k < usize::BITS,
        ;
    }
    assert(bit_set(a | b) =~= bit_set(a).union(bit_set(b)));
}

pub proof fn lemma_empty()
    ensures
        bit_set(0) == Set::<nat>::empty(),
{
    assert forall|j: nat| j < usize::BITS implies !bit(0, j) by {
        let k = j as usize;
        assert(0usize & (1usize << k) == 0) by (bit_vector);
    }
    assert(bit_set(0) =~= Set::<nat>::empty());
}

proof fn lemma_low_mask_step(bits: usize, n: usize)
    requires
        n < usize::BITS,
    ensures
        (bits & low_mask((n + 1) as nat) == low_mask((n + 1) as nat)) == (bits & low_mask(n as nat)
            == low_mask(n as nat) && bit(bits, n as nat)),
{
    if n + 1 == usize::BITS {
        assert((bits & !0usize == !0usize) == (bits & ((1usize << n) - 1) as usize == ((1usize
            << n) - 1) as usize && bits & (1usize << n) != 0)) by (bit_vector)
            requires
                n + 1 == usize::BITS,
        ;
    } else {
        let m = (n + 1) as usize;
        assert((bits & ((1usize << m) - 1) as usize == ((1usize << m) - 1) as usize) == (bits & ((
        1usize << n) - 1) as usize == ((1usize << n) - 1) as usize && bits & (1usize << n) != 0))
            by (bit_vector)
            requires
                m == n + 1,
                m < usize::BITS,
        ;
    }
}

/// A word holds the lowest `n` bits exactly when each of them is set.
pub proof fn lemma_low_mask(bits: usize, n: nat)
    requires
        n <= usize::BITS,
    ensures
        (bits & low_mask(n) == low_mask(n)) == (forall|i: nat| i < n ==> bit(bits, i)),
    decreases n,
{
    if n == 0 {
        assert(bits & ((1usize << 0usize) - 1) as usize == 0) by (bit_vector);
        assert(((1usize << 0usize) - 1) as usize == 0) by (bit_vector);
    } else {
        lemma_low_mask(bits, (n - 1) as nat);
        lemma_low_mask_step(bits, (n - 1) as usize);
        if forall|i: nat| i < n ==> bit(bits, i) {
            assert(bit(bits, (n - 1) as nat));
            assert forall|i: nat| i < n - 1 implies bit(bits, i) by {}
        }
    }
}

/// A word that is no larger than the lowest `n` bits together has no bit above
/// them.
pub proof fn lemma_above_low_mask(bits: usize, n: nat, i: nat)
    requires
        bits <= low_mask(n),
        n <= i < usize::BITS,
    ensures
        !bit(bits, i),
{
    let k = n as usize;
    let j = i as usize;
    assert(bits & (1usize << j) == 0) by (bit_vector)
        requires
            bits <= ((1usize << k) - 1) as usize,
            k <= j,
            j < usize::BITS,
    ;
}

/// Two words with the same bits are equal.
pub proof fn lemma_same_bits(a: usize, b: usize)
    requires
        bit_set(a) == bit_set(b),
    ensures
        a == b,
{
    let d = a ^ b;
    assert forall|i: nat| i < usize::BITS implies bit(!d, i) by {
        assert(bit_set(a).contains(i) == bit(a, i));
        assert(bit_set(b).contains(i) == bit(b, i));
        let k = i as usize;
        assert(((!(a ^ b)) & (1usize << k) != 0) == ((a & (1usize << k) != 0) == (b & (1usize << k)
            != 0))) by (bit_vector)
            requires
                k < usize::BITS,
        ;
    }
    lemma_low_mask(!d, usize::BITS as nat);
    assert(a == b) by (bit_vector)
        requires
            !(a ^ b) & !0usize == !0usize,
    ;
}

} // verus!
