//! Byte-string helpers shared by the protocol, cache and persistence code.
use vstd::prelude::*;

verus! {

/// `needle` occurs in `hay` at position `at`.
pub open spec fn occurs_at(hay: Seq<u8>, needle: Seq<u8>, at: int) -> bool {
    &&& 0 <= at
    &&& at + needle.len() <= hay.len()
    &&& hay.subrange(at, at + needle.len()) == needle
}

/// `prefix` starts `s`.
pub open spec fn has_prefix(s: Seq<u8>, prefix: Seq<u8>) -> bool {
    occurs_at(s, prefix, 0)
}

/// `suffix` ends `s`.
pub open spec fn has_suffix(s: Seq<u8>, suffix: Seq<u8>) -> bool {
    occurs_at(s, suffix, s.len() - suffix.len())
}

/// `memchr::memchr`: the position of the first byte equal to `needle`, or
/// `None` when no byte is.
#[verifier::external_body]
fn find_byte(needle: u8, hay: &[u8]) -> (r: Option<usize>)
    ensures
        match r {
            Some(i) => i < hay@.len() && hay@[i as int] == needle && forall|j: int|
                0 <= j < i ==> hay@[j] != needle,
            None => forall|j: int| 0 <= j < hay@.len() ==> hay@[j] != needle,
        },
{
    memchr::memchr(needle, hay)
}

/// `memchr::memmem::find`: the position of the first occurrence of `needle`,
/// or `None` when there is none. An empty needle occurs at position zero.
#[verifier::external_body]
fn find_bytes(hay: &[u8], needle: &[u8]) -> (r: Option<usize>)
    ensures
        match r {
            Some(i) => occurs_at(hay@, needle@, i as int) && forall|j: int|
                0 <= j < i ==> !occurs_at(hay@, needle@, j),
            None => forall|j: int| !occurs_at(hay@, needle@, j),
        },
{
    memchr::memmem::find(hay, needle)
}

/// Position of the first occurrence of `needle`.
#[verifier::opaque]
pub open spec fn first_occurrence(hay: Seq<u8>, needle: Seq<u8>) -> Option<int> {
    if exists|i: int| occurs_at(hay, needle, i) {
        Some(
            choose|i: int|
                occurs_at(hay, needle, i) && forall|j: int| j < i ==> !occurs_at(hay, needle, j),
        )
    } else {
        None
    }
}

pub proof fn lemma_first_occurrence(hay: Seq<u8>, needle: Seq<u8>, i: int)
    requires
        occurs_at(hay, needle, i),
        forall|j: int| 0 <= j < i ==> !occurs_at(hay, needle, j),
    ensures
        first_occurrence(hay, needle) == Some(i),
{
    reveal(first_occurrence);
    assert forall|j: int| j < i implies !occurs_at(hay, needle, j) by {}
    let k = choose|k: int|
        occurs_at(hay, needle, k) && forall|j: int| j < k ==> !occurs_at(hay, needle, j);
    assert(k == i) by {
        if k < i {
            assert(!occurs_at(hay, needle, k));
        }
        if i < k {
            assert(!occurs_at(hay, needle, i));
        }
    }
}

pub proof fn lemma_no_occurrence(hay: Seq<u8>, needle: Seq<u8>)
    requires
        forall|j: int| !occurs_at(hay, needle, j),
    ensures
        first_occurrence(hay, needle) is None,
{
    reveal(first_occurrence);
}

/// A place of `needle` with no earlier one, at or before `i`.
proof fn lemma_least_occurrence(hay: Seq<u8>, needle: Seq<u8>, i: int, from: int) -> (k: int)
    requires
        0 <= from <= i,
        occurs_at(hay, needle, i),
        forall|j: int| 0 <= j < from ==> !occurs_at(hay, needle, j),
    ensures
        from <= k <= i,
        occurs_at(hay, needle, k),
        forall|j: int| 0 <= j < k ==> !occurs_at(hay, needle, j),
    decreases i - from,
{
    if occurs_at(hay, needle, from) {
        from
    } else {
        lemma_least_occurrence(hay, needle, i, from + 1)
    }
}

pub proof fn lemma_first_occurrence_occurs(hay: Seq<u8>, needle: Seq<u8>)
    requires
        first_occurrence(hay, needle) is Some,
    ensures
        occurs_at(hay, needle, first_occurrence(hay, needle)->0),
{
    reveal(first_occurrence);
    let i = choose|i: int| occurs_at(hay, needle, i);
    let k = lemma_least_occurrence(hay, needle, i, 0);
    lemma_first_occurrence(hay, needle, k);
}

/// Position of the first occurrence of `needle` in `hay`.
pub fn find(hay: &[u8], needle: &[u8]) -> (r: Option<usize>)
    ensures
        match r {
            Some(i) => first_occurrence(hay@, needle@) == Some(i as int) && i + needle@.len()
                <= hay@.len() && occurs_at(hay@, needle@, i as int),
            None => first_occurrence(hay@, needle@) is None,
        },
{
    let r = find_bytes(hay, needle);
    proof {
        match r {
            Some(i) => {
                lemma_first_occurrence(hay@, needle@, i as int);
            },
            None => {
                reveal(first_occurrence);
            },
        }
    }
    r
}

/// Position of the first byte equal to `b`, the length where there is none.
pub open spec fn first_byte(s: Seq<u8>, b: u8) -> nat
    decreases s.len(),
{
    if s.len() == 0 || s[0] == b {
        0
    } else {
        1 + first_byte(s.subrange(1, s.len() as int), b)
    }
}

pub proof fn lemma_first_byte(s: Seq<u8>, b: u8, i: int)
    requires
        0 <= i <= s.len(),
        i < s.len() ==> s[i] == b,
        forall|j: int| 0 <= j < i ==> s[j] != b,
    ensures
        first_byte(s, b) == i,
    decreases s.len(),
{
    if s.len() > 0 && s[0] != b {
        let rest = s.subrange(1, s.len() as int);
        assert forall|j: int| 0 <= j < i - 1 implies rest[j] != b by {
            assert(rest[j] == s[j + 1]);
        }
        lemma_first_byte(rest, b, i - 1);
    }
}

/// The position that [`first_byte`] gives holds the byte, if any does.
pub proof fn lemma_first_byte_found(s: Seq<u8>, b: u8)
    ensures
        first_byte(s, b) <= s.len(),
        first_byte(s, b) < s.len() ==> s[first_byte(s, b) as int] == b,
    decreases s.len(),
{
    if s.len() > 0 && s[0] != b {
        lemma_first_byte_found(s.subrange(1, s.len() as int), b);
    }
}

/// Position of the first byte equal to `b`, the length where there is none.
pub fn find_first(b: u8, s: &[u8]) -> (r: usize)
    ensures
        r == first_byte(s@, b),
        r <= s@.len(),
{
    match find_byte(b, s) {
        Some(i) => {
            proof {
                lemma_first_byte(s@, b, i as int);
            }
            i
        },
        None => {
            proof {
                lemma_first_byte(s@, b, s@.len() as int);
            }
            s.len()
        },
    }
}

/// Are the two byte strings equal?
pub fn bytes_eq(a: &[u8], b: &[u8]) -> (r: bool)
    ensures
        r == (a@ == b@),
{
    if a.len() != b.len() {
        return false;
    }
    for i in 0..a.len()
        invariant
            a.len() == b.len(),
            forall|j: int| 0 <= j < i ==> a@[j] == b@[j],
    {
        if a[i] != b[i] {
            assert(a@[i as int] != b@[i as int]);
            return false;
        }
    }
    assert(a@ =~= b@);
    true
}

/// Does `s` start with `prefix`?
pub fn starts_with(s: &[u8], prefix: &[u8]) -> (r: bool)
    ensures
        r == has_prefix(s@, prefix@),
{
    s.len() >= prefix.len() && bytes_eq(&s[0..prefix.len()], prefix)
}

/// Does `s` end with `suffix`?
pub fn ends_with(s: &[u8], suffix: &[u8]) -> (r: bool)
    ensures
        r == has_suffix(s@, suffix@),
{
    s.len() >= suffix.len() && bytes_eq(&s[s.len() - suffix.len()..s.len()], suffix)
}

/// Appends `s` to `out`.
pub fn push_bytes(out: &mut Vec<u8>, s: &[u8])
    ensures
        final(out)@ == old(out)@ + s@,
{
    out.extend_from_slice(s);
    assert(out@ =~= old(out)@ + s@);
}

/// A fresh vector with the bytes of `s`.
pub fn to_vec(s: &[u8]) -> (r: Vec<u8>)
    ensures
        r@ == s@,
{
    let mut out: Vec<u8> = Vec::new();
    push_bytes(&mut out, s);
    assert(out@ =~= s@);
    out
}

/// Is `b` an ASCII decimal digit?
pub open spec fn is_digit(b: u8) -> bool {
    0x30 <= b <= 0x39
}

/// Lower-case form of an ASCII letter; every other byte is itself.
pub open spec fn ascii_lower(b: u8) -> u8 {
    if 0x41 <= b <= 0x5a {
        (b + 0x20) as u8
    } else {
        b
    }
}

/// Byte-wise ASCII lower-case form.
pub open spec fn lower_bytes(s: Seq<u8>) -> Seq<u8> {
    s.map_values(|b: u8| ascii_lower(b))
}

pub fn lower_byte(b: u8) -> (r: u8)
    ensures
        r == ascii_lower(b),
{
    if 0x41 <= b && b <= 0x5a {
        b + 0x20
    } else {
        b
    }
}

/// Equality up to ASCII letter case.
pub fn eq_ignore_case(a: &[u8], b: &[u8]) -> (r: bool)
    ensures
        r == (lower_bytes(a@) == lower_bytes(b@)),
{
    if a.len() != b.len() {
        assert(lower_bytes(a@).len() != lower_bytes(b@).len());
        return false;
    }
    for i in 0..a.len()
        invariant
            a.len() == b.len(),
            forall|j: int| 0 <= j < i ==> ascii_lower(a@[j]) == ascii_lower(b@[j]),
    {
        if lower_byte(a[i]) != lower_byte(b[i]) {
            assert(lower_bytes(a@)[i as int] != lower_bytes(b@)[i as int]);
            return false;
        }
    }
    assert(lower_bytes(a@) =~= lower_bytes(b@));
    true
}

// ---------------------------------------------------------------------------
// ASCII whitespace
// ---------------------------------------------------------------------------

/// ASCII whitespace as the standard library counts it: space, tab, line feed,
/// form feed and carriage return.
pub open spec fn is_ascii_space(b: u8) -> bool {
    b == 0x20 || b == 0x09 || b == 0x0a || b == 0x0c || b == 0x0d
}

pub fn is_space_byte(b: u8) -> (r: bool)
    ensures
        r == is_ascii_space(b),
{
    b == 0x20 || b == 0x09 || b == 0x0a || b == 0x0c || b == 0x0d
}

/// `s` without its leading ASCII whitespace.
pub open spec fn trim_start_spec(s: Seq<u8>) -> Seq<u8>
    decreases s.len(),
{
    if s.len() > 0 && is_ascii_space(s[0]) {
        trim_start_spec(s.subrange(1, s.len() as int))
    } else {
        s
    }
}

/// `s` without its trailing ASCII whitespace.
pub open spec fn trim_end_spec(s: Seq<u8>) -> Seq<u8>
    decreases s.len(),
{
    if s.len() > 0 && is_ascii_space(s[s.len() - 1]) {
        trim_end_spec(s.subrange(0, s.len() - 1))
    } else {
        s
    }
}

/// `s` without leading and trailing ASCII whitespace.
pub open spec fn trim_spec(s: Seq<u8>) -> Seq<u8> {
    trim_end_spec(trim_start_spec(s))
}

pub fn trim_start(s: &[u8]) -> (r: &[u8])
    ensures
        r@ == trim_start_spec(s@),
{
    let mut i: usize = 0;
    assert(s@.subrange(0, s@.len() as int) =~= s@);
    while i < s.len() && is_space_byte(s[i])
        invariant
            i <= s.len(),
            trim_start_spec(s@) == trim_start_spec(s@.subrange(i as int, s@.len() as int)),
        decreases s.len() - i,
    {
        let ghost rest = s@.subrange(i as int, s@.len() as int);
        assert(rest.subrange(1, rest.len() as int) =~= s@.subrange(i + 1, s@.len() as int));
        i += 1;
    }
    &s[i..s.len()]
}

pub fn trim_end(s: &[u8]) -> (r: &[u8])
    ensures
        r@ == trim_end_spec(s@),
{
    let mut n: usize = s.len();
    assert(s@.subrange(0, n as int) =~= s@);
    while n > 0 && is_space_byte(s[n - 1])
        invariant
            n <= s.len(),
            trim_end_spec(s@) == trim_end_spec(s@.subrange(0, n as int)),
        decreases n,
    {
        let ghost rest = s@.subrange(0, n as int);
        assert(rest.subrange(0, rest.len() - 1) =~= s@.subrange(0, n - 1));
        n -= 1;
    }
    &s[0..n]
}

pub fn trim(s: &[u8]) -> (r: &[u8])
    ensures
        r@ == trim_spec(s@),
{
    trim_end(trim_start(s))
}

// ---------------------------------------------------------------------------
// Decimal numbers
// ---------------------------------------------------------------------------

/// The decimal digits of `n`, most significant first, without leading zeros.
pub open spec fn decimal(n: nat) -> Seq<u8>
    decreases n,
{
    if n < 10 {
        seq![(0x30 + n) as u8]
    } else {
        decimal(n / 10).push((0x30 + n % 10) as u8)
    }
}

/// Value of a string of decimal digits.
pub open spec fn decimal_value(s: Seq<u8>) -> nat
    decreases s.len(),
{
    if s.len() == 0 {
        0
    } else {
        (decimal_value(s.drop_last()) * 10 + (s.last() - 0x30)) as nat
    }
}

pub open spec fn all_digits(s: Seq<u8>) -> bool {
    forall|i: int| 0 <= i < s.len() ==> is_digit(#[trigger] s[i])
}

/// An unsigned decimal number with an optional leading plus sign.
pub open spec fn parse_decimal_spec(s: Seq<u8>) -> Option<nat> {
    let body = if s.len() > 0 && s[0] == 0x2b {
        s.subrange(1, s.len() as int)
    } else {
        s
    };
    if body.len() > 0 && all_digits(body) {
        Some(decimal_value(body))
    } else {
        None
    }
}

/// Appends the decimal digits of `n`.
pub fn push_decimal(out: &mut Vec<u8>, n: u64)
    ensures
        final(out)@ == old(out)@ + decimal(n as nat),
    decreases n,
{
    if n >= 10 {
        push_decimal(out, n / 10);
    }
    out.push(0x30 + (n % 10) as u8);
    assert(out@ =~= old(out)@ + decimal(n as nat));
}

/// Reads an unsigned decimal number of at most `max`, with an optional leading
/// plus sign.
pub fn parse_decimal(s: &[u8], max: u64) -> (r: Option<u64>)
    ensures
        match parse_decimal_spec(s@) {
            Some(n) => if n <= max {
                r == Some(n as u64)
            } else {
                r is None
            },
            None => r is None,
        },
{
    let from: usize = if s.len() > 0 && s[0] == 0x2b {
        1
    } else {
        0
    };
    let ghost body = s@.subrange(from as int, s@.len() as int);
    assert(from == 0 ==> body =~= s@);
    if from == s.len() {
        return None;
    }
    let mut n: u64 = 0;
    let mut over: bool = false;
    let mut i: usize = from;
    while i < s.len()
        invariant
            from <= i <= s.len(),
            from == (if s@.len() > 0 && s@[0] == 0x2b { 1int } else { 0int }),
            from == 0 ==> body == s@,
            body == s@.subrange(from as int, s@.len() as int),
            forall|j: int| 0 <= j < i - from ==> is_digit(#[trigger] body[j]),
            over ==> decimal_value(body.subrange(0, i - from)) > max,
            !over ==> n <= max && decimal_value(body.subrange(0, i - from)) == n,
        decreases s.len() - i,
    {
        let b = s[i];
        assert(body[i - from] == b);
        if b < 0x30 || b > 0x39 {
            assert(!is_digit(body[i - from]));
            return None;
        }
        let ghost before = body.subrange(0, i - from);
        let ghost after = body.subrange(0, i + 1 - from);
        assert(after.drop_last() =~= before);
        assert(after.last() == b);
        let digit: u64 = (b - 0x30) as u64;
        if !over {
            if digit > max || n > max / 10 || n * 10 > max - digit {
                over = true;
            } else {
                n = n * 10 + digit;
            }
        }
        i += 1;
    }
    assert(body.subrange(0, s.len() - from) =~= body);
    if over {
        None
    } else {
        Some(n)
    }
}

proof fn lemma_decimal_digits(n: nat)
    ensures
        decimal(n).len() > 0,
        all_digits(decimal(n)),
    decreases n,
{
    if n >= 10 {
        lemma_decimal_digits(n / 10);
    }
}

/// Reading back the digits of a number gives the number.
pub proof fn law_decimal_round_trip(n: nat)
    ensures
        parse_decimal_spec(decimal(n)) == Some(n),
    decreases n,
{
    lemma_decimal_digits(n);
    lemma_decimal_value(n);
}

/// The digits of a number are digits, and their value is the number.
pub proof fn lemma_decimal_parts(n: nat)
    ensures
        decimal(n).len() > 0,
        is_digit(decimal(n)[0]),
        all_digits(decimal(n)),
        decimal_value(decimal(n)) == n,
{
    lemma_decimal_digits(n);
    lemma_decimal_value(n);
}

proof fn lemma_decimal_value(n: nat)
    ensures
        decimal_value(decimal(n)) == n,
    decreases n,
{
    if n < 10 {
        let s = decimal(n);
        assert(s.drop_last() =~= Seq::<u8>::empty());
        assert(decimal_value(s.drop_last()) == 0);
    } else {
        lemma_decimal_value(n / 10);
        let s = decimal(n);
        assert(s.drop_last() =~= decimal(n / 10));
    }
}

// ---------------------------------------------------------------------------
// Little-endian integers
// ---------------------------------------------------------------------------

/// The `width` low-order bytes of `n`, least significant first.
pub open spec fn le_bytes(n: nat, width: nat) -> Seq<u8>
    decreases width,
{
    if width == 0 {
        Seq::empty()
    } else {
        seq![(n % 256) as u8] + le_bytes(n / 256, (width - 1) as nat)
    }
}

/// The number whose little-endian bytes are `s`.
pub open spec fn le_value(s: Seq<u8>) -> nat
    decreases s.len(),
{
    if s.len() == 0 {
        0
    } else {
        s[0] as nat + 256 * le_value(s.subrange(1, s.len() as int))
    }
}

/// Two to the power of eight times `width`.
pub open spec fn le_bound(width: nat) -> nat
    decreases width,
{
    if width == 0 {
        1
    } else {
        256 * le_bound((width - 1) as nat)
    }
}

pub proof fn lemma_le_bytes_len(n: nat, width: nat)
    ensures
        le_bytes(n, width).len() == width,
    decreases width,
{
    if width > 0 {
        lemma_le_bytes_len(n / 256, (width - 1) as nat);
    }
}

pub proof fn lemma_le_value_bound(s: Seq<u8>)
    ensures
        le_value(s) < le_bound(s.len()),
    decreases s.len(),
{
    if s.len() > 0 {
        lemma_le_value_bound(s.subrange(1, s.len() as int));
    }
}

/// Reading back a number written in `width` bytes gives the number.
pub proof fn law_le_round_trip(n: nat, width: nat)
    requires
        n < le_bound(width),
    ensures
        le_bytes(n, width).len() == width,
        le_value(le_bytes(n, width)) == n,
    decreases width,
{
    lemma_le_bytes_len(n, width);
    if width > 0 {
        law_le_round_trip(n / 256, (width - 1) as nat);
        let s = le_bytes(n, width);
        assert(s.subrange(1, s.len() as int) =~= le_bytes(n / 256, (width - 1) as nat));
    }
}

/// Writing down a number that was read from bytes gives the bytes.
pub proof fn law_le_value_round_trip(s: Seq<u8>)
    ensures
        le_bytes(le_value(s), s.len()) == s,
    decreases s.len(),
{
    if s.len() > 0 {
        let rest = s.subrange(1, s.len() as int);
        law_le_value_round_trip(rest);
        let n = le_value(s);
        assert(n % 256 == s[0] && n / 256 == le_value(rest));
        assert(seq![s[0]] + rest =~= s);
    }
}

pub proof fn lemma_le_bounds()
    ensures
        le_bound(1) == 0x100,
        le_bound(2) == 0x1_0000,
        le_bound(4) == 0x1_0000_0000,
        le_bound(8) == 0x1_0000_0000_0000_0000,
{
    reveal_with_fuel(le_bound, 9);
}

fn push_le(out: &mut Vec<u8>, n: u64, width: usize)
    ensures
        final(out)@ == old(out)@ + le_bytes(n as nat, width as nat),
{
    let mut rest: u64 = n;
    let mut left: usize = width;
    while left > 0
        invariant
            left <= width,
            old(out)@ + le_bytes(n as nat, width as nat) == out@ + le_bytes(rest as nat, left as nat),
        decreases left,
    {
        let ghost tail = le_bytes((rest / 256) as nat, (left - 1) as nat);
        let ghost before = out@;
        out.push((rest % 256) as u8);
        assert(before + le_bytes(rest as nat, left as nat) =~= out@ + tail);
        rest = rest / 256;
        left -= 1;
    }
    assert(out@ + le_bytes(rest as nat, 0) =~= out@);
}

/// Appends `n` as two little-endian bytes.
pub fn push_u16(out: &mut Vec<u8>, n: u16)
    ensures
        final(out)@ == old(out)@ + le_bytes(n as nat, 2),
{
    push_le(out, n as u64, 2);
}

/// Appends `n` as four little-endian bytes.
pub fn push_u32(out: &mut Vec<u8>, n: u32)
    ensures
        final(out)@ == old(out)@ + le_bytes(n as nat, 4),
{
    push_le(out, n as u64, 4);
}

/// Appends `n` as eight little-endian bytes.
pub fn push_u64(out: &mut Vec<u8>, n: u64)
    ensures
        final(out)@ == old(out)@ + le_bytes(n as nat, 8),
{
    push_le(out, n, 8);
}

fn read_le(s: &[u8]) -> (r: u64)
    requires
        s@.len() <= 8,
    ensures
        r == le_value(s@),
{
    let mut n: u64 = 0;
    let mut i: usize = s.len();
    assert(s@.subrange(i as int, s@.len() as int) =~= Seq::<u8>::empty());
    while i > 0
        invariant
            i <= s.len() <= 8,
            n == le_value(s@.subrange(i as int, s@.len() as int)),
        decreases i,
    {
        i -= 1;
        let ghost rest = s@.subrange(i as int, s@.len() as int);
        assert(rest.subrange(1, rest.len() as int) =~= s@.subrange(i + 1, s@.len() as int));
        proof {
            lemma_le_value_bound(rest);
            reveal_with_fuel(le_bound, 9);
        }
        n = n * 256 + s[i] as u64;
    }
    assert(s@.subrange(0, s@.len() as int) =~= s@);
    n
}

/// The little-endian number in two bytes.
pub fn u16_of(s: &[u8]) -> (r: u16)
    requires
        s@.len() == 2,
    ensures
        r == le_value(s@),
{
    proof {
        lemma_le_value_bound(s@);
        lemma_le_bounds();
    }
    read_le(s) as u16
}

/// The little-endian number in four bytes.
pub fn u32_of(s: &[u8]) -> (r: u32)
    requires
        s@.len() == 4,
    ensures
        r == le_value(s@),
{
    proof {
        lemma_le_value_bound(s@);
        lemma_le_bounds();
    }
    read_le(s) as u32
}

/// The little-endian number in eight bytes.
pub fn u64_of(s: &[u8]) -> (r: u64)
    requires
        s@.len() == 8,
    ensures
        r == le_value(s@),
{
    read_le(s)
}

// ---------------------------------------------------------------------------
// Reading at a position
// ---------------------------------------------------------------------------

/// The `width` bytes of `data` from position `at` on.
pub open spec fn field(data: Seq<u8>, at: int, width: int) -> Option<Seq<u8>> {
    if 0 <= at && 0 <= width && at + width <= data.len() {
        Some(data.subrange(at, at + width))
    } else {
        None
    }
}

/// The little-endian number in the `width` bytes of `data` from `at` on.
pub open spec fn le_field(data: Seq<u8>, at: int, width: int) -> Option<nat> {
    match field(data, at, width) {
        Some(s) => Some(le_value(s)),
        None => None,
    }
}

/// The `width` bytes of `data` from position `at` on, if there are that many.
pub fn field_at(data: &[u8], at: usize, width: usize) -> (r: Option<&[u8]>)
    ensures
        match r {
            Some(s) => field(data@, at as int, width as int) == Some(s@),
            None => field(data@, at as int, width as int) is None,
        },
{
    if at <= data.len() && width <= data.len() - at {
        Some(&data[at..at + width])
    } else {
        None
    }
}

pub fn u16_at(data: &[u8], at: usize) -> (r: Option<u16>)
    ensures
        match r {
            Some(n) => le_field(data@, at as int, 2) == Some(n as nat),
            None => le_field(data@, at as int, 2) is None,
        },
{
    match field_at(data, at, 2) {
        Some(s) => Some(u16_of(s)),
        None => None,
    }
}

pub fn u32_at(data: &[u8], at: usize) -> (r: Option<u32>)
    ensures
        match r {
            Some(n) => le_field(data@, at as int, 4) == Some(n as nat),
            None => le_field(data@, at as int, 4) is None,
        },
{
    match field_at(data, at, 4) {
        Some(s) => Some(u32_of(s)),
        None => None,
    }
}

pub fn u64_at(data: &[u8], at: usize) -> (r: Option<u64>)
    ensures
        match r {
            Some(n) => le_field(data@, at as int, 8) == Some(n as nat),
            None => le_field(data@, at as int, 8) is None,
        },
{
    match field_at(data, at, 8) {
        Some(s) => Some(u64_of(s)),
        None => None,
    }
}

/// A field that was put down after `pre` and before `post` is read back from
/// its place.
pub proof fn lemma_field_between(pre: Seq<u8>, s: Seq<u8>, post: Seq<u8>)
    ensures
        field(pre + s + post, pre.len() as int, s.len() as int) == Some(s),
{
    assert((pre + s + post).subrange(pre.len() as int, (pre.len() + s.len()) as int) =~= s);
}

/// The bytes of a number that was read at a position are those that stand there.
pub proof fn lemma_le_field_bytes(data: Seq<u8>, at: int, width: int)
    requires
        le_field(data, at, width) is Some,
    ensures
        data.subrange(at, at + width) == le_bytes(le_field(data, at, width)->0, width as nat),
        le_field(data, at, width)->0 < le_bound(width as nat),
{
    law_le_value_round_trip(data.subrange(at, at + width));
    lemma_le_value_bound(data.subrange(at, at + width));
}

/// A number that was put down after `pre` and before `post` is read back from
/// its place.
pub proof fn lemma_le_field_between(pre: Seq<u8>, n: nat, width: nat, post: Seq<u8>)
    requires
        n < le_bound(width),
    ensures
        le_field(pre + le_bytes(n, width) + post, pre.len() as int, width as int) == Some(n),
{
    law_le_round_trip(n, width);
    lemma_field_between(pre, le_bytes(n, width), post);
}

// ---------------------------------------------------------------------------
// Order
// ---------------------------------------------------------------------------

/// Lexicographic order of byte strings.
pub open spec fn lex_le(a: Seq<u8>, b: Seq<u8>) -> bool
    decreases a.len(),
{
    if a.len() == 0 {
        true
    } else if b.len() == 0 {
        false
    } else if a[0] != b[0] {
        a[0] < b[0]
    } else {
        lex_le(a.subrange(1, a.len() as int), b.subrange(1, b.len() as int))
    }
}

pub proof fn lemma_lex_total(a: Seq<u8>, b: Seq<u8>)
    ensures
        lex_le(a, b) || lex_le(b, a),
        lex_le(a, b) && lex_le(b, a) ==> a == b,
        a == b ==> lex_le(a, b),
    decreases a.len(),
{
    if a.len() > 0 && b.len() > 0 {
        let x = a.subrange(1, a.len() as int);
        let y = b.subrange(1, b.len() as int);
        lemma_lex_total(x, y);
        if a[0] == b[0] && x == y {
            assert(a =~= seq![a[0]] + x);
            assert(b =~= seq![b[0]] + y);
        }
    } else if a.len() == 0 && b.len() == 0 {
        assert(a =~= b);
    }
}

pub proof fn lemma_lex_transitive(a: Seq<u8>, b: Seq<u8>, c: Seq<u8>)
    requires
        lex_le(a, b),
        lex_le(b, c),
    ensures
        lex_le(a, c),
    decreases a.len(),
{
    if a.len() > 0 && b.len() > 0 && c.len() > 0 && a[0] == b[0] && b[0] == c[0] {
        lemma_lex_transitive(
            a.subrange(1, a.len() as int),
            b.subrange(1, b.len() as int),
            c.subrange(1, c.len() as int),
        );
    }
}

/// Does `a` come before `b`, or equal it, in lexicographic order?
pub fn at_most(a: &[u8], b: &[u8]) -> (r: bool)
    ensures
        r == lex_le(a@, b@),
{
    let mut i: usize = 0;
    assert(a@.subrange(0, a@.len() as int) =~= a@);
    assert(b@.subrange(0, b@.len() as int) =~= b@);
    while i < a.len() && i < b.len()
        invariant
            i <= a.len(),
            i <= b.len(),
            lex_le(a@, b@) == lex_le(
                a@.subrange(i as int, a@.len() as int),
                b@.subrange(i as int, b@.len() as int),
            ),
        decreases a.len() - i,
    {
        let ghost x = a@.subrange(i as int, a@.len() as int);
        let ghost y = b@.subrange(i as int, b@.len() as int);
        assert(x[0] == a@[i as int] && y[0] == b@[i as int]);
        if a[i] != b[i] {
            return a[i] < b[i];
        }
        assert(x.subrange(1, x.len() as int) =~= a@.subrange(i + 1, a@.len() as int));
        assert(y.subrange(1, y.len() as int) =~= b@.subrange(i + 1, b@.len() as int));
        i += 1;
    }
    i == a.len()
}

/// Two byte strings agree up to position `k`, and differ there.
pub open spec fn differ_first_at(a: Seq<u8>, b: Seq<u8>, k: int) -> bool {
    &&& 0 <= k < a.len()
    &&& k < b.len()
    &&& a.take(k) == b.take(k)
    &&& a[k] != b[k]
}

/// Byte strings are in order exactly where the first starts the second, or has
/// the smaller byte at the first place where they differ.
pub proof fn law_order_of_bytes(a: Seq<u8>, b: Seq<u8>)
    ensures
        lex_le(a, b) <==> a.is_prefix_of(b) || exists|k: int| #[trigger]
            differ_first_at(a, b, k) && a[k] < b[k],
    decreases a.len(),
{
    if a.len() > 0 && b.len() > 0 {
        let x = a.subrange(1, a.len() as int);
        let y = b.subrange(1, b.len() as int);
        if a[0] != b[0] {
            assert(a.take(0) =~= b.take(0));
            assert(differ_first_at(a, b, 0));
            assert forall|k: int| #[trigger] differ_first_at(a, b, k) implies k == 0 by {
                if k > 0 {
                    assert(a.take(k)[0] == b.take(k)[0]);
                }
            }
        } else {
            law_order_of_bytes(x, y);
            assert forall|k: int| #[trigger] differ_first_at(x, y, k) implies differ_first_at(
                a,
                b,
                k + 1,
            ) by {
                let (p, q) = (a.take(k + 1), b.take(k + 1));
                assert forall|i: int| 0 <= i < p.len() implies #[trigger] p[i] == q[i] by {
                    if i > 0 {
                        assert(x.take(k)[i - 1] == y.take(k)[i - 1]);
                    }
                }
                assert(p =~= q);
            }
            assert forall|k: int| #[trigger] differ_first_at(a, b, k) implies differ_first_at(
                x,
                y,
                k - 1,
            ) by {
                let (p, q) = (x.take(k - 1), y.take(k - 1));
                assert forall|i: int| 0 <= i < p.len() implies #[trigger] p[i] == q[i] by {
                    assert(a.take(k)[i + 1] == b.take(k)[i + 1]);
                }
                assert(p =~= q);
            }
            if x.is_prefix_of(y) {
                assert(a =~= b.subrange(0, a.len() as int)) by {
                    assert forall|i: int| 0 < i < a.len() implies a[i] == b[i] by {
                        assert(x[i - 1] == y[i - 1]);
                    }
                }
            }
            if a.is_prefix_of(b) {
                assert(x =~= y.subrange(0, x.len() as int)) by {
                    assert forall|i: int| 0 <= i < x.len() implies x[i] == y[i] by {
                        assert(a[i + 1] == b.subrange(0, a.len() as int)[i + 1]);
                    }
                }
            }
        }
    } else if a.len() == 0 {
        assert(a =~= b.subrange(0, 0));
    }
}

/// A number is written with its lowest byte first, and a byte counts 256 times
/// what the byte before it counts.
pub proof fn law_lowest_byte_first(low: u8, rest: nat, width: nat, s: Seq<u8>)
    ensures
        le_bytes(low as nat + 256 * rest, width + 1) == seq![low] + le_bytes(rest, width),
        le_bytes(rest, 0).len() == 0,
        le_value(seq![low] + s) == low + 256 * le_value(s),
        le_value(Seq::empty()) == 0,
{
    let t = seq![low] + s;
    assert(t.subrange(1, t.len() as int) =~= s);
    assert((low as nat + 256 * rest) % 256 == low);
    assert((low as nat + 256 * rest) / 256 == rest);
}

/// Decimal numbers: a further digit makes ten times the number and the digit.
pub proof fn law_decimal_digits(n: nat, d: nat)
    requires
        d < 10,
    ensures
        n > 0 ==> decimal(10 * n + d) == decimal(n).push((0x30 + d) as u8),
        decimal(d) == seq![(0x30 + d) as u8],
        parse_decimal_spec(decimal(n)) == Some(n),
        parse_decimal_spec(seq![0x2bu8] + decimal(n)) == Some(n),
        parse_decimal_spec(seq![0x2du8] + decimal(n)) is None,
        parse_decimal_spec(Seq::empty()) is None,
{
    assert((10 * n + d) / 10 == n && (10 * n + d) % 10 == d);
    lemma_decimal_parts(n);
    let plus = seq![0x2bu8] + decimal(n);
    let minus = seq![0x2du8] + decimal(n);
    assert(plus.subrange(1, plus.len() as int) =~= decimal(n));
    assert(!is_digit(minus[0]));
}

/// The white space around a byte string is spaces, tabs, line feeds, form feeds
/// and carriage returns; trimming drops it, and nothing else.
pub proof fn law_trimming(before: Seq<u8>, s: Seq<u8>, after: Seq<u8>)
    requires
        forall|i: int|
            0 <= i < before.len() ==> #[trigger] before[i] == 0x20 || 0x09 <= before[i] <= 0x0d
                && before[i] != 0x0b,
        forall|i: int|
            0 <= i < after.len() ==> #[trigger] after[i] == 0x20 || 0x09 <= after[i] <= 0x0d
                && after[i] != 0x0b,
        s.len() > 0 ==> !(s[0] == 0x20 || 0x09 <= s[0] <= 0x0d && s[0] != 0x0b),
        s.len() > 0 ==> !(s.last() == 0x20 || 0x09 <= s.last() <= 0x0d && s.last() != 0x0b),
    ensures
        trim_spec(before + s + after) == s,
    decreases before.len() + after.len(),
{
    let all = before + s + after;
    if before.len() > 0 {
        let rest = before.subrange(1, before.len() as int);
        assert(all.subrange(1, all.len() as int) =~= rest + s + after);
        assert(all[0] == before[0]);
        law_trimming(rest, s, after);
    } else if s.len() == 0 {
        if after.len() > 0 {
            let rest = after.subrange(1, after.len() as int);
            assert(all.subrange(1, all.len() as int) =~= before + s + rest);
            assert(all[0] == after[0]);
            law_trimming(before, s, rest);
        } else {
            assert(all =~= s);
        }
    } else {
        assert(all[0] == s[0]);
        if after.len() > 0 {
            let rest = after.drop_last();
            let shorter = before + s + rest;
            assert(all.subrange(0, all.len() - 1) =~= shorter);
            assert(all[all.len() - 1] == after[after.len() - 1]);
            law_trimming(before, s, rest);
            assert(shorter[0] == s[0]);
        } else {
            assert(all =~= s);
            assert(all[all.len() - 1] == s.last());
        }
    }
}

/// Do the bytes start with the characters of an ASCII text?
pub open spec fn starts_with_text(data: Seq<u8>, text: Seq<char>) -> bool {
    &&& data.len() >= text.len()
    &&& forall|i: int| 0 <= i < text.len() ==> #[trigger] data[i] as int == text[i] as int
}

} // verus!
