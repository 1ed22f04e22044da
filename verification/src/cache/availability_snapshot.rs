//! Stored form of an availability index.
//!
//! A snapshot carries the table of the providers that its bits stand for, so
//! that a running index with another layout can still read it.
use crate::bits::{bit, lemma_above_low_mask, low_mask, low_mask_of};
use crate::bytes::{
    field, field_at, has_prefix, le_bytes, le_field, lemma_field_between, lemma_le_bounds,
    lemma_le_bytes_len, lemma_le_field_between, lemma_le_field_bytes, push_bytes, push_u16, push_u32, push_u64,
    starts_with, starts_with_text, u16_at, u32_at, u64_at,
};
use crate::cache::availability_identity::{
    models, stored_identities, stored_identity, text_bytes, AvailabilityIdentity, IdentityModel,
};
use crate::cache::filter::PersistedEntry;
use crate::text::{str_from_utf8, string_of};
use crate::types::max_backends;
use vstd::prelude::*;
use vstd::string::*;
use vstd::utf8::*;

verus! {

/// First bytes of a snapshot.
pub open spec fn snapshot_magic() -> Seq<u8> {
    seq![0x41u8, 0x4e, 0x45, 0x47, 0x53, 0x49, 0x4d, 0x36]
}

/// Do the bytes start like a snapshot of a retired form: `ANEGIDX1`,
/// `ANEGIDX2`, or `ANEGSIM1` to `ANEGSIM5`?
pub open spec fn is_retired(data: Seq<u8>) -> bool {
    &&& data.len() >= 8
    &&& has_prefix(data, seq![0x41u8, 0x4e, 0x45, 0x47])
    &&& {
        ||| data.subrange(4, 7) == seq![0x49u8, 0x44, 0x58] && 0x31 <= data[7] <= 0x32
        ||| data.subrange(4, 7) == seq![0x53u8, 0x49, 0x4d] && 0x31 <= data[7] <= 0x35
    }
}

/// Longest name that is read back, in bytes.
pub const MAX_IDENTITY_FIELD_BYTES: usize = 1_048_576;

/// Bytes of one stored fact.
pub const ENTRY_BYTES: usize = 26;

/// Why stored bytes are no snapshot, or a snapshot cannot be stored.
#[derive(Clone, Copy, Debug, PartialEq, Eq, Structural)]
pub enum SnapshotError {
    TooShort,
    UnknownFormat,
    InvalidIdentityCount,
    /// The bytes end within the length of a name.
    TruncatedLength,
    HostTooLong,
    TruncatedHost,
    InvalidHost,
    EmptyHost,
    DuplicateIdentity,
    /// The bytes end within the number of facts.
    TruncatedCount,
    InvalidEntryCount,
    /// A fact speaks of a provider that the table does not have.
    UnknownProvider,
    TrailingBytes,
}

impl SnapshotError {
    pub open spec fn text(self) -> Seq<char> {
        match self {
            SnapshotError::TooShort => "availability index file too short"@,
            SnapshotError::UnknownFormat => "unknown availability index format"@,
            SnapshotError::InvalidIdentityCount => "invalid availability identity count"@,
            SnapshotError::TruncatedLength => "truncated u32 field"@,
            SnapshotError::HostTooLong => "availability host is too long"@,
            SnapshotError::TruncatedHost => "truncated availability host"@,
            SnapshotError::InvalidHost => "invalid availability host"@,
            SnapshotError::EmptyHost => "empty availability host"@,
            SnapshotError::DuplicateIdentity => "duplicate availability identity"@,
            SnapshotError::TruncatedCount => "truncated u64 field"@,
            SnapshotError::InvalidEntryCount => "invalid availability entry count"@,
            SnapshotError::UnknownProvider => "availability bits exceed declared identity table"@,
            SnapshotError::TrailingBytes => "trailing bytes in availability index"@,
        }
    }

    pub fn message(&self) -> (r: &'static str)
        ensures
            r@ == self.text(),
    {
        match self {
            SnapshotError::TooShort => "availability index file too short",
            SnapshotError::UnknownFormat => "unknown availability index format",
            SnapshotError::InvalidIdentityCount => "invalid availability identity count",
            SnapshotError::TruncatedLength => "truncated u32 field",
            SnapshotError::HostTooLong => "availability host is too long",
            SnapshotError::TruncatedHost => "truncated availability host",
            SnapshotError::InvalidHost => "invalid availability host",
            SnapshotError::EmptyHost => "empty availability host",
            SnapshotError::DuplicateIdentity => "duplicate availability identity",
            SnapshotError::TruncatedCount => "truncated u64 field",
            SnapshotError::InvalidEntryCount => "invalid availability entry count",
            SnapshotError::UnknownProvider => "availability bits exceed declared identity table",
            SnapshotError::TrailingBytes => "trailing bytes in availability index",
        }
    }
}

/// What a snapshot says: the providers that the bits stand for, and the facts.
#[verifier::ext_equal]
pub struct SnapshotModel {
    pub identities: Seq<IdentityModel>,
    pub entries: Seq<PersistedEntry>,
}

/// Facts with the table that gives their bits a meaning.
#[derive(Debug)]
pub struct StoredAvailabilitySnapshot {
    pub identities: Vec<AvailabilityIdentity>,
    pub entries: Vec<PersistedEntry>,
}

impl View for StoredAvailabilitySnapshot {
    type V = SnapshotModel;

    open spec fn view(&self) -> SnapshotModel {
        SnapshotModel { identities: models(self.identities@), entries: self.entries@ }
    }
}

impl Default for StoredAvailabilitySnapshot {
    fn default() -> (r: Self)
        ensures
            r@ == (SnapshotModel { identities: Seq::empty(), entries: Seq::empty() }),
    {
        let r = StoredAvailabilitySnapshot { identities: Vec::new(), entries: Vec::new() };
        assert(r@.identities =~= Seq::<IdentityModel>::empty());
        r
    }
}

// ---------------------------------------------------------------------------
// Writing
// ---------------------------------------------------------------------------

pub open spec fn hosts_bytes(ids: Seq<IdentityModel>) -> Seq<u8>
    decreases ids.len(),
{
    if ids.len() == 0 {
        Seq::empty()
    } else {
        hosts_bytes(ids.drop_last()) + text_bytes(ids.last().namespace)
    }
}

/// A stored fact.
pub open spec fn entry_bytes(e: PersistedEntry) -> Seq<u8> {
    le_bytes(e.hash as nat, 8) + le_bytes(e.tag as nat, 2) + le_bytes(e.missing as nat, 8)
        + le_bytes(e.inserted_at as nat, 8)
}

pub open spec fn entries_bytes(entries: Seq<PersistedEntry>) -> Seq<u8>
    decreases entries.len(),
{
    if entries.len() == 0 {
        Seq::empty()
    } else {
        entries_bytes(entries.drop_last()) + entry_bytes(entries.last())
    }
}

/// The stored form of a snapshot. Of a provider only the name is stored.
pub open spec fn snapshot_bytes(s: SnapshotModel) -> Seq<u8> {
    snapshot_magic() + le_bytes(s.identities.len(), 8) + hosts_bytes(s.identities) + le_bytes(
        s.entries.len(),
        8,
    ) + entries_bytes(s.entries)
}

/// Does the length of each name fit the field that it is written in?
pub open spec fn hosts_fit(ids: Seq<IdentityModel>) -> bool {
    forall|i: int|
        0 <= i < ids.len() ==> encode_utf8(#[trigger] ids[i].namespace).len() <= u32::MAX
}

fn snapshot_magic_bytes() -> (r: Vec<u8>)
    ensures
        r@ == snapshot_magic(),
{
    let v: Vec<u8> = vec![0x41, 0x4e, 0x45, 0x47, 0x53, 0x49, 0x4d, 0x36];
    assert(v@ =~= snapshot_magic());
    v
}

/// Writes down providers and facts.
pub fn encode_snapshot(identities: &Vec<AvailabilityIdentity>, entries: &Vec<PersistedEntry>) -> (r:
    Result<Vec<u8>, SnapshotError>)
    ensures
        match r {
            Ok(bytes) => {
                &&& hosts_fit(models(identities@))
                &&& bytes@ == snapshot_bytes(
                    SnapshotModel { identities: models(identities@), entries: entries@ },
                )
            },
            Err(e) => !hosts_fit(models(identities@)) && e == SnapshotError::HostTooLong,
        },
{
    let ghost ids = models(identities@);
    let mut out = snapshot_magic_bytes();
    push_u64(&mut out, identities.len() as u64);
    let ghost head = snapshot_magic() + le_bytes(ids.len(), 8);
    assert(ids.take(0) =~= Seq::<IdentityModel>::empty());
    assert(out@ =~= head + hosts_bytes(ids.take(0)));
    for i in 0..identities.len()
        invariant
            ids == models(identities@),
            out@ == head + hosts_bytes(ids.take(i as int)),
            forall|j: int|
                0 <= j < i ==> encode_utf8(#[trigger] ids[j].namespace).len() <= u32::MAX,
    {
        let host = identities[i].as_host().as_bytes();
        assert(ids[i as int].namespace == identities@[i as int].namespace@);
        if host.len() as u64 > u32::MAX as u64 {
            return Err(SnapshotError::HostTooLong);
        }
        push_u32(&mut out, host.len() as u32);
        push_bytes(&mut out, host);
        assert(ids.take(i + 1).drop_last() =~= ids.take(i as int));
        assert(out@ =~= head + hosts_bytes(ids.take(i + 1)));
    }
    assert(ids.take(ids.len() as int) =~= ids);
    push_u64(&mut out, entries.len() as u64);
    let ghost front = head + hosts_bytes(ids) + le_bytes(entries@.len(), 8);
    assert(entries@.take(0) =~= Seq::<PersistedEntry>::empty());
    assert(out@ =~= front + entries_bytes(entries@.take(0)));
    for i in 0..entries.len()
        invariant
            out@ == front + entries_bytes(entries@.take(i as int)),
    {
        let e = entries[i];
        push_u64(&mut out, e.hash);
        push_u16(&mut out, e.tag);
        push_u64(&mut out, e.missing as u64);
        push_u64(&mut out, e.inserted_at);
        assert(entries@.take(i + 1).drop_last() =~= entries@.take(i as int));
        assert(out@ =~= front + entries_bytes(entries@.take(i + 1)));
    }
    assert(entries@.take(entries@.len() as int) =~= entries@);
    Ok(out)
}

// ---------------------------------------------------------------------------
// Reading
// ---------------------------------------------------------------------------

/// The provider at position `at`, and the position after it.
pub open spec fn host_at(data: Seq<u8>, at: int) -> Result<(IdentityModel, int), SnapshotError> {
    match le_field(data, at, 4) {
        None => Err(SnapshotError::TruncatedLength),
        Some(n) => if n > MAX_IDENTITY_FIELD_BYTES {
            Err(SnapshotError::HostTooLong)
        } else {
            match field(data, at + 4, n as int) {
                None => Err(SnapshotError::TruncatedHost),
                Some(s) => if !valid_utf8(s) {
                    Err(SnapshotError::InvalidHost)
                } else if n == 0 {
                    Err(SnapshotError::EmptyHost)
                } else {
                    Ok((IdentityModel { namespace: decode_utf8(s), account: None }, at + 4 + n))
                },
            }
        },
    }
}

/// The first `count` providers from position `at` on, and the position after
/// them.
pub open spec fn hosts_at(data: Seq<u8>, at: int, count: nat) -> Result<
    (Seq<IdentityModel>, int),
    SnapshotError,
>
    decreases count,
{
    if count == 0 {
        Ok((Seq::empty(), at))
    } else {
        match hosts_at(data, at, (count - 1) as nat) {
            Err(e) => Err(e),
            Ok((ids, p)) => match host_at(data, p) {
                Err(e) => Err(e),
                Ok((id, q)) => Ok((ids.push(id), q)),
            },
        }
    }
}

/// The bitmap of the fact at position `at`, as it was written.
pub open spec fn wire_bits_at(data: Seq<u8>, at: int) -> nat {
    le_field(data, at + 10, 8)->0
}

/// The fact at position `at`.
pub open spec fn entry_at(data: Seq<u8>, at: int) -> PersistedEntry {
    PersistedEntry {
        hash: le_field(data, at, 8)->0 as u64,
        tag: le_field(data, at + 8, 2)->0 as u16,
        missing: wire_bits_at(data, at) as usize,
        inserted_at: le_field(data, at + 18, 8)->0 as u64,
    }
}

/// What a snapshot says. A snapshot of a retired form says nothing.
pub open spec fn parse_snapshot_spec(data: Seq<u8>) -> Result<Option<SnapshotModel>, SnapshotError> {
    if data.len() < 16 {
        Err(SnapshotError::TooShort)
    } else if is_retired(data) {
        Ok(None)
    } else if !has_prefix(data, snapshot_magic()) {
        Err(SnapshotError::UnknownFormat)
    } else if le_field(data, 8, 8)->0 > max_backends() {
        Err(SnapshotError::InvalidIdentityCount)
    } else {
        match hosts_at(data, 16, le_field(data, 8, 8)->0) {
            Err(e) => Err(e),
            Ok((ids, p)) => if !ids.no_duplicates() {
                Err(SnapshotError::DuplicateIdentity)
            } else {
                match le_field(data, p, 8) {
                    None => Err(SnapshotError::TruncatedCount),
                    Some(n) => if n > (data.len() - p - 8) / ENTRY_BYTES as int {
                        Err(SnapshotError::InvalidEntryCount)
                    } else if exists|i: int|
                        0 <= i < n && #[trigger] wire_bits_at(data, p + 8 + i * ENTRY_BYTES) > low_mask(
                            ids.len(),
                        ) {
                        Err(SnapshotError::UnknownProvider)
                    } else if p + 8 + n * ENTRY_BYTES != data.len() {
                        Err(SnapshotError::TrailingBytes)
                    } else {
                        Ok(
                            Some(
                                SnapshotModel {
                                    identities: ids,
                                    entries: Seq::new(
                                        n,
                                        |i: int| entry_at(data, p + 8 + i * ENTRY_BYTES),
                                    ),
                                },
                            ),
                        )
                    },
                }
            },
        }
    }
}

fn retired(data: &[u8]) -> (r: bool)
    requires
        data@.len() >= 8,
    ensures
        r == is_retired(data@),
{
    let ghost head = seq![0x41u8, 0x4e, 0x45, 0x47];
    let ghost kind = data@.subrange(4, 7);
    assert(has_prefix(data@, head) == (data@[0] == 0x41 && data@[1] == 0x4e && data@[2] == 0x45
        && data@[3] == 0x47)) by {
        let front = data@.subrange(0, 4);
        if data@[0] == 0x41 && data@[1] == 0x4e && data@[2] == 0x45 && data@[3] == 0x47 {
            assert(front =~= head);
        } else {
            assert(front[0] == data@[0] && front[1] == data@[1] && front[2] == data@[2] && front[3]
                == data@[3]);
        }
    }
    assert((kind == seq![0x49u8, 0x44, 0x58]) == (data@[4] == 0x49 && data@[5] == 0x44 && data@[6]
        == 0x58)) by {
        assert(kind[0] == data@[4] && kind[1] == data@[5] && kind[2] == data@[6]);
        if data@[4] == 0x49 && data@[5] == 0x44 && data@[6] == 0x58 {
            assert(kind =~= seq![0x49u8, 0x44, 0x58]);
        }
    }
    assert((kind == seq![0x53u8, 0x49, 0x4d]) == (data@[4] == 0x53 && data@[5] == 0x49 && data@[6]
        == 0x4d)) by {
        assert(kind[0] == data@[4] && kind[1] == data@[5] && kind[2] == data@[6]);
        if data@[4] == 0x53 && data@[5] == 0x49 && data@[6] == 0x4d {
            assert(kind =~= seq![0x53u8, 0x49, 0x4d]);
        }
    }
    if data[0] != 0x41 || data[1] != 0x4e || data[2] != 0x45 || data[3] != 0x47 {
        return false;
    }
    let v = data[7];
    if data[4] == 0x49 && data[5] == 0x44 && data[6] == 0x58 {
        return 0x31 <= v && v <= 0x32;
    }
    data[4] == 0x53 && data[5] == 0x49 && data[6] == 0x4d && 0x31 <= v && v <= 0x35
}

fn read_host(data: &[u8], at: usize) -> (r: Result<(AvailabilityIdentity, usize), SnapshotError>)
    requires
        at <= data@.len(),
    ensures
        match r {
            Ok((id, p)) => host_at(data@, at as int) == Ok::<(IdentityModel, int), SnapshotError>(
                (id@, p as int),
            ) && p <= data@.len(),
            Err(e) => host_at(data@, at as int) == Err::<(IdentityModel, int), SnapshotError>(e),
        },
{
    let n: usize = match u32_at(data, at) {
        Some(n) => n as usize,
        None => {
            return Err(SnapshotError::TruncatedLength);
        },
    };
    if n > MAX_IDENTITY_FIELD_BYTES {
        return Err(SnapshotError::HostTooLong);
    }
    assert(at + 4 <= data.len());
    let s = match field_at(data, at + 4, n) {
        Some(s) => s,
        None => {
            return Err(SnapshotError::TruncatedHost);
        },
    };
    match str_from_utf8(s) {
        Some(text) => {
            if n == 0 {
                return Err(SnapshotError::EmptyHost);
            }
            let id = AvailabilityIdentity::from_persisted_host(string_of(text));
            assert(id@ =~= (IdentityModel { namespace: decode_utf8(s@), account: None }));
            Ok((id, at + 4 + n))
        },
        None => Err(SnapshotError::InvalidHost),
    }
}

fn any_repeated(ids: &Vec<AvailabilityIdentity>) -> (r: bool)
    ensures
        r == !models(ids@).no_duplicates(),
{
    let ghost m = models(ids@);
    for i in 0..ids.len()
        invariant
            m == models(ids@),
            forall|a: int, b: int| 0 <= a < b < i ==> m[a] != m[b],
    {
        for j in 0..i
            invariant
                m == models(ids@),
                i < ids@.len(),
                forall|a: int| 0 <= a < j ==> m[a] != m[i as int],
        {
            assert(m[j as int] == ids@[j as int]@ && m[i as int] == ids@[i as int]@);
            if ids[j].same(&ids[i]) {
                return true;
            }
        }
    }
    assert forall|a: int, b: int| 0 <= a < m.len() && 0 <= b < m.len() && a != b implies m[a]
        != m[b] by {
        if a > b {
            assert(m[b] != m[a]);
        }
    }
    false
}

fn read_entry(data: &[u8], at: usize) -> (r: (u64, PersistedEntry))
    requires
        at + ENTRY_BYTES <= data@.len(),
    ensures
        r.0 == wire_bits_at(data@, at as int),
        r.1 == entry_at(data@, at as int),
{
    assert(data@.len() == data.len());
    let hash = u64_at(data, at).unwrap();
    let tag = u16_at(data, at + 8).unwrap();
    let wire = u64_at(data, at + 10).unwrap();
    let inserted_at = u64_at(data, at + 18).unwrap();
    (wire, PersistedEntry { hash, tag, missing: wire as usize, inserted_at })
}

/// Reads a snapshot.
pub fn parse_snapshot(data: &[u8]) -> (r: Result<Option<StoredAvailabilitySnapshot>, SnapshotError>)
    ensures
        match r {
            Ok(Some(s)) => parse_snapshot_spec(data@) == Ok::<_, SnapshotError>(Some(s@)),
            Ok(None) => parse_snapshot_spec(data@) == Ok::<Option<SnapshotModel>, SnapshotError>(
                None,
            ),
            Err(e) => parse_snapshot_spec(data@) == Err::<Option<SnapshotModel>, SnapshotError>(e),
        },
{
    assert(data@.len() == data.len());
    if data.len() < 16 {
        return Err(SnapshotError::TooShort);
    }
    if retired(data) {
        return Ok(None);
    }
    let magic = snapshot_magic_bytes();
    if !starts_with(data, magic.as_slice()) {
        return Err(SnapshotError::UnknownFormat);
    }
    let count = u64_at(data, 8).unwrap();
    if count > usize::BITS as u64 {
        return Err(SnapshotError::InvalidIdentityCount);
    }
    let count: usize = count as usize;
    let mut identities: Vec<AvailabilityIdentity> = Vec::new();
    let mut p: usize = 16;
    assert(models(identities@) =~= Seq::<IdentityModel>::empty());
    for i in 0..count
        invariant
            p <= data@.len(),
            count == le_field(data@, 8, 8)->0,
            identities@.len() == i,
            hosts_at(data@, 16, i as nat) == Ok::<(Seq<IdentityModel>, int), SnapshotError>(
                (models(identities@), p as int),
            ),
            hosts_at(data@, 16, count as nat) is Err ==> parse_snapshot_spec(data@) == Err::<
                Option<SnapshotModel>,
                SnapshotError,
            >(hosts_at(data@, 16, count as nat)->Err_0),
    {
        let ghost before = models(identities@);
        match read_host(data, p) {
            Ok((id, q)) => {
                identities.push(id);
                assert(models(identities@) =~= before.push(id@));
                p = q;
            },
            Err(e) => {
                proof {
                    lemma_hosts_error(data@, 16, (i + 1) as nat, count as nat, e);
                }
                return Err(e);
            },
        }
    }
    if any_repeated(&identities) {
        return Err(SnapshotError::DuplicateIdentity);
    }
    let wide = match u64_at(data, p) {
        Some(n) => n,
        None => {
            return Err(SnapshotError::TruncatedCount);
        },
    };
    assert(p + 8 <= data.len());
    let start = p + 8;
    if wide > ((data.len() - start) / ENTRY_BYTES) as u64 {
        return Err(SnapshotError::InvalidEntryCount);
    }
    let n: usize = wide as usize;
    assert(n * ENTRY_BYTES <= data@.len() - start) by (nonlinear_arith)
        requires
            n <= (data@.len() - start) / ENTRY_BYTES as int,
            data@.len() >= start,
            ENTRY_BYTES == 26,
    ;
    let mask = low_mask_of(count);
    let mut entries: Vec<PersistedEntry> = Vec::new();
    for i in 0..n
        invariant
            data@.len() <= usize::MAX,
            n * ENTRY_BYTES <= data@.len() - start,
            entries@.len() == i,
            mask == low_mask(count as nat),
            forall|j: int|
                0 <= j < i ==> #[trigger] wire_bits_at(data@, start + j * ENTRY_BYTES) <= mask,
            forall|j: int|
                0 <= j < i ==> #[trigger] entries@[j] == entry_at(data@, start + j * ENTRY_BYTES),
            ({
                exists|j: int|
                    0 <= j < n && #[trigger] wire_bits_at(data@, p + 8 + j * ENTRY_BYTES) > low_mask(
                        count as nat,
                    )
            }) ==> parse_snapshot_spec(data@) == Err::<Option<SnapshotModel>, SnapshotError>(
                SnapshotError::UnknownProvider,
            ),
            start == p + 8,
    {
        assert(i * ENTRY_BYTES + ENTRY_BYTES <= n * ENTRY_BYTES) by (nonlinear_arith)
            requires
                i < n,
                ENTRY_BYTES == 26,
        ;
        let (wire, entry) = read_entry(data, start + i * ENTRY_BYTES);
        if wire > mask as u64 {
            assert(wire_bits_at(data@, p + 8 + i * ENTRY_BYTES) > low_mask(count as nat));
            return Err(SnapshotError::UnknownProvider);
        }
        entries.push(entry);
    }
    assert(forall|j: int|
        0 <= j < n ==> #[trigger] wire_bits_at(data@, p + 8 + j * ENTRY_BYTES) <= low_mask(
            count as nat,
        ));
    if start + n * ENTRY_BYTES != data.len() {
        return Err(SnapshotError::TrailingBytes);
    }
    let ghost ids = models(identities@);
    assert(entries@ =~= Seq::new(
        n as nat,
        |i: int| entry_at(data@, p + 8 + i * ENTRY_BYTES),
    ));
    Ok(Some(StoredAvailabilitySnapshot { identities, entries }))
}

/// A provider that cannot be read spoils every longer table.
proof fn lemma_hosts_error(data: Seq<u8>, at: int, k: nat, count: nat, e: SnapshotError)
    requires
        k <= count,
        hosts_at(data, at, k) == Err::<(Seq<IdentityModel>, int), SnapshotError>(e),
    ensures
        hosts_at(data, at, count) == Err::<(Seq<IdentityModel>, int), SnapshotError>(e),
    decreases count,
{
    if k < count {
        lemma_hosts_error(data, at, k, (count - 1) as nat, e);
    }
}

/// A table holds as many providers as were read.
pub proof fn lemma_hosts_count(data: Seq<u8>, at: int, count: nat)
    ensures
        match hosts_at(data, at, count) {
            Ok((ids, p)) => ids.len() == count,
            Err(_) => true,
        },
    decreases count,
{
    if count > 0 {
        lemma_hosts_count(data, at, (count - 1) as nat);
    }
}

// ---------------------------------------------------------------------------
// Laws
// ---------------------------------------------------------------------------

/// Can the snapshot be read back? There are no more providers than bits, their
/// names are distinct, not empty and not too long, and no fact speaks of
/// another provider.
pub open spec fn snapshot_valid(s: SnapshotModel) -> bool {
    &&& s.identities.len() <= max_backends()
    &&& stored_identities(s.identities).no_duplicates()
    &&& forall|i: int|
        0 <= i < s.identities.len() ==> 0 < encode_utf8(#[trigger] s.identities[i].namespace).len()
            <= MAX_IDENTITY_FIELD_BYTES
    &&& s.entries.len() <= u64::MAX
    &&& forall|i: int|
        0 <= i < s.entries.len() ==> (#[trigger] s.entries[i]).missing <= low_mask(
            s.identities.len(),
        )
}

proof fn lemma_host_between(pre: Seq<u8>, name: Seq<char>, post: Seq<u8>)
    requires
        0 < encode_utf8(name).len() <= MAX_IDENTITY_FIELD_BYTES,
    ensures
        host_at(pre + text_bytes(name) + post, pre.len() as int) == Ok::<
            (IdentityModel, int),
            SnapshotError,
        >(
            (
                IdentityModel { namespace: name, account: None },
                (pre.len() + text_bytes(name).len()) as int,
            ),
        ),
{
    let enc = encode_utf8(name);
    let data = pre + text_bytes(name) + post;
    lemma_le_bounds();
    lemma_le_bytes_len(enc.len(), 4);
    assert(data =~= pre + le_bytes(enc.len(), 4) + (enc + post));
    lemma_le_field_between(pre, enc.len(), 4, enc + post);
    assert(data =~= (pre + le_bytes(enc.len(), 4)) + enc + post);
    lemma_field_between(pre + le_bytes(enc.len(), 4), enc, post);
    encode_utf8_decode_utf8(name);
    encode_utf8_valid_utf8(name);
}

proof fn lemma_hosts_prefix(ids: Seq<IdentityModel>, k: nat)
    requires
        k <= ids.len(),
    ensures
        hosts_bytes(ids.take(k as int)).len() <= hosts_bytes(ids).len(),
        hosts_bytes(ids).take(hosts_bytes(ids.take(k as int)).len() as int) == hosts_bytes(
            ids.take(k as int),
        ),
    decreases ids.len(),
{
    if k == ids.len() {
        assert(ids.take(k as int) =~= ids);
        assert(hosts_bytes(ids).take(hosts_bytes(ids).len() as int) =~= hosts_bytes(ids));
    } else {
        let init = ids.drop_last();
        lemma_hosts_prefix(init, k);
        assert(init.take(k as int) =~= ids.take(k as int));
        let n = hosts_bytes(ids.take(k as int)).len() as int;
        assert(hosts_bytes(ids).take(n) =~= hosts_bytes(init).take(n));
    }
}

proof fn lemma_hosts_read_back(
    pre: Seq<u8>,
    ids: Seq<IdentityModel>,
    post: Seq<u8>,
    k: nat,
)
    requires
        k <= ids.len(),
        forall|i: int|
            0 <= i < ids.len() ==> 0 < encode_utf8(#[trigger] ids[i].namespace).len()
                <= MAX_IDENTITY_FIELD_BYTES,
    ensures
        hosts_at(pre + hosts_bytes(ids) + post, pre.len() as int, k) == Ok::<
            (Seq<IdentityModel>, int),
            SnapshotError,
        >(
            (
                stored_identities(ids.take(k as int)),
                (pre.len() + hosts_bytes(ids.take(k as int)).len()) as int,
            ),
        ),
    decreases k,
{
    let data = pre + hosts_bytes(ids) + post;
    if k == 0 {
        assert(stored_identities(ids.take(0)) =~= Seq::<IdentityModel>::empty());
        assert(ids.take(0) =~= Seq::<IdentityModel>::empty());
    } else {
        let j = (k - 1) as nat;
        lemma_hosts_read_back(pre, ids, post, j);
        lemma_hosts_prefix(ids, k);
        let before = hosts_bytes(ids.take(j as int));
        let upto = hosts_bytes(ids.take(k as int));
        let name = ids[j as int].namespace;
        assert(ids.take(k as int).drop_last() =~= ids.take(j as int));
        assert(upto == before + text_bytes(name));
        let rest = hosts_bytes(ids).skip(upto.len() as int) + post;
        assert(hosts_bytes(ids) =~= upto + hosts_bytes(ids).skip(upto.len() as int));
        assert(data =~= (pre + before) + text_bytes(name) + rest);
        lemma_host_between(pre + before, name, rest);
        assert(stored_identities(ids.take(k as int)) =~= stored_identities(
            ids.take(j as int),
        ).push(stored_identity(ids[j as int])));
    }
}

proof fn lemma_entries_len(entries: Seq<PersistedEntry>)
    ensures
        entries_bytes(entries).len() == entries.len() * ENTRY_BYTES,
    decreases entries.len(),
{
    if entries.len() > 0 {
        lemma_entries_len(entries.drop_last());
        let e = entries.last();
        lemma_le_bytes_len(e.hash as nat, 8);
        lemma_le_bytes_len(e.tag as nat, 2);
        lemma_le_bytes_len(e.missing as nat, 8);
        lemma_le_bytes_len(e.inserted_at as nat, 8);
    }
}

proof fn lemma_entry_read_back(pre: Seq<u8>, entries: Seq<PersistedEntry>, i: int)
    requires
        0 <= i < entries.len(),
    ensures
        entry_at(pre + entries_bytes(entries), pre.len() + i * ENTRY_BYTES) == entries[i],
        wire_bits_at(pre + entries_bytes(entries), pre.len() + i * ENTRY_BYTES)
            == entries[i].missing,
    decreases entries.len(),
{
    let data = pre + entries_bytes(entries);
    let init = entries.drop_last();
    let e = entries[i];
    lemma_entries_len(init);
    lemma_entries_len(entries);
    let at = pre.len() + i * ENTRY_BYTES;
    let h = le_bytes(e.hash as nat, 8);
    let t = le_bytes(e.tag as nat, 2);
    let m = le_bytes(e.missing as nat, 8);
    let w = le_bytes(e.inserted_at as nat, 8);
    lemma_le_bounds();
    lemma_le_bytes_len(e.hash as nat, 8);
    lemma_le_bytes_len(e.tag as nat, 2);
    lemma_le_bytes_len(e.missing as nat, 8);
    lemma_le_bytes_len(e.inserted_at as nat, 8);
    if i == entries.len() - 1 {
        let front = pre + entries_bytes(init);
        assert(front.len() == at);
        assert(data =~= front + h + (t + m + w));
        lemma_le_field_between(front, e.hash as nat, 8, t + m + w);
        assert(data =~= (front + h) + t + (m + w));
        lemma_le_field_between(front + h, e.tag as nat, 2, m + w);
        assert(data =~= (front + h + t) + m + w);
        lemma_le_field_between(front + h + t, e.missing as nat, 8, w);
        assert(data =~= (front + h + t + m) + w + Seq::<u8>::empty());
        lemma_le_field_between(front + h + t + m, e.inserted_at as nat, 8, Seq::<u8>::empty());
    } else {
        lemma_entry_read_back(pre, init, i);
        let shorter = pre + entries_bytes(init);
        assert(i * ENTRY_BYTES + ENTRY_BYTES <= init.len() * ENTRY_BYTES) by (nonlinear_arith)
            requires
                i < init.len(),
                ENTRY_BYTES == 26,
        ;
        assert(at + ENTRY_BYTES <= shorter.len());
        assert(data.subrange(at, at + 8) =~= shorter.subrange(at, at + 8));
        assert(data.subrange(at + 8, at + 10) =~= shorter.subrange(at + 8, at + 10));
        assert(data.subrange(at + 10, at + 18) =~= shorter.subrange(at + 10, at + 18));
        assert(data.subrange(at + 18, at + 26) =~= shorter.subrange(at + 18, at + 26));
        assert(init[i] == e);
    }
}

/// A snapshot that was written down is read back, its providers by their
/// names. A layout in which two accounts share a name is left out: their names
/// would not be distinct.
pub proof fn law_snapshot_round_trip(s: SnapshotModel)
    requires
        snapshot_valid(s),
    ensures
        parse_snapshot_spec(snapshot_bytes(s)) == Ok::<Option<SnapshotModel>, SnapshotError>(
            Some(
                SnapshotModel {
                    identities: stored_identities(s.identities),
                    entries: s.entries,
                },
            ),
        ),
{
    let data = snapshot_bytes(s);
    let ids = s.identities;
    let hosts = hosts_bytes(ids);
    let magic = snapshot_magic();
    let number = le_bytes(ids.len(), 8);
    let count = le_bytes(s.entries.len(), 8);
    let facts = entries_bytes(s.entries);
    lemma_le_bounds();
    lemma_le_bytes_len(ids.len(), 8);
    lemma_le_bytes_len(s.entries.len(), 8);
    lemma_entries_len(s.entries);
    assert(data.subrange(0, 8) =~= magic);
    assert(data[7] == 0x36);
    assert(!is_retired(data)) by {
        assert(data.subrange(4, 7)[0] == magic[4]);
    }
    assert(data =~= magic + number + (hosts + count + facts));
    lemma_le_field_between(magic, ids.len(), 8, hosts + count + facts);
    assert(data =~= (magic + number) + hosts + (count + facts));
    lemma_hosts_read_back(magic + number, ids, count + facts, ids.len());
    assert(ids.take(ids.len() as int) =~= ids);
    let p = 16 + hosts.len();
    assert(data =~= (magic + number + hosts) + count + facts);
    lemma_le_field_between(magic + number + hosts, s.entries.len(), 8, facts);
    let front = magic + number + hosts + count;
    assert(data =~= front + facts);
    assert(front.len() == p + 8);
    let n = s.entries.len();
    assert((data.len() - p - 8) / ENTRY_BYTES as int == n) by (nonlinear_arith)
        requires
            data.len() - p - 8 == n * ENTRY_BYTES,
            ENTRY_BYTES == 26,
    ;
    assert forall|i: int| 0 <= i < n implies #[trigger] wire_bits_at(data, p + 8 + i * ENTRY_BYTES)
        <= low_mask(ids.len()) by {
        lemma_entry_read_back(front, s.entries, i);
        assert(s.entries[i].missing <= low_mask(ids.len()));
    }
    assert(Seq::new(n, |i: int| entry_at(data, p + 8 + i * ENTRY_BYTES)) =~= s.entries) by {
        assert forall|i: int| 0 <= i < n implies entry_at(data, p + 8 + i * ENTRY_BYTES)
            == s.entries[i] by {
            lemma_entry_read_back(front, s.entries, i);
        }
    }
}

proof fn lemma_host_written(data: Seq<u8>, at: int)
    requires
        host_at(data, at) is Ok,
    ensures
        ({
            let (id, p) = host_at(data, at)->Ok_0;
            &&& 0 <= at <= p <= data.len()
            &&& data.subrange(at, p) == text_bytes(id.namespace)
            &&& 0 < encode_utf8(id.namespace).len() <= MAX_IDENTITY_FIELD_BYTES
            &&& id.account is None
        }),
{
    let (id, p) = host_at(data, at)->Ok_0;
    let n = le_field(data, at, 4)->0;
    lemma_le_field_bytes(data, at, 4);
    let e = data.subrange(at + 4, at + 4 + n);
    decode_utf8_encode_utf8(e);
    assert(data.subrange(at, p) =~= data.subrange(at, at + 4) + e);
}

proof fn lemma_hosts_written(data: Seq<u8>, at: int, count: nat)
    requires
        0 <= at <= data.len(),
        hosts_at(data, at, count) is Ok,
    ensures
        ({
            let (ids, p) = hosts_at(data, at, count)->Ok_0;
            &&& at <= p <= data.len()
            &&& ids.len() == count
            &&& hosts_bytes(ids) == data.subrange(at, p)
            &&& forall|i: int|
                0 <= i < ids.len() ==> 0 < encode_utf8(#[trigger] ids[i].namespace).len()
                    <= MAX_IDENTITY_FIELD_BYTES
            &&& forall|i: int| 0 <= i < ids.len() ==> (#[trigger] ids[i]).account is None
        }),
    decreases count,
{
    let (ids, q) = hosts_at(data, at, count)->Ok_0;
    if count == 0 {
        assert(data.subrange(at, at) =~= Seq::<u8>::empty());
    } else {
        let (before, p) = hosts_at(data, at, (count - 1) as nat)->Ok_0;
        lemma_hosts_written(data, at, (count - 1) as nat);
        lemma_host_written(data, p);
        let id = (host_at(data, p)->Ok_0).0;
        assert(ids == before.push(id));
        assert(ids.drop_last() =~= before);
        assert(data.subrange(at, p) + data.subrange(p, q) =~= data.subrange(at, q));
        assert forall|i: int| 0 <= i < ids.len() implies 0 < encode_utf8(
            #[trigger] ids[i].namespace,
        ).len() <= MAX_IDENTITY_FIELD_BYTES by {
            if i < before.len() {
                assert(ids[i].namespace == before[i].namespace);
            }
        }
        assert forall|i: int| 0 <= i < ids.len() implies (#[trigger] ids[i]).account is None by {
            if i < before.len() {
                assert(ids[i] == before[i]);
            }
        }
    }
}

proof fn lemma_entry_written(data: Seq<u8>, at: int)
    requires
        0 <= at,
        at + ENTRY_BYTES <= data.len(),
        wire_bits_at(data, at) <= usize::MAX,
    ensures
        data.subrange(at, at + ENTRY_BYTES) == entry_bytes(entry_at(data, at)),
{
    lemma_le_bounds();
    lemma_le_field_bytes(data, at, 8);
    lemma_le_field_bytes(data, at + 8, 2);
    lemma_le_field_bytes(data, at + 10, 8);
    lemma_le_field_bytes(data, at + 18, 8);
    assert(data.subrange(at, at + ENTRY_BYTES) =~= data.subrange(at, at + 8) + data.subrange(
        at + 8,
        at + 10,
    ) + data.subrange(at + 10, at + 18) + data.subrange(at + 18, at + 26));
}

/// The `n` facts from position `at` on.
pub open spec fn entries_at(data: Seq<u8>, at: int, n: nat) -> Seq<PersistedEntry> {
    Seq::new(n, |i: int| entry_at(data, at + i * ENTRY_BYTES))
}

proof fn lemma_entries_written(data: Seq<u8>, at: int, n: nat)
    requires
        0 <= at,
        at + n * ENTRY_BYTES <= data.len(),
        forall|i: int|
            0 <= i < n ==> #[trigger] wire_bits_at(data, at + i * ENTRY_BYTES) <= usize::MAX,
    ensures
        entries_bytes(entries_at(data, at, n)) == data.subrange(at, at + n * ENTRY_BYTES),
    decreases n,
{
    let all = entries_at(data, at, n);
    if n == 0 {
        assert(data.subrange(at, at) =~= Seq::<u8>::empty());
    } else {
        let k = (n - 1) as nat;
        assert(n * ENTRY_BYTES == k * ENTRY_BYTES + ENTRY_BYTES) by (nonlinear_arith)
            requires
                n == k + 1,
        ;
        lemma_entries_written(data, at, k);
        let p = at + k * ENTRY_BYTES;
        assert(wire_bits_at(data, at + k * ENTRY_BYTES) <= usize::MAX);
        lemma_entry_written(data, p);
        assert(all.drop_last() =~= entries_at(data, at, k));
        assert(all.last() == entry_at(data, p));
        assert(data.subrange(at, p) + data.subrange(p, p + ENTRY_BYTES) =~= data.subrange(
            at,
            at + n * ENTRY_BYTES,
        ));
    }
}

/// Bytes are read as a snapshot exactly where they are the stored form of it,
/// with nothing left over: it has no more providers than a bitmap has bits, by
/// names that are distinct, not empty and not too long, and no fact has a bit
/// beyond the providers.
pub proof fn law_snapshot_is_exact(data: Seq<u8>, s: SnapshotModel)
    ensures
        parse_snapshot_spec(data) == Ok::<Option<SnapshotModel>, SnapshotError>(Some(s))
            <==> snapshot_valid(s) && stored_identities(s.identities) == s.identities && data
            == snapshot_bytes(s),
        snapshot_valid(s) ==> forall|i: int, b: nat|
            0 <= i < s.entries.len() && s.identities.len() <= b < max_backends() ==> !(
            #[trigger] bit(s.entries[i].missing, b)),
{
    if parse_snapshot_spec(data) == Ok::<Option<SnapshotModel>, SnapshotError>(Some(s)) {
        let count = le_field(data, 8, 8)->0;
        let (ids, p) = hosts_at(data, 16, count)->Ok_0;
        let n = le_field(data, p, 8)->0;
        lemma_le_bounds();
        lemma_le_field_bytes(data, 8, 8);
        lemma_hosts_written(data, 16, count);
        lemma_le_field_bytes(data, p, 8);
        assert(forall|i: int|
            0 <= i < n ==> #[trigger] wire_bits_at(data, p + 8 + i * ENTRY_BYTES) <= low_mask(
                ids.len(),
            ));
        lemma_entries_written(data, p + 8, n);
        assert(s.entries =~= entries_at(data, p + 8, n));
        assert(stored_identities(ids) =~= ids) by {
            assert forall|i: int| 0 <= i < ids.len() implies stored_identity(ids[i]) == ids[i] by {
                assert(ids[i].account is None);
            }
        }
        assert forall|i: int| 0 <= i < s.entries.len() implies (#[trigger] s.entries[i]).missing
            <= low_mask(ids.len()) by {
            assert(wire_bits_at(data, p + 8 + i * ENTRY_BYTES) <= low_mask(ids.len()));
        }
        let end = data.len() as int;
        assert(data =~= data.subrange(0, 8) + data.subrange(8, 16) + data.subrange(16, p)
            + data.subrange(p, p + 8) + data.subrange(p + 8, end));
    }
    if snapshot_valid(s) {
        law_snapshot_round_trip(s);
        assert forall|i: int, b: nat|
            0 <= i < s.entries.len() && s.identities.len() <= b < max_backends() implies !(
        #[trigger] bit(s.entries[i].missing, b)) by {
            lemma_above_low_mask(s.entries[i].missing, s.identities.len(), b);
        }
    }
}

/// Where a provider is read back, its name can be read.
proof fn lemma_host_read_means_readable(pre: Seq<u8>, name: Seq<char>, post: Seq<u8>)
    requires
        encode_utf8(name).len() <= u32::MAX,
        host_at(pre + text_bytes(name) + post, pre.len() as int) is Ok,
    ensures
        0 < encode_utf8(name).len() <= MAX_IDENTITY_FIELD_BYTES,
{
    let enc = encode_utf8(name);
    lemma_le_bounds();
    lemma_le_bytes_len(enc.len(), 4);
    assert(pre + text_bytes(name) + post =~= pre + le_bytes(enc.len(), 4) + (enc + post));
    lemma_le_field_between(pre, enc.len(), 4, enc + post);
}

/// The bytes of the first `k` providers, of the next one, and of the others.
proof fn lemma_hosts_parted(ids: Seq<IdentityModel>, k: nat) -> (rest: Seq<u8>)
    requires
        k < ids.len(),
    ensures
        hosts_bytes(ids) == hosts_bytes(ids.take(k as int)) + text_bytes(ids[k as int].namespace)
            + rest,
        hosts_bytes(ids.take((k + 1) as int)) == hosts_bytes(ids.take(k as int)) + text_bytes(
            ids[k as int].namespace,
        ),
{
    let upto = hosts_bytes(ids.take((k + 1) as int));
    lemma_hosts_prefix(ids, k + 1);
    assert(ids.take((k + 1) as int).drop_last() =~= ids.take(k as int));
    let rest = hosts_bytes(ids).skip(upto.len() as int);
    assert(hosts_bytes(ids) =~= upto + rest);
    rest
}

/// Where the first `k` providers are read back, their names can be read.
proof fn lemma_hosts_read_means_readable(
    pre: Seq<u8>,
    ids: Seq<IdentityModel>,
    post: Seq<u8>,
    k: nat,
)
    requires
        k <= ids.len(),
        hosts_fit(ids),
        hosts_at(pre + hosts_bytes(ids) + post, pre.len() as int, k) is Ok,
    ensures
        forall|i: int|
            0 <= i < k ==> 0 < encode_utf8(#[trigger] ids[i].namespace).len()
                <= MAX_IDENTITY_FIELD_BYTES,
        (hosts_at(pre + hosts_bytes(ids) + post, pre.len() as int, k)->Ok_0).1 == pre.len()
            + hosts_bytes(ids.take(k as int)).len(),
    decreases k,
{
    let data = pre + hosts_bytes(ids) + post;
    if k == 0 {
        assert(ids.take(0) =~= Seq::<IdentityModel>::empty());
    } else {
        let j = (k - 1) as nat;
        lemma_hosts_read_means_readable(pre, ids, post, j);
        let rest = lemma_hosts_parted(ids, j);
        let name = ids[j as int].namespace;
        assert(encode_utf8(name).len() <= u32::MAX);
        let front = pre + hosts_bytes(ids.take(j as int));
        let tail = rest + post;
        assert(data =~= front + text_bytes(name) + tail) by {
            lemma_regroup(pre, hosts_bytes(ids.take(j as int)), text_bytes(name), rest, post);
        }
        assert(host_at(data, front.len() as int) is Ok);
        lemma_host_read_means_readable(front, name, tail);
        lemma_host_between(front, name, tail);
    }
}

proof fn lemma_regroup(a: Seq<u8>, b: Seq<u8>, c: Seq<u8>, d: Seq<u8>, e: Seq<u8>)
    ensures
        a + (b + c + d) + e == (a + b) + c + (d + e),
{
    assert(a + (b + c + d) + e =~= (a + b) + c + (d + e));
}

#[verifier::spinoff_prover]
#[verifier::rlimit(60)]
proof fn lemma_read_means_valid(s: SnapshotModel)
    requires
        s.identities.len() <= max_backends(),
        s.entries.len() <= u64::MAX,
        hosts_fit(s.identities),
        parse_snapshot_spec(snapshot_bytes(s)) is Ok,
    ensures
        snapshot_valid(s),
{
    let data = snapshot_bytes(s);
    let ids = s.identities;
    let hosts = hosts_bytes(ids);
    let magic = snapshot_magic();
    let number = le_bytes(ids.len(), 8);
    let count = le_bytes(s.entries.len(), 8);
    let facts = entries_bytes(s.entries);
    let n = s.entries.len();
    lemma_le_bounds();
    lemma_le_bytes_len(ids.len(), 8);
    lemma_le_bytes_len(n, 8);
    lemma_entries_len(s.entries);
    assert(data.subrange(0, 8) =~= magic);
    assert(data[7] == 0x36);
    assert(!is_retired(data)) by {
        assert(data.subrange(4, 7)[0] == magic[4]);
    }
    assert(data =~= magic + number + (hosts + count + facts));
    lemma_le_field_between(magic, ids.len(), 8, hosts + count + facts);
    assert(data =~= (magic + number) + hosts + (count + facts));
    lemma_hosts_read_means_readable(magic + number, ids, count + facts, ids.len());
    lemma_hosts_read_back(magic + number, ids, count + facts, ids.len());
    assert(ids.take(ids.len() as int) =~= ids);
    let p = 16 + hosts.len();
    assert(data =~= (magic + number + hosts) + count + facts);
    lemma_le_field_between(magic + number + hosts, n, 8, facts);
    let front = magic + number + hosts + count;
    assert(data =~= front + facts);
    assert(front.len() == p + 8);
    assert((data.len() - p - 8) / ENTRY_BYTES as int == n) by (nonlinear_arith)
        requires
            data.len() - p - 8 == n * ENTRY_BYTES,
            ENTRY_BYTES == 26,
    ;
    assert forall|i: int| 0 <= i < n implies (#[trigger] s.entries[i]).missing <= low_mask(
        ids.len(),
    ) by {
        lemma_entry_read_back(front, s.entries, i);
        assert(!(wire_bits_at(data, p + 8 + i * ENTRY_BYTES) > low_mask(ids.len())));
    }
}

/// What was written down is read back exactly where the names of the providers
/// are distinct, not empty and not too long, and no fact has a bit beyond the
/// providers.
pub proof fn law_saved_is_readable(s: SnapshotModel)
    requires
        s.identities.len() <= max_backends(),
        s.entries.len() <= u64::MAX,
        hosts_fit(s.identities),
    ensures
        parse_snapshot_spec(snapshot_bytes(s)) is Ok <==> snapshot_valid(s),
{
    if parse_snapshot_spec(snapshot_bytes(s)) is Ok {
        lemma_read_means_valid(s);
    }
    if snapshot_valid(s) {
        law_snapshot_round_trip(s);
    }
}

/// Do the bytes start with the mark of a retired form of snapshot?
pub open spec fn marked_as_retired(data: Seq<u8>) -> bool {
    ||| starts_with_text(data, "ANEGIDX1"@)
    ||| starts_with_text(data, "ANEGIDX2"@)
    ||| starts_with_text(data, "ANEGSIM1"@)
    ||| starts_with_text(data, "ANEGSIM2"@)
    ||| starts_with_text(data, "ANEGSIM3"@)
    ||| starts_with_text(data, "ANEGSIM4"@)
    ||| starts_with_text(data, "ANEGSIM5"@)
}

proof fn lemma_marks(data: Seq<u8>)
    requires
        data.len() >= 8,
    ensures
        is_retired(data) == marked_as_retired(data),
        has_prefix(data, snapshot_magic()) == starts_with_text(data, "ANEGSIM6"@),
{
    reveal_strlit("ANEGIDX1");
    reveal_strlit("ANEGIDX2");
    reveal_strlit("ANEGSIM1");
    reveal_strlit("ANEGSIM2");
    reveal_strlit("ANEGSIM3");
    reveal_strlit("ANEGSIM4");
    reveal_strlit("ANEGSIM5");
    reveal_strlit("ANEGSIM6");
    let front = data.subrange(0, 4);
    let kind = data.subrange(4, 7);
    let mark = data.subrange(0, 8);
    assert(front[0] == data[0] && front[1] == data[1] && front[2] == data[2] && front[3] == data[3]);
    assert(kind[0] == data[4] && kind[1] == data[5] && kind[2] == data[6]);
    assert(mark[0] == data[0] && mark[1] == data[1] && mark[2] == data[2] && mark[3] == data[3]
        && mark[4] == data[4] && mark[5] == data[5] && mark[6] == data[6] && mark[7] == data[7]);
    if data[0] == 0x41 && data[1] == 0x4e && data[2] == 0x45 && data[3] == 0x47 {
        assert(front =~= seq![0x41u8, 0x4e, 0x45, 0x47]);
    }
    if data[4] == 0x49 && data[5] == 0x44 && data[6] == 0x58 {
        assert(kind =~= seq![0x49u8, 0x44, 0x58]);
    }
    if data[4] == 0x53 && data[5] == 0x49 && data[6] == 0x4d {
        assert(kind =~= seq![0x53u8, 0x49, 0x4d]);
    }
    if starts_with_text(data, "ANEGSIM6"@) {
        assert(mark =~= snapshot_magic());
    }
}

/// Bytes are a snapshot only where they start with `ANEGSIM6`. Those of a
/// retired form are passed over without an error, others are an error; and none
/// shorter than two words is looked at.
pub proof fn law_snapshot_marks(data: Seq<u8>)
    ensures
        parse_snapshot_spec(data) == Err::<Option<SnapshotModel>, SnapshotError>(
            SnapshotError::TooShort,
        ) <==> data.len() < 16,
        data.len() >= 16 ==> (parse_snapshot_spec(data) == Ok::<
            Option<SnapshotModel>,
            SnapshotError,
        >(None) <==> marked_as_retired(data)),
        data.len() >= 16 ==> (parse_snapshot_spec(data) == Err::<
            Option<SnapshotModel>,
            SnapshotError,
        >(SnapshotError::UnknownFormat) <==> !marked_as_retired(data) && !starts_with_text(
            data,
            "ANEGSIM6"@,
        )),
{
    if data.len() >= 16 {
        lemma_marks(data);
        lemma_hosts_errors(data, 16, le_field(data, 8, 8)->0);
    reveal_strlit("ANEGIDX1");
    reveal_strlit("ANEGIDX2");
    reveal_strlit("ANEGSIM1");
    reveal_strlit("ANEGSIM2");
    reveal_strlit("ANEGSIM3");
    reveal_strlit("ANEGSIM4");
    reveal_strlit("ANEGSIM5");
    reveal_strlit("ANEGSIM6");
    }
}

proof fn lemma_hosts_errors(data: Seq<u8>, at: int, count: nat)
    ensures
        hosts_at(data, at, count) is Err ==> hosts_at(data, at, count)->Err_0
            != SnapshotError::TooShort && hosts_at(data, at, count)->Err_0
            != SnapshotError::UnknownFormat,
    decreases count,
{
    if count > 0 {
        lemma_hosts_errors(data, at, (count - 1) as nat);
    }
}

/// A stored fact takes 26 bytes: the hash in eight, the tag in two, the backends
/// without the article in eight, and the time in eight, each number with its
/// lowest byte first.
pub proof fn law_stored_fact(e: PersistedEntry)
    ensures
        entry_bytes(e).len() == 26,
        le_field(entry_bytes(e), 0, 8) == Some(e.hash as nat),
        le_field(entry_bytes(e), 8, 2) == Some(e.tag as nat),
        le_field(entry_bytes(e), 10, 8) == Some(e.missing as nat),
        le_field(entry_bytes(e), 18, 8) == Some(e.inserted_at as nat),
{
    let (h, t) = (le_bytes(e.hash as nat, 8), le_bytes(e.tag as nat, 2));
    let (m, i) = (le_bytes(e.missing as nat, 8), le_bytes(e.inserted_at as nat, 8));
    lemma_le_bounds();
    lemma_le_bytes_len(e.hash as nat, 8);
    lemma_le_bytes_len(e.tag as nat, 2);
    lemma_le_bytes_len(e.missing as nat, 8);
    lemma_le_bytes_len(e.inserted_at as nat, 8);
    let none = Seq::<u8>::empty();
    assert(entry_bytes(e) =~= none + h + (t + m + i));
    lemma_le_field_between(none, e.hash as nat, 8, t + m + i);
    assert(entry_bytes(e) =~= h + t + (m + i));
    lemma_le_field_between(h, e.tag as nat, 2, m + i);
    assert(entry_bytes(e) =~= (h + t) + m + i);
    lemma_le_field_between(h + t, e.missing as nat, 8, i);
    assert(entry_bytes(e) =~= (h + t + m) + i + none);
    lemma_le_field_between(h + t + m, e.inserted_at as nat, 8, none);
}

/// A snapshot starts with its mark and the number of its providers; after their
/// names comes the number of the facts.
pub proof fn law_stored_snapshot(s: SnapshotModel)
    requires
        s.identities.len() <= u64::MAX,
        s.entries.len() <= u64::MAX,
    ensures
        starts_with_text(snapshot_bytes(s), "ANEGSIM6"@),
        le_field(snapshot_bytes(s), 8, 8) == Some(s.identities.len()),
        le_field(snapshot_bytes(s), 16 + hosts_bytes(s.identities).len() as int, 8) == Some(
            s.entries.len(),
        ),
        snapshot_bytes(s).len() == 24 + hosts_bytes(s.identities).len() + 26 * s.entries.len(),
{
    let data = snapshot_bytes(s);
    let magic = snapshot_magic();
    let number = le_bytes(s.identities.len(), 8);
    let hosts = hosts_bytes(s.identities);
    let count = le_bytes(s.entries.len(), 8);
    let facts = entries_bytes(s.entries);
    lemma_le_bounds();
    lemma_le_bytes_len(s.identities.len(), 8);
    lemma_le_bytes_len(s.entries.len(), 8);
    lemma_entries_len(s.entries);
    assert(data.subrange(0, 8) =~= magic);
    lemma_marks(data);
    assert(has_prefix(data, magic));
    assert(data =~= magic + number + (hosts + count + facts));
    lemma_le_field_between(magic, s.identities.len(), 8, hosts + count + facts);
    assert(data =~= (magic + number + hosts) + count + facts);
    lemma_le_field_between(magic + number + hosts, s.entries.len(), 8, facts);
}

/// Of a provider its name is stored: the number of its bytes in four, and the
/// bytes. A name of more than a binary megabyte is not read, nor an empty one.
pub proof fn law_stored_names(data: Seq<u8>, at: int, ids: Seq<IdentityModel>, id: IdentityModel)
    requires
        encode_utf8(id.namespace).len() <= u32::MAX,
    ensures
        hosts_bytes(Seq::empty()).len() == 0,
        hosts_bytes(ids.push(id)) == hosts_bytes(ids) + le_bytes(
            encode_utf8(id.namespace).len(),
            4,
        ) + encode_utf8(id.namespace),
        le_field(data, at, 4) is Some ==> (le_field(data, at, 4)->0 > 1024 * 1024 <==> host_at(
            data,
            at,
        ) == Err::<(IdentityModel, int), SnapshotError>(SnapshotError::HostTooLong)),
        le_field(data, at, 4) == Some(0nat) ==> host_at(data, at) is Err,
{
    assert(ids.push(id).drop_last() =~= ids);
    assert(hosts_bytes(ids.push(id)) =~= hosts_bytes(ids) + le_bytes(
        encode_utf8(id.namespace).len(),
        4,
    ) + encode_utf8(id.namespace));
}

} // verus!
