//! Stable identities of article stores, separate from the backends that reach
//! them.
//!
//! Backends with the same identity share their availability facts, so a bitmap
//! has one bit per identity. The registry keeps the order of the identities
//! across restarts, and so the meaning of stored bits.
use crate::bits::{bit_set, lemma_empty, lemma_insert_bit};
use crate::bytes::{
    at_most, field, field_at, has_prefix, le_bytes, le_field, lemma_field_between,
    lemma_le_bounds, lemma_le_bytes_len, lemma_le_field_between, lemma_le_field_bytes,
    lemma_lex_total, lemma_lex_transitive, lex_le, push_bytes, push_u32, push_u64, starts_with,
    starts_with_text, u32_at, u64_at,
};
use crate::config::types::Server;
use crate::hash::{xxhash64, xxhash64_of};
use crate::text::{concat3, decimal_text, number_string, str_eq, str_from_utf8, string_of};
use crate::types::{max_backends, BackendId};
use vstd::prelude::*;
use vstd::relations::*;
use vstd::string::*;
use vstd::utf8::*;

verus! {

/// First bytes of a registry.
pub open spec fn registry_magic() -> Seq<u8> {
    seq![0x41u8, 0x4e, 0x45, 0x47, 0x52, 0x45, 0x47, 0x31]
}

fn registry_magic_bytes() -> (r: Vec<u8>)
    ensures
        r@ == registry_magic(),
{
    let v: Vec<u8> = vec![0x41, 0x4e, 0x45, 0x47, 0x52, 0x45, 0x47, 0x31];
    assert(v@ =~= registry_magic());
    v
}

/// Longest text that a registry holds, in bytes.
pub const MAX_REGISTRY_FIELD_BYTES: usize = 1_048_576;

/// Account under which facts are shared.
#[derive(Debug, PartialEq, Eq)]
pub enum AccountIdentity {
    Anonymous,
    Username(String),
}

impl View for AccountIdentity {
    type V = Option<Seq<char>>;

    open spec fn view(&self) -> Option<Seq<char>> {
        match self {
            AccountIdentity::Anonymous => None,
            AccountIdentity::Username(u) => Some(u@),
        }
    }
}

/// What an identity says: a name space and an account in it.
#[verifier::ext_equal]
pub struct IdentityModel {
    pub namespace: Seq<char>,
    pub account: Option<Seq<char>>,
}

/// A store of articles whose facts may be shared.
#[derive(Debug, PartialEq, Eq)]
pub struct AvailabilityIdentity {
    pub namespace: String,
    pub account: AccountIdentity,
}

impl View for AvailabilityIdentity {
    type V = IdentityModel;

    open spec fn view(&self) -> IdentityModel {
        IdentityModel { namespace: self.namespace@, account: self.account@ }
    }
}

impl Clone for AvailabilityIdentity {
    fn clone(&self) -> (r: Self)
        ensures
            r@ == self@,
    {
        let account = match &self.account {
            AccountIdentity::Anonymous => AccountIdentity::Anonymous,
            AccountIdentity::Username(u) => AccountIdentity::Username(u.clone()),
        };
        AvailabilityIdentity { namespace: self.namespace.clone(), account }
    }
}

/// The identity of a server: its name space, or else its host, and the account
/// used on it.
pub open spec fn server_identity(server: Server) -> IdentityModel {
    IdentityModel {
        namespace: match server.availability_namespace {
            Some(n) => n@,
            None => server.host@,
        },
        account: match server.username {
            Some(u) => Some(u@),
            None => None,
        },
    }
}

impl AvailabilityIdentity {
    pub fn from_server(server: &Server) -> (r: Self)
        ensures
            r@ == server_identity(*server),
    {
        let namespace = match &server.availability_namespace {
            Some(n) => n.clone(),
            None => string_of(server.host.as_str()),
        };
        let account = match &server.username {
            Some(u) => AccountIdentity::Username(u.clone()),
            None => AccountIdentity::Anonymous,
        };
        AvailabilityIdentity { namespace, account }
    }

    /// The identity that a stored host name stands for.
    pub fn from_persisted_host(host: String) -> (r: Self)
        ensures
            r@ == (IdentityModel { namespace: host@, account: None }),
    {
        AvailabilityIdentity { namespace: host, account: AccountIdentity::Anonymous }
    }

    /// The name that is stored for the identity.
    pub fn as_host(&self) -> (r: &str)
        ensures
            r@ == self@.namespace,
    {
        self.namespace.as_str()
    }

    pub fn same(&self, other: &AvailabilityIdentity) -> (r: bool)
        ensures
            r == (self@ == other@),
    {
        if !str_eq(self.namespace.as_str(), other.namespace.as_str()) {
            return false;
        }
        match (&self.account, &other.account) {
            (AccountIdentity::Anonymous, AccountIdentity::Anonymous) => true,
            (AccountIdentity::Username(a), AccountIdentity::Username(b)) => str_eq(
                a.as_str(),
                b.as_str(),
            ),
            _ => false,
        }
    }
}

/// Bit position in an availability bitmap.
#[derive(Clone, Copy, Debug, PartialEq, Eq, Structural)]
pub struct AvailabilitySlot {
    index: usize,
}

impl View for AvailabilitySlot {
    type V = nat;

    closed spec fn view(&self) -> nat {
        self.index as nat
    }
}

impl AvailabilitySlot {
    #[verifier::type_invariant]
    spec fn valid(self) -> bool {
        self.index < usize::BITS
    }

    /// The slot at `index`, if the bitmap has a bit for it.
    pub fn new(index: usize) -> (r: Option<Self>)
        ensures
            match r {
                Some(s) => index < max_backends() && s@ == index,
                None => index >= max_backends(),
            },
    {
        if index < usize::BITS as usize {
            Some(AvailabilitySlot { index })
        } else {
            None
        }
    }

    pub fn index(self) -> (r: usize)
        ensures
            r == self@,
            r < max_backends(),
    {
        proof {
            use_type_invariant(&self);
        }
        self.index
    }

    /// The bitmap with only this slot's bit.
    pub fn bit(self) -> (r: usize)
        ensures
            self@ < max_backends(),
            r == 1usize << (self@ as usize),
            bit_set(r) == Set::<nat>::empty().insert(self@),
    {
        proof {
            use_type_invariant(&self);
            lemma_empty();
            lemma_insert_bit(0, self.index);
            let i = self.index;
            assert(0usize | (1usize << i) == 1usize << i) by (bit_vector);
        }
        1usize << self.index
    }
}

/// A set of slots.
#[derive(Clone, Copy, Debug, PartialEq, Eq, Structural)]
pub struct AvailabilityMask {
    bits: usize,
}

impl View for AvailabilityMask {
    type V = Set<nat>;

    closed spec fn view(&self) -> Set<nat> {
        bit_set(self.bits)
    }
}

impl AvailabilityMask {
    pub fn empty() -> (r: Self)
        ensures
            r@ == Set::<nat>::empty(),
    {
        proof {
            lemma_empty();
        }
        AvailabilityMask { bits: 0 }
    }

    pub fn insert(&mut self, slot: AvailabilitySlot)
        ensures
            final(self)@ == old(self)@.insert(slot@),
    {
        let b = slot.bit();
        proof {
            lemma_insert_bit(self.bits, slot@ as usize);
        }
        self.bits = self.bits | b;
    }

    pub fn bits(self) -> (r: usize)
        ensures
            bit_set(r) == self@,
    {
        self.bits
    }
}

// ---------------------------------------------------------------------------
// Lists of identities
// ---------------------------------------------------------------------------

pub open spec fn models(ids: Seq<AvailabilityIdentity>) -> Seq<IdentityModel> {
    ids.map_values(|i: AvailabilityIdentity| i@)
}

pub open spec fn server_models(servers: Seq<Server>) -> Seq<IdentityModel> {
    servers.map_values(|s: Server| server_identity(s))
}

/// `known` followed by the members of `ids` that it lacks, each once and in
/// the order of their first appearance.
pub open spec fn with_new(known: Seq<IdentityModel>, ids: Seq<IdentityModel>) -> Seq<IdentityModel>
    decreases ids.len(),
{
    if ids.len() == 0 {
        known
    } else {
        let before = with_new(known, ids.drop_last());
        if before.contains(ids.last()) {
            before
        } else {
            before.push(ids.last())
        }
    }
}

/// Position of the first member equal to `id`, the length where there is none.
pub open spec fn position_of(ids: Seq<IdentityModel>, id: IdentityModel) -> int
    decreases ids.len(),
{
    if ids.len() == 0 {
        0
    } else if ids[0] == id {
        0
    } else {
        1 + position_of(ids.subrange(1, ids.len() as int), id)
    }
}

pub proof fn lemma_position_of(ids: Seq<IdentityModel>, id: IdentityModel)
    ensures
        0 <= position_of(ids, id) <= ids.len(),
        position_of(ids, id) < ids.len() <==> ids.contains(id),
        position_of(ids, id) < ids.len() ==> ids[position_of(ids, id)] == id,
        forall|j: int| 0 <= j < position_of(ids, id) ==> ids[j] != id,
    decreases ids.len(),
{
    if ids.len() > 0 && ids[0] != id {
        let rest = ids.subrange(1, ids.len() as int);
        lemma_position_of(rest, id);
        if ids.contains(id) {
            let k = choose|k: int| 0 <= k < ids.len() && ids[k] == id;
            assert(rest[k - 1] == id);
        }
        assert forall|j: int| 0 <= j < position_of(ids, id) implies ids[j] != id by {
            if j > 0 {
                assert(rest[j - 1] != id);
            }
        }
    } else if ids.len() > 0 {
        assert(ids[0] == id);
    }
}

/// What is left of an identity where its name alone is stored.
pub open spec fn stored_identity(id: IdentityModel) -> IdentityModel {
    IdentityModel { namespace: id.namespace, account: None }
}

pub open spec fn stored_identities(ids: Seq<IdentityModel>) -> Seq<IdentityModel> {
    ids.map_values(|id: IdentityModel| stored_identity(id))
}

/// Position of the first member that has the name of `id`, whatever the
/// accounts; the length where there is none.
pub open spec fn host_position(ids: Seq<IdentityModel>, id: IdentityModel) -> int {
    position_of(stored_identities(ids), stored_identity(id))
}

pub proof fn lemma_host_position(ids: Seq<IdentityModel>, id: IdentityModel)
    ensures
        0 <= host_position(ids, id) <= ids.len(),
        host_position(ids, id) < ids.len() ==> ids[host_position(ids, id)].namespace
            == id.namespace,
        forall|j: int|
            0 <= j < host_position(ids, id) ==> (#[trigger] ids[j]).namespace != id.namespace,
{
    let names = stored_identities(ids);
    lemma_position_of(names, stored_identity(id));
    assert forall|j: int| 0 <= j < host_position(ids, id) implies (#[trigger] ids[j]).namespace
        != id.namespace by {
        assert(names[j] == stored_identity(ids[j]));
    }
}

/// Adding members keeps what was known in its place, adds every new member,
/// and repeats none.
pub proof fn lemma_with_new(known: Seq<IdentityModel>, ids: Seq<IdentityModel>)
    ensures
        known.len() <= with_new(known, ids).len() <= known.len() + ids.len(),
        with_new(known, ids).subrange(0, known.len() as int) == known,
        known.no_duplicates() ==> with_new(known, ids).no_duplicates(),
        forall|i: int| #![trigger ids[i]]
            0 <= i < ids.len() ==> with_new(known, ids).contains(ids[i]),
    decreases ids.len(),
{
    let w = with_new(known, ids);
    if ids.len() == 0 {
        assert(known.subrange(0, known.len() as int) =~= known);
    } else {
        lemma_with_new(known, ids.drop_last());
        let before = with_new(known, ids.drop_last());
        assert(w.subrange(0, known.len() as int) =~= before.subrange(0, known.len() as int));
        assert forall|i: int| #![trigger ids[i]] 0 <= i < ids.len() implies w.contains(ids[i]) by {
            if i < ids.len() - 1 {
                assert(ids.drop_last()[i] == ids[i]);
                let k = choose|k: int| 0 <= k < before.len() && before[k] == ids[i];
                assert(w[k] == ids[i]);
            } else if !before.contains(ids.last()) {
                assert(w[w.len() - 1] == ids[i]);
            }
        }
        if known.no_duplicates() && !before.contains(ids.last()) {
            assert forall|a: int, b: int| 0 <= a < w.len() && 0 <= b < w.len() && a != b implies w[a]
                != w[b] by {
                if a < before.len() && b < before.len() {
                    assert(before[a] != before[b]);
                } else if a < before.len() {
                    assert(before.contains(before[a]));
                } else {
                    assert(before.contains(before[b]));
                }
            }
        }
    }
}

/// Position of `id` among `ids`, if it is there.
fn find_identity(ids: &Vec<AvailabilityIdentity>, id: &AvailabilityIdentity) -> (r: Option<usize>)
    ensures
        match r {
            Some(i) => i == position_of(models(ids@), id@) && i < ids@.len(),
            None => position_of(models(ids@), id@) == ids@.len(),
        },
{
    let ghost m = models(ids@);
    proof {
        lemma_position_of(m, id@);
    }
    for i in 0..ids.len()
        invariant
            m == models(ids@),
            0 <= position_of(m, id@) <= m.len(),
            position_of(m, id@) < m.len() ==> m[position_of(m, id@)] == id@,
            forall|j: int| 0 <= j < position_of(m, id@) ==> m[j] != id@,
            forall|j: int| 0 <= j < i ==> m[j] != id@,
    {
        assert(m[i as int] == ids@[i as int]@);
        if ids[i].same(id) {
            return Some(i);
        }
    }
    None
}

/// Adds the identities that `ids` lacks. Says whether any was added.
fn add_missing(ids: &mut Vec<AvailabilityIdentity>, more: Vec<AvailabilityIdentity>) -> (r: bool)
    ensures
        models(final(ids)@) == with_new(models(old(ids)@), models(more@)),
        r == (final(ids)@.len() != old(ids)@.len()),
{
    let ghost known = models(ids@);
    let ghost wanted = models(more@);
    let mut changed: bool = false;
    assert(wanted.take(0) =~= Seq::<IdentityModel>::empty());
    for i in 0..more.len()
        invariant
            known == models(old(ids)@),
            wanted == models(more@),
            models(ids@) == with_new(known, wanted.take(i as int)),
            ids@.len() >= old(ids)@.len(),
            changed == (ids@.len() != old(ids)@.len()),
    {
        let ghost before = models(ids@);
        assert(wanted.take(i + 1).drop_last() =~= wanted.take(i as int));
        assert(wanted.take(i + 1).last() == more@[i as int]@);
        proof {
            lemma_position_of(before, more@[i as int]@);
        }
        let found = find_identity(ids, &more[i]);
        if found.is_none() {
            ids.push(more[i].clone());
            assert(models(ids@) =~= before.push(more@[i as int]@));
            changed = true;
        }
    }
    assert(wanted.take(wanted.len() as int) =~= wanted);
    changed
}

fn identities_of(servers: &Vec<Server>) -> (r: Vec<AvailabilityIdentity>)
    ensures
        models(r@) == server_models(servers@),
{
    let mut out: Vec<AvailabilityIdentity> = Vec::new();
    for i in 0..servers.len()
        invariant
            out@.len() == i,
            forall|j: int| 0 <= j < i ==> #[trigger] out@[j]@ == server_identity(servers@[j]),
    {
        out.push(AvailabilityIdentity::from_server(&servers[i]));
    }
    assert(models(out@) =~= server_models(servers@));
    out
}

// ---------------------------------------------------------------------------
// Layouts
// ---------------------------------------------------------------------------

/// Why there is no layout.
#[derive(Clone, Copy, Debug, PartialEq, Eq, Structural)]
pub enum AvailabilityLayoutError {
    /// There are more identities than bits in a bitmap.
    TooManyIdentities,
}

impl AvailabilityLayoutError {
    pub fn message(&self) -> (r: &'static str)
        ensures
            r@ == "too many availability identities"@,
    {
        "too many availability identities"
    }
}

/// The invented names of so many backends.
pub open spec fn synthetic_identities(count: nat) -> Seq<IdentityModel> {
    Seq::new(
        count,
        |i: int|
            IdentityModel { namespace: "backend-"@ + decimal_text(i as nat), account: None },
    )
}

/// Which slot each configured backend has, and which identity each slot stands
/// for.
#[derive(Debug, PartialEq, Eq)]
pub struct AvailabilityLayout {
    pub backend_slots: Vec<AvailabilitySlot>,
    pub identities: Vec<AvailabilityIdentity>,
    pub mask: AvailabilityMask,
    pub epoch: u64,
}

impl AvailabilityLayout {
    /// No identity occurs twice, a bitmap has a bit for each, and every backend
    /// has the slot of one of them.
    pub open spec fn wf(&self) -> bool {
        &&& models(self.identities@).no_duplicates()
        &&& self.identities@.len() <= max_backends()
        &&& forall|i: int|
            0 <= i < self.backend_slots@.len() ==> #[trigger] self.backend_slots@[i]@
                < self.identities@.len()
    }

    /// Each backend has the slot of its identity.
    pub open spec fn places(&self, ids: Seq<IdentityModel>) -> bool {
        &&& self.backend_slots@.len() == ids.len()
        &&& forall|i: int|
            0 <= i < ids.len() ==> #[trigger] self.backend_slots@[i]@ == position_of(
                models(self.identities@),
                ids[i],
            )
    }

    /// So many backends under invented names, each with the slot of its number.
    pub open spec fn is_synthetic(&self, count: nat) -> bool {
        &&& models(self.identities@) == synthetic_identities(count)
        &&& self.backend_slots@.len() == count
        &&& forall|i: int| 0 <= i < count ==> #[trigger] self.backend_slots@[i]@ == i
        &&& self.mask@ == Set::new(|i: nat| i < count)
        &&& self.epoch == 0
    }

    /// One slot per backend, under invented names.
    pub fn synthetic(count: usize) -> (r: Self)
        requires
            count <= max_backends(),
        ensures
            r.wf(),
            r.is_synthetic(count as nat),
    {
        let mut identities: Vec<AvailabilityIdentity> = Vec::new();
        let mut backend_slots: Vec<AvailabilitySlot> = Vec::new();
        let mut mask = AvailabilityMask::empty();
        assert(mask@ =~= Set::new(|i: nat| i < 0));
        for index in 0..count
            invariant
                count <= max_backends(),
                identities@.len() == index,
                backend_slots@.len() == index,
                forall|i: int|
                    0 <= i < index ==> #[trigger] identities@[i]@ == (IdentityModel {
                        namespace: "backend-"@ + decimal_text(i as nat),
                        account: None,
                    }),
                forall|i: int| 0 <= i < index ==> #[trigger] backend_slots@[i]@ == i,
                mask@ == Set::new(|i: nat| i < index),
        {
            let number = number_string(index as u64);
            let namespace = concat3("backend-", number.as_str(), "");
            proof {
                reveal_strlit("");
                assert(namespace@ =~= "backend-"@ + decimal_text(index as nat));
            }
            identities.push(AvailabilityIdentity { namespace, account: AccountIdentity::Anonymous });
            let slot = AvailabilitySlot::new(index).unwrap();
            backend_slots.push(slot);
            mask.insert(slot);
            assert(mask@ =~= Set::new(|i: nat| i < index + 1));
        }
        let r = AvailabilityLayout { backend_slots, identities, mask, epoch: 0 };
        proof {
            let m = models(r.identities@);
            assert forall|a: int, b: int| 0 <= a < m.len() && 0 <= b < m.len() && a != b implies m[a]
                != m[b] by {
                lemma_numbered_names_differ(a as nat, b as nat);
                assert(r.identities@[a]@ == m[a]);
                assert(r.identities@[b]@ == m[b]);
            }
            assert(m =~= synthetic_identities(count as nat));
        }
        r
    }

    fn from_identities(wanted: Vec<AvailabilityIdentity>) -> (r: Result<
        Self,
        AvailabilityLayoutError,
    >)
        ensures
            match r {
                Ok(l) => {
                    &&& with_new(Seq::empty(), models(wanted@)).len() <= max_backends()
                    &&& l.wf()
                    &&& models(l.identities@) == with_new(Seq::empty(), models(wanted@))
                    &&& l.places(models(wanted@))
                    &&& l.mask@ == Set::new(|i: nat| i < l.identities@.len())
                    &&& l.epoch == 0
                },
                Err(e) => {
                    &&& with_new(Seq::empty(), models(wanted@)).len() > max_backends()
                    &&& e == AvailabilityLayoutError::TooManyIdentities
                },
            },
    {
        let mut identities: Vec<AvailabilityIdentity> = Vec::new();
        let ghost ids = models(wanted@);
        assert(models(identities@) =~= Seq::<IdentityModel>::empty());
        let copy = copy_identities(&wanted);
        add_missing(&mut identities, copy);
        proof {
            lemma_with_new(Seq::empty(), ids);
        }
        if identities.len() > usize::BITS as usize {
            return Err(AvailabilityLayoutError::TooManyIdentities);
        }
        proof {
            assert forall|i: int| 0 <= i < wanted@.len() implies models(identities@).contains(
                #[trigger] wanted@[i]@,
            ) by {
                assert(ids[i] == wanted@[i]@);
            }
        }
        let (backend_slots, _) = place(&identities, &wanted);
        let mut mask = AvailabilityMask::empty();
        assert(mask@ =~= Set::new(|i: nat| i < 0));
        for index in 0..identities.len()
            invariant
                identities@.len() <= max_backends(),
                mask@ == Set::new(|i: nat| i < index),
        {
            mask.insert(AvailabilitySlot::new(index).unwrap());
            assert(mask@ =~= Set::new(|i: nat| i < index + 1));
        }
        let l = AvailabilityLayout { backend_slots, identities, mask, epoch: 0 };
        proof {
            assert forall|i: int| 0 <= i < l.backend_slots@.len() implies #[trigger] l.backend_slots@[i]@
                < l.identities@.len() by {
                lemma_position_of(models(l.identities@), ids[i]);
            }
        }
        Ok(l)
    }

    /// The layout of the configured servers; servers with the same name space
    /// and account share a slot.
    pub fn from_servers(servers: &Vec<Server>) -> (r: Result<Self, AvailabilityLayoutError>)
        ensures
            match r {
                Ok(l) => {
                    &&& with_new(Seq::empty(), server_models(servers@)).len() <= max_backends()
                    &&& l.wf()
                    &&& models(l.identities@) == with_new(Seq::empty(), server_models(servers@))
                    &&& l.places(server_models(servers@))
                    &&& l.mask@ == Set::new(|i: nat| i < l.identities@.len())
                    &&& l.epoch == 0
                },
                Err(e) => {
                    &&& with_new(Seq::empty(), server_models(servers@)).len() > max_backends()
                    &&& e == AvailabilityLayoutError::TooManyIdentities
                },
            },
    {
        Self::from_identities(identities_of(servers))
    }

    pub fn slot_for_backend(&self, backend: BackendId) -> (r: AvailabilitySlot)
        requires
            backend@ < self.backend_slots@.len(),
        ensures
            r == self.backend_slots@[backend@ as int],
    {
        self.backend_slots[backend.as_index()]
    }

    pub fn identity_count(&self) -> (r: usize)
        ensures
            r == self.identities@.len(),
    {
        self.identities.len()
    }

    /// The slot of an identity, if the layout has it.
    pub fn slot_for_identity(&self, identity: &AvailabilityIdentity) -> (r: Option<
        AvailabilitySlot,
    >)
        ensures
            match r {
                Some(s) => s@ == position_of(models(self.identities@), identity@) && s@
                    < self.identities@.len() && s@ < max_backends(),
                None => position_of(models(self.identities@), identity@) >= max_backends()
                    || !models(self.identities@).contains(identity@),
            },
    {
        proof {
            lemma_position_of(models(self.identities@), identity@);
        }
        match find_identity(&self.identities, identity) {
            Some(i) => AvailabilitySlot::new(i),
            None => None,
        }
    }

    /// The first slot of a provider of this name, whatever its account.
    pub fn slot_for_host(&self, host: &str) -> (r: Option<AvailabilitySlot>)
        ensures
            ({
                let p = position_of(
                    stored_identities(models(self.identities@)),
                    (IdentityModel { namespace: host@, account: None }),
                );
                match r {
                    Some(s) => s@ == p && p < self.identities@.len() && p < max_backends(),
                    None => p >= self.identities@.len() || p >= max_backends(),
                }
            }),
    {
        let ghost names = stored_identities(models(self.identities@));
        let ghost id = IdentityModel { namespace: host@, account: None };
        proof {
            lemma_position_of(names, id);
        }
        for i in 0..self.identities.len()
            invariant
                names == stored_identities(models(self.identities@)),
                id == (IdentityModel { namespace: host@, account: None }),
                0 <= position_of(names, id) <= names.len(),
                position_of(names, id) < names.len() ==> names[position_of(names, id)] == id,
                forall|j: int| 0 <= j < position_of(names, id) ==> names[j] != id,
                forall|j: int| 0 <= j < i ==> names[j] != id,
        {
            assert(names[i as int].namespace == self.identities@[i as int].namespace@);
            if str_eq(self.identities[i].as_host(), host) {
                assert(names[i as int] == id);
                return AvailabilitySlot::new(i);
            }
        }
        None
    }

    pub fn identities(&self) -> (r: &Vec<AvailabilityIdentity>)
        ensures
            *r == self.identities,
    {
        &self.identities
    }
}

proof fn lemma_numbered_names_differ(a: nat, b: nat)
    requires
        a != b,
    ensures
        "backend-"@ + decimal_text(a) != "backend-"@ + decimal_text(b),
{
    if "backend-"@ + decimal_text(a) == "backend-"@ + decimal_text(b) {
        let p = "backend-"@;
        let x = p + decimal_text(a);
        let y = p + decimal_text(b);
        assert(x.subrange(p.len() as int, x.len() as int) =~= decimal_text(a));
        assert(y.subrange(p.len() as int, y.len() as int) =~= decimal_text(b));
        let da = crate::bytes::decimal(a);
        let db = crate::bytes::decimal(b);
        assert(decimal_text(a).len() == da.len());
        assert(decimal_text(b).len() == db.len());
        assert forall|i: int| 0 <= i < da.len() implies da[i] == db[i] by {
            assert(decimal_text(a)[i] == da[i] as char);
            assert(decimal_text(b)[i] == db[i] as char);
        }
        assert(da =~= db);
        crate::bytes::law_decimal_round_trip(a);
        crate::bytes::law_decimal_round_trip(b);
    }
}

fn copy_identities(ids: &Vec<AvailabilityIdentity>) -> (r: Vec<AvailabilityIdentity>)
    ensures
        models(r@) == models(ids@),
        r@.len() == ids@.len(),
{
    let mut out: Vec<AvailabilityIdentity> = Vec::new();
    for i in 0..ids.len()
        invariant
            out@.len() == i,
            forall|j: int| 0 <= j < i ==> #[trigger] out@[j]@ == ids@[j]@,
    {
        out.push(ids[i].clone());
    }
    assert(models(out@) =~= models(ids@));
    out
}

/// The slots of `wanted` among `identities`, and the set of them.
fn place(identities: &Vec<AvailabilityIdentity>, wanted: &Vec<AvailabilityIdentity>) -> (r: (
    Vec<AvailabilitySlot>,
    AvailabilityMask,
))
    requires
        identities@.len() <= max_backends(),
        forall|i: int|
            0 <= i < wanted@.len() ==> models(identities@).contains(#[trigger] wanted@[i]@),
    ensures
        r.0@.len() == wanted@.len(),
        forall|i: int|
            0 <= i < wanted@.len() ==> #[trigger] r.0@[i]@ == position_of(
                models(identities@),
                models(wanted@)[i],
            ),
        r.1@ == slots_of(models(identities@), models(wanted@)),
{
    let mut slots: Vec<AvailabilitySlot> = Vec::new();
    let mut mask = AvailabilityMask::empty();
    let ghost m = models(identities@);
    let ghost w = models(wanted@);
    assert(mask@ =~= slots_of(m, w.take(0)));
    for i in 0..wanted.len()
        invariant
            m == models(identities@),
            w == models(wanted@),
            identities@.len() <= max_backends(),
            forall|j: int| 0 <= j < wanted@.len() ==> m.contains(#[trigger] wanted@[j]@),
            slots@.len() == i,
            forall|j: int| 0 <= j < i ==> #[trigger] slots@[j]@ == position_of(m, w[j]),
            mask@ == slots_of(m, w.take(i as int)),
    {
        proof {
            lemma_position_of(m, wanted@[i as int]@);
            assert(m.contains(wanted@[i as int]@));
        }
        let index = find_identity(identities, &wanted[i]).unwrap();
        let slot = AvailabilitySlot::new(index).unwrap();
        mask.insert(slot);
        slots.push(slot);
        proof {
            assert(w[i as int] == wanted@[i as int]@);
            let old_set = slots_of(m, w.take(i as int));
            let new_set = slots_of(m, w.take(i + 1));
            assert forall|p: nat| new_set.contains(p) == old_set.insert(slot@).contains(p) by {
                if new_set.contains(p) {
                    let k = choose|k: int|
                        0 <= k < w.take(i + 1).len() && position_of(m, #[trigger] w.take(i + 1)[k])
                            == p;
                    if k < i {
                        assert(w.take(i as int)[k] == w.take(i + 1)[k]);
                    }
                }
                if old_set.contains(p) {
                    let k = choose|k: int|
                        0 <= k < w.take(i as int).len() && position_of(
                            m,
                            #[trigger] w.take(i as int)[k],
                        ) == p;
                    assert(w.take(i + 1)[k] == w.take(i as int)[k]);
                }
                if p == slot@ {
                    assert(w.take(i + 1)[i as int] == w[i as int]);
                }
            }
            assert(new_set =~= old_set.insert(slot@));
        }
    }
    assert(w.take(w.len() as int) =~= w);
    (slots, mask)
}

/// Positions that the members of `wanted` have among `ids`.
pub open spec fn slots_of(ids: Seq<IdentityModel>, wanted: Seq<IdentityModel>) -> Set<nat> {
    Set::new(
        |p: nat|
            exists|k: int|
                0 <= k < wanted.len() && position_of(ids, #[trigger] wanted[k]) == p,
    )
}

// ---------------------------------------------------------------------------
// The registry
// ---------------------------------------------------------------------------

/// A text in a registry: its length in bytes, then the bytes.
pub open spec fn text_bytes(s: Seq<char>) -> Seq<u8> {
    le_bytes(encode_utf8(s).len(), 4) + encode_utf8(s)
}

/// An identity in a registry: its name space, then whether it has an account,
/// and the account.
pub open spec fn identity_bytes(id: IdentityModel) -> Seq<u8> {
    text_bytes(id.namespace) + match id.account {
        Some(u) => seq![1u8] + text_bytes(u),
        None => seq![0u8],
    }
}

pub open spec fn identities_bytes(ids: Seq<IdentityModel>) -> Seq<u8>
    decreases ids.len(),
{
    if ids.len() == 0 {
        Seq::empty()
    } else {
        identities_bytes(ids.drop_last()) + identity_bytes(ids.last())
    }
}

/// The stored form of a registry.
pub open spec fn registry_bytes(ids: Seq<IdentityModel>, epoch: u64) -> Seq<u8> {
    registry_magic() + le_bytes(epoch as nat, 8) + le_bytes(ids.len(), 8) + identities_bytes(ids)
}

/// Can the text stand in a registry?
pub open spec fn text_fits(s: Seq<char>) -> bool {
    encode_utf8(s).len() <= MAX_REGISTRY_FIELD_BYTES
}

pub open spec fn identity_fits(id: IdentityModel) -> bool {
    &&& text_fits(id.namespace)
    &&& match id.account {
        Some(u) => text_fits(u),
        None => true,
    }
}

pub open spec fn identities_fit(ids: Seq<IdentityModel>) -> bool {
    forall|i: int| 0 <= i < ids.len() ==> identity_fits(#[trigger] ids[i])
}

/// The text at position `at`, and the position after it.
pub open spec fn read_text_spec(data: Seq<u8>, at: int) -> Option<(Seq<char>, int)> {
    match le_field(data, at, 4) {
        Some(n) => if n == 0 || n > MAX_REGISTRY_FIELD_BYTES {
            None
        } else {
            match field(data, at + 4, n as int) {
                Some(s) => if valid_utf8(s) {
                    Some((decode_utf8(s), at + 4 + n))
                } else {
                    None
                },
                None => None,
            }
        },
        None => None,
    }
}

/// The identity at position `at`, and the position after it.
pub open spec fn read_identity_spec(data: Seq<u8>, at: int) -> Option<(IdentityModel, int)> {
    match read_text_spec(data, at) {
        Some((namespace, p)) => if p >= data.len() {
            None
        } else if data[p] == 0 {
            Some((IdentityModel { namespace, account: None }, p + 1))
        } else if data[p] == 1 {
            match read_text_spec(data, p + 1) {
                Some((username, q)) => Some(
                    (IdentityModel { namespace, account: Some(username) }, q),
                ),
                None => None,
            }
        } else {
            None
        },
        None => None,
    }
}

/// `count` further identities from position `at` on, none of them twice, and
/// the position after them.
pub open spec fn read_identities_spec(
    data: Seq<u8>,
    at: int,
    known: Seq<IdentityModel>,
    count: nat,
) -> Option<(Seq<IdentityModel>, int)>
    decreases count,
{
    if count == 0 {
        Some((known, at))
    } else {
        match read_identity_spec(data, at) {
            Some((id, p)) => if known.contains(id) {
                None
            } else {
                read_identities_spec(data, p, known.push(id), (count - 1) as nat)
            },
            None => None,
        }
    }
}

/// What a registry says, when it is well formed.
pub open spec fn parse_registry_spec(data: Seq<u8>) -> Option<(Seq<IdentityModel>, u64)> {
    if data.len() < 24 || !has_prefix(data, registry_magic()) {
        None
    } else {
        match (le_field(data, 8, 8), le_field(data, 16, 8)) {
            (Some(epoch), Some(count)) => if epoch == 0 || count > max_backends() {
                None
            } else {
                match read_identities_spec(data, 24, Seq::empty(), count) {
                    Some((ids, end)) => if end == data.len() {
                        Some((ids, epoch as u64))
                    } else {
                        None
                    },
                    None => None,
                }
            },
            _ => None,
        }
    }
}

fn read_text(data: &[u8], at: usize) -> (r: Option<(String, usize)>)
    requires
        at <= data@.len(),
    ensures
        match r {
            Some((s, p)) => read_text_spec(data@, at as int) == Some((s@, p as int)) && p
                <= data@.len(),
            None => read_text_spec(data@, at as int) is None,
        },
{
    let n: usize = match u32_at(data, at) {
        Some(n) => n as usize,
        None => {
            return None;
        },
    };
    if n == 0 || n > MAX_REGISTRY_FIELD_BYTES {
        return None;
    }
    assert(at + 4 <= data.len());
    let s = match field_at(data, at + 4, n) {
        Some(s) => s,
        None => {
            return None;
        },
    };
    match str_from_utf8(s) {
        Some(text) => Some((string_of(text), at + 4 + n)),
        None => None,
    }
}

fn read_identity(data: &[u8], at: usize) -> (r: Option<(AvailabilityIdentity, usize)>)
    requires
        at <= data@.len(),
    ensures
        match r {
            Some((id, p)) => read_identity_spec(data@, at as int) == Some((id@, p as int)) && p
                <= data@.len(),
            None => read_identity_spec(data@, at as int) is None,
        },
{
    let (namespace, p) = match read_text(data, at) {
        Some(x) => x,
        None => {
            return None;
        },
    };
    if p >= data.len() {
        return None;
    }
    if data[p] == 0 {
        return Some(
            (AvailabilityIdentity { namespace, account: AccountIdentity::Anonymous }, p + 1),
        );
    }
    if data[p] != 1 {
        return None;
    }
    match read_text(data, p + 1) {
        Some((username, q)) => Some(
            (AvailabilityIdentity { namespace, account: AccountIdentity::Username(username) }, q),
        ),
        None => None,
    }
}

/// Reads a registry: its identities and its epoch. `None` for anything that is
/// not a complete, well-formed registry.
pub fn parse_registry(data: &[u8]) -> (r: Option<(Vec<AvailabilityIdentity>, u64)>)
    ensures
        match r {
            Some((ids, epoch)) => parse_registry_spec(data@) == Some((models(ids@), epoch)),
            None => parse_registry_spec(data@) is None,
        },
{
    let magic = registry_magic_bytes();
    if data.len() < 24 || !starts_with(data, magic.as_slice()) {
        return None;
    }
    let (epoch, count64): (u64, u64) = match (u64_at(data, 8), u64_at(data, 16)) {
        (Some(e), Some(c)) => (e, c),
        _ => {
            return None;
        },
    };
    if epoch == 0 || count64 > usize::BITS as u64 {
        return None;
    }
    let count: usize = count64 as usize;
    let mut ids: Vec<AvailabilityIdentity> = Vec::new();
    let mut at: usize = 24;
    let mut left: usize = count;
    assert(models(ids@) =~= Seq::<IdentityModel>::empty());
    while left > 0
        invariant
            at <= data@.len(),
            left <= count,
            read_identities_spec(data@, 24, Seq::empty(), count as nat) == read_identities_spec(
                data@,
                at as int,
                models(ids@),
                left as nat,
            ),
            data@.len() >= 24,
            has_prefix(data@, registry_magic()),
            le_field(data@, 8, 8) == Some(epoch as nat),
            le_field(data@, 16, 8) == Some(count as nat),
            epoch != 0,
            count <= max_backends(),
        decreases left,
    {
        let (id, p) = match read_identity(data, at) {
            Some(x) => x,
            None => {
                return None;
            },
        };
        proof {
            lemma_position_of(models(ids@), id@);
        }
        if find_identity(&ids, &id).is_some() {
            return None;
        }
        let ghost before = models(ids@);
        let ghost last = id@;
        ids.push(id);
        assert(models(ids@) =~= before.push(last));
        at = p;
        left -= 1;
    }
    if at != data.len() {
        return None;
    }
    Some((ids, epoch))
}

fn write_text(out: &mut Vec<u8>, s: &str) -> (r: bool)
    ensures
        r == text_fits(s@),
        r ==> final(out)@ == old(out)@ + text_bytes(s@),
{
    let b = s.as_bytes();
    if b.len() > MAX_REGISTRY_FIELD_BYTES {
        return false;
    }
    push_u32(out, b.len() as u32);
    push_bytes(out, b);
    assert(out@ =~= old(out)@ + text_bytes(s@));
    true
}

/// The stored form of a registry; `None` when a text in it is too long.
pub fn encode_registry(epoch: u64, identities: &Vec<AvailabilityIdentity>) -> (r: Option<Vec<u8>>)
    ensures
        match r {
            Some(v) => identities_fit(models(identities@)) && v@ == registry_bytes(
                models(identities@),
                epoch,
            ),
            None => !identities_fit(models(identities@)),
        },
{
    let ghost ids = models(identities@);
    let mut data: Vec<u8> = registry_magic_bytes();
    push_u64(&mut data, epoch);
    push_u64(&mut data, identities.len() as u64);
    let ghost start = data@;
    assert(ids.take(0) =~= Seq::<IdentityModel>::empty());
    assert(data@ =~= start + identities_bytes(ids.take(0)));
    for i in 0..identities.len()
        invariant
            ids == models(identities@),
            forall|j: int| 0 <= j < i ==> identity_fits(#[trigger] ids[j]),
            data@ == start + identities_bytes(ids.take(i as int)),
    {
        let ghost before = data@;
        assert(ids[i as int] == identities@[i as int]@);
        if !write_text(&mut data, identities[i].namespace.as_str()) {
            assert(!identity_fits(ids[i as int]));
            return None;
        }
        match &identities[i].account {
            AccountIdentity::Username(u) => {
                data.push(1);
                if !write_text(&mut data, u.as_str()) {
                    assert(!identity_fits(ids[i as int]));
                    return None;
                }
            },
            AccountIdentity::Anonymous => {
                data.push(0);
            },
        }
        proof {
            assert(data@ =~= before + identity_bytes(ids[i as int]));
            assert(ids.take(i + 1).drop_last() =~= ids.take(i as int));
            assert(data@ =~= start + identities_bytes(ids.take(i + 1)));
        }
    }
    assert(ids.take(ids.len() as int) =~= ids);
    assert(data@ =~= registry_bytes(ids, epoch));
    Some(data)
}

/// A registry that is read back as written: a nonzero epoch, no more identities
/// than bits, none twice, and no text that is empty or too long.
pub open spec fn registry_valid(ids: Seq<IdentityModel>, epoch: u64) -> bool {
    &&& epoch != 0
    &&& ids.len() <= max_backends()
    &&& ids.no_duplicates()
    &&& identities_fit(ids)
    &&& forall|i: int| #![trigger ids[i]]
        0 <= i < ids.len() ==> ids[i].namespace.len() > 0 && match ids[i].account {
            Some(u) => u.len() > 0,
            None => true,
        }
}

proof fn lemma_encode_nonempty(s: Seq<char>)
    requires
        s.len() > 0,
    ensures
        encode_utf8(s).len() > 0,
{
    if encode_utf8(s).len() == 0 {
        assert(encode_utf8(s) =~= Seq::<u8>::empty());
        assert(encode_utf8(Seq::<char>::empty()) =~= Seq::<u8>::empty());
        crate::text::lemma_encode_injective(s, Seq::empty());
    }
}

proof fn lemma_text_read_back(pre: Seq<u8>, s: Seq<char>, post: Seq<u8>)
    requires
        text_fits(s),
        s.len() > 0,
    ensures
        read_text_spec(pre + text_bytes(s) + post, pre.len() as int) == Some(
            (s, (pre.len() + text_bytes(s).len()) as int),
        ),
{
    let e = encode_utf8(s);
    let n = e.len();
    let data = pre + text_bytes(s) + post;
    lemma_encode_nonempty(s);
    lemma_le_bounds();
    lemma_le_bytes_len(n, 4);
    lemma_le_field_between(pre, n, 4, e + post);
    assert(pre + le_bytes(n, 4) + (e + post) =~= data);
    lemma_field_between(pre + le_bytes(n, 4), e, post);
    assert((pre + le_bytes(n, 4)) + e + post =~= data);
    encode_utf8_valid_utf8(s);
    encode_utf8_decode_utf8(s);
}

proof fn lemma_identity_read_back(pre: Seq<u8>, id: IdentityModel, post: Seq<u8>)
    requires
        identity_fits(id),
        id.namespace.len() > 0,
        match id.account {
            Some(u) => u.len() > 0,
            None => true,
        },
    ensures
        read_identity_spec(pre + identity_bytes(id) + post, pre.len() as int) == Some(
            (id, (pre.len() + identity_bytes(id).len()) as int),
        ),
{
    let data = pre + identity_bytes(id) + post;
    let t = text_bytes(id.namespace);
    match id.account {
        Some(u) => {
            let tail = seq![1u8] + text_bytes(u);
            lemma_text_read_back(pre, id.namespace, tail + post);
            assert(pre + t + (tail + post) =~= data);
            assert(data[(pre.len() + t.len()) as int] == 1);
            lemma_text_read_back(pre + t + seq![1u8], u, post);
            assert((pre + t + seq![1u8]) + text_bytes(u) + post =~= data);
        },
        None => {
            lemma_text_read_back(pre, id.namespace, seq![0u8] + post);
            assert(pre + t + (seq![0u8] + post) =~= data);
            assert(data[(pre.len() + t.len()) as int] == 0);
        },
    }
}

proof fn lemma_identities_split(ids: Seq<IdentityModel>, k: int)
    requires
        0 <= k < ids.len(),
    ensures
        identities_bytes(ids.take(k + 1)) == identities_bytes(ids.take(k)) + identity_bytes(ids[k]),
{
    assert(ids.take(k + 1).drop_last() =~= ids.take(k));
}

proof fn lemma_identities_prefix(ids: Seq<IdentityModel>, k: int) -> (rest: Seq<u8>)
    requires
        0 <= k <= ids.len(),
    ensures
        identities_bytes(ids) == identities_bytes(ids.take(k)) + rest,
    decreases ids.len() - k,
{
    if k == ids.len() {
        assert(ids.take(k) =~= ids);
        assert(identities_bytes(ids) =~= identities_bytes(ids.take(k)) + Seq::<u8>::empty());
        Seq::empty()
    } else {
        let after = lemma_identities_prefix(ids, (k + 1) as int);
        lemma_identities_split(ids, k);
        let rest = identity_bytes(ids[k]) + after;
        assert(identities_bytes(ids) =~= identities_bytes(ids.take(k)) + rest);
        rest
    }
}

proof fn lemma_identities_read_back(head: Seq<u8>, ids: Seq<IdentityModel>, k: nat)
    requires
        k <= ids.len(),
        ids.no_duplicates(),
        identities_fit(ids),
        forall|i: int| #![trigger ids[i]]
            0 <= i < ids.len() ==> ids[i].namespace.len() > 0 && match ids[i].account {
                Some(u) => u.len() > 0,
                None => true,
            },
    ensures
        read_identities_spec(
            head + identities_bytes(ids),
            (head.len() + identities_bytes(ids.take(k as int)).len()) as int,
            ids.take(k as int),
            (ids.len() - k) as nat,
        ) == Some((ids, (head.len() + identities_bytes(ids).len()) as int)),
    decreases ids.len() - k,
{
    let data = head + identities_bytes(ids);
    if k == ids.len() {
        assert(ids.take(k as int) =~= ids);
    } else {
        let pre = head + identities_bytes(ids.take(k as int));
        let post = lemma_identities_prefix(ids, (k + 1) as int);
        lemma_identities_split(ids, k as int);
        assert(data =~= pre + identity_bytes(ids[k as int]) + post);
        lemma_identity_read_back(pre, ids[k as int], post);
        assert(!ids.take(k as int).contains(ids[k as int])) by {
            if ids.take(k as int).contains(ids[k as int]) {
                let j = choose|j: int| 0 <= j < k && ids.take(k as int)[j] == ids[k as int];
                assert(ids[j] == ids[k as int]);
            }
        }
        assert(ids.take(k as int).push(ids[k as int]) =~= ids.take((k + 1) as int));
        lemma_identities_read_back(head, ids, k + 1);
    }
}

/// A valid registry is read back as it was written.
pub proof fn law_registry_round_trip(ids: Seq<IdentityModel>, epoch: u64)
    requires
        registry_valid(ids, epoch),
    ensures
        parse_registry_spec(registry_bytes(ids, epoch)) == Some((ids, epoch)),
{
    let data = registry_bytes(ids, epoch);
    let head = registry_magic() + le_bytes(epoch as nat, 8) + le_bytes(ids.len(), 8);
    lemma_le_bounds();
    lemma_le_bytes_len(epoch as nat, 8);
    lemma_le_bytes_len(ids.len(), 8);
    assert(has_prefix(data, registry_magic())) by {
        assert(data.subrange(0, 8) =~= registry_magic());
    }
    lemma_le_field_between(
        registry_magic(),
        epoch as nat,
        8,
        le_bytes(ids.len(), 8) + identities_bytes(ids),
    );
    assert(registry_magic() + le_bytes(epoch as nat, 8) + (le_bytes(ids.len(), 8)
        + identities_bytes(ids)) =~= data);
    lemma_le_field_between(
        registry_magic() + le_bytes(epoch as nat, 8),
        ids.len(),
        8,
        identities_bytes(ids),
    );
    assert(data =~= head + identities_bytes(ids));
    lemma_identities_read_back(head, ids, 0);
    assert(ids.take(0) =~= Seq::<IdentityModel>::empty());
}

proof fn lemma_text_written(data: Seq<u8>, at: int)
    requires
        read_text_spec(data, at) is Some,
    ensures
        ({
            let (s, p) = read_text_spec(data, at)->0;
            &&& 0 <= at <= p <= data.len()
            &&& data.subrange(at, p) == text_bytes(s)
            &&& text_fits(s)
            &&& s.len() > 0
        }),
{
    let (s, p) = read_text_spec(data, at)->0;
    let n = le_field(data, at, 4)->0;
    lemma_le_field_bytes(data, at, 4);
    let e = data.subrange(at + 4, at + 4 + n);
    decode_utf8_encode_utf8(e);
    assert(data.subrange(at, p) =~= data.subrange(at, at + 4) + e);
    if s.len() == 0 {
        assert(s =~= Seq::<char>::empty());
        assert(encode_utf8(s) =~= Seq::<u8>::empty());
    }
}

proof fn lemma_identity_written(data: Seq<u8>, at: int)
    requires
        read_identity_spec(data, at) is Some,
    ensures
        ({
            let (id, p) = read_identity_spec(data, at)->0;
            &&& 0 <= at <= p <= data.len()
            &&& data.subrange(at, p) == identity_bytes(id)
            &&& identity_fits(id)
            &&& id.namespace.len() > 0
            &&& match id.account {
                Some(u) => u.len() > 0,
                None => true,
            }
        }),
{
    let (id, q) = read_identity_spec(data, at)->0;
    lemma_text_written(data, at);
    let p = (read_text_spec(data, at)->0).1;
    match id.account {
        Some(u) => {
            lemma_text_written(data, p + 1);
            assert(data.subrange(at, q) =~= data.subrange(at, p) + (seq![1u8] + data.subrange(
                p + 1,
                q,
            )));
        },
        None => {
            assert(data.subrange(at, q) =~= data.subrange(at, p) + seq![0u8]);
        },
    }
}

/// The texts of every identity can be read back.
pub open spec fn identities_readable(ids: Seq<IdentityModel>) -> bool {
    &&& identities_fit(ids)
    &&& forall|i: int| #![trigger ids[i]]
        0 <= i < ids.len() ==> ids[i].namespace.len() > 0 && match ids[i].account {
            Some(u) => u.len() > 0,
            None => true,
        }
}

proof fn lemma_identities_written(
    data: Seq<u8>,
    at: int,
    known: Seq<IdentityModel>,
    count: nat,
)
    requires
        read_identities_spec(data, at, known, count) is Some,
        0 <= at <= data.len(),
        known.no_duplicates(),
        identities_readable(known),
    ensures
        ({
            let (ids, p) = read_identities_spec(data, at, known, count)->0;
            &&& at <= p <= data.len()
            &&& ids.len() == known.len() + count
            &&& identities_bytes(ids) == identities_bytes(known) + data.subrange(at, p)
            &&& ids.no_duplicates()
            &&& identities_readable(ids)
        }),
    decreases count,
{
    let (ids, q) = read_identities_spec(data, at, known, count)->0;
    if count == 0 {
        assert(identities_bytes(known) + data.subrange(at, at) =~= identities_bytes(known));
    } else {
        let (id, p) = read_identity_spec(data, at)->0;
        lemma_identity_written(data, at);
        let more = known.push(id);
        assert(more.drop_last() =~= known);
        assert forall|a: int, b: int|
            0 <= a < more.len() && 0 <= b < more.len() && a != b implies more[a] != more[b] by {
            if a == known.len() {
                assert(known.contains(known[b]));
            } else if b == known.len() {
                assert(known.contains(known[a]));
            }
        }
        assert forall|i: int| 0 <= i < more.len() implies identity_fits(#[trigger] more[i]) by {
            if i < known.len() {
                assert(identity_fits(known[i]));
            }
        }
        assert forall|i: int| #![trigger more[i]]
            0 <= i < more.len() implies more[i].namespace.len() > 0 && match more[i].account {
            Some(u) => u.len() > 0,
            None => true,
        } by {
            if i < known.len() {
                assert(known[i].namespace.len() > 0);
            }
        }
        lemma_identities_written(data, p, more, (count - 1) as nat);
        assert(identities_bytes(known) + identity_bytes(id) + data.subrange(p, q)
            =~= identities_bytes(known) + data.subrange(at, q));
    }
}

proof fn lemma_registry_written(data: Seq<u8>)
    requires
        parse_registry_spec(data) is Some,
    ensures
        ({
            let (ids, epoch) = parse_registry_spec(data)->0;
            registry_valid(ids, epoch) && data == registry_bytes(ids, epoch)
        }),
{
    let (ids, epoch) = parse_registry_spec(data)->0;
    let end = data.len() as int;
    let none = Seq::<IdentityModel>::empty();
    let count = le_field(data, 16, 8)->0;
    lemma_le_bounds();
    lemma_le_field_bytes(data, 8, 8);
    lemma_le_field_bytes(data, 16, 8);
    lemma_identities_written(data, 24, none, count);
    assert(identities_bytes(none) =~= Seq::<u8>::empty());
    let tail = data.subrange(24, end);
    assert(identities_bytes(none) + tail =~= tail);
    assert(identities_bytes(ids) == tail);
    assert(data.subrange(0, 8) == registry_magic());
    assert(data.subrange(8, 16) == le_bytes(epoch as nat, 8));
    assert(data.subrange(16, 24) == le_bytes(ids.len(), 8));
    assert(data =~= data.subrange(0, 8) + data.subrange(8, 16) + data.subrange(16, 24) + tail);
}

/// Bytes are read as a registry exactly where they are the stored form of it:
/// its epoch is not zero, it has no more identities than a bitmap has bits and
/// none of them twice, and each of its texts has some bytes but not too many.
pub proof fn law_registry_is_exact(data: Seq<u8>, ids: Seq<IdentityModel>, epoch: u64)
    ensures
        parse_registry_spec(data) == Some((ids, epoch)) <==> registry_valid(ids, epoch) && data
            == registry_bytes(ids, epoch),
{
    if parse_registry_spec(data) is Some {
        lemma_registry_written(data);
    }
    if registry_valid(ids, epoch) {
        law_registry_round_trip(ids, epoch);
    }
}

/// Why the registry cannot serve the configured servers.
#[derive(Clone, Copy, Debug, PartialEq, Eq, Structural)]
pub enum RegistryError {
    /// Every slot is taken by another identity.
    NoFreeSlot,
    /// A name space or an account is too long to store.
    FieldTooLong,
}

/// The layout of a hybrid cache, and the registry to write before it is used,
/// if the stored one no longer holds all of it.
pub struct RegistryPlan {
    pub layout: AvailabilityLayout,
    pub publish: Option<Vec<u8>>,
}

/// `uuid::Uuid::new_v4`, reduced to its low-order 64 bits: a random number, of
/// which nothing is stated.
#[verifier::external_body]
fn random_epoch() -> u64 {
    uuid::Uuid::new_v4().as_u128() as u64
}

/// The bytes of a stored registry, if there is one.
pub open spec fn stored_bytes(stored: Option<&[u8]>) -> Option<Seq<u8>> {
    match stored {
        Some(s) => Some(s@),
        None => None,
    }
}

/// What is stored, as far as it can be read: the identities, and the epoch or
/// zero.
pub open spec fn stored_registry(stored: Option<Seq<u8>>) -> (Seq<IdentityModel>, u64) {
    match stored {
        Some(data) => match parse_registry_spec(data) {
            Some(r) => r,
            None => (Seq::empty(), 0),
        },
        None => (Seq::empty(), 0),
    }
}

/// The plan for a stored registry, a random number and the servers' identities.
pub open spec fn plan_matches(
    stored: Option<Seq<u8>>,
    random: u64,
    wanted: Seq<IdentityModel>,
    r: Result<RegistryPlan, RegistryError>,
) -> bool {
    let (known, old_epoch) = stored_registry(stored);
    let ids = with_new(known, wanted);
    let epoch = if old_epoch != 0 {
        old_epoch
    } else if random != 0 {
        random
    } else {
        1u64
    };
    let changed = old_epoch == 0 || ids.len() != known.len();
    match r {
        Ok(plan) => {
            &&& ids.len() <= max_backends()
            &&& models(plan.layout.identities@) == ids
            &&& plan.layout.places(wanted)
            &&& plan.layout.mask@ == slots_of(ids, wanted)
            &&& plan.layout.epoch == epoch
            &&& if changed {
                identities_fit(ids) && match plan.publish {
                    Some(data) => data@ == registry_bytes(ids, epoch),
                    None => false,
                }
            } else {
                plan.publish is None
            }
        },
        Err(RegistryError::NoFreeSlot) => ids.len() > max_backends(),
        Err(RegistryError::FieldTooLong) => ids.len() <= max_backends() && changed
            && !identities_fit(ids),
    }
}

impl AvailabilityLayout {
    /// The layout of a hybrid cache whose stored registry, if any, holds the
    /// bytes `stored`; `random` becomes the epoch of a new registry.
    pub fn from_registry(
        servers: &Vec<Server>,
        stored: Option<&[u8]>,
        random: u64,
    ) -> (r: Result<RegistryPlan, RegistryError>)
        ensures
            plan_matches(
                stored_bytes(stored),
                random,
                server_models(servers@),
                r,
            ),
    {
        let mut identities: Vec<AvailabilityIdentity> = Vec::new();
        let mut epoch: u64 = 0;
        assert(models(identities@) =~= Seq::<IdentityModel>::empty());
        if let Some(data) = stored {
            if let Some((ids, e)) = parse_registry(data) {
                identities = ids;
                epoch = e;
            }
        }
        let ghost known = models(identities@);
        assert((known, epoch) == stored_registry(stored_bytes(stored)));
        let mut changed: bool = epoch == 0;
        let wanted = identities_of(servers);
        let ghost w = models(wanted@);
        proof {
            lemma_with_new(known, w);
        }
        let copy = copy_identities(&wanted);
        if add_missing(&mut identities, copy) {
            changed = true;
        }
        if identities.len() > usize::BITS as usize {
            return Err(RegistryError::NoFreeSlot);
        }
        if epoch == 0 {
            epoch = if random == 0 {
                1
            } else {
                random
            };
        }
        let mut publish: Option<Vec<u8>> = None;
        if changed {
            match encode_registry(epoch, &identities) {
                Some(data) => {
                    publish = Some(data);
                },
                None => {
                    return Err(RegistryError::FieldTooLong);
                },
            }
        }
        proof {
            assert forall|i: int| 0 <= i < wanted@.len() implies models(identities@).contains(
                #[trigger] wanted@[i]@,
            ) by {
                assert(w[i] == wanted@[i]@);
            }
        }
        let (backend_slots, mask) = place(&identities, &wanted);
        Ok(
            RegistryPlan {
                layout: AvailabilityLayout { backend_slots, identities, mask, epoch },
                publish,
            },
        )
    }

    /// The layout of a hybrid cache whose stored registry, if any, holds the
    /// bytes `stored`. A registry that is new has a random epoch.
    pub fn from_hybrid_registry(servers: &Vec<Server>, stored: Option<&[u8]>) -> (r: Result<
        RegistryPlan,
        RegistryError,
    >)
        ensures
            exists|random: u64| #[trigger]
                plan_matches(
                    stored_bytes(stored),
                    random,
                    server_models(servers@),
                    r,
                ),
    {
        let random = random_epoch();
        Self::from_registry(servers, stored, random)
    }
}

/// Identities keep their slots when servers are added, removed or reordered:
/// what a registry knows is never moved.
pub proof fn law_registry_slots_are_stable(known: Seq<IdentityModel>, wanted: Seq<IdentityModel>)
    ensures
        forall|id: IdentityModel| #[trigger]
            known.contains(id) ==> position_of(with_new(known, wanted), id) == position_of(
                known,
                id,
            ),
{
    lemma_with_new(known, wanted);
    let w = with_new(known, wanted);
    assert forall|id: IdentityModel| #[trigger] known.contains(id) implies position_of(w, id)
        == position_of(known, id) by {
        lemma_position_of(known, id);
        lemma_position_of(w, id);
        let p = position_of(known, id);
        let q = position_of(w, id);
        assert(w.subrange(0, known.len() as int)[p] == known[p]);
        if q < p {
            assert(w.subrange(0, known.len() as int)[q] == known[q]);
        }
    }
}

// ---------------------------------------------------------------------------
// Fingerprints
// ---------------------------------------------------------------------------

/// Order of accounts: none first, then by the bytes of the user name.
pub open spec fn account_le(a: Option<Seq<char>>, b: Option<Seq<char>>) -> bool {
    match (a, b) {
        (None, _) => true,
        (Some(_), None) => false,
        (Some(x), Some(y)) => lex_le(encode_utf8(x), encode_utf8(y)),
    }
}

/// Order of identities: by the bytes of the name space, then by account.
pub open spec fn identity_le(a: IdentityModel, b: IdentityModel) -> bool {
    if a.namespace != b.namespace {
        lex_le(encode_utf8(a.namespace), encode_utf8(b.namespace))
    } else {
        account_le(a.account, b.account)
    }
}

pub open spec fn identity_order() -> spec_fn(IdentityModel, IdentityModel) -> bool {
    |a: IdentityModel, b: IdentityModel| identity_le(a, b)
}

proof fn lemma_text_order(a: Seq<char>, b: Seq<char>)
    ensures
        lex_le(encode_utf8(a), encode_utf8(b)) || lex_le(encode_utf8(b), encode_utf8(a)),
        lex_le(encode_utf8(a), encode_utf8(b)) && lex_le(encode_utf8(b), encode_utf8(a)) ==> a == b,
        lex_le(encode_utf8(a), encode_utf8(a)),
{
    lemma_lex_total(encode_utf8(a), encode_utf8(b));
    lemma_lex_total(encode_utf8(a), encode_utf8(a));
    crate::text::lemma_encode_injective(a, b);
}

proof fn lemma_account_order(a: Option<Seq<char>>, b: Option<Seq<char>>)
    ensures
        account_le(a, b) || account_le(b, a),
        account_le(a, b) && account_le(b, a) ==> a == b,
        account_le(a, a),
{
    if let Some(x) = a {
        lemma_text_order(x, x);
        if let Some(y) = b {
            lemma_text_order(x, y);
        }
    }
}

proof fn lemma_identity_transitive(a: IdentityModel, b: IdentityModel, c: IdentityModel)
    requires
        identity_le(a, b),
        identity_le(b, c),
    ensures
        identity_le(a, c),
{
    let (x, y, z) = (encode_utf8(a.namespace), encode_utf8(b.namespace), encode_utf8(c.namespace));
    if a.namespace != b.namespace && b.namespace != c.namespace {
        lemma_lex_transitive(x, y, z);
        if a.namespace == c.namespace {
            lemma_text_order(a.namespace, b.namespace);
        }
    } else if a.namespace == b.namespace && b.namespace == c.namespace {
        if let (Some(p), Some(q), Some(r)) = (a.account, b.account, c.account) {
            lemma_lex_transitive(encode_utf8(p), encode_utf8(q), encode_utf8(r));
        }
    }
}

/// The order of identities is a total order.
pub proof fn lemma_identity_order()
    ensures
        total_ordering(identity_order()),
{
    let r = identity_order();
    assert forall|a: IdentityModel| #[trigger] r(a, a) by {
        lemma_account_order(a.account, a.account);
    }
    assert forall|a: IdentityModel, b: IdentityModel| #[trigger] r(a, b) && #[trigger] r(
        b,
        a,
    ) implies a == b by {
        lemma_text_order(a.namespace, b.namespace);
        lemma_account_order(a.account, b.account);
        assert(a =~= b);
    }
    assert forall|a: IdentityModel, b: IdentityModel, c: IdentityModel| #[trigger]
        r(a, b) && #[trigger] r(b, c) implies r(a, c) by {
        lemma_identity_transitive(a, b, c);
    }
    assert forall|a: IdentityModel, b: IdentityModel| #[trigger] r(a, b) || #[trigger] r(b, a) by {
        lemma_text_order(a.namespace, b.namespace);
        lemma_account_order(a.account, b.account);
    }
}

/// What is hashed of an identity: the name space, a separator, whether it has
/// an account, the account, and an end mark.
pub open spec fn fingerprint_part(id: IdentityModel) -> Seq<u8> {
    encode_utf8(id.namespace) + seq![0u8] + (match id.account {
        Some(u) => seq![1u8] + encode_utf8(u),
        None => seq![0u8],
    }) + seq![0xffu8]
}

pub open spec fn fingerprint_bytes(ids: Seq<IdentityModel>) -> Seq<u8>
    decreases ids.len(),
{
    if ids.len() == 0 {
        Seq::empty()
    } else {
        fingerprint_bytes(ids.drop_last()) + fingerprint_part(ids.last())
    }
}

/// Fingerprint of a set of identities; never zero.
pub open spec fn fingerprint_spec(ids: Seq<IdentityModel>) -> u64 {
    let h = xxhash64_of(0, fingerprint_bytes(ids.sort_by(identity_order())));
    if h == 0 {
        1
    } else {
        h
    }
}

impl AvailabilityIdentity {
    fn not_after(&self, other: &AvailabilityIdentity) -> (r: bool)
        ensures
            r == identity_le(self@, other@),
    {
        if !str_eq(self.namespace.as_str(), other.namespace.as_str()) {
            return at_most(self.namespace.as_str().as_bytes(), other.namespace.as_str().as_bytes());
        }
        match (&self.account, &other.account) {
            (AccountIdentity::Anonymous, _) => true,
            (AccountIdentity::Username(_), AccountIdentity::Anonymous) => false,
            (AccountIdentity::Username(a), AccountIdentity::Username(b)) => at_most(
                a.as_str().as_bytes(),
                b.as_str().as_bytes(),
            ),
        }
    }
}

proof fn lemma_insert_multiset(s: Seq<IdentityModel>, at: int, x: IdentityModel)
    requires
        0 <= at <= s.len(),
    ensures
        s.insert(at, x).to_multiset() == s.to_multiset().insert(x),
{
    let t = s.insert(at, x);
    broadcast use vstd::seq_lib::group_to_multiset_ensures;

    assert(t.remove(at) =~= s);
    assert(t[at] == x);
    assert(t.to_multiset().count(x) > 0) by {
        assert(t.contains(x));
    }
    assert(s.to_multiset() == t.to_multiset().remove(x));
    assert(t.to_multiset() =~= s.to_multiset().insert(x));
}

/// The identities in their order.
fn sorted_identities(ids: &Vec<AvailabilityIdentity>) -> (r: Vec<AvailabilityIdentity>)
    ensures
        models(r@) == models(ids@).sort_by(identity_order()),
{
    let ghost m = models(ids@);
    let ghost le = identity_order();
    let mut out: Vec<AvailabilityIdentity> = Vec::new();
    proof {
        lemma_identity_order();
        assert(models(out@) =~= Seq::<IdentityModel>::empty());
        assert(m.take(0) =~= Seq::<IdentityModel>::empty());
    }
    for i in 0..ids.len()
        invariant
            m == models(ids@),
            le == identity_order(),
            total_ordering(le),
            sorted_by(models(out@), le),
            models(out@).to_multiset() == m.take(i as int).to_multiset(),
    {
        let ghost x = m[i as int];
        let ghost before = models(out@);
        assert(x == ids@[i as int]@);
        let mut at: usize = 0;
        while at < out.len() && out[at].not_after(&ids[i])
            invariant
                at <= out@.len(),
                i < ids@.len(),
                before == models(out@),
                x == ids@[i as int]@,
                le == identity_order(),
                forall|j: int| 0 <= j < at ==> le(#[trigger] before[j], x),
            ensures
                at < out@.len() ==> !le(before[at as int], x),
            decreases out.len() - at,
        {
            at += 1;
        }
        out.insert(at, ids[i].clone());
        proof {
            let after = models(out@);
            assert(after =~= before.insert(at as int, x));
            assert forall|a: int, b: int| 0 <= a < b < after.len() implies #[trigger] le(
                after[a],
                after[b],
            ) by {
                if at < before.len() {
                    assert(le(before[at as int], x) || le(x, before[at as int]));
                }
                if a < at && b == at {
                    assert(le(before[a], x));
                } else if a == at {
                    assert(after[b] == before[b - 1]);
                    if b - 1 > at {
                        assert(le(before[at as int], before[b - 1]));
                    }
                    assert(le(x, before[b - 1]));
                } else if a < at && b > at {
                    assert(after[b] == before[b - 1]);
                    assert(le(before[a], before[b - 1]));
                } else if a > at {
                    assert(after[a] == before[a - 1]);
                    assert(after[b] == before[b - 1]);
                    assert(le(before[a - 1], before[b - 1]));
                } else {
                    assert(le(before[a], before[b]));
                }
            }
            lemma_insert_multiset(before, at as int, x);
            assert(m.take(i + 1) =~= m.take(i as int).push(x));
            vstd::seq_lib::to_multiset_build(m.take(i as int), x);
        }
    }
    proof {
        assert(m.take(m.len() as int) =~= m);
        m.lemma_sort_by_ensures(le);
        vstd::seq_lib::lemma_sorted_unique(models(out@), m.sort_by(le), le);
    }
    out
}

impl AvailabilityLayout {
    /// Fingerprint of the identities.
    pub fn fingerprint(&self) -> (r: u64)
        ensures
            r == fingerprint_spec(models(self.identities@)),
            r != 0,
    {
        let ids = sorted_identities(&self.identities);
        let ghost m = models(ids@);
        let mut data: Vec<u8> = Vec::new();
        assert(m.take(0) =~= Seq::<IdentityModel>::empty());
        assert(data@ =~= fingerprint_bytes(m.take(0)));
        for i in 0..ids.len()
            invariant
                m == models(ids@),
                data@ == fingerprint_bytes(m.take(i as int)),
        {
            let ghost before = data@;
            push_bytes(&mut data, ids[i].namespace.as_str().as_bytes());
            data.push(0);
            match &ids[i].account {
                AccountIdentity::Anonymous => {
                    data.push(0);
                },
                AccountIdentity::Username(u) => {
                    data.push(1);
                    push_bytes(&mut data, u.as_str().as_bytes());
                },
            }
            data.push(0xff);
            proof {
                assert(m[i as int] == ids@[i as int]@);
                assert(data@ =~= before + fingerprint_part(m[i as int]));
                assert(m.take(i + 1).drop_last() =~= m.take(i as int));
            }
        }
        assert(m.take(m.len() as int) =~= m);
        let h = xxhash64(0, data.as_slice());
        if h == 0 {
            1
        } else {
            h
        }
    }

    /// The epoch of the stored registry, or else the fingerprint.
    pub fn availability_epoch(&self) -> (r: u64)
        ensures
            r == if self.epoch == 0 {
                fingerprint_spec(models(self.identities@))
            } else {
                self.epoch
            },
            r != 0,
    {
        if self.epoch == 0 {
            self.fingerprint()
        } else {
            self.epoch
        }
    }
}

/// The fingerprint does not depend on the order of the identities.
pub proof fn law_fingerprint_ignores_order(a: Seq<IdentityModel>, b: Seq<IdentityModel>)
    requires
        a.to_multiset() == b.to_multiset(),
    ensures
        fingerprint_spec(a) == fingerprint_spec(b),
{
    let le = identity_order();
    lemma_identity_order();
    a.lemma_sort_by_ensures(le);
    b.lemma_sort_by_ensures(le);
    vstd::seq_lib::lemma_sorted_unique(a.sort_by(le), b.sort_by(le), le);
}

/// Two servers reach the same store of articles: they have the same name space,
/// or host where they have none, and the same account, or both have none.
pub open spec fn same_store(a: Server, b: Server) -> bool {
    &&& (if a.availability_namespace is Some {
        a.availability_namespace->0@
    } else {
        a.host@
    }) == (if b.availability_namespace is Some {
        b.availability_namespace->0@
    } else {
        b.host@
    })
    &&& a.username is Some == b.username is Some
    &&& a.username is Some ==> a.username->0@ == b.username->0@
}

/// Two backends share a slot exactly where they reach the same store. The slots
/// are handed out in the order of the servers, from zero on and without a gap.
pub proof fn law_same_store_same_slot(
    servers: Seq<Server>,
    l: AvailabilityLayout,
    i: int,
    j: int,
)
    requires
        models(l.identities@) == with_new(Seq::empty(), server_models(servers)),
        l.places(server_models(servers)),
        0 <= i < servers.len(),
        0 <= j < servers.len(),
    ensures
        l.backend_slots@[i]@ == l.backend_slots@[j]@ <==> same_store(servers[i], servers[j]),
        l.backend_slots@[i]@ <= i,
        l.backend_slots@[0]@ == 0,
{
    let wanted = server_models(servers);
    let ids = with_new(Seq::empty(), wanted);
    lemma_with_new(Seq::empty(), wanted);
    assert(wanted[i] == server_identity(servers[i]) && wanted[j] == server_identity(servers[j]));
    assert(ids.contains(wanted[i]) && ids.contains(wanted[j]) && ids.contains(wanted[0]));
    lemma_position_of(ids, wanted[i]);
    lemma_position_of(ids, wanted[j]);
    lemma_position_of(ids, wanted[0]);
    if l.backend_slots@[i]@ == l.backend_slots@[j]@ {
        assert(wanted[i] == wanted[j]);
    }
    if same_store(servers[i], servers[j]) {
        assert(wanted[i] =~= wanted[j]);
    }
    lemma_early_places(wanted, i);
    lemma_early_places(wanted, 0);
}

/// An identity is placed no later than it is first met.
proof fn lemma_early_places(wanted: Seq<IdentityModel>, i: int)
    requires
        0 <= i < wanted.len(),
    ensures
        position_of(with_new(Seq::empty(), wanted), wanted[i]) <= i,
    decreases wanted.len(),
{
    let none = Seq::<IdentityModel>::empty();
    let before = with_new(none, wanted.drop_last());
    let w = with_new(none, wanted);
    lemma_with_new(none, wanted.drop_last());
    lemma_position_of(before, wanted[i]);
    lemma_position_of(w, wanted[i]);
    if i < wanted.len() - 1 {
        lemma_early_places(wanted.drop_last(), i);
        assert(wanted.drop_last()[i] == wanted[i]);
        let p = position_of(before, wanted[i]);
        assert(before.contains(wanted[i]));
        assert(w[p] == wanted[i]);
    } else if before.contains(wanted.last()) {
        assert(w == before);
    } else {
        assert(w[before.len() as int] == wanted[i]);
    }
}

/// The identity of a server does not depend on its port, its display name, its
/// password or its limits, nor on the host where it has a name space.
pub proof fn law_identity_of_a_server(a: Server, b: Server)
    ensures
        same_store(a, b) <==> server_identity(a) == server_identity(b),
        a.availability_namespace is None ==> server_identity(a).namespace == a.host@,
        a.username is None ==> server_identity(a).account is None,
        a.username is Some ==> server_identity(a).account == Some(a.username->0@),
{
    if same_store(a, b) {
        assert(server_identity(a) =~= server_identity(b));
    }
}

/// A registry starts with its mark, its epoch and the number of its identities.
/// An identity is its name space and a byte that says whether an account
/// follows.
pub proof fn law_stored_registry(ids: Seq<IdentityModel>, epoch: u64, id: IdentityModel)
    requires
        ids.len() <= u64::MAX,
    ensures
        starts_with_text(registry_bytes(ids, epoch), "ANEGREG1"@),
        le_field(registry_bytes(ids, epoch), 8, 8) == Some(epoch as nat),
        le_field(registry_bytes(ids, epoch), 16, 8) == Some(ids.len()),
        registry_bytes(ids, epoch).subrange(24, registry_bytes(ids, epoch).len() as int)
            == identities_bytes(ids),
        identities_bytes(ids.push(id)) == identities_bytes(ids) + identity_bytes(id),
        identities_bytes(Seq::empty()).len() == 0,
        id.account is None ==> identity_bytes(id) == text_bytes(id.namespace).push(0),
        id.account is Some ==> identity_bytes(id) == text_bytes(id.namespace).push(1)
            + text_bytes(id.account->0),
{
    reveal_strlit("ANEGREG1");
    let data = registry_bytes(ids, epoch);
    let (e, n) = (le_bytes(epoch as nat, 8), le_bytes(ids.len(), 8));
    let rest = identities_bytes(ids);
    lemma_le_bounds();
    lemma_le_bytes_len(epoch as nat, 8);
    lemma_le_bytes_len(ids.len(), 8);
    assert forall|i: int| 0 <= i < 8 implies #[trigger] data[i] as int == "ANEGREG1"@[i] as int by {
        assert(data[i] == registry_magic()[i]);
    }
    assert(data =~= registry_magic() + e + (n + rest));
    lemma_le_field_between(registry_magic(), epoch as nat, 8, n + rest);
    assert(data =~= (registry_magic() + e) + n + rest);
    lemma_le_field_between(registry_magic() + e, ids.len(), 8, rest);
    assert(data.subrange(24, data.len() as int) =~= rest);
    assert(ids.push(id).drop_last() =~= ids);
    if id.account is Some {
        assert(identity_bytes(id) =~= text_bytes(id.namespace).push(1) + text_bytes(
            id.account->0,
        ));
    } else {
        assert(identity_bytes(id) =~= text_bytes(id.namespace).push(0));
    }
}

/// A registry is read back where its epoch is not zero, each of its identities
/// has a bit of its own, and each of its texts is one to 2^20 bytes long.
pub proof fn law_registry_limits(ids: Seq<IdentityModel>, epoch: u64)
    ensures
        registry_valid(ids, epoch) <==> {
            &&& epoch > 0
            &&& ids.len() <= usize::BITS
            &&& ids.no_duplicates()
            &&& forall|i: int| #![trigger ids[i]]
                0 <= i < ids.len() ==> 0 < ids[i].namespace.len() && encode_utf8(
                    ids[i].namespace,
                ).len() <= 1024 * 1024 && (ids[i].account is Some ==> 0 < ids[i].account->0.len()
                    && encode_utf8(ids[i].account->0).len() <= 1024 * 1024)
        },
{
    if registry_valid(ids, epoch) {
        assert forall|i: int| #![trigger ids[i]] 0 <= i < ids.len() implies 0
            < ids[i].namespace.len() && encode_utf8(ids[i].namespace).len() <= 1024 * 1024 && (
        ids[i].account is Some ==> 0 < ids[i].account->0.len() && encode_utf8(
            ids[i].account->0,
        ).len() <= 1024 * 1024) by {
            assert(identity_fits(ids[i]));
        }
    }
}

proof fn lemma_nothing_new(known: Seq<IdentityModel>, wanted: Seq<IdentityModel>)
    requires
        forall|i: int| 0 <= i < wanted.len() ==> known.contains(#[trigger] wanted[i]),
    ensures
        with_new(known, wanted) == known,
    decreases wanted.len(),
{
    if wanted.len() > 0 {
        assert forall|i: int| 0 <= i < wanted.drop_last().len() implies known.contains(
            #[trigger] wanted.drop_last()[i],
        ) by {
            assert(wanted.drop_last()[i] == wanted[i]);
        }
        lemma_nothing_new(known, wanted.drop_last());
        assert(wanted.last() == wanted[wanted.len() - 1]);
    }
}

/// A registry that knows every server is used as it is, and not written again;
/// its epoch stays, whatever number was drawn.
pub proof fn law_known_servers_change_nothing(
    ids: Seq<IdentityModel>,
    epoch: u64,
    random: u64,
    wanted: Seq<IdentityModel>,
    r: Result<RegistryPlan, RegistryError>,
)
    requires
        registry_valid(ids, epoch),
        forall|i: int| 0 <= i < wanted.len() ==> ids.contains(#[trigger] wanted[i]),
        plan_matches(Some(registry_bytes(ids, epoch)), random, wanted, r),
    ensures
        r is Ok,
        r->Ok_0.publish is None,
        r->Ok_0.layout.epoch == epoch,
        models(r->Ok_0.layout.identities@) == ids,
{
    law_registry_round_trip(ids, epoch);
    lemma_nothing_new(ids, wanted);
}

/// Where no registry is stored, or what is stored cannot be read, a new one is
/// written, with the drawn number as its epoch, or one in place of zero.
pub proof fn law_new_registry(
    stored: Option<Seq<u8>>,
    random: u64,
    wanted: Seq<IdentityModel>,
    r: Result<RegistryPlan, RegistryError>,
)
    requires
        stored is None || parse_registry_spec(stored->0) is None,
        plan_matches(stored, random, wanted, r),
        r is Ok,
    ensures
        random != 0 ==> r->Ok_0.layout.epoch == random,
        random == 0 ==> r->Ok_0.layout.epoch == 1,
        r->Ok_0.publish is Some,
        r->Ok_0.publish->0@ == registry_bytes(
            models(r->Ok_0.layout.identities@),
            r->Ok_0.layout.epoch,
        ),
        forall|i: int| #![trigger wanted[i]]
            0 <= i < wanted.len() ==> models(r->Ok_0.layout.identities@).contains(wanted[i]),
{
    lemma_with_new(Seq::empty(), wanted);
}

/// The bits that count are those of the stores that the servers reach.
pub proof fn law_bits_of_the_servers(
    stored: Option<Seq<u8>>,
    random: u64,
    wanted: Seq<IdentityModel>,
    r: Result<RegistryPlan, RegistryError>,
    slot: nat,
)
    requires
        plan_matches(stored, random, wanted, r),
        r is Ok,
    ensures
        r->Ok_0.layout.mask@.contains(slot) <==> slot < models(r->Ok_0.layout.identities@).len()
            && position_of(
            models(r->Ok_0.layout.identities@),
            models(r->Ok_0.layout.identities@)[slot as int],
        ) == slot && wanted.contains(models(r->Ok_0.layout.identities@)[slot as int]),
{
    let (known, _) = stored_registry(stored);
    let ids = with_new(known, wanted);
    lemma_with_new(known, wanted);
    if slots_of(ids, wanted).contains(slot) {
        let k = choose|k: int|
            0 <= k < wanted.len() && position_of(ids, #[trigger] wanted[k]) == slot;
        lemma_position_of(ids, wanted[k]);
        assert(ids.contains(wanted[k]));
        assert(wanted.contains(ids[slot as int]));
    }
    if slot < ids.len() && position_of(ids, ids[slot as int]) == slot && wanted.contains(
        ids[slot as int],
    ) {
        let k = choose|k: int| 0 <= k < wanted.len() && wanted[k] == ids[slot as int];
        assert(position_of(ids, wanted[k]) == slot);
    }
}

/// Identities are in the order of their name spaces; of those in the same name
/// space the one without an account comes first, then by account.
pub proof fn law_order_of_identities(a: IdentityModel, b: IdentityModel)
    ensures
        a.namespace != b.namespace ==> identity_le(a, b) == lex_le(
            encode_utf8(a.namespace),
            encode_utf8(b.namespace),
        ),
        a.namespace == b.namespace && a.account is None ==> identity_le(a, b),
        a.namespace == b.namespace && a.account is Some && b.account is None ==> !identity_le(a, b),
        a.namespace == b.namespace && a.account is Some && b.account is Some ==> identity_le(a, b)
            == lex_le(encode_utf8(a.account->0), encode_utf8(b.account->0)),
        identity_le(a, b) || identity_le(b, a),
        identity_le(a, b) && identity_le(b, a) ==> a == b,
{
    lemma_text_order(a.namespace, b.namespace);
    lemma_account_order(a.account, b.account);
    if identity_le(a, b) && identity_le(b, a) {
        assert(a =~= b);
    }
}

/// What is hashed of a list of identities: of each the name space, a zero, then
/// a one and the account, or a zero where it has none, and 255 at the end. The
/// fingerprint is that hash, or one in place of zero.
pub proof fn law_fingerprint_text(ids: Seq<IdentityModel>, id: IdentityModel)
    ensures
        fingerprint_bytes(Seq::empty()).len() == 0,
        id.account is None ==> fingerprint_bytes(ids.push(id)) == fingerprint_bytes(ids)
            + encode_utf8(id.namespace + "\0\0"@) + seq![255u8],
        id.account is Some ==> fingerprint_bytes(ids.push(id)) == fingerprint_bytes(ids)
            + encode_utf8(id.namespace + "\0\u{1}"@ + id.account->0) + seq![255u8],
        fingerprint_spec(ids) != 0,
        ({
            let h = xxhash64_of(0, fingerprint_bytes(ids.sort_by(identity_order())));
            fingerprint_spec(ids) == (if h > 0 {
                h
            } else {
                1
            })
        }),
{
    reveal_strlit("\0\0");
    reveal_strlit("\0\u{1}");
    assert(ids.push(id).drop_last() =~= ids);
    assert(is_ascii_chars("\0\0"@) && is_ascii_chars("\0\u{1}"@));
    crate::text::lemma_ascii_bytes("\0\0"@);
    crate::text::lemma_ascii_bytes("\0\u{1}"@);
    assert(encode_utf8("\0\0"@) =~= seq![0u8, 0]);
    assert(encode_utf8("\0\u{1}"@) =~= seq![0u8, 1]);
    crate::text::lemma_encode_concat(id.namespace, "\0\0"@);
    crate::text::lemma_encode_concat(id.namespace, "\0\u{1}"@);
    if id.account is Some {
        crate::text::lemma_encode_concat(id.namespace + "\0\u{1}"@, id.account->0);
        assert(fingerprint_bytes(ids.push(id)) =~= fingerprint_bytes(ids) + encode_utf8(
            id.namespace + "\0\u{1}"@ + id.account->0,
        ) + seq![255u8]);
    } else {
        assert(fingerprint_bytes(ids.push(id)) =~= fingerprint_bytes(ids) + encode_utf8(
            id.namespace + "\0\0"@,
        ) + seq![255u8]);
    }
}

} // verus!
