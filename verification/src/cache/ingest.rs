//! Responses on their way into a cache, in whatever form they were captured.
use crate::bytes::{bytes_eq, has_suffix, push_bytes, to_vec};
use crate::protocol::{status_of, StatusCode};
use smallvec::SmallVec;
use vstd::prelude::*;

verus! {

/// Bytes of an inline buffer.
pub const INLINE_BYTES: usize = 128;

/// A `smallvec::SmallVec` of bytes: a vector that keeps short contents inline.
#[verifier::external_body]
#[derive(Debug)]
pub struct InlineBytes {
    bytes: SmallVec<[u8; 128]>,
}

/// What an inline buffer holds.
pub uninterp spec fn inline_contents(v: InlineBytes) -> Seq<u8>;

/// `SmallVec::from_slice`: a small vector with the bytes of `s`.
#[verifier::external_body]
fn inline_from_slice(s: &[u8]) -> (r: InlineBytes)
    ensures
        inline_contents(r) == s@,
{
    InlineBytes { bytes: SmallVec::from_slice(s) }
}

/// `SmallVec::as_slice`: the contents as a slice.
#[verifier::external_body]
fn inline_as_slice(v: &InlineBytes) -> (r: &[u8])
    ensures
        r@ == inline_contents(*v),
{
    v.bytes.as_slice()
}

impl InlineBytes {
    pub fn from_slice(s: &[u8]) -> (r: Self)
        ensures
            inline_contents(r) == s@,
    {
        inline_from_slice(s)
    }

    pub fn as_slice(&self) -> (r: &[u8])
        ensures
            r@ == inline_contents(*self),
    {
        inline_as_slice(self)
    }
}

// ---------------------------------------------------------------------------
// Chunked responses
// ---------------------------------------------------------------------------

/// The chunks end to end.
pub open spec fn joined(chunks: Seq<Vec<u8>>) -> Seq<u8>
    decreases chunks.len(),
{
    if chunks.len() == 0 {
        Seq::empty()
    } else {
        joined(chunks.drop_last()) + chunks.last()@
    }
}

pub proof fn lemma_joined_push(chunks: Seq<Vec<u8>>, c: Vec<u8>)
    ensures
        joined(chunks.push(c)) == joined(chunks) + c@,
{
    assert(chunks.push(c).drop_last() =~= chunks);
}

/// A response that was captured in pieces.
#[derive(Debug)]
pub struct ChunkedResponse {
    chunks: Vec<Vec<u8>>,
    total: usize,
}

impl View for ChunkedResponse {
    type V = Seq<u8>;

    closed spec fn view(&self) -> Seq<u8> {
        joined(self.chunks@)
    }
}

impl ChunkedResponse {
    #[verifier::type_invariant]
    spec fn valid(self) -> bool {
        self.total == joined(self.chunks@).len()
    }

    /// The pieces.
    pub closed spec fn pieces(&self) -> Seq<Vec<u8>> {
        self.chunks@
    }

    /// The pieces end to end are the response.
    pub proof fn lemma_pieces(&self)
        ensures
            joined(self.pieces()) == self@,
    {
    }

    pub fn new() -> (r: Self)
        ensures
            r@ == Seq::<u8>::empty(),
            r.pieces().len() == 0,
    {
        ChunkedResponse { chunks: Vec::new(), total: 0 }
    }

    /// Adds one more piece.
    pub fn push_chunk(&mut self, chunk: Vec<u8>)
        requires
            old(self)@.len() + chunk@.len() <= usize::MAX,
        ensures
            final(self)@ == old(self)@ + chunk@,
            final(self).pieces() == old(self).pieces().push(chunk),
    {
        proof {
            use_type_invariant(&*self);
            lemma_joined_push(self.chunks@, chunk);
        }
        let total = self.total + chunk.len();
        let mut taken = ChunkedResponse { chunks: Vec::new(), total: 0 };
        core::mem::swap(self, &mut taken);
        let mut chunks = taken.chunks;
        chunks.push(chunk);
        *self = ChunkedResponse { chunks, total };
    }

    /// Adds `data` in pieces of at most `size` bytes.
    pub fn extend_from_slice(&mut self, size: usize, data: &[u8])
        requires
            size > 0,
            old(self)@.len() + data@.len() <= usize::MAX,
        ensures
            final(self)@ == old(self)@ + data@,
    {
        let mut at: usize = 0;
        assert(old(self)@ + data@.subrange(0, 0) =~= old(self)@);
        while at < data.len()
            invariant
                at <= data@.len(),
                size > 0,
                old(self)@.len() + data@.len() <= usize::MAX,
                self@ == old(self)@ + data@.subrange(0, at as int),
            decreases data.len() - at,
        {
            let n: usize = if data.len() - at < size {
                data.len() - at
            } else {
                size
            };
            let piece = to_vec(&data[at..at + n]);
            proof {
                assert(data@.subrange(0, at as int) + piece@ =~= data@.subrange(0, at + n));
                assert(self@ + piece@ =~= old(self)@ + data@.subrange(0, at + n));
            }
            self.push_chunk(piece);
            at = at + n;
        }
        assert(data@.subrange(0, data@.len() as int) =~= data@);
    }

    pub fn len(&self) -> (r: usize)
        ensures
            r == self@.len(),
    {
        proof {
            use_type_invariant(self);
        }
        self.total
    }

    pub fn chunk_count(&self) -> (r: usize)
        ensures
            r == self.pieces().len(),
    {
        self.chunks.len()
    }

    pub fn chunk(&self, i: usize) -> (r: &[u8])
        requires
            i < self.pieces().len(),
        ensures
            r@ == self.pieces()[i as int]@,
    {
        self.chunks[i].as_slice()
    }

    /// The bytes from `start` up to `end`.
    pub fn copy_range(&self, start: usize, end: usize) -> (r: Vec<u8>)
        requires
            start <= end <= self@.len(),
        ensures
            r@ == self@.subrange(start as int, end as int),
    {
        proof {
            use_type_invariant(self);
        }
        let mut out: Vec<u8> = Vec::new();
        let mut position: usize = 0;
        let ghost chunks = self.chunks@;
        assert(chunks.take(0) =~= Seq::<Vec<u8>>::empty());
        assert(out@ =~= window(joined(chunks.take(0)), start as int, end as int));
        for i in 0..self.chunks.len()
            invariant
                chunks == self.chunks@,
                start <= end <= joined(chunks).len(),
                self.total == joined(chunks).len(),
                position == joined(chunks.take(i as int)).len(),
                position <= self.total,
                out@ == window(joined(chunks.take(i as int)), start as int, end as int),
        {
            let chunk = &self.chunks[i];
            let ghost before = joined(chunks.take(i as int));
            let ghost after = joined(chunks.take(i + 1));
            proof {
                assert(chunks.take(i + 1).drop_last() =~= chunks.take(i as int));
                assert(after =~= before + chunk@);
                lemma_joined_prefix(chunks, i + 1);
            }
            let chunk_start = position;
            let chunk_end = position + chunk.len();
            if chunk_end > start && chunk_start < end {
                let copy_start: usize = if start > chunk_start {
                    start - chunk_start
                } else {
                    0
                };
                let copy_end: usize = if end < chunk_end {
                    end - chunk_start
                } else {
                    chunk.len()
                };
                push_bytes(&mut out, &chunk.as_slice()[copy_start..copy_end]);
            }
            position = chunk_end;
            assert(out@ =~= window(after, start as int, end as int));
        }
        proof {
            assert(chunks.take(chunks.len() as int) =~= chunks);
            assert(window(joined(chunks), start as int, end as int) =~= joined(chunks).subrange(
                start as int,
                end as int,
            ));
        }
        out
    }

    /// The first `n` bytes, or all where there are fewer.
    pub fn prefix(&self, n: usize) -> (r: Vec<u8>)
        ensures
            r@ == self@.take(if n < self@.len() { n as int } else { self@.len() as int }),
    {
        let len = self.len();
        self.copy_range(
            0,
            if n < len {
                n
            } else {
                len
            },
        )
    }

    pub fn ends_with(&self, suffix: &[u8]) -> (r: bool)
        ensures
            r == has_suffix(self@, suffix@),
    {
        let len = self.len();
        if suffix.len() > len {
            return false;
        }
        let tail = self.copy_range(len - suffix.len(), len);
        bytes_eq(tail.as_slice(), suffix)
    }
}

impl Default for ChunkedResponse {
    fn default() -> (r: Self)
        ensures
            r@ == Seq::<u8>::empty(),
    {
        ChunkedResponse::new()
    }
}

/// The part of `s` that lies between `start` and `end`.
spec fn window(s: Seq<u8>, start: int, end: int) -> Seq<u8> {
    let e = if end < s.len() {
        end
    } else {
        s.len() as int
    };
    if start < e {
        s.subrange(start, e)
    } else {
        Seq::empty()
    }
}

proof fn lemma_joined_prefix(chunks: Seq<Vec<u8>>, n: int)
    requires
        0 <= n <= chunks.len(),
    ensures
        joined(chunks.take(n)).len() <= joined(chunks).len(),
    decreases chunks.len() - n,
{
    if n == chunks.len() {
        assert(chunks.take(n) =~= chunks);
    } else {
        lemma_joined_prefix(chunks, n + 1);
        assert(chunks.take(n + 1).drop_last() =~= chunks.take(n));
    }
}

// ---------------------------------------------------------------------------
// Ingest forms
// ---------------------------------------------------------------------------

/// A response handed to a cache, in the form in which it was captured.
#[derive(Debug)]
pub enum CacheIngestBytes {
    Boxed(Vec<u8>),
    Pooled(Vec<u8>),
    Chunked(ChunkedResponse),
    Small(InlineBytes),
}

impl View for CacheIngestBytes {
    type V = Seq<u8>;

    open spec fn view(&self) -> Seq<u8> {
        match self {
            CacheIngestBytes::Boxed(b) => b@,
            CacheIngestBytes::Pooled(b) => b@,
            CacheIngestBytes::Chunked(c) => c@,
            CacheIngestBytes::Small(s) => inline_contents(*s),
        }
    }
}

impl CacheIngestBytes {
    pub fn len(&self) -> (r: usize)
        ensures
            r == self@.len(),
    {
        match self {
            CacheIngestBytes::Boxed(b) => b.len(),
            CacheIngestBytes::Pooled(b) => b.len(),
            CacheIngestBytes::Chunked(c) => c.len(),
            CacheIngestBytes::Small(s) => s.as_slice().len(),
        }
    }

    /// The status that starts the response.
    pub fn status_code(&self) -> (r: Option<StatusCode>)
        ensures
            r == status_of(self@),
    {
        match self {
            CacheIngestBytes::Boxed(b) => StatusCode::parse(b.as_slice()),
            CacheIngestBytes::Pooled(b) => StatusCode::parse(b.as_slice()),
            CacheIngestBytes::Chunked(c) => {
                let prefix = c.prefix(3);
                StatusCode::parse(prefix.as_slice())
            },
            CacheIngestBytes::Small(s) => StatusCode::parse(s.as_slice()),
        }
    }

    /// A copy of the response in one piece.
    pub fn flattened(&self) -> (r: Vec<u8>)
        ensures
            r@ == self@,
    {
        match self {
            CacheIngestBytes::Boxed(b) => to_vec(b.as_slice()),
            CacheIngestBytes::Pooled(b) => to_vec(b.as_slice()),
            CacheIngestBytes::Chunked(c) => {
                let all = c.copy_range(0, c.len());
                assert(c@.subrange(0, c@.len() as int) =~= c@);
                all
            },
            CacheIngestBytes::Small(s) => to_vec(s.as_slice()),
        }
    }

    /// The form for borrowed bytes: inline when they are few.
    pub fn from_slice(value: &[u8]) -> (r: Self)
        ensures
            r@ == value@,
            value@.len() <= INLINE_BYTES ==> r is Small,
            value@.len() > INLINE_BYTES ==> r is Boxed,
            r is Small <==> value@.len() <= 128,
    {
        if value.len() <= INLINE_BYTES {
            CacheIngestBytes::Small(InlineBytes::from_slice(value))
        } else {
            CacheIngestBytes::Boxed(to_vec(value))
        }
    }
}

impl PartialEq for CacheIngestBytes {
    /// Two responses are equal when their bytes are, in whatever form.
    fn eq(&self, other: &Self) -> (r: bool) {
        if self.len() != other.len() {
            return false;
        }
        let a = self.flattened();
        let b = other.flattened();
        bytes_eq(a.as_slice(), b.as_slice())
    }
}

impl vstd::std_specs::cmp::PartialEqSpecImpl for CacheIngestBytes {
    open spec fn obeys_eq_spec() -> bool {
        true
    }

    open spec fn eq_spec(&self, other: &Self) -> bool {
        self@ == other@
    }
}

impl From<Vec<u8>> for CacheIngestBytes {
    fn from(value: Vec<u8>) -> (r: Self) {
        CacheIngestBytes::Boxed(value)
    }
}

impl vstd::std_specs::convert::FromSpecImpl<Vec<u8>> for CacheIngestBytes {
    open spec fn obeys_from_spec() -> bool {
        true
    }

    open spec fn from_spec(v: Vec<u8>) -> Self {
        CacheIngestBytes::Boxed(v)
    }
}

impl From<ChunkedResponse> for CacheIngestBytes {
    fn from(value: ChunkedResponse) -> (r: Self) {
        CacheIngestBytes::Chunked(value)
    }
}

impl vstd::std_specs::convert::FromSpecImpl<ChunkedResponse> for CacheIngestBytes {
    open spec fn obeys_from_spec() -> bool {
        true
    }

    open spec fn from_spec(v: ChunkedResponse) -> Self {
        CacheIngestBytes::Chunked(v)
    }
}

impl From<InlineBytes> for CacheIngestBytes {
    fn from(value: InlineBytes) -> (r: Self) {
        CacheIngestBytes::Small(value)
    }
}

impl vstd::std_specs::convert::FromSpecImpl<InlineBytes> for CacheIngestBytes {
    open spec fn obeys_from_spec() -> bool {
        true
    }

    open spec fn from_spec(v: InlineBytes) -> Self {
        CacheIngestBytes::Small(v)
    }
}

} // verus!
