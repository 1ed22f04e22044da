//! Compression on the wire (RFC 8054): raw DEFLATE in both directions.
//!
//! A [`DecompressStream`] does no input or output itself. Whoever owns the
//! connection asks it what to write, tells it what was read, and does both.
use vstd::prelude::*;

verus! {

/// The room for compressed bytes that came in.
pub const COMPRESSED_BUF_SIZE: usize = 8192;

/// The room for compressed bytes that are to go out.
pub const WRITE_BUF_SIZE: usize = 16384;

/// Fast compression: a proxy cares for latency more than for ratio.
pub const DEFAULT_COMPRESS_LEVEL: u32 = 1;

// ---------------------------------------------------------------------------
// The codec
// ---------------------------------------------------------------------------

#[verifier::external_type_specification]
#[verifier::external_body]
pub struct ExCompress(flate2::Compress);

#[verifier::external_type_specification]
#[verifier::external_body]
pub struct ExDecompress(flate2::Decompress);

/// The bytes that a compressor has taken in so far.
pub uninterp spec fn compressor_in(c: flate2::Compress) -> Seq<u8>;

/// The bytes that a compressor has given out so far.
pub uninterp spec fn compressor_out(c: flate2::Compress) -> Seq<u8>;

/// The level that a compressor works at.
pub uninterp spec fn compressor_level(c: flate2::Compress) -> u32;

/// The bytes that a decompressor has taken in so far.
pub uninterp spec fn decompressor_in(d: flate2::Decompress) -> Seq<u8>;

/// The bytes that a decompressor has given out so far.
pub uninterp spec fn decompressor_out(d: flate2::Decompress) -> Seq<u8>;

/// A compressor holds output that was made and not given out yet.
pub uninterp spec fn compressor_pending(c: flate2::Compress) -> bool;

/// A compressor was asked to end the stream and has not given out all of it.
pub uninterp spec fn compressor_ending(c: flate2::Compress) -> bool;

/// A compressor has given out the stream to its end.
pub uninterp spec fn compressor_ended(c: flate2::Compress) -> bool;

/// A call of a compressor has failed.
pub uninterp spec fn compressor_failed(c: flate2::Compress) -> bool;

/// A decompressor has met a fault.
pub uninterp spec fn decompressor_failed(d: flate2::Decompress) -> bool;

/// Everything that a raw DEFLATE stream of these bytes yields, up to its end,
/// to the first fault in it, or to where the bytes run out.
pub uninterp spec fn inflated(stream: Seq<u8>) -> Seq<u8>;

/// A raw DEFLATE stream that starts with these bytes has no fault in them.
pub uninterp spec fn valid_start(stream: Seq<u8>) -> bool;

/// A raw DEFLATE stream that starts with these bytes ends in them.
pub uninterp spec fn stream_ends(stream: Seq<u8>) -> bool;

/// How far a compressed stream has come.
#[derive(Clone, Copy, Debug, PartialEq, Eq, Structural)]
pub enum WritePhase {
    /// More can be written.
    Open,
    /// The end was asked for and is not all out.
    Ending,
    /// The end is out.
    Ended,
    /// The compressor refused a call, and will refuse any other.
    Failed,
}

/// How far the stream of a compressor has come.
pub open spec fn phase_of(c: flate2::Compress) -> WritePhase {
    if compressor_failed(c) {
        WritePhase::Failed
    } else if compressor_ended(c) {
        WritePhase::Ended
    } else if compressor_ending(c) {
        WritePhase::Ending
    } else {
        WritePhase::Open
    }
}

/// A compressor fails once it has failed, and where anything but the rest of
/// the end is asked for while the stream is ending.
pub open spec fn refuses(phase: WritePhase, flush: FlushMode) -> bool {
    phase == WritePhase::Failed || (phase == WritePhase::Ending && flush != FlushMode::Finish)
}

/// Numbers modulo 2^64.
pub open spec fn count64(n: nat) -> nat {
    n % 0x1_0000_0000_0000_0000
}

/// What was given out is what every stream that starts with the bytes taken in
/// starts with.
pub open spec fn tells_truth(taken: Seq<u8>, given: Seq<u8>) -> bool {
    forall|rest: Seq<u8>| given.is_prefix_of(#[trigger] inflated(taken + rest))
}

/// How far a call of the compressor is to go.
#[derive(Clone, Copy, Debug, PartialEq, Eq, Structural)]
pub enum FlushMode {
    /// Output comes when it comes.
    Lazy,
    /// The other side can read everything up to here.
    Sync,
    /// The stream ends here.
    Finish,
}

/// `flate2::Compress::new`, without a zlib header: a compressor that works at
/// this level, has seen and given nothing and holds nothing back. Levels above
/// nine are left out.
#[verifier::external_body]
fn new_compressor(level: u32) -> (r: flate2::Compress)
    requires
        level <= 9,
    ensures
        compressor_level(r) == level,
        compressor_in(r) == Seq::<u8>::empty(),
        compressor_out(r) == Seq::<u8>::empty(),
        !compressor_pending(r),
        !compressor_ending(r),
        !compressor_ended(r),
        !compressor_failed(r),
{
    flate2::Compress::new(flate2::Compression::new(level), false)
}

/// `flate2::Decompress::new`, without a zlib header: a decompressor that has
/// seen and given nothing, and met no fault.
#[verifier::external_body]
fn new_decompressor() -> (r: flate2::Decompress)
    ensures
        decompressor_in(r) == Seq::<u8>::empty(),
        decompressor_out(r) == Seq::<u8>::empty(),
        !decompressor_failed(r),
{
    flate2::Decompress::new(false)
}

/// `flate2::Compress::total_in`: how much was taken in, counted in 64 bits.
#[verifier::external_body]
fn compressor_total_in(c: &flate2::Compress) -> (r: u64)
    ensures
        r == count64(compressor_in(*c).len()),
{
    c.total_in()
}

/// `flate2::Compress::total_out`: how much was given out, counted in 64 bits.
#[verifier::external_body]
fn compressor_total_out(c: &flate2::Compress) -> (r: u64)
    ensures
        r == count64(compressor_out(*c).len()),
{
    c.total_out()
}

/// `flate2::Decompress::total_in`: how much was taken in, counted in 64 bits.
#[verifier::external_body]
fn decompressor_total_in(d: &flate2::Decompress) -> (r: u64)
    ensures
        r == count64(decompressor_in(*d).len()),
{
    d.total_in()
}

/// `flate2::Decompress::total_out`: how much was given out, counted in 64 bits.
#[verifier::external_body]
fn decompressor_total_out(d: &flate2::Decompress) -> (r: u64)
    ensures
        r == count64(decompressor_out(*d).len()),
{
    d.total_out()
}

/// `flate2::Compress::compress`: takes some of the input, from its start, and
/// writes some output, from the start of the buffer. The level stays.
///
/// It fails exactly where [`refuses`] says so, and then takes and gives nothing.
/// A stream that has ended takes and gives nothing either. Else, unless it ends
/// the stream, it goes on until the input is used up or the buffer is full. It
/// holds nothing back where the buffer is not full. The end is out once a call
/// for it leaves room in the buffer; until then the stream is ending.
///
/// What was given out inflates to what was taken in where a call for the end
/// leaves room, and where a sync flush does that found nothing held back: one
/// that found something only gives that out. How many bytes come of the input
/// is left unsaid.
#[verifier::external_body]
fn compress_step(
    c: &mut flate2::Compress,
    input: &[u8],
    output: &mut [u8],
    flush: FlushMode,
) -> (r: Result<(), ()>)
    requires
        old(output)@.len() > 0,
    ensures
        final(output)@.len() == old(output)@.len(),
        compressor_level(*final(c)) == compressor_level(*old(c)),
        r is Err <==> refuses(phase_of(*old(c)), flush),
        r is Err ==> {
            &&& phase_of(*final(c)) == WritePhase::Failed
            &&& compressor_in(*final(c)) == compressor_in(*old(c))
            &&& compressor_out(*final(c)) == compressor_out(*old(c))
            &&& compressor_pending(*final(c)) == compressor_pending(*old(c))
        },
        r is Ok ==> step_of(
            compressor_in(*old(c)),
            compressor_in(*final(c)),
            input@,
            compressor_out(*old(c)),
            compressor_out(*final(c)),
            final(output)@,
        ),
        r is Ok && phase_of(*old(c)) == WritePhase::Ended ==> {
            &&& phase_of(*final(c)) == WritePhase::Ended
            &&& compressor_in(*final(c)) == compressor_in(*old(c))
            &&& compressor_out(*final(c)) == compressor_out(*old(c))
        },
        r is Ok && phase_of(*old(c)) != WritePhase::Ended && flush != FlushMode::Finish ==> {
            &&& phase_of(*final(c)) == phase_of(*old(c))
            &&& compressor_in(*final(c)).len() == compressor_in(*old(c)).len() + input@.len()
                || compressor_out(*final(c)).len() == compressor_out(*old(c)).len() + old(
                output,
            )@.len()
        },
        r is Ok && flush == FlushMode::Finish ==> {
            ||| phase_of(*final(c)) == WritePhase::Ended
            ||| phase_of(*final(c)) == WritePhase::Ending && compressor_out(*final(c)).len()
                == compressor_out(*old(c)).len() + old(output)@.len()
        },
        r is Ok && compressor_out(*final(c)).len() < compressor_out(*old(c)).len() + old(
            output,
        )@.len() ==> !compressor_pending(*final(c)),
        r is Ok && compressor_out(*final(c)).len() < compressor_out(*old(c)).len() + old(
            output,
        )@.len() && (flush == FlushMode::Finish || (flush == FlushMode::Sync
            && !compressor_pending(*old(c)))) ==> inflated(compressor_out(*final(c)))
            == compressor_in(*final(c)),
{
    let mode = match flush {
        FlushMode::Lazy => flate2::FlushCompress::None,
        FlushMode::Sync => flate2::FlushCompress::Sync,
        FlushMode::Finish => flate2::FlushCompress::Finish,
    };
    c.compress(input, output, mode).map(|_| ()).map_err(|_| ())
}

/// `flate2::Decompress::decompress`: takes some of the input, from its start,
/// and writes some output, from the start of the buffer. The output is what the
/// input stands for. The result tells whether the stream has ended.
///
/// It fails where it has failed before, and where it meets a fault in what it
/// was given. A call that gives nothing out has taken all of the input, or come
/// to the end of the stream. There was then no fault in what was taken, and all
/// that this stands for has been given out. How much is taken or given by
/// another call is left unsaid, and whether a fault is met before the output
/// that comes ahead of it was given out.
#[verifier::external_body]
fn decompress_step(d: &mut flate2::Decompress, input: &[u8], output: &mut [u8]) -> (r: Result<
    bool,
    (),
>)
    requires
        old(output)@.len() > 0,
    ensures
        final(output)@.len() == old(output)@.len(),
        r is Err ==> decompressor_failed(*old(d)) || !valid_start(
            decompressor_in(*old(d)) + input@,
        ),
        decompressor_failed(*old(d)) ==> r is Err,
        decompressor_failed(*final(d)) == (r is Err),
        r is Ok ==> step_of(
            decompressor_in(*old(d)),
            decompressor_in(*final(d)),
            input@,
            decompressor_out(*old(d)),
            decompressor_out(*final(d)),
            final(output)@,
        ),
        r is Ok ==> tells_truth(decompressor_in(*final(d)), decompressor_out(*final(d))),
        r is Ok && decompressor_out(*final(d)).len() == decompressor_out(*old(d)).len() ==> {
            &&& r->Ok_0 == stream_ends(decompressor_in(*final(d)))
            &&& r->Ok_0 || decompressor_in(*final(d)) == decompressor_in(*old(d)) + input@
            &&& valid_start(decompressor_in(*final(d)))
            &&& decompressor_out(*final(d)) == inflated(decompressor_in(*final(d)))
        },
{
    let status = d.decompress(input, output, flate2::FlushDecompress::None);
    match status {
        Ok(flate2::Status::StreamEnd) => Ok(true),
        Ok(flate2::Status::Ok) => Ok(false),
        Ok(flate2::Status::BufError) => Ok(false),
        Err(_) => Err(()),
    }
}

/// A call of the codec took the start of the input and wrote the start of the
/// output.
pub open spec fn step_of(
    in_before: Seq<u8>,
    in_after: Seq<u8>,
    input: Seq<u8>,
    out_before: Seq<u8>,
    out_after: Seq<u8>,
    output: Seq<u8>,
) -> bool {
    let taken = in_after.len() - in_before.len();
    let given = out_after.len() - out_before.len();
    &&& 0 <= taken <= input.len()
    &&& in_after == in_before + input.subrange(0, taken)
    &&& 0 <= given <= output.len()
    &&& out_after == out_before + output.subrange(0, given)
}

/// How far a count went, though it may have run over in between.
fn count_since(before: u64, after: u64, Ghost(a): Ghost<nat>, Ghost(k): Ghost<nat>) -> (r: usize)
    requires
        before == count64(a),
        after == count64(a + k),
        k <= usize::MAX,
    ensures
        r == k,
{
    proof {
        vstd::arithmetic::div_mod::lemma_fundamental_div_mod(a as int, 0x1_0000_0000_0000_0000);
        vstd::arithmetic::div_mod::lemma_fundamental_div_mod(
            (a + k) as int,
            0x1_0000_0000_0000_0000,
        );
    }
    let n = after.wrapping_sub(before);
    assert(n == k);
    n as usize
}

// ---------------------------------------------------------------------------
// What to do next
// ---------------------------------------------------------------------------

/// Compressed bytes in a buffer that are still to be written, or none.
#[derive(Clone, Copy, Debug, PartialEq, Eq, Structural)]
pub enum DrainState {
    Idle,
    Draining { pos: usize, len: usize },
}

impl DrainState {
    /// The state fits a buffer of this length.
    pub open spec fn fits(self, room: int) -> bool {
        match self {
            DrainState::Idle => true,
            DrainState::Draining { pos, len } => pos < len <= room,
        }
    }

    /// The bytes that are still to be written.
    pub open spec fn pending(self, buf: Seq<u8>) -> Seq<u8> {
        match self {
            DrainState::Idle => Seq::empty(),
            DrainState::Draining { pos, len } => buf.subrange(pos as int, len as int),
        }
    }

    /// The state after the first `len` bytes of the buffer were filled.
    pub fn start(len: usize) -> (r: Self)
        ensures
            r == (if len > 0 {
                DrainState::Draining { pos: 0, len }
            } else {
                DrainState::Idle
            }),
            forall|buf: Seq<u8>|
                len <= buf.len() ==> #[trigger] r.fits(buf.len() as int) && r.pending(buf)
                    == buf.take(len as int),
    {
        if len > 0 {
            DrainState::Draining { pos: 0, len }
        } else {
            DrainState::Idle
        }
    }

    /// The state after `n` of the pending bytes were written. A connection that
    /// takes none of them is at fault.
    pub fn advance(self, n: usize) -> (r: Result<Self, CompressionError>)
        requires
            self matches DrainState::Draining { pos, len } ==> pos + n <= len,
        ensures
            match self {
                DrainState::Idle => r == Ok::<Self, CompressionError>(DrainState::Idle),
                DrainState::Draining { pos, len } => r == (if n == 0 {
                    Err::<Self, CompressionError>(CompressionError::WriteZero)
                } else if pos + n == len {
                    Ok::<Self, CompressionError>(DrainState::Idle)
                } else {
                    Ok::<Self, CompressionError>(
                        DrainState::Draining { pos: (pos + n) as usize, len },
                    )
                }),
            },
            self is Draining ==> (r is Err <==> n == 0),
            forall|buf: Seq<u8>|
                self is Draining && #[trigger] self.fits(buf.len() as int) && r is Ok
                    ==> r->Ok_0.fits(buf.len() as int) && r->Ok_0.pending(buf) == self.pending(
                    buf,
                ).skip(n as int),
    {
        match self {
            DrainState::Idle => Ok(DrainState::Idle),
            DrainState::Draining { pos, len } => {
                if n == 0 {
                    Err(CompressionError::WriteZero)
                } else if pos + n == len {
                    Ok(DrainState::Idle)
                } else {
                    Ok(DrainState::Draining { pos: pos + n, len })
                }
            },
        }
    }
}

/// Why a stream cannot go on.
#[derive(Clone, Copy, Debug, PartialEq, Eq, Structural)]
pub enum CompressionError {
    /// The connection took no byte of those that were to be written.
    WriteZero,
    /// The compressor failed.
    Compress,
    /// The bytes that came in are no DEFLATE stream.
    InvalidData,
}

/// What a reader does after a turn of decompression.
#[derive(Clone, Copy, Debug, PartialEq, Eq, Structural)]
pub enum ReadNext {
    /// Hand over what was written to the output, which may be nothing at the
    /// end of the stream.
    Deliver,
    /// Take another turn with the input that is left.
    Again,
    /// Read more from the connection.
    Fill,
}

/// What comes after a turn of decompression.
pub open spec fn next_after(room: int, produced: int, stream_end: bool, had_input: bool) -> ReadNext {
    if room == 0 || produced > 0 || stream_end {
        ReadNext::Deliver
    } else if had_input {
        ReadNext::Again
    } else {
        ReadNext::Fill
    }
}

/// What comes after a turn that put `produced` bytes out.
pub fn after_turn(room: usize, produced: usize, stream_end: bool, had_input: bool) -> (r: ReadNext)
    ensures
        r == next_after(room as int, produced as int, stream_end, had_input),
{
    if room == 0 || produced > 0 || stream_end {
        ReadNext::Deliver
    } else if had_input {
        ReadNext::Again
    } else {
        ReadNext::Fill
    }
}

/// How many bytes a writer reports as written: those that the compressor took,
/// but never none of some. A byte that is reported where the compressor took
/// none is not in what is sent.
pub fn reported(consumed: usize, offered: usize) -> (r: usize)
    ensures
        r == (if consumed > 0 {
            consumed as int
        } else if offered > 0 {
            1
        } else {
            0
        }),
        consumed <= offered ==> r <= offered,
        r == 0 <==> consumed == 0 && offered == 0,
        consumed > 0 ==> r == consumed,
        consumed == 0 ==> r <= 1,
{
    if consumed > 0 {
        consumed
    } else if offered > 0 {
        1
    } else {
        0
    }
}

// ---------------------------------------------------------------------------
// The stream
// ---------------------------------------------------------------------------

/// A connection with compression in both directions.
///
/// What is read is decompressed on its way from the connection; what is written
/// is compressed on its way to it.
#[derive(Debug)]
pub struct DecompressStream<S> {
    inner: S,
    decompressor: flate2::Decompress,
    compressed_buf: Vec<u8>,
    compressed_pos: usize,
    compressed_len: usize,
    compressor: flate2::Compress,
    write_buf: Vec<u8>,
    flush_buf: Vec<u8>,
    write_drain: DrainState,
    flush_drain: DrainState,
    backlog: bool,
    bytes_compressed_in: u64,
    bytes_decompressed_out: u64,
}

impl<S> DecompressStream<S> {
    /// The buffers have their sizes and the positions lie within them. The
    /// compressor holds back nothing that the stream does not know of.
    pub closed spec fn wf(&self) -> bool {
        &&& self.compressed_buf@.len() == COMPRESSED_BUF_SIZE
        &&& self.compressed_pos <= self.compressed_len <= COMPRESSED_BUF_SIZE
        &&& self.write_buf@.len() == WRITE_BUF_SIZE
        &&& self.flush_buf@.len() == WRITE_BUF_SIZE
        &&& self.write_drain.fits(WRITE_BUF_SIZE as int)
        &&& self.flush_drain.fits(WRITE_BUF_SIZE as int)
        &&& compressor_pending(self.compressor) ==> self.backlog
    }

    /// The connection underneath.
    pub closed spec fn connection(&self) -> S {
        self.inner
    }

    /// The bytes that were written to this stream and compressed.
    pub closed spec fn written(&self) -> Seq<u8> {
        compressor_in(self.compressor)
    }

    /// The compressed bytes that came of them.
    pub closed spec fn sent(&self) -> Seq<u8> {
        compressor_out(self.compressor)
    }

    /// The level that what is written is compressed at.
    pub closed spec fn level(&self) -> u32 {
        compressor_level(self.compressor)
    }

    /// How far the compressed bytes have come.
    pub closed spec fn phase(&self) -> WritePhase {
        phase_of(self.compressor)
    }

    /// The last turn of the compressor filled its buffer, so that there may be
    /// more to come.
    pub closed spec fn backlogged(&self) -> bool {
        self.backlog
    }

    /// What was sent inflates to all that was written.
    pub open spec fn complete(&self) -> bool {
        inflated(self.sent()) == self.written()
    }

    /// The compressed bytes of writes that the connection has yet to take.
    pub closed spec fn pending_writes(&self) -> Seq<u8> {
        self.write_drain.pending(self.write_buf@)
    }

    /// The compressed bytes of flushes that the connection has yet to take.
    pub closed spec fn pending_flushes(&self) -> Seq<u8> {
        self.flush_drain.pending(self.flush_buf@)
    }

    /// The room for bytes from the connection.
    pub closed spec fn input_room(&self) -> Seq<u8> {
        self.compressed_buf@
    }

    /// The bytes from the connection that are yet to be decompressed.
    pub closed spec fn unread(&self) -> Seq<u8> {
        self.compressed_buf@.subrange(self.compressed_pos as int, self.compressed_len as int)
    }

    /// The compressed bytes that were decompressed.
    pub closed spec fn received(&self) -> Seq<u8> {
        decompressor_in(self.decompressor)
    }

    /// The bytes that came of them.
    pub closed spec fn delivered(&self) -> Seq<u8> {
        decompressor_out(self.decompressor)
    }

    /// A fault was met in the bytes from the connection.
    pub closed spec fn broken(&self) -> bool {
        decompressor_failed(self.decompressor)
    }

    /// All that the received bytes stand for has been delivered.
    pub open spec fn caught_up(&self) -> bool {
        self.delivered() == inflated(self.received())
    }

    /// Compressed bytes read, and bytes delivered.
    pub closed spec fn stats(&self) -> (u64, u64) {
        (self.bytes_compressed_in, self.bytes_decompressed_out)
    }

    /// The write side is as it was.
    pub open spec fn same_writer(&self, other: &Self) -> bool {
        &&& self.level() == other.level()
        &&& self.written() == other.written()
        &&& self.sent() == other.sent()
        &&& self.pending_writes() == other.pending_writes()
        &&& self.pending_flushes() == other.pending_flushes()
        &&& self.phase() == other.phase()
        &&& self.backlogged() == other.backlogged()
    }

    /// The read side is as it was.
    pub open spec fn same_reader(&self, other: &Self) -> bool {
        &&& self.unread() =~= other.unread()
        &&& self.received() == other.received()
        &&& self.delivered() == other.delivered()
        &&& self.stats() == other.stats()
        &&& self.broken() == other.broken()
    }

    /// A stream over this connection with fast compression.
    pub fn new(inner: S) -> (r: Self)
        ensures
            r.wf(),
            r.connection() == inner,
            r.unused(),
            r.level() == DEFAULT_COMPRESS_LEVEL,
            r.level() == 1,
    {
        Self::with_level(inner, DEFAULT_COMPRESS_LEVEL)
    }

    /// Nothing was read or written yet.
    pub open spec fn unused(&self) -> bool {
        &&& self.written() == Seq::<u8>::empty()
        &&& self.sent() == Seq::<u8>::empty()
        &&& self.pending_writes() == Seq::<u8>::empty()
        &&& self.pending_flushes() == Seq::<u8>::empty()
        &&& self.unread() == Seq::<u8>::empty()
        &&& self.received() == Seq::<u8>::empty()
        &&& self.delivered() == Seq::<u8>::empty()
        &&& self.stats() == (0u64, 0u64)
        &&& self.phase() == WritePhase::Open
        &&& !self.backlogged()
        &&& !self.broken()
    }

    /// A stream over this connection that compresses at this level, or at nine
    /// where it is higher.
    pub fn with_level(inner: S, level: u32) -> (r: Self)
        ensures
            r.wf(),
            r.connection() == inner,
            r.unused(),
            r.level() == (if level < 9 {
                level
            } else {
                9
            }),
    {
        let level = if level < 9 {
            level
        } else {
            9
        };
        let r = DecompressStream {
            inner,
            decompressor: new_decompressor(),
            compressed_buf: vec![0u8; COMPRESSED_BUF_SIZE],
            compressed_pos: 0,
            compressed_len: 0,
            compressor: new_compressor(level),
            write_buf: vec![0u8; WRITE_BUF_SIZE],
            flush_buf: vec![0u8; WRITE_BUF_SIZE],
            write_drain: DrainState::Idle,
            flush_drain: DrainState::Idle,
            backlog: false,
            bytes_compressed_in: 0,
            bytes_decompressed_out: 0,
        };
        assert(r.unread() =~= Seq::<u8>::empty());
        r
    }

    /// The connection, without the stream.
    pub fn into_inner(self) -> (r: S)
        ensures
            r == self.connection(),
    {
        self.inner
    }

    /// The connection.
    pub fn get_ref(&self) -> (r: &S)
        ensures
            *r == self.connection(),
    {
        &self.inner
    }

    /// The connection, to use it.
    pub fn get_mut(&mut self) -> (r: &mut S)
        ensures
            *r == old(self).connection(),
            final(self).connection() == *final(r),
            final(self).same_reader(old(self)),
            final(self).same_writer(old(self)),
            final(self).wf() == old(self).wf(),
    {
        &mut self.inner
    }

    /// Compressed bytes read from the connection, and bytes delivered.
    pub fn bandwidth_stats(&self) -> (r: (u64, u64))
        ensures
            r == self.stats(),
    {
        (self.bytes_compressed_in, self.bytes_decompressed_out)
    }

    // -----------------------------------------------------------------------
    // Reading
    // -----------------------------------------------------------------------

    /// One turn of decompression: takes input that came from the connection and
    /// writes to `out`. Tells how many bytes it wrote and what comes next. A turn
    /// that had room and wrote nothing has delivered all there was.
    pub fn read_turn(&mut self, out: &mut [u8]) -> (r: Result<(usize, ReadNext), CompressionError>)
        requires
            old(self).wf(),
        ensures
            final(self).wf(),
            final(self).connection() == old(self).connection(),
            final(self).same_writer(old(self)),
            final(out)@.len() == old(out)@.len(),
            match r {
                Ok((produced, next)) => {
                    let k = final(self).received().len() - old(self).received().len();
                    &&& produced <= final(out)@.len()
                    &&& final(self).delivered() == old(self).delivered() + final(out)@.subrange(
                        0,
                        produced as int,
                    )
                    &&& 0 <= k <= old(self).unread().len()
                    &&& final(self).received() == old(self).received() + old(
                        self,
                    ).unread().subrange(0, k)
                    &&& final(self).unread() == old(self).unread().subrange(
                        k,
                        old(self).unread().len() as int,
                    )
                    &&& final(self).stats().0 == old(self).stats().0
                    &&& final(self).stats().1 == count64(
                        (old(self).stats().1 + produced) as nat,
                    )
                    &&& old(out)@.len() == 0 ==> k == 0
                    &&& old(out)@.len() > 0 ==> tells_truth(
                        final(self).received(),
                        final(self).delivered(),
                    )
                    &&& old(out)@.len() > 0 && produced == 0 ==> {
                        &&& stream_ends(final(self).received()) || final(self).unread().len() == 0
                        &&& valid_start(final(self).received())
                        &&& final(self).caught_up()
                    }
                    &&& next == next_after(
                        old(out)@.len() as int,
                        produced as int,
                        stream_ends(final(self).received()),
                        old(self).unread().len() > 0,
                    )
                    &&& old(out)@.len() > 0 ==> !old(self).broken()
                    &&& final(self).broken() == old(self).broken()
                },
                Err(e) => {
                    &&& e == CompressionError::InvalidData
                    &&& old(out)@.len() > 0
                    &&& old(self).broken() || !valid_start(
                        old(self).received() + old(self).unread(),
                    )
                    &&& final(self).broken()
                    &&& final(self).unread() == old(self).unread()
                    &&& final(self).stats() == old(self).stats()
                },
            },
    {
        if out.len() == 0 {
            assert(old(self).delivered() =~= old(self).delivered() + out@.subrange(0, 0));
            assert(old(self).received() =~= old(self).received() + old(self).unread().subrange(
                0,
                0,
            ));
            assert(old(self).unread() =~= old(self).unread().subrange(
                0,
                old(self).unread().len() as int,
            ));
            proof {
                vstd::arithmetic::div_mod::lemma_small_mod(
                    old(self).stats().1 as nat,
                    0x1_0000_0000_0000_0000,
                );
            }
            return Ok((0, ReadNext::Deliver));
        }
        let had_input = self.compressed_pos < self.compressed_len;
        let before_in = decompressor_total_in(&self.decompressor);
        let before_out = decompressor_total_out(&self.decompressor);
        let input = &self.compressed_buf.as_slice()[self.compressed_pos..self.compressed_len];
        assert(input@ == old(self).unread());
        let room = out.len();
        let ended = match decompress_step(&mut self.decompressor, input, out) {
            Ok(ended) => ended,
            Err(_) => {
                return Err(CompressionError::InvalidData);
            },
        };
        let after_in = decompressor_total_in(&self.decompressor);
        let after_out = decompressor_total_out(&self.decompressor);
        let ghost a = old(self).received().len();
        let ghost k = (self.received().len() - a) as nat;
        let ghost b = old(self).delivered().len();
        let ghost p = (self.delivered().len() - b) as nat;
        let consumed = count_since(before_in, after_in, Ghost(a), Ghost(k));
        let produced = count_since(before_out, after_out, Ghost(b), Ghost(p));
        self.compressed_pos = self.compressed_pos + consumed;
        self.bytes_decompressed_out = self.bytes_decompressed_out.wrapping_add(produced as u64);
        let next = after_turn(room, produced, ended, had_input);
        if next == ReadNext::Fill {
            self.compressed_pos = 0;
            self.compressed_len = 0;
        }
        proof {
            assert(self.unread() =~= old(self).unread().subrange(
                k as int,
                old(self).unread().len() as int,
            ));
            let total = old(self).stats().1 + produced;
            vstd::arithmetic::div_mod::lemma_fundamental_div_mod(total, 0x1_0000_0000_0000_0000);
        }
        Ok((produced, next))
    }

    /// Where bytes from the connection go.
    pub fn input_buffer(&mut self) -> (r: &mut [u8])
        requires
            old(self).wf(),
            old(self).unread().len() == 0,
        ensures
            r@ == old(self).input_room(),
            r@.len() == COMPRESSED_BUF_SIZE,
            r@.len() == 8 * 1024,
            final(self).input_room() == final(r)@,
            final(self).connection() == old(self).connection(),
            final(self).same_reader(old(self)),
            final(self).same_writer(old(self)),
            final(r)@.len() == COMPRESSED_BUF_SIZE ==> final(self).wf(),
    {
        self.compressed_pos = 0;
        self.compressed_len = 0;
        self.compressed_buf.as_mut_slice()
    }

    /// The connection put `n` bytes into the input buffer. No bytes mean that
    /// it has ended.
    pub fn filled(&mut self, n: usize) -> (r: bool)
        requires
            old(self).wf(),
            n <= COMPRESSED_BUF_SIZE,
        ensures
            final(self).wf(),
            r == (n > 0),
            final(self).connection() == old(self).connection(),
            final(self).same_writer(old(self)),
            final(self).unread() == old(self).input_room().subrange(0, n as int),
            final(self).received() == old(self).received(),
            final(self).delivered() == old(self).delivered(),
            final(self).broken() == old(self).broken(),
            final(self).stats().0 == count64((old(self).stats().0 + n) as nat),
            final(self).stats().1 == old(self).stats().1,
    {
        self.compressed_pos = 0;
        self.compressed_len = n;
        self.bytes_compressed_in = self.bytes_compressed_in.wrapping_add(n as u64);
        proof {
            vstd::arithmetic::div_mod::lemma_fundamental_div_mod(
                old(self).stats().0 + n,
                0x1_0000_0000_0000_0000,
            );
        }
        n > 0
    }

    // -----------------------------------------------------------------------
    // Writing
    // -----------------------------------------------------------------------

    /// The compressed bytes of writes that the connection has yet to take.
    pub fn to_write(&self) -> (r: &[u8])
        requires
            self.wf(),
        ensures
            r@ == self.pending_writes(),
    {
        pending_of(self.write_drain, self.write_buf.as_slice())
    }

    /// The connection took `n` of the bytes of writes.
    pub fn wrote(&mut self, n: usize) -> (r: Result<(), CompressionError>)
        requires
            old(self).wf(),
            n <= old(self).pending_writes().len(),
        ensures
            final(self).wf(),
            final(self).connection() == old(self).connection(),
            final(self).same_reader(old(self)),
            final(self).level() == old(self).level(),
            final(self).written() == old(self).written(),
            final(self).sent() == old(self).sent(),
            final(self).phase() == old(self).phase(),
            final(self).backlogged() == old(self).backlogged(),
            final(self).pending_flushes() == old(self).pending_flushes(),
            final(self).pending_writes() == old(self).pending_writes().subrange(
                n as int,
                old(self).pending_writes().len() as int,
            ),
            r == (if n == 0 && old(self).pending_writes().len() > 0 {
                Err::<(), CompressionError>(CompressionError::WriteZero)
            } else {
                Ok::<(), CompressionError>(())
            }),
    {
        let r = match self.write_drain.advance(n) {
            Ok(next) => {
                self.write_drain = next;
                Ok(())
            },
            Err(e) => Err(e),
        };
        assert(self.pending_writes() =~= old(self).pending_writes().subrange(
            n as int,
            old(self).pending_writes().len() as int,
        ));
        r
    }

    /// Compresses bytes that are to be written, when no earlier ones are
    /// pending. Tells how many to report as written, which is one more than was
    /// taken where the compressor takes nothing of some bytes. It takes all of
    /// them unless it runs out of room. A stream that has ended takes none; one
    /// that is ending cannot be written to.
    pub fn write(&mut self, data: &[u8]) -> (r: Result<usize, CompressionError>)
        requires
            old(self).wf(),
            old(self).pending_writes().len() == 0,
        ensures
            final(self).wf(),
            final(self).connection() == old(self).connection(),
            final(self).same_reader(old(self)),
            final(self).level() == old(self).level(),
            final(self).pending_flushes() == old(self).pending_flushes(),
            r is Err <==> refuses(old(self).phase(), FlushMode::Lazy),
            match r {
                Ok(n) => {
                    let k = final(self).written().len() - old(self).written().len();
                    &&& 0 <= k <= data@.len()
                    &&& final(self).written() == old(self).written() + data@.subrange(0, k)
                    &&& final(self).sent() == old(self).sent() + final(self).pending_writes()
                    &&& final(self).phase() == old(self).phase()
                    &&& final(self).backlogged() == (final(self).pending_writes().len()
                        == WRITE_BUF_SIZE)
                    &&& final(self).backlogged() <==> final(self).pending_writes().len() == 16 * 1024
                    &&& old(self).phase() == WritePhase::Ended ==> k == 0 && final(self).pending_writes().len() == 0
                    &&& old(self).phase() != WritePhase::Ended ==> k == data@.len() || final(self).backlogged()
                    &&& n == (if k > 0 {
                        k
                    } else if data@.len() > 0 {
                        1
                    } else {
                        0
                    })
                },
                Err(e) => {
                    &&& e == CompressionError::Compress
                    &&& final(self).phase() == WritePhase::Failed
                    &&& final(self).written() == old(self).written()
                    &&& final(self).sent() == old(self).sent()
                    &&& final(self).pending_writes() == old(self).pending_writes()
                    &&& final(self).backlogged() == old(self).backlogged()
                },
            },
    {
        let before_in = compressor_total_in(&self.compressor);
        let before_out = compressor_total_out(&self.compressor);
        let step = compress_step(
            &mut self.compressor,
            data,
            self.write_buf.as_mut_slice(),
            FlushMode::Lazy,
        );
        assert(self.write_drain == DrainState::Idle);
        if step.is_err() {
            return Err(CompressionError::Compress);
        }
        let after_in = compressor_total_in(&self.compressor);
        let after_out = compressor_total_out(&self.compressor);
        let ghost a = old(self).written().len();
        let ghost k = (self.written().len() - a) as nat;
        let ghost b = old(self).sent().len();
        let ghost p = (self.sent().len() - b) as nat;
        assert(data@.len() == data.len());
        let consumed = count_since(before_in, after_in, Ghost(a), Ghost(k));
        let produced = count_since(before_out, after_out, Ghost(b), Ghost(p));
        self.write_drain = DrainState::start(produced);
        self.backlog = produced == WRITE_BUF_SIZE;
        assert(self.sent() =~= old(self).sent() + self.pending_writes());
        Ok(reported(consumed, data.len()))
    }

    /// The compressed bytes of flushes that the connection has yet to take.
    pub fn to_flush(&self) -> (r: &[u8])
        requires
            self.wf(),
        ensures
            r@ == self.pending_flushes(),
    {
        pending_of(self.flush_drain, self.flush_buf.as_slice())
    }

    /// The connection took `n` of the bytes of flushes.
    pub fn flushed(&mut self, n: usize) -> (r: Result<(), CompressionError>)
        requires
            old(self).wf(),
            n <= old(self).pending_flushes().len(),
        ensures
            final(self).wf(),
            final(self).connection() == old(self).connection(),
            final(self).same_reader(old(self)),
            final(self).level() == old(self).level(),
            final(self).written() == old(self).written(),
            final(self).sent() == old(self).sent(),
            final(self).phase() == old(self).phase(),
            final(self).backlogged() == old(self).backlogged(),
            final(self).pending_writes() == old(self).pending_writes(),
            final(self).pending_flushes() == old(self).pending_flushes().subrange(
                n as int,
                old(self).pending_flushes().len() as int,
            ),
            r == (if n == 0 && old(self).pending_flushes().len() > 0 {
                Err::<(), CompressionError>(CompressionError::WriteZero)
            } else {
                Ok::<(), CompressionError>(())
            }),
    {
        let r = match self.flush_drain.advance(n) {
            Ok(next) => {
                self.flush_drain = next;
                Ok(())
            },
            Err(e) => Err(e),
        };
        assert(self.pending_flushes() =~= old(self).pending_flushes().subrange(
            n as int,
            old(self).pending_flushes().len() as int,
        ));
        r
    }

    /// One turn of a flush, or of the end of the stream, when no earlier bytes
    /// of flushes are pending. Tells whether the turn was the last: it left
    /// room, and there was no backlog that a flush had to give out first.
    pub fn flush_turn(&mut self, end: bool) -> (r: Result<bool, CompressionError>)
        requires
            old(self).wf(),
            old(self).pending_flushes().len() == 0,
        ensures
            final(self).wf(),
            final(self).connection() == old(self).connection(),
            final(self).same_reader(old(self)),
            final(self).level() == old(self).level(),
            final(self).pending_writes() == old(self).pending_writes(),
            r is Err <==> refuses(
                old(self).phase(),
                if end {
                    FlushMode::Finish
                } else {
                    FlushMode::Sync
                },
            ),
            match r {
                Ok(last) => {
                    &&& final(self).written() == old(self).written()
                    &&& final(self).sent() == old(self).sent() + final(self).pending_flushes()
                    &&& final(self).backlogged() == (final(self).pending_flushes().len()
                        == WRITE_BUF_SIZE)
                    &&& final(self).backlogged() <==> final(self).pending_flushes().len() == 16 * 1024
                    &&& last == (!final(self).backlogged() && (end || !old(self).backlogged()))
                    &&& last ==> final(self).complete()
                    &&& old(self).phase() == WritePhase::Ended ==> final(self).pending_flushes().len() == 0
                    &&& !end ==> final(self).phase() == old(self).phase()
                    &&& end ==> final(self).phase() == WritePhase::Ended || (final(self).phase()
                        == WritePhase::Ending && final(self).backlogged())
                },
                Err(e) => {
                    &&& e == CompressionError::Compress
                    &&& final(self).phase() == WritePhase::Failed
                    &&& final(self).written() == old(self).written()
                    &&& final(self).sent() == old(self).sent()
                    &&& final(self).pending_flushes() == old(self).pending_flushes()
                    &&& final(self).backlogged() == old(self).backlogged()
                },
            },
    {
        let mode = if end {
            FlushMode::Finish
        } else {
            FlushMode::Sync
        };
        let nothing: [u8; 0] = [];
        let before_out = compressor_total_out(&self.compressor);
        let step = compress_step(
            &mut self.compressor,
            nothing.as_slice(),
            self.flush_buf.as_mut_slice(),
            mode,
        );
        assert(self.flush_drain == DrainState::Idle);
        if step.is_err() {
            return Err(CompressionError::Compress);
        }
        let after_out = compressor_total_out(&self.compressor);
        let ghost b = old(self).sent().len();
        let ghost p = (self.sent().len() - b) as nat;
        let produced = count_since(before_out, after_out, Ghost(b), Ghost(p));
        self.flush_drain = DrainState::start(produced);
        let full = produced == WRITE_BUF_SIZE;
        let behind = self.backlog;
        self.backlog = full;
        assert(self.sent() =~= old(self).sent() + self.pending_flushes());
        assert(self.written() =~= old(self).written());
        Ok(!full && (end || !behind))
    }
}

fn pending_of(state: DrainState, buf: &[u8]) -> (r: &[u8])
    requires
        state.fits(buf@.len() as int),
    ensures
        r@ == state.pending(buf@),
{
    match state {
        DrainState::Idle => &buf[0..0],
        DrainState::Draining { pos, len } => &buf[pos..len],
    }
}

/// What a reader delivers is what the compressor on the other side took of what
/// was written, from its start: once the writer has flushed, and as long as the
/// reader got nothing but what the writer sent. Once the reader got all of it,
/// and a turn of it found nothing more to deliver, it has delivered all that was
/// written.
pub proof fn law_reader_gets_what_was_written<S, T>(
    writer: DecompressStream<S>,
    reader: DecompressStream<T>,
)
    requires
        writer.complete(),
        tells_truth(reader.received(), reader.delivered()),
        reader.received().is_prefix_of(writer.sent()),
    ensures
        reader.delivered().is_prefix_of(writer.written()),
        reader.received() == writer.sent() && reader.caught_up() ==> reader.delivered()
            == writer.written(),
{
    let rest = writer.sent().subrange(
        reader.received().len() as int,
        writer.sent().len() as int,
    );
    assert(reader.received() + rest =~= writer.sent());
}

/// A reader hands over what a turn put out, and goes back to the connection only
/// where a turn without input put nothing out: with input left it turns again.
/// It hands over nothing only at the end of the stream, or where there is no
/// room.
pub proof fn law_turns_of_a_reader(room: int, produced: int, stream_end: bool, had_input: bool)
    requires
        0 <= produced <= room,
    ensures
        produced > 0 ==> next_after(room, produced, stream_end, had_input) is Deliver,
        stream_end ==> next_after(room, produced, stream_end, had_input) is Deliver,
        room == 0 ==> next_after(room, produced, stream_end, had_input) is Deliver,
        produced == 0 && room > 0 && !stream_end && had_input ==> next_after(
            room,
            produced,
            stream_end,
            had_input,
        ) is Again,
        produced == 0 && room > 0 && !stream_end && !had_input ==> next_after(
            room,
            produced,
            stream_end,
            had_input,
        ) is Fill,
{
}

} // verus!
