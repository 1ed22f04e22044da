//! Streams that compress what is written and decompress what is read.
use nntp_proxy::compression::{
    after_turn, reported, CompressionError, DecompressStream, DrainState, ReadNext,
};
use std::io::{Cursor, Read, Write};

/// Raw DEFLATE bytes of `data`.
fn deflate_compress(data: &[u8]) -> Vec<u8> {
    let mut enc =
        flate2::write::DeflateEncoder::new(Vec::new(), flate2::Compression::default());
    enc.write_all(data).unwrap();
    enc.finish().unwrap()
}

/// Reads a stream to its end, with an output buffer of this size.
fn read_to_end(
    stream: &mut DecompressStream<Cursor<Vec<u8>>>,
    room: usize,
) -> Result<Vec<u8>, CompressionError> {
    let mut all = Vec::new();
    let mut out = vec![0u8; room];
    loop {
        let (n, next) = stream.read_turn(&mut out)?;
        all.extend_from_slice(&out[..n]);
        match next {
            ReadNext::Deliver => {
                if n == 0 {
                    return Ok(all);
                }
            }
            ReadNext::Again => {}
            ReadNext::Fill => {
                let mut input = vec![0u8; 8192];
                let n = stream.get_mut().read(&mut input).unwrap();
                let room = stream.input_buffer();
                assert_eq!(room.len(), 8192);
                room[..n].copy_from_slice(&input[..n]);
                if !stream.filled(n) {
                    return Ok(all);
                }
            }
        }
    }
}

/// Takes every pending byte of writes and of flushes off the stream.
fn drain(stream: &mut DecompressStream<Vec<u8>>) {
    while !stream.to_write().is_empty() {
        let bytes = stream.to_write().to_vec();
        stream.get_mut().extend_from_slice(&bytes);
        stream.wrote(bytes.len()).unwrap();
    }
    while !stream.to_flush().is_empty() {
        let bytes = stream.to_flush().to_vec();
        stream.get_mut().extend_from_slice(&bytes);
        stream.flushed(bytes.len()).unwrap();
    }
}

fn write_all(stream: &mut DecompressStream<Vec<u8>>, mut data: &[u8]) {
    while !data.is_empty() {
        let n = stream.write(data).unwrap();
        data = &data[n..];
        drain(stream);
    }
}

fn flush(stream: &mut DecompressStream<Vec<u8>>, end: bool) {
    loop {
        let last = stream.flush_turn(end).unwrap();
        drain(stream);
        if last {
            return;
        }
    }
}

fn lines() -> Vec<u8> {
    let mut original = Vec::with_capacity(1024 * 1024);
    for i in 0..1024 * 64 {
        original.extend_from_slice(
            format!("Line {}: Some NNTP article content here\r\n", i).as_bytes(),
        );
    }
    original
}

#[test]
fn test_roundtrip_read() {
    let original = b"Hello, NNTP world! COMPRESS DEFLATE test data.\r\n";
    let mut stream = DecompressStream::new(Cursor::new(deflate_compress(original)));
    assert_eq!(read_to_end(&mut stream, 4096).unwrap(), original);
}

#[test]
fn test_roundtrip_write_flush() {
    let original = b"GROUP alt.test\r\n";
    let mut stream = DecompressStream::new(Vec::new());
    write_all(&mut stream, original);
    flush(&mut stream, false);
    flush(&mut stream, true);
    let compressed_output = stream.into_inner();

    let mut decoder = flate2::read::DeflateDecoder::new(&compressed_output[..]);
    let mut decompressed = Vec::new();
    decoder.read_to_end(&mut decompressed).unwrap();
    assert_eq!(decompressed, original);
}

#[test]
fn test_large_data_roundtrip() {
    let original = lines();
    let mut stream = DecompressStream::new(Cursor::new(deflate_compress(&original)));
    let output = read_to_end(&mut stream, 4096).unwrap();
    assert_eq!(output.len(), original.len());
    assert_eq!(output, original);
}

#[test]
fn test_bandwidth_stats() {
    let original = b"Test data for bandwidth tracking\r\n";
    let compressed = deflate_compress(original);
    let size = compressed.len() as u64;
    let mut stream = DecompressStream::new(Cursor::new(compressed));
    read_to_end(&mut stream, 4096).unwrap();

    let (compressed_in, decompressed_out) = stream.bandwidth_stats();
    assert!(compressed_in > 0);
    assert_eq!(compressed_in, size);
    assert_eq!(decompressed_out, original.len() as u64);
}

#[test]
fn test_debug_impl() {
    let stream = DecompressStream::new(std::io::Cursor::new(Vec::<u8>::new()));
    let debug_str = format!("{:?}", stream);
    assert!(debug_str.contains("DecompressStream"));
    assert!(debug_str.contains("compressed_pos"));
    assert!(debug_str.contains("bytes_compressed_in"));
}

#[test]
fn a_reader_gets_what_a_flushed_writer_wrote() {
    for level in [1, 6, 9, 40] {
        let original = lines()[..100_000].to_vec();
        let mut writer = DecompressStream::with_level(Vec::new(), level);
        for part in original.chunks(512) {
            write_all(&mut writer, part);
        }
        flush(&mut writer, false);
        let mut reader = DecompressStream::new(Cursor::new(writer.into_inner()));
        assert!(read_to_end(&mut reader, 1000).unwrap() == original, "level {level}");
    }
}

#[test]
fn stored_blocks_are_read_back() {
    let mut writer = DecompressStream::with_level(Vec::new(), 0);
    write_all(&mut writer, b"GROUP alt.test\r\n");
    flush(&mut writer, true);
    let sent = writer.into_inner();
    assert!(sent.len() > 16);
    let mut reader = DecompressStream::new(Cursor::new(sent));
    assert_eq!(read_to_end(&mut reader, 7).unwrap(), b"GROUP alt.test\r\n");
}

#[test]
fn the_level_decides_how_much_is_sent() {
    let original = lines()[..100_000].to_vec();
    let sent = |mut writer: DecompressStream<Vec<u8>>| {
        write_all(&mut writer, &original);
        flush(&mut writer, true);
        writer.into_inner()
    };
    let at = |level| sent(DecompressStream::with_level(Vec::new(), level));
    assert!(at(0).len() > original.len());
    assert!(at(1).len() < original.len());
    assert!(at(9).len() < at(1).len());
    assert!(at(40) == at(9));
    assert!(sent(DecompressStream::new(Vec::new())) == at(1));
}

#[test]
fn bytes_that_are_no_stream_are_refused() {
    let mut stream = DecompressStream::new(Cursor::new(vec![0xff; 64]));
    assert_eq!(read_to_end(&mut stream, 64), Err(CompressionError::InvalidData));
}

#[test]
fn no_room_delivers_nothing() {
    let mut stream = DecompressStream::new(Cursor::new(deflate_compress(b"text")));
    assert_eq!(stream.read_turn(&mut []).unwrap(), (0, ReadNext::Deliver));
    assert_eq!(stream.get_ref().position(), 0);
}

#[test]
fn an_empty_connection_ends_the_stream() {
    let mut stream = DecompressStream::new(Cursor::new(Vec::new()));
    assert_eq!(read_to_end(&mut stream, 64).unwrap(), b"");
    assert_eq!(stream.bandwidth_stats(), (0, 0));
}

#[test]
fn drains_advance_until_they_are_idle() {
    assert_eq!(DrainState::start(0), DrainState::Idle);
    let state = DrainState::start(5);
    assert_eq!(state, DrainState::Draining { pos: 0, len: 5 });
    let state = state.advance(2).unwrap();
    assert_eq!(state, DrainState::Draining { pos: 2, len: 5 });
    assert_eq!(state.advance(0), Err(CompressionError::WriteZero));
    assert_eq!(state.advance(3), Ok(DrainState::Idle));
    assert_eq!(DrainState::Idle.advance(7), Ok(DrainState::Idle));
}

#[test]
fn a_connection_that_takes_nothing_is_an_error() {
    let mut stream = DecompressStream::with_level(Vec::<u8>::new(), 0);
    stream.write(b"some bytes").unwrap();
    stream.flush_turn(false).unwrap();
    assert!(!stream.to_flush().is_empty());
    assert_eq!(stream.flushed(0), Err(CompressionError::WriteZero));
}

#[test]
fn turns_are_followed_by_the_right_step() {
    assert_eq!(after_turn(0, 0, false, true), ReadNext::Deliver);
    assert_eq!(after_turn(10, 3, false, true), ReadNext::Deliver);
    assert_eq!(after_turn(10, 0, true, false), ReadNext::Deliver);
    assert_eq!(after_turn(10, 0, false, true), ReadNext::Again);
    assert_eq!(after_turn(10, 0, false, false), ReadNext::Fill);
}

#[test]
fn a_write_reports_progress() {
    assert_eq!(reported(7, 9), 7);
    assert_eq!(reported(0, 9), 1);
    assert_eq!(reported(0, 0), 0);
}

/// Bytes that no compressor makes shorter.
fn noise(len: usize) -> Vec<u8> {
    let mut state = 0x2545_f491_4f6c_dd1du64;
    let mut out = Vec::with_capacity(len);
    for _ in 0..len {
        state ^= state << 13;
        state ^= state >> 7;
        state ^= state << 17;
        out.push((state >> 32) as u8);
    }
    out
}

#[test]
fn a_flush_after_a_backlog_is_complete() {
    for level in [0, 1, 6] {
        let original = noise(61_440);
        let mut writer = DecompressStream::with_level(Vec::new(), level);
        let taken = writer.write(&original).unwrap();
        assert!(taken == original.len() || writer.to_write().len() == 16384);
        drain(&mut writer);
        flush(&mut writer, false);
        let mut reader = DecompressStream::new(Cursor::new(writer.into_inner()));
        assert!(read_to_end(&mut reader, 4096).unwrap() == original[..taken], "level {level}");
    }
}

#[test]
fn a_backlog_takes_one_more_turn() {
    let mut writer = DecompressStream::new(Vec::new());
    assert_eq!(writer.write(&noise(61_440)), Ok(61_440));
    assert_eq!(writer.to_write().len(), 16384);
    drain(&mut writer);
    let mut turns = 0;
    let mut lengths = Vec::new();
    loop {
        let last = writer.flush_turn(false).unwrap();
        turns += 1;
        lengths.push(writer.to_flush().len());
        drain(&mut writer);
        if last {
            break;
        }
    }
    assert!(turns > 1);
    assert!(lengths[turns - 1] < 16384 && lengths[turns - 2] < 16384, "{lengths:?}");
}

#[test]
fn a_stream_that_is_ending_takes_nothing_else() {
    let mut writer = DecompressStream::new(Vec::new());
    writer.write(&noise(61_440)).unwrap();
    drain(&mut writer);
    assert_eq!(writer.flush_turn(true), Ok(false));
    assert_eq!(writer.to_flush().len(), 16384);
    drain(&mut writer);
    assert_eq!(writer.write(b"more"), Err(CompressionError::Compress));
    assert_eq!(writer.flush_turn(true), Err(CompressionError::Compress));
    assert_eq!(writer.flush_turn(false), Err(CompressionError::Compress));
}

#[test]
fn a_stream_that_has_ended_sends_nothing_more() {
    let mut writer = DecompressStream::new(Vec::new());
    write_all(&mut writer, b"QUIT\r\n");
    flush(&mut writer, true);
    let sent = writer.get_ref().len();
    assert_eq!(writer.write(b"more"), Ok(1));
    assert!(writer.to_write().is_empty());
    assert_eq!(writer.flush_turn(true), Ok(true));
    assert_eq!(writer.flush_turn(false), Ok(true));
    assert!(writer.to_flush().is_empty());
    assert_eq!(writer.get_ref().len(), sent);
    let mut reader = DecompressStream::new(Cursor::new(writer.into_inner()));
    assert_eq!(read_to_end(&mut reader, 64).unwrap(), b"QUIT\r\n");
}

#[test]
fn a_fault_lasts() {
    let mut stream = DecompressStream::new(Cursor::new(vec![0xff; 64]));
    assert_eq!(read_to_end(&mut stream, 64), Err(CompressionError::InvalidData));
    let mut out = [0u8; 8];
    assert_eq!(stream.read_turn(&mut out), Err(CompressionError::InvalidData));
    assert_eq!(stream.read_turn(&mut []), Ok((0, ReadNext::Deliver)));
}
