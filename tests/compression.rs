use std::io::{Cursor, Read, Seek};

use avbroot_compression::format::{detect_format, CompressedFormat, Error};
use avbroot_compression::lz4_legacy::{Lz4LegacyEncoder, BLOCK_SIZE};
use avbroot_compression::writer::CompressedWriter;

const LZ4_MAGIC: [u8; 4] = [0x02, 0x21, 0x4c, 0x18];

fn sample(len: usize) -> Vec<u8> {
    (0..len).map(|i| ((i * 7 + i / 251) % 256) as u8).collect()
}

fn encode(data: &[u8], format: CompressedFormat) -> Vec<u8> {
    let mut w = CompressedWriter::new(Vec::new(), format);
    let mut rest = data;
    while !rest.is_empty() {
        let n = w.write(rest).unwrap();
        assert!(n > 0);
        rest = &rest[n..];
    }
    w.flush().unwrap();
    w.finish().unwrap()
}

fn decode(stream: &[u8]) -> Vec<u8> {
    let format = detect_format(&stream[..4], true).unwrap();
    let mut out = Vec::new();
    match format {
        CompressedFormat::Raw => out.extend_from_slice(stream),
        CompressedFormat::Gzip => {
            flate2::read::GzDecoder::new(stream).read_to_end(&mut out).unwrap();
        }
        CompressedFormat::Lz4Legacy => {
            lz4_flex::frame::FrameDecoder::new(stream).read_to_end(&mut out).unwrap();
        }
    }
    out
}

/// Splits a legacy stream into its records' compressed blocks.
fn records(stream: &[u8]) -> Vec<Vec<u8>> {
    assert_eq!(&stream[..4], &LZ4_MAGIC);
    let mut pos = 4;
    let mut out = Vec::new();
    while pos < stream.len() {
        let len = u32::from_le_bytes(stream[pos..pos + 4].try_into().unwrap()) as usize;
        pos += 4;
        out.push(stream[pos..pos + len].to_vec());
        pos += len;
    }
    assert_eq!(pos, stream.len());
    out
}

#[test]
fn detect_gzip_magic() {
    let r = detect_format(&[0x1f, 0x8b, 0x08, 0x00], false);
    assert!(matches!(r, Ok(CompressedFormat::Gzip)));
}

#[test]
fn detect_lz4_legacy_magic() {
    let r = detect_format(&LZ4_MAGIC, false);
    assert!(matches!(r, Ok(CompressedFormat::Lz4Legacy)));
}

#[test]
fn detect_unknown_with_fallback_is_raw() {
    let r = detect_format(b"ANDR", true);
    assert!(matches!(r, Ok(CompressedFormat::Raw)));
}

#[test]
fn detect_unknown_without_fallback_fails() {
    let r = detect_format(b"ANDR", false);
    assert!(matches!(r, Err(Error::UnknownFormat)));
    let r = detect_format(&[0x02, 0x21, 0x4c, 0x19], false);
    assert!(matches!(r, Err(Error::UnknownFormat)));
}

#[test]
fn detect_short_input_is_io_error() {
    let r = detect_format(&[0x1f, 0x8b, 0x08], true);
    match r {
        Err(Error::IoError(e)) => assert_eq!(e.kind(), std::io::ErrorKind::UnexpectedEof),
        _ => panic!("expected an I/O error"),
    }
}

#[test]
fn round_trip_raw() {
    let data = sample(1000);
    let stream = encode(&data, CompressedFormat::Raw);
    assert_eq!(stream, data);
}

#[test]
fn round_trip_gzip() {
    for len in [0usize, 1, 5, 70000] {
        let data = sample(len);
        let stream = encode(&data, CompressedFormat::Gzip);
        assert_eq!(&stream[..2], &[0x1f, 0x8b]);
        assert_eq!(decode(&stream), data);
    }
}

#[test]
fn round_trip_lz4_legacy() {
    for len in [0usize, 1, 5, 70000] {
        let data = sample(len);
        let stream = encode(&data, CompressedFormat::Lz4Legacy);
        assert_ne!(stream, data);
        assert_eq!(decode(&stream), data);
    }
}

#[test]
fn round_trip_lz4_legacy_over_one_block() {
    let data = sample(BLOCK_SIZE + 1000);
    let stream = encode(&data, CompressedFormat::Lz4Legacy);
    assert_eq!(records(&stream).len(), 2);
    assert_eq!(decode(&stream), data);
}

#[test]
fn detect_encoded_streams() {
    let data = sample(300);
    let gz = encode(&data, CompressedFormat::Gzip);
    assert!(matches!(detect_format(&gz[..4], false), Ok(CompressedFormat::Gzip)));
    let lz = encode(&data, CompressedFormat::Lz4Legacy);
    assert!(matches!(detect_format(&lz[..4], false), Ok(CompressedFormat::Lz4Legacy)));
    let raw = b"plain bytes, no magic".to_vec();
    assert!(matches!(detect_format(&raw[..4], true), Ok(CompressedFormat::Raw)));
    assert_eq!(decode(&raw), raw);
}

#[test]
fn detection_keeps_source_intact() {
    let data = encode(&sample(500), CompressedFormat::Lz4Legacy);
    let mut source = Cursor::new(data.clone());
    let mut magic = [0u8; 4];
    source.read_exact(&mut magic).unwrap();
    source.rewind().unwrap();
    assert!(matches!(detect_format(&magic, false), Ok(CompressedFormat::Lz4Legacy)));
    let mut all = Vec::new();
    source.read_to_end(&mut all).unwrap();
    assert_eq!(all, data);
}

#[test]
fn exact_block_gives_one_record() {
    let data = sample(BLOCK_SIZE);
    let mut enc = Lz4LegacyEncoder::new(Vec::new());
    assert_eq!(enc.write(&data), BLOCK_SIZE);
    let stream = enc.finish();
    let recs = records(&stream);
    assert_eq!(recs.len(), 1);
    assert_eq!(lz4_flex::block::decompress(&recs[0], BLOCK_SIZE).unwrap(), data);
    assert_eq!(decode(&stream), data);
}

#[test]
fn one_byte_over_block_gives_two_records() {
    let data = sample(BLOCK_SIZE + 1);
    let mut enc = Lz4LegacyEncoder::new(Vec::new());
    assert_eq!(enc.write(&data), BLOCK_SIZE + 1);
    let stream = enc.finish();
    let recs = records(&stream);
    assert_eq!(recs.len(), 2);
    assert_eq!(lz4_flex::block::decompress(&recs[0], BLOCK_SIZE).unwrap(), &data[..BLOCK_SIZE]);
    assert_eq!(lz4_flex::block::decompress(&recs[1], 1).unwrap(), &data[BLOCK_SIZE..]);
}

#[test]
fn finish_without_writes() {
    let stream = Lz4LegacyEncoder::new(Vec::new()).finish();
    // No input, no block: the magic alone.
    assert_eq!(stream, LZ4_MAGIC.to_vec());
    assert_eq!(records(&stream), Vec::<Vec<u8>>::new());
    assert_eq!(decode(&stream), Vec::<u8>::new());
}

#[test]
fn new_appends_magic_to_sink() {
    let enc = Lz4LegacyEncoder::new(vec![9, 9]);
    let stream = enc.finish();
    assert_eq!(&stream[..6], &[9, 9, 0x02, 0x21, 0x4c, 0x18]);
}

#[test]
fn flush_keeps_partial_block() {
    let mut enc = Lz4LegacyEncoder::new(Vec::new());
    enc.write(&sample(10));
    enc.flush();
    assert_eq!(enc.take_output(), LZ4_MAGIC.to_vec());
    enc.write_block(false);
    assert_eq!(enc.take_output(), Vec::<u8>::new());
    let rest = enc.finish();
    assert_eq!(records(&[LZ4_MAGIC.to_vec(), rest].concat()).len(), 1);
}

#[test]
fn forced_empty_block_writes_record() {
    let mut enc = Lz4LegacyEncoder::new(Vec::new());
    enc.write_block(true);
    // The compressor turns empty input into a single zero token.
    assert_eq!(enc.take_output(), vec![0x02, 0x21, 0x4c, 0x18, 0x01, 0x00, 0x00, 0x00, 0x00]);
}

#[test]
fn forced_block_writes_partial_record() {
    let data = sample(100);
    let mut enc = Lz4LegacyEncoder::new(Vec::new());
    enc.write(&data);
    enc.write_block(true);
    let stream = enc.take_output();
    let recs = records(&stream);
    assert_eq!(recs.len(), 1);
    assert_eq!(recs[0], lz4_flex::block::compress(&data));
    assert_eq!(lz4_flex::block::decompress(&recs[0], 100).unwrap(), data);
}

#[test]
fn split_writes_match_one_write() {
    let data = sample(BLOCK_SIZE + 5000);
    let mut one = Lz4LegacyEncoder::new(Vec::new());
    one.write(&data);
    let mut two = Lz4LegacyEncoder::new(Vec::new());
    let (a, b) = data.split_at(BLOCK_SIZE - 7);
    two.write(a);
    two.write(b);
    assert_eq!(one.finish(), two.finish());
}

#[test]
fn writer_reports_format() {
    for f in [CompressedFormat::Raw, CompressedFormat::Gzip, CompressedFormat::Lz4Legacy] {
        assert_eq!(CompressedWriter::new(Vec::new(), f).format(), f);
    }
}

#[test]
fn writer_take_output_streams_in_order() {
    for f in [CompressedFormat::Raw, CompressedFormat::Gzip, CompressedFormat::Lz4Legacy] {
        let data = sample(20000);
        let mut w = CompressedWriter::new(Vec::new(), f);
        let mut streamed = Vec::new();
        for chunk in data.chunks(3000) {
            let mut rest = chunk;
            while !rest.is_empty() {
                let n = w.write(rest).unwrap();
                rest = &rest[n..];
            }
            streamed.extend(w.take_output());
        }
        streamed.extend(w.finish().unwrap());
        assert_eq!(decode(&streamed), data);
    }
}
