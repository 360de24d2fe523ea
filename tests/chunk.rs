use pngme::chunk::{Chunk, ChunkError};
use pngme::chunk_type::{ChunkType, ChunkTypeError};
use std::convert::TryFrom;
use std::str::FromStr;

const MESSAGE: &str = "This is where your secret message will be!";

fn record(length: u32, tag: &[u8], data: &[u8], crc: u32) -> Vec<u8> {
    length
        .to_be_bytes()
        .iter()
        .chain(tag.iter())
        .chain(data.iter())
        .chain(crc.to_be_bytes().iter())
        .copied()
        .collect()
}

fn testing_chunk() -> Chunk {
    let data_length: u32 = 42;
    let chunk_type = "RuSt".as_bytes();
    let message_bytes = "This is where your secret message will be!".as_bytes();
    let crc: u32 = 2882656334;

    let chunk_data: Vec<u8> = data_length
        .to_be_bytes()
        .iter()
        .chain(chunk_type.iter())
        .chain(message_bytes.iter())
        .chain(crc.to_be_bytes().iter())
        .copied()
        .collect();

    Chunk::try_from(chunk_data.as_ref()).unwrap()
}

#[test]
fn test_new_chunk() {
    let chunk_type = ChunkType::from_str("RuSt").unwrap();
    let data = "This is where your secret message will be!"
        .as_bytes()
        .to_vec();
    let chunk = Chunk::new(chunk_type, data);
    assert_eq!(chunk.length(), 42);
    assert_eq!(chunk.crc(), 2882656334);
}

#[test]
fn test_chunk_length() {
    let chunk = testing_chunk();
    assert_eq!(chunk.length(), 42);
}

#[test]
fn test_chunk_type() {
    let chunk = testing_chunk();
    assert_eq!(chunk.chunk_type().to_string(), String::from("RuSt"));
}

#[test]
fn test_chunk_string() {
    let chunk = testing_chunk();
    let chunk_string = chunk.data_as_string().unwrap();
    let expected_chunk_string = String::from("This is where your secret message will be!");
    assert_eq!(chunk_string, expected_chunk_string);
}

#[test]
fn test_chunk_crc() {
    let chunk = testing_chunk();
    assert_eq!(chunk.crc(), 2882656334);
}

#[test]
fn test_valid_chunk_from_bytes() {
    let data_length: u32 = 42;
    let chunk_type = "RuSt".as_bytes();
    let message_bytes = "This is where your secret message will be!".as_bytes();
    let crc: u32 = 2882656334;

    let chunk_data: Vec<u8> = data_length
        .to_be_bytes()
        .iter()
        .chain(chunk_type.iter())
        .chain(message_bytes.iter())
        .chain(crc.to_be_bytes().iter())
        .copied()
        .collect();

    let chunk = Chunk::try_from(chunk_data.as_ref()).unwrap();

    let chunk_string = chunk.data_as_string().unwrap();
    let expected_chunk_string = String::from("This is where your secret message will be!");

    assert_eq!(chunk.length(), 42);
    assert_eq!(chunk.chunk_type().to_string(), String::from("RuSt"));
    assert_eq!(chunk_string, expected_chunk_string);
    assert_eq!(chunk.crc(), 2882656334);
}

#[test]
fn test_invalid_chunk_from_bytes() {
    let data_length: u32 = 42;
    let chunk_type = "RuSt".as_bytes();
    let message_bytes = "This is where your secret message will be!".as_bytes();
    let crc: u32 = 2882656333;

    let chunk_data: Vec<u8> = data_length
        .to_be_bytes()
        .iter()
        .chain(chunk_type.iter())
        .chain(message_bytes.iter())
        .chain(crc.to_be_bytes().iter())
        .copied()
        .collect();

    let chunk = Chunk::try_from(chunk_data.as_ref());

    assert!(chunk.is_err());
}

#[test]
pub fn test_chunk_trait_impls() {
    let data_length: u32 = 42;
    let chunk_type = "RuSt".as_bytes();
    let message_bytes = "This is where your secret message will be!".as_bytes();
    let crc: u32 = 2882656334;

    let chunk_data: Vec<u8> = data_length
        .to_be_bytes()
        .iter()
        .chain(chunk_type.iter())
        .chain(message_bytes.iter())
        .chain(crc.to_be_bytes().iter())
        .copied()
        .collect();

    let chunk: Chunk = TryFrom::try_from(chunk_data.as_ref()).unwrap();

    let _chunk_string = format!("{:?}", chunk);
}

#[test]
fn build_then_parse_gives_same_record() {
    let tag = ChunkType::from_string("RuSt").unwrap();
    let built = Chunk::new(tag, MESSAGE.as_bytes().to_vec());
    let bytes = built.as_bytes();
    assert_eq!(bytes.len(), 12 + 42);
    let parsed = Chunk::parse_one(&bytes).unwrap();
    assert_eq!(parsed.length(), built.length());
    assert_eq!(parsed.chunk_type(), built.chunk_type());
    assert_eq!(parsed.data(), built.data());
    assert_eq!(parsed.crc(), built.crc());
}

#[test]
fn empty_payload_round_trips() {
    let tag = ChunkType::from_string("IEND").unwrap();
    let built = Chunk::new(tag, Vec::new());
    assert_eq!(built.length(), 0);
    // The CRC-32 of "IEND", as every PNG file ends with it.
    assert_eq!(built.crc(), 0xAE42_6082);
    let bytes = built.as_bytes();
    assert_eq!(bytes, vec![0, 0, 0, 0, b'I', b'E', b'N', b'D', 0xAE, 0x42, 0x60, 0x82]);
    let parsed = Chunk::parse_one(&bytes).unwrap();
    assert_eq!(parsed.data(), &[] as &[u8]);
    assert_eq!(parsed.crc(), 0xAE42_6082);
}

#[test]
fn serialization_layout_is_big_endian() {
    let tag = ChunkType::from_string("RuSt").unwrap();
    let built = Chunk::new(tag, MESSAGE.as_bytes().to_vec());
    let expected = record(42, b"RuSt", MESSAGE.as_bytes(), 2882656334);
    assert_eq!(built.as_bytes(), expected);
    assert_eq!(&built.as_bytes()[0..8], &[0, 0, 0, 42, b'R', b'u', b'S', b't']);
    assert_eq!(&built.as_bytes()[50..54], &[0xAB, 0xD1, 0xD8, 0x4E]);
}

#[test]
fn checksum_matches_reference_crc32() {
    // zlib.crc32(b"abcdEFGH") computed independently.
    let built = Chunk::new(ChunkType::from_string("abcd").unwrap(), b"EFGH".to_vec());
    assert_eq!(built.crc(), 2558183396);
}

#[test]
fn decremented_checksum_is_rejected() {
    let bytes = record(42, b"RuSt", MESSAGE.as_bytes(), 2882656334 - 1);
    assert_eq!(Chunk::parse_one(&bytes).unwrap_err(), ChunkError::ChecksumMismatch);
    let tag = ChunkType::from_string("RuSt").unwrap();
    assert_eq!(Chunk::new(tag, MESSAGE.as_bytes().to_vec()).crc(), 2882656334);
}

#[test]
fn any_flipped_bit_in_type_or_payload_is_detected() {
    let good = record(42, b"RuSt", MESSAGE.as_bytes(), 2882656334);
    for i in 4..(8 + 42) {
        for k in 0..8 {
            let mut bad = good.clone();
            bad[i] ^= 1 << k;
            let r = Chunk::parse_one(&bad).unwrap_err();
            let tag_still_legal = ChunkType::from_bytes([bad[4], bad[5], bad[6], bad[7]]).is_ok();
            if tag_still_legal {
                assert_eq!(r, ChunkError::ChecksumMismatch);
            } else {
                assert!(matches!(r, ChunkError::InvalidTag(ChunkTypeError::InvalidByte { .. })));
            }
        }
    }
}

#[test]
fn short_buffers_are_truncated() {
    let good = record(42, b"RuSt", MESSAGE.as_bytes(), 2882656334);
    for n in 0..good.len() {
        assert_eq!(Chunk::parse_one(&good[..n]).unwrap_err(), ChunkError::TruncatedInput);
        let mut pos: usize = 0;
        assert_eq!(Chunk::read_chunk(&good[..n], &mut pos).unwrap_err(), ChunkError::TruncatedInput);
        assert_eq!(pos, 0);
    }
    // A declared length far beyond the buffer.
    let huge = record(u32::MAX, b"RuSt", b"abc", 0);
    assert_eq!(Chunk::parse_one(&huge).unwrap_err(), ChunkError::TruncatedInput);
}

#[test]
fn illegal_type_bytes_are_rejected() {
    let bytes = record(3, b"Ru1t", b"abc", 0);
    assert_eq!(
        Chunk::parse_one(&bytes).unwrap_err(),
        ChunkError::InvalidTag(ChunkTypeError::InvalidByte { index: 2, value: b'1' })
    );
}

#[test]
fn back_to_back_records() {
    let a = Chunk::new(ChunkType::from_string("RuSt").unwrap(), MESSAGE.as_bytes().to_vec());
    let b = Chunk::new(ChunkType::from_string("teXt").unwrap(), b"second".to_vec());
    let mut both = a.as_bytes();
    both.extend_from_slice(&b.as_bytes());
    assert_eq!(Chunk::parse_one(&both).unwrap_err(), ChunkError::TrailingBytes);

    let mut pos: usize = 0;
    let first = Chunk::read_chunk(&both, &mut pos).unwrap();
    assert_eq!(pos, 54);
    assert_eq!(first.data_as_string().unwrap(), MESSAGE);
    let second = Chunk::read_chunk(&both, &mut pos).unwrap();
    assert_eq!(pos, both.len());
    assert_eq!(second.chunk_type().to_string(), "teXt");
    assert_eq!(second.data(), b"second");
    assert_eq!(Chunk::read_chunk(&both, &mut pos).unwrap_err(), ChunkError::TruncatedInput);
    assert_eq!(pos, both.len());
}

#[test]
fn read_chunk_past_end_is_truncated() {
    let bytes = record(0, b"IEND", b"", 0xAE42_6082);
    let mut pos: usize = bytes.len() + 5;
    assert_eq!(Chunk::read_chunk(&bytes, &mut pos).unwrap_err(), ChunkError::TruncatedInput);
    assert_eq!(pos, bytes.len() + 5);
}

#[test]
fn invalid_utf8_payload_is_reported() {
    let built = Chunk::new(ChunkType::from_string("RuSt").unwrap(), vec![0x66, 0xFF, 0x6F]);
    assert_eq!(built.data_as_string().unwrap_err(), ChunkError::InvalidEncoding);
    let text = Chunk::new(ChunkType::from_string("RuSt").unwrap(), "héllo".as_bytes().to_vec());
    assert_eq!(text.data_as_string().unwrap(), "héllo");
}

#[test]
fn rust_scenario_flags_and_checksum() {
    let tag = ChunkType::from_string("RuSt").unwrap();
    assert!(tag.is_critical());
    assert!(!tag.is_public());
    assert!(tag.is_reserved_bit_valid());
    assert!(tag.is_safe_to_copy());
    let built = Chunk::new(tag, MESSAGE.as_bytes().to_vec());
    assert_eq!(built.length() as usize, MESSAGE.len());
    assert_eq!(built.crc(), 2882656334);
    assert_eq!(built.data_as_string().unwrap(), MESSAGE);
}

#[test]
fn try_from_agrees_with_parse_one() {
    let good = record(42, b"RuSt", MESSAGE.as_bytes(), 2882656334);
    let a = Chunk::try_from(good.as_slice()).unwrap();
    let b = Chunk::parse_one(&good).unwrap();
    assert_eq!(a.data(), b.data());
    assert_eq!(a.crc(), b.crc());
    let mut longer = good.clone();
    longer.push(0);
    assert_eq!(Chunk::try_from(longer.as_slice()).unwrap_err(), ChunkError::TrailingBytes);
}
