use pngme::chunk::Chunk;
use pngme::chunk_type::ChunkType;
use pngme::error::PngError;
use std::convert::TryFrom;
use std::str::FromStr;

fn frame(length: u32, tag: &[u8], data: &[u8], crc: u32) -> Vec<u8> {
    length
        .to_be_bytes()
        .iter()
        .chain(tag.iter())
        .chain(data.iter())
        .chain(crc.to_be_bytes().iter())
        .copied()
        .collect()
}

fn testing_chunk() -> Chunk {
    let data_length: u32 = 42;
    let chunk_type = "RuSt".as_bytes();
    let message_bytes = "This is where your secret message will be!".as_bytes();
    let crc: u32 = 2882656334;

    let chunk_data = frame(data_length, chunk_type, message_bytes, crc);

    Chunk::try_from(chunk_data.as_ref()).unwrap()
}

#[test]
fn test_new_chunk() {
    let chunk_type = ChunkType::from_str("RuSt").unwrap();
    let data = "This is where your secret message will be!"
        .as_bytes()
        .to_vec();
    let chunk = Chunk::new(chunk_type, data).unwrap();
    assert_eq!(chunk.length(), 42);
    assert_eq!(chunk.crc(), 2882656334);
}

#[test]
fn test_chunk_length() {
    let chunk = testing_chunk();
    assert_eq!(chunk.length(), 42);
}

#[test]
fn test_chunk_type() {
    let chunk = testing_chunk();
    assert_eq!(chunk.chunk_type().to_string(), String::from("RuSt"));
}

#[test]
fn test_chunk_string() {
    let chunk = testing_chunk();
    let chunk_string = chunk.data_as_string().unwrap();
    let expected_chunk_string = String::from("This is where your secret message will be!");
    assert_eq!(chunk_string, expected_chunk_string);
}

#[test]
fn test_chunk_crc() {
    let chunk = testing_chunk();
    assert_eq!(chunk.crc(), 2882656334);
}

#[test]
fn test_valid_chunk_from_bytes() {
    let data_length: u32 = 42;
    let chunk_type = "RuSt".as_bytes();
    let message_bytes = "This is where your secret message will be!".as_bytes();
    let crc: u32 = 2882656334;

    let chunk_data = frame(data_length, chunk_type, message_bytes, crc);

    let chunk = Chunk::try_from(chunk_data.as_ref()).unwrap();

    let chunk_string = chunk.data_as_string().unwrap();
    let expected_chunk_string = String::from("This is where your secret message will be!");

    assert_eq!(chunk.length(), 42);
    assert_eq!(chunk.chunk_type().to_string(), String::from("RuSt"));
    assert_eq!(chunk_string, expected_chunk_string);
    assert_eq!(chunk.crc(), 2882656334);
}

#[test]
fn test_invalid_chunk_from_bytes() {
    let data_length: u32 = 42;
    let chunk_type = "RuSt".as_bytes();
    let message_bytes = "This is where your secret message will be!".as_bytes();
    let crc: u32 = 2882656333;

    let chunk_data = frame(data_length, chunk_type, message_bytes, crc);

    let chunk = Chunk::try_from(chunk_data.as_ref());

    assert!(chunk.is_err());
}

#[test]
pub fn test_chunk_trait_impls() {
    let data_length: u32 = 42;
    let chunk_type = "RuSt".as_bytes();
    let message_bytes = "This is where your secret message will be!".as_bytes();
    let crc: u32 = 2882656334;

    let chunk_data = frame(data_length, chunk_type, message_bytes, crc);

    let chunk: Chunk = TryFrom::try_from(chunk_data.as_ref()).unwrap();

    let _chunk_string = format!("{:?}", chunk);
}

#[test]
fn crc_mismatch_is_reported() {
    let message = "This is where your secret message will be!".as_bytes();
    let bytes = frame(42, "RuSt".as_bytes(), message, 2882656333);
    assert_eq!(Chunk::try_from(bytes.as_ref()).unwrap_err(), PngError::CrcMismatch);
}

#[test]
fn serialized_chunk_is_the_frame() {
    let message = "This is where your secret message will be!".as_bytes();
    let chunk = Chunk::new(ChunkType::from_str("RuSt").unwrap(), message.to_vec()).unwrap();
    let bytes = chunk.as_bytes();
    assert_eq!(bytes.len(), 42 + 12);
    assert_eq!(bytes, frame(42, "RuSt".as_bytes(), message, 2882656334));
}

#[test]
fn crc_is_deterministic_and_survives_parsing() {
    let t = ChunkType::from_str("RuSt").unwrap();
    let a = Chunk::new(t, b"payload".to_vec()).unwrap();
    let b = Chunk::new(t, b"payload".to_vec()).unwrap();
    assert_eq!(a.crc(), b.crc());
    let bytes = a.as_bytes();
    let parsed = Chunk::try_from(bytes.as_ref()).unwrap();
    assert_eq!(parsed.crc(), a.crc());
    assert_eq!(parsed.data(), b"payload");
}

#[test]
fn iend_checksum_matches_png() {
    let c = Chunk::new(ChunkType::from_str("IEND").unwrap(), Vec::new()).unwrap();
    assert_eq!(c.crc(), 0xAE42_6082);
}

#[test]
fn every_single_bit_flip_in_payload_is_detected() {
    let message = "This is where your secret message will be!".as_bytes();
    let chunk = Chunk::new(ChunkType::from_str("RuSt").unwrap(), message.to_vec()).unwrap();
    let bytes = chunk.as_bytes();
    for i in 8..8 + message.len() {
        for k in 0..8 {
            let mut t = bytes.clone();
            t[i] ^= 1u8 << k;
            assert_eq!(Chunk::try_from(t.as_ref()).unwrap_err(), PngError::CrcMismatch);
        }
    }
}

#[test]
fn bit_flip_in_type_is_rejected() {
    let chunk = Chunk::new(ChunkType::from_str("RuSt").unwrap(), b"abc".to_vec()).unwrap();
    let mut t = chunk.as_bytes();
    // upper/lower case swap of the first letter keeps a valid type
    t[4] ^= 0x20;
    assert_eq!(Chunk::try_from(t.as_ref()).unwrap_err(), PngError::CrcMismatch);
    let mut u = chunk.as_bytes();
    // the reserved bit is the case of the third letter
    u[6] ^= 0x20;
    assert_eq!(Chunk::try_from(u.as_ref()).unwrap_err(), PngError::InvalidChunkType);
    let mut v = chunk.as_bytes();
    v[5] ^= 0x40;
    assert_eq!(Chunk::try_from(v.as_ref()).unwrap_err(), PngError::InvalidTypeBytes);
}

#[test]
fn short_buffers_are_too_short() {
    for n in 0..12 {
        let b = vec![0u8; n];
        assert_eq!(Chunk::try_from(b.as_ref()).unwrap_err(), PngError::BufferTooShort);
    }
    let mut long = frame(42, "RuSt".as_bytes(), b"short", 0);
    long.truncate(20);
    assert_eq!(Chunk::try_from(long.as_ref()).unwrap_err(), PngError::BufferTooShort);
}

#[test]
fn minimal_frame_parses_to_empty_payload() {
    let b = frame(0, "IEND".as_bytes(), &[], 0xAE42_6082);
    assert_eq!(b.len(), 12);
    let c = Chunk::try_from(b.as_ref()).unwrap();
    assert_eq!(c.length(), 0);
    assert!(c.data().is_empty());
}

#[test]
fn trailing_bytes_are_left_alone() {
    let mut b = frame(0, "IEND".as_bytes(), &[], 0xAE42_6082);
    b.extend_from_slice(&[1, 2, 3]);
    let c = Chunk::try_from(b.as_ref()).unwrap();
    assert_eq!(c.as_bytes().len(), 12);
    let d = Chunk::parse_at(b.as_ref(), 12);
    assert_eq!(d.unwrap_err(), PngError::BufferTooShort);
}

#[test]
fn invalid_utf8_payload_is_an_encoding_error() {
    let c = Chunk::new(ChunkType::from_str("RuSt").unwrap(), vec![0xff, 0xfe]).unwrap();
    assert_eq!(c.data_as_string().unwrap_err(), PngError::InvalidEncoding);
    let d = Chunk::new(ChunkType::from_str("RuSt").unwrap(), "héllo".as_bytes().to_vec()).unwrap();
    assert_eq!(d.data_as_string().unwrap(), "héllo");
}
