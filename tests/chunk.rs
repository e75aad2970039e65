use pngme::chunk::{Chunk, ChunkError, ParseError, ValidationError};
use pngme::chunk_type::{self, ChunkType};
use std::str::FromStr;

const MESSAGE: &str = "This is where your secret message will be!";

fn record(length: u32, chunk_type: &[u8], data: &[u8], crc: u32) -> Vec<u8> {
    length
        .to_be_bytes()
        .iter()
        .chain(chunk_type.iter())
        .chain(data.iter())
        .chain(crc.to_be_bytes().iter())
        .copied()
        .collect()
}

fn testing_chunk() -> Chunk {
    let chunk_data = record(42, "RuSt".as_bytes(), MESSAGE.as_bytes(), 2882656334);
    Chunk::try_from(chunk_data.as_ref()).unwrap()
}

#[test]
fn test_new_chunk() {
    let chunk_type = ChunkType::from_str("RuSt").unwrap();
    let data = "This is where your secret message will be!".as_bytes().to_vec();
    let chunk = Chunk::new(chunk_type, data);
    assert_eq!(chunk.length(), 42);
    assert_eq!(chunk.crc(), 2882656334);
}

#[test]
fn test_chunk_length() {
    let chunk = testing_chunk();
    assert_eq!(chunk.length(), 42);
}

#[test]
fn test_chunk_type() {
    let chunk = testing_chunk();
    assert_eq!(chunk.chunk_type().to_string(), String::from("RuSt"));
}

#[test]
fn test_chunk_string() {
    let chunk = testing_chunk();
    let chunk_string = chunk.data_as_str().unwrap();
    let expected_chunk_string = String::from("This is where your secret message will be!");
    assert_eq!(chunk_string, expected_chunk_string);
}

#[test]
fn test_chunk_crc() {
    let chunk = testing_chunk();
    assert_eq!(chunk.crc(), 2882656334);
}

#[test]
fn test_valid_chunk_from_bytes() {
    let data_length: u32 = 42;
    let chunk_type = "RuSt".as_bytes();
    let message_bytes = "This is where your secret message will be!".as_bytes();
    let crc: u32 = 2882656334;

    let chunk_data = record(data_length, chunk_type, message_bytes, crc);

    let chunk = Chunk::try_from(chunk_data.as_ref()).unwrap();

    let chunk_string = chunk.data_as_str().unwrap();
    let expected_chunk_string = String::from("This is where your secret message will be!");

    assert_eq!(chunk.length(), 42);
    assert_eq!(chunk.chunk_type().to_string(), String::from("RuSt"));
    assert_eq!(chunk_string, expected_chunk_string);
    assert_eq!(chunk.crc(), 2882656334);
}

#[test]
fn test_invalid_chunk_from_bytes() {
    let data_length: u32 = 42;
    let chunk_type = "RuSt".as_bytes();
    let message_bytes = "This is where your secret message will be!".as_bytes();
    let crc: u32 = 2882656333;

    let chunk_data = record(data_length, chunk_type, message_bytes, crc);

    let chunk = Chunk::try_from(chunk_data.as_ref());

    assert!(chunk.is_err());
}

#[test]
pub fn test_chunk_trait_impls() {
    let data_length: u32 = 42;
    let chunk_type = "RuSt".as_bytes();
    let message_bytes = "This is where your secret message will be!".as_bytes();
    let crc: u32 = 2882656334;

    let chunk_data = record(data_length, chunk_type, message_bytes, crc);

    let chunk: Chunk = TryFrom::try_from(chunk_data.as_ref()).unwrap();

    let _chunk_string = chunk.to_string();
}

fn rust_chunk() -> Chunk {
    Chunk::new(ChunkType::from_str("RuSt").unwrap(), MESSAGE.as_bytes().to_vec())
}

#[test]
fn encoding_has_length_type_data_and_checksum() {
    let bytes = rust_chunk().as_bytes();
    assert_eq!(bytes.len(), 12 + 42);
    assert_eq!(bytes.len(), Chunk::OVERHEAD_BYTES + 42);
    assert_eq!(bytes, record(42, b"RuSt", MESSAGE.as_bytes(), 2882656334));
}

#[test]
fn decoding_an_encoding_gives_the_chunk_back() {
    let chunk = rust_chunk();
    let decoded = Chunk::decode(&chunk.as_bytes()).unwrap();
    assert_eq!(decoded.chunk_type(), chunk.chunk_type());
    assert_eq!(decoded.data(), chunk.data());
    assert_eq!(decoded.length(), chunk.length());
    assert_eq!(decoded.crc(), chunk.crc());

    let empty = Chunk::new(ChunkType::from_str("IEND").unwrap(), Vec::new());
    let decoded = Chunk::decode(&empty.as_bytes()).unwrap();
    assert_eq!(decoded.data(), &[] as &[u8]);
    assert_eq!(decoded.chunk_type(), empty.chunk_type());
}

#[test]
fn empty_payload_checksum() {
    let chunk = Chunk::new(ChunkType::from_str("IEND").unwrap(), Vec::new());
    assert_eq!(chunk.crc(), 0xAE42_6082);
    assert_eq!(chunk.as_bytes(), vec![0, 0, 0, 0, 73, 69, 78, 68, 0xAE, 0x42, 0x60, 0x82]);
}

#[test]
fn decode_prefix_reports_the_record_length_and_ignores_what_follows() {
    let mut bytes = rust_chunk().as_bytes();
    bytes.extend_from_slice(&[1, 2, 3]);
    let (chunk, used) = Chunk::decode_prefix(&bytes).unwrap();
    assert_eq!(used, 54);
    assert_eq!(chunk.data(), MESSAGE.as_bytes());
    assert!(Chunk::decode(&bytes).is_ok());
}

#[test]
fn short_input_is_truncated() {
    let truncated = Err(ChunkError::Parse(ParseError::Truncated));
    assert_eq!(Chunk::decode(&[]).map(|c| c.length()), truncated);
    assert_eq!(Chunk::decode(&[0, 0, 0]).map(|c| c.length()), truncated);
    assert_eq!(Chunk::decode(&[0, 0, 0, 0, 73, 69, 78, 68]).map(|c| c.length()), truncated);
    let bytes = rust_chunk().as_bytes();
    assert_eq!(Chunk::decode(&bytes[..53]).map(|c| c.length()), truncated);
    // A length field far beyond the input.
    let huge = record(u32::MAX, b"RuSt", b"", 0);
    assert_eq!(Chunk::decode(&huge).map(|c| c.length()), truncated);
}

#[test]
fn invalid_type_is_reported_before_the_checksum() {
    let bytes = record(2, b"Rust", b"hi", 0);
    assert_eq!(
        Chunk::decode(&bytes).map(|c| c.length()),
        Err(ChunkError::Validation(ValidationError::ChunkType(
            chunk_type::ValidationError::ReservedBit
        )))
    );
    let bytes = record(2, b"R1St", b"hi", 0);
    assert_eq!(
        Chunk::decode(&bytes).map(|c| c.length()),
        Err(ChunkError::Validation(ValidationError::ChunkType(
            chunk_type::ValidationError::NonAscii
        )))
    );
}

#[test]
fn wrong_checksum_names_both_values() {
    let bytes = record(42, b"RuSt", MESSAGE.as_bytes(), 2882656333);
    assert_eq!(
        Chunk::decode(&bytes).map(|c| c.length()),
        Err(ChunkError::Validation(ValidationError::CRC32Mismatch {
            expected: 2882656334,
            actual: 2882656333
        }))
    );
}

#[test]
fn every_single_bit_flip_is_detected() {
    let bytes = rust_chunk().as_bytes();
    for i in 0..bytes.len() {
        for bit in 0..8 {
            let mut flipped = bytes.clone();
            flipped[i] ^= 1 << bit;
            let result = Chunk::decode(&flipped);
            assert!(result.is_err(), "flip of bit {} of byte {} went unnoticed", bit, i);
            if i >= 50 {
                assert!(matches!(
                    result,
                    Err(ChunkError::Validation(ValidationError::CRC32Mismatch { .. }))
                ));
            }
        }
    }
}

#[test]
fn longer_length_field_is_truncated() {
    let mut bytes = rust_chunk().as_bytes();
    bytes[3] ^= 0x80;
    assert!(matches!(Chunk::decode(&bytes), Err(ChunkError::Parse(ParseError::Truncated))));
}

#[test]
fn non_utf8_payload_is_not_text() {
    let chunk = Chunk::new(ChunkType::from_str("RuSt").unwrap(), vec![0xFF, 0]);
    assert!(chunk.data_as_str().is_err());
    assert_eq!(chunk.to_string(), "Chunk Type: RuSt\nData: [255, 0]");
}

#[test]
fn chunk_text_shows_type_and_payload() {
    let chunk = Chunk::new(ChunkType::from_str("RuSt").unwrap(), "héllo".as_bytes().to_vec());
    assert_eq!(chunk.data_as_str(), Ok("héllo"));
    assert_eq!(chunk.to_string(), "Chunk Type: RuSt\nData: héllo");
}

#[test]
fn type_byte_made_invalid_is_reported_as_type_error() {
    let mut bytes = rust_chunk().as_bytes();
    bytes[4] ^= 0x40; // 'R' becomes a control character
    assert!(matches!(
        Chunk::decode(&bytes),
        Err(ChunkError::Validation(ValidationError::ChunkType(
            chunk_type::ValidationError::NonAscii
        )))
    ));
    let mut bytes = rust_chunk().as_bytes();
    bytes[6] ^= 0x20; // 'S' becomes 's'
    assert!(matches!(
        Chunk::decode(&bytes),
        Err(ChunkError::Validation(ValidationError::ChunkType(
            chunk_type::ValidationError::ReservedBit
        )))
    ));
}
