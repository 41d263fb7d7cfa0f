use pngme::chunk::Chunk;
use pngme::chunk_type::ChunkType;
use pngme::error::PngError;

fn testing_chunk() -> Chunk {
    let data_length: u32 = 42;
    let chunk_type = "RuSt".as_bytes();
    let message_bytes = "This is where your secret message will be!".as_bytes();
    let crc: u32 = 2882656334;

    let chunk_data: Vec<u8> = data_length
        .to_be_bytes()
        .iter()
        .chain(chunk_type.iter())
        .chain(message_bytes.iter())
        .chain(crc.to_be_bytes().iter())
        .copied()
        .collect();

    Chunk::parse(chunk_data.as_ref()).unwrap().0
}

#[test]
fn test_new_chunk() {
    let chunk_type = ChunkType::from_text("RuSt").unwrap();
    let data = "This is where your secret message will be!".as_bytes().to_vec();
    let chunk = Chunk::new(chunk_type, data);
    assert_eq!(chunk.length(), 42);
    assert_eq!(chunk.crc(), 2882656334);
}

#[test]
fn test_chunk_length() {
    let chunk = testing_chunk();
    assert_eq!(chunk.length(), 42);
}

#[test]
fn test_chunk_type() {
    let chunk = testing_chunk();
    assert_eq!(chunk.chunk_type().to_text().unwrap(), String::from("RuSt"));
}

#[test]
fn test_chunk_string() {
    let chunk = testing_chunk();
    let chunk_string = chunk.data_as_string().unwrap();
    let expected_chunk_string = String::from("This is where your secret message will be!");
    assert_eq!(chunk_string, expected_chunk_string);
}

#[test]
fn test_chunk_crc() {
    let chunk = testing_chunk();
    assert_eq!(chunk.crc(), 2882656334);
}

#[test]
fn test_valid_chunk_from_bytes() {
    let data_length: u32 = 42;
    let chunk_type = "RuSt".as_bytes();
    let message_bytes = "This is where your secret message will be!".as_bytes();
    let crc: u32 = 2882656334;

    let chunk_data: Vec<u8> = data_length
        .to_be_bytes()
        .iter()
        .chain(chunk_type.iter())
        .chain(message_bytes.iter())
        .chain(crc.to_be_bytes().iter())
        .copied()
        .collect();

    let chunk = Chunk::parse(chunk_data.as_ref()).unwrap().0;

    let chunk_string = chunk.data_as_string().unwrap();
    let expected_chunk_string = String::from("This is where your secret message will be!");

    assert_eq!(chunk.length(), 42);
    assert_eq!(chunk.chunk_type().to_text().unwrap(), String::from("RuSt"));
    assert_eq!(chunk_string, expected_chunk_string);
    assert_eq!(chunk.crc(), 2882656334);
}

#[test]
fn test_invalid_chunk_from_bytes() {
    let data_length: u32 = 42;
    let chunk_type = "RuSt".as_bytes();
    let message_bytes = "This is where your secret message will be!".as_bytes();
    let crc: u32 = 2882656333;

    let chunk_data: Vec<u8> = data_length
        .to_be_bytes()
        .iter()
        .chain(chunk_type.iter())
        .chain(message_bytes.iter())
        .chain(crc.to_be_bytes().iter())
        .copied()
        .collect();

    let chunk = Chunk::parse(chunk_data.as_ref());

    assert!(chunk.is_err());
}

#[test]
pub fn test_chunk_trait_impls() {
    let data_length: u32 = 42;
    let chunk_type = "RuSt".as_bytes();
    let message_bytes = "This is where your secret message will be!".as_bytes();
    let crc: u32 = 2882656334;

    let chunk_data: Vec<u8> = data_length
        .to_be_bytes()
        .iter()
        .chain(chunk_type.iter())
        .chain(message_bytes.iter())
        .chain(crc.to_be_bytes().iter())
        .copied()
        .collect();

    let chunk: Chunk = Chunk::parse(chunk_data.as_ref()).unwrap().0;

    let _chunk_string = format!("{:?}", chunk);
}

#[test]
fn test_chunk_round_trip() {
    // A fresh chunk's serialization parses back to an equal chunk, and the
    // parse consumes exactly the serialized bytes.
    let chunk_type = ChunkType::from_text("TeSt").unwrap();
    let data = vec![0u8, 1, 2, 3, 255, 254];
    let chunk = Chunk::new(chunk_type, data.clone());
    let wire = chunk.as_bytes();
    let (parsed, used) = Chunk::parse(wire.as_ref()).unwrap();
    assert_eq!(used, wire.len());
    assert_eq!(parsed.length(), chunk.length());
    assert_eq!(parsed.chunk_type().bytes(), chunk.chunk_type().bytes());
    assert_eq!(parsed.data(), chunk.data());
    assert_eq!(parsed.crc(), chunk.crc());
}

#[test]
fn test_chunk_serialize_layout() {
    // Exact wire layout: big-endian length, type bytes, payload, big-endian crc.
    let chunk_type = ChunkType::from_text("RuSt").unwrap();
    let data = "This is where your secret message will be!".as_bytes().to_vec();
    let chunk = Chunk::new(chunk_type, data.clone());
    let wire = chunk.as_bytes();
    assert_eq!(&wire[0..4], 42u32.to_be_bytes().as_ref());
    assert_eq!(&wire[4..8], "RuSt".as_bytes());
    assert_eq!(&wire[8..50], data.as_slice());
    assert_eq!(&wire[50..54], 2882656334u32.to_be_bytes().as_ref());
}

#[test]
fn test_chunk_bit_flip_is_detected() {
    // Flipping any single bit of the payload or the checksum field makes the
    // parse fail with a checksum mismatch.
    let chunk_type = ChunkType::from_text("RuSt").unwrap();
    let data = "secret".as_bytes().to_vec();
    let chunk = Chunk::new(chunk_type, data);
    let wire = chunk.as_bytes();
    let payload_start = 8;
    let end = wire.len();
    for byte_index in payload_start..end {
        for bit in 0..8 {
            let mut corrupted = wire.clone();
            corrupted[byte_index] ^= 1u8 << bit;
            let result = Chunk::parse(corrupted.as_ref());
            assert_eq!(result.unwrap_err(), PngError::ChecksumMismatch);
        }
    }
}

#[test]
fn test_chunk_truncated() {
    let chunk_type = ChunkType::from_text("RuSt").unwrap();
    let chunk = Chunk::new(chunk_type, vec![9u8; 10]);
    let wire = chunk.as_bytes();
    // Every strict prefix is truncated.
    assert_eq!(Chunk::parse(&wire[0..2]).unwrap_err(), PngError::Truncated);
    assert_eq!(Chunk::parse(&wire[0..11]).unwrap_err(), PngError::Truncated);
    assert_eq!(Chunk::parse(&wire[0..wire.len() - 1]).unwrap_err(), PngError::Truncated);
}

#[test]
fn test_chunk_parse_leaves_trailing_bytes() {
    let chunk_type = ChunkType::from_text("RuSt").unwrap();
    let chunk = Chunk::new(chunk_type, vec![7u8, 8u8]);
    let mut wire = chunk.as_bytes();
    let record_len = wire.len();
    wire.extend_from_slice(&[1, 2, 3]);
    let (parsed, used) = Chunk::parse(wire.as_ref()).unwrap();
    assert_eq!(used, record_len);
    assert_eq!(parsed.data(), &[7u8, 8u8]);
}

#[test]
fn test_chunk_data_as_string_invalid_utf8() {
    let chunk_type = ChunkType::from_text("RuSt").unwrap();
    let chunk = Chunk::new(chunk_type, vec![0xff, 0xfe]);
    assert_eq!(chunk.data_as_string().unwrap_err(), PngError::InvalidUtf8);
}

#[test]
fn test_get_chunk_checksum_known_value() {
    // The digest over type bytes followed by payload bytes, against the
    // format's published check value for "123456789".
    let checksum = Chunk::get_chunk_checksum(&[49, 50, 51, 52], &vec![53, 54, 55, 56, 57]);
    assert_eq!(checksum, 0xcbf43926);
}
