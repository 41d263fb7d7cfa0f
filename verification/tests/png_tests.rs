use pngme::chunk::Chunk;
use pngme::chunk_type::ChunkType;
use pngme::error::PngError;
use pngme::png::Png;

fn chunk_from(type_text: &str, message: &str) -> Chunk {
    let chunk_type = ChunkType::from_text(type_text).unwrap();
    Chunk::new(chunk_type, message.as_bytes().to_vec())
}

fn testing_png() -> Png {
    let chunks = vec![
        chunk_from("FrSt", "I am the first chunk"),
        chunk_from("miDl", "I am another chunk"),
        chunk_from("LASt", "I am the last chunk"),
    ];
    Png::from_chunks(chunks)
}

fn rust_record_bytes(crc: u32) -> Vec<u8> {
    let message = "This is where your secret message will be!".as_bytes();
    let mut bytes: Vec<u8> = Vec::new();
    bytes.extend_from_slice(&Png::header());
    bytes.extend_from_slice(&42u32.to_be_bytes());
    bytes.extend_from_slice("RuSt".as_bytes());
    bytes.extend_from_slice(message);
    bytes.extend_from_slice(&crc.to_be_bytes());
    bytes
}

#[test]
fn test_png_end_to_end_parse() {
    // Signature, then one record of type "RuSt" with length 42, the text
    // payload, checksum 2882656334: the whole buffer parses.
    let bytes = rust_record_bytes(2882656334);
    let png = Png::parse(bytes.as_ref()).unwrap();
    assert_eq!(png.chunks().len(), 1);
    let found = png.chunk_by_type("RuSt").unwrap();
    assert_eq!(
        found.data_as_string().unwrap(),
        String::from("This is where your secret message will be!")
    );
}

#[test]
fn test_png_end_to_end_bad_checksum() {
    // The same buffer with the checksum off by one fails as a whole.
    let bytes = rust_record_bytes(2882656333);
    assert_eq!(Png::parse(bytes.as_ref()).unwrap_err(), PngError::ChecksumMismatch);
}

#[test]
fn test_png_end_to_end_truncated() {
    // A record whose declared length exceeds what remains is truncated.
    let mut bytes: Vec<u8> = Vec::new();
    bytes.extend_from_slice(&Png::header());
    bytes.extend_from_slice(&100u32.to_be_bytes());
    bytes.extend_from_slice("RuSt".as_bytes());
    bytes.extend_from_slice("far too short".as_bytes());
    assert_eq!(Png::parse(bytes.as_ref()).unwrap_err(), PngError::Truncated);
}

#[test]
fn test_png_bad_signature() {
    let mut bytes = rust_record_bytes(2882656334);
    bytes[0] = 0;
    assert_eq!(Png::parse(bytes.as_ref()).unwrap_err(), PngError::BadSignature);
    // Too short for a signature at all.
    assert_eq!(Png::parse(&bytes[0..5]).unwrap_err(), PngError::BadSignature);
}

#[test]
fn test_png_parse_then_serialize_is_identity() {
    let bytes = rust_record_bytes(2882656334);
    let png = Png::parse(bytes.as_ref()).unwrap();
    assert_eq!(png.as_bytes(), bytes);
}

#[test]
fn test_png_serialize_then_parse_round_trip() {
    let png = testing_png();
    let bytes = png.as_bytes();
    let parsed = Png::parse(bytes.as_ref()).unwrap();
    assert_eq!(parsed.chunks().len(), 3);
    assert_eq!(parsed.as_bytes(), bytes);
}

#[test]
fn test_png_empty_container() {
    // A bare signature parses to a container with no chunks and serializes
    // back to the bare signature.
    let png = Png::parse(Png::header().as_ref()).unwrap();
    assert_eq!(png.chunks().len(), 0);
    assert_eq!(png.as_bytes(), Png::header().to_vec());
    assert_eq!(Png::new().as_bytes(), Png::header().to_vec());
}

#[test]
fn test_png_append_then_find() {
    // After an append, looking the type up finds that chunk.
    let mut png = testing_png();
    png.append_chunk(chunk_from("TeSt", "Message"));
    let found = png.chunk_by_type("TeSt").unwrap();
    assert_eq!(found.data_as_string().unwrap(), String::from("Message"));
}

#[test]
fn test_png_append_duplicate_finds_earliest() {
    // With duplicate types, the earliest chunk in sequence order wins.
    let mut png = Png::new();
    png.append_chunk(chunk_from("DuPl", "first of the pair"));
    png.append_chunk(chunk_from("DuPl", "second of the pair"));
    let found = png.chunk_by_type("DuPl").unwrap();
    assert_eq!(found.data_as_string().unwrap(), String::from("first of the pair"));
}

#[test]
fn test_png_chunk_by_type_absent() {
    let png = testing_png();
    assert!(png.chunk_by_type("NoNe").is_none());
}

#[test]
fn test_png_remove_chunk() {
    let mut png = testing_png();
    let removed = png.remove_chunk("miDl").unwrap();
    assert_eq!(removed.data_as_string().unwrap(), String::from("I am another chunk"));
    assert_eq!(png.chunks().len(), 2);
    assert!(png.chunk_by_type("miDl").is_none());
}

#[test]
fn test_png_remove_chunk_not_found_leaves_all() {
    // A failed removal reports NotFound and changes nothing: same length,
    // same order, same bytes.
    let mut png = testing_png();
    let before = png.as_bytes();
    assert_eq!(png.remove_chunk("NoNe").unwrap_err(), PngError::NotFound);
    assert_eq!(png.chunks().len(), 3);
    assert_eq!(png.as_bytes(), before);
}

#[test]
fn test_png_remove_first_of_duplicates() {
    let mut png = Png::new();
    png.append_chunk(chunk_from("DuPl", "first of the pair"));
    png.append_chunk(chunk_from("DuPl", "second of the pair"));
    let removed = png.remove_chunk("DuPl").unwrap();
    assert_eq!(removed.data_as_string().unwrap(), String::from("first of the pair"));
    let left = png.chunk_by_type("DuPl").unwrap();
    assert_eq!(left.data_as_string().unwrap(), String::from("second of the pair"));
}

#[test]
fn test_png_trailing_garbage_fails() {
    // A buffer with bytes after the last record does not parse: the leftover
    // bytes are read as a record and fail.
    let mut bytes = rust_record_bytes(2882656334);
    bytes.push(0);
    assert_eq!(Png::parse(bytes.as_ref()).unwrap_err(), PngError::Truncated);
}

#[test]
fn test_png_header_is_fixed() {
    assert_eq!(Png::header(), [137, 80, 78, 71, 13, 10, 26, 10]);
}
