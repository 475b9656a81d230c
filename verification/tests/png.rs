use pngme::chunk::Chunk;
use pngme::chunk_type::ChunkType;
use pngme::error::PngError;
use pngme::png::Png;

fn chunk_from_strings(chunk_type: &str, data: &str) -> Chunk {
    let chunk_type: ChunkType = ChunkType::from_text(chunk_type).unwrap();
    let data: Vec<u8> = data.bytes().collect();
    Chunk::new(chunk_type, data)
}

fn terminator() -> Chunk {
    chunk_from_strings("IEND", "")
}

fn testing_chunks() -> Vec<Chunk> {
    vec![
        chunk_from_strings("FrSt", "I am the first chunk"),
        chunk_from_strings("miDl", "I am another chunk"),
        chunk_from_strings("LASt", "I am the last chunk"),
        terminator(),
    ]
}

fn testing_png() -> Png {
    Png::from_chunks(testing_chunks())
}

fn chunk_types_of(png: &Png) -> Vec<String> {
    png.chunks()
        .iter()
        .map(|c| c.chunk_type().to_text())
        .collect()
}

#[test]
fn test_remove_first_by_type_keeps_order() {
    let mut png = testing_png();
    let target = ChunkType::from_text("miDl").unwrap();
    let removed = png.remove_first_by_type(&target).unwrap();
    assert_eq!(removed.chunk_type().to_text(), "miDl");
    assert_eq!(removed.data_as_string().unwrap(), "I am another chunk");
    assert_eq!(chunk_types_of(&png), vec!["FrSt", "LASt", "IEND"]);
}

#[test]
fn test_remove_first_by_type_not_found() {
    let mut png = testing_png();
    let target = ChunkType::from_text("noNe").unwrap();
    assert_eq!(
        png.remove_first_by_type(&target).unwrap_err(),
        PngError::NotFound
    );
    assert_eq!(chunk_types_of(&png), vec!["FrSt", "miDl", "LASt", "IEND"]);
}

#[test]
fn test_insert_message_chunk_before_terminator() {
    let mut png = testing_png();
    let message = chunk_from_strings("RuSt", "hidden");
    png.insert_message_chunk(message).unwrap();
    assert_eq!(
        chunk_types_of(&png),
        vec!["FrSt", "miDl", "LASt", "RuSt", "IEND"]
    );
}

#[test]
fn test_insert_message_chunk_terminator_only() {
    let mut png = Png::from_chunks(vec![terminator()]);
    let message = chunk_from_strings("RuSt", "hidden");
    png.insert_message_chunk(message).unwrap();
    assert_eq!(chunk_types_of(&png), vec!["RuSt", "IEND"]);
}

#[test]
fn test_insert_message_chunk_no_terminator() {
    let mut png = Png::from_chunks(vec![
        chunk_from_strings("FrSt", "I am the first chunk"),
        chunk_from_strings("LASt", "I am the last chunk"),
    ]);
    let message = chunk_from_strings("RuSt", "hidden");
    assert_eq!(
        png.insert_message_chunk(message).unwrap_err(),
        PngError::NoTerminator
    );
    assert_eq!(chunk_types_of(&png), vec!["FrSt", "LASt"]);
}

#[test]
fn test_find_first_by_type() {
    let png = testing_png();
    let target = ChunkType::from_text("miDl").unwrap();
    let found = png.find_first_by_type(&target).unwrap();
    assert_eq!(found.data_as_string().unwrap(), "I am another chunk");

    let missing = ChunkType::from_text("noNe").unwrap();
    assert!(png.find_first_by_type(&missing).is_none());
}

#[test]
fn test_png_round_trip() {
    let png = testing_png();
    let wire: Vec<u8> = png.as_bytes();
    assert_eq!(&wire[0..8], &[137, 80, 78, 71, 13, 10, 26, 10]);

    let reparsed = Png::try_from_bytes(wire.as_ref(), None).unwrap();
    assert_eq!(chunk_types_of(&reparsed), chunk_types_of(&png));
    for (a, b) in reparsed.chunks().iter().zip(png.chunks().iter()) {
        assert_eq!(a.data(), b.data());
        assert_eq!(a.crc(), b.crc());
    }
    assert_eq!(reparsed.as_bytes(), wire);
}

#[test]
fn test_parse_bad_signature() {
    let png = testing_png();
    let mut wire: Vec<u8> = png.as_bytes();
    wire[0] = 0;
    assert_eq!(
        Png::try_from_bytes(wire.as_ref(), None).unwrap_err(),
        PngError::BadSignature
    );
    assert_eq!(
        Png::try_from_bytes(&[137, 80, 78], None).unwrap_err(),
        PngError::BadSignature
    );
}

#[test]
fn test_parse_too_short_tail() {
    let mut wire: Vec<u8> = vec![137, 80, 78, 71, 13, 10, 26, 10];
    wire.extend_from_slice(&[0, 0, 0]);
    assert_eq!(
        Png::try_from_bytes(wire.as_ref(), None).unwrap_err(),
        PngError::TooShort
    );
}

#[test]
fn test_parse_truncated_stream() {
    let mut wire: Vec<u8> = vec![137, 80, 78, 71, 13, 10, 26, 10];
    // A chunk declaring 100 payload bytes, but none follow.
    wire.extend_from_slice(&[0, 0, 0, 100]);
    wire.extend_from_slice("RuSt".as_bytes());
    wire.extend_from_slice(&[0, 0, 0, 0]);
    assert_eq!(
        Png::try_from_bytes(wire.as_ref(), None).unwrap_err(),
        PngError::TruncatedStream
    );
}

#[test]
fn test_parse_checksum_mismatch_in_stream() {
    let png = testing_png();
    let mut wire: Vec<u8> = png.as_bytes();
    // Corrupt one payload byte of the first chunk (offset 8 is its length
    // field, 16 the start of its payload).
    wire[17] ^= 0x10;
    assert_eq!(
        Png::try_from_bytes(wire.as_ref(), None).unwrap_err(),
        PngError::ChecksumMismatch
    );
}

#[test]
fn test_parse_empty_stream_is_empty_png() {
    let wire: Vec<u8> = vec![137, 80, 78, 71, 13, 10, 26, 10];
    let png = Png::try_from_bytes(wire.as_ref(), None).unwrap();
    assert_eq!(png.chunks().len(), 0);
    assert_eq!(png.as_bytes(), wire);
}

#[test]
fn test_secret_message_chunk_checksum() {
    let message = "This is where your secret message will be!";
    assert_eq!(message.len(), 42);
    let chunk = chunk_from_strings("RuSt", message);
    assert_eq!(chunk.crc(), 2882656334);

    // Corrupting any single byte of the serialized record makes re-parsing
    // fail.
    let wire: Vec<u8> = chunk.as_bytes();
    for pos in 0..wire.len() {
        let mut corrupt = wire.clone();
        corrupt[pos] = corrupt[pos].wrapping_add(1);
        assert!(Chunk::try_from_bytes(corrupt.as_ref(), None).is_err());
    }
}

#[test]
fn test_encode_then_decode_message() {
    let mut png = testing_png();
    let message = chunk_from_strings("RuSt", "a secret note");
    png.insert_message_chunk(message).unwrap();
    let wire: Vec<u8> = png.as_bytes();

    let reparsed = Png::try_from_bytes(wire.as_ref(), None).unwrap();
    let target = ChunkType::from_text("RuSt").unwrap();
    let found = reparsed.find_first_by_type(&target).unwrap();
    assert_eq!(found.data_as_string().unwrap(), "a secret note");
}
