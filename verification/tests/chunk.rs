use pngme::chunk::Chunk;
use pngme::chunk_type::ChunkType;
use pngme::error::PngError;

fn testing_chunk() -> Chunk {
    let data_length: u32 = 42;
    let chunk_type: &[u8] = "RuSt".as_bytes();
    let message_bytes: &[u8] = "This is where your secret message will be!".as_bytes();
    let crc: u32 = 2882656334;

    let chunk_data: Vec<u8> = data_length
        .to_be_bytes()
        .iter()
        .chain(chunk_type.iter())
        .chain(message_bytes.iter())
        .chain(crc.to_be_bytes().iter())
        .copied()
        .collect();

    Chunk::try_from_bytes(chunk_data.as_ref(), Some(true)).unwrap()
}

#[test]
fn test_new_chunk() {
    let _chunk_type: ChunkType = ChunkType::from_text("RuSt").unwrap();
    let data: Vec<u8> = "This is where your secret message will be!"
        .as_bytes()
        .to_vec();
    let chunk: Chunk = Chunk::try_from_type_data(
        <&[u8] as TryInto<[u8; 4]>>::try_into("RuSt".as_bytes()).unwrap(),
        data,
    )
    .unwrap();

    assert_eq!(chunk.length(), 42);
    assert_eq!(chunk.crc(), 2882656334);
}

#[test]
fn test_chunk_length() {
    let chunk: Chunk = testing_chunk();
    assert_eq!(chunk.length(), 42);
}

#[test]
fn test_chunk_type() {
    let chunk: Chunk = testing_chunk();
    assert_eq!(chunk.chunk_type().to_text(), String::from("RuSt"));
}

#[test]
fn test_chunk_string() {
    let chunk: Chunk = testing_chunk();
    let chunk_string = chunk.data_as_string().unwrap();
    let expected_chunk_string: String = String::from("This is where your secret message will be!");

    assert_eq!(chunk_string, expected_chunk_string);
}

#[test]
fn test_chunk_crc() {
    let chunk: Chunk = testing_chunk();
    assert_eq!(chunk.crc(), 2882656334);
}

#[test]
fn test_valid_chunk_from_bytes() {
    let data_length: u32 = 42;
    let chunk_type: &[u8] = "RuSt".as_bytes();
    let message_bytes: &[u8] = "This is where your secret message will be!".as_bytes();
    let crc: u32 = 2882656334;

    let chunk_data: Vec<u8> = data_length
        .to_be_bytes()
        .iter()
        .chain(chunk_type.iter())
        .chain(message_bytes.iter())
        .chain(crc.to_be_bytes().iter())
        .copied()
        .collect();

    let chunk: Chunk = Chunk::try_from_bytes(chunk_data.as_ref(), Some(true)).unwrap();
    let chunk_string = chunk.data_as_string().unwrap();
    let expected_chunk_string: String = String::from("This is where your secret message will be!");

    assert_eq!(chunk.length(), 42);
    assert_eq!(chunk.chunk_type().to_text(), String::from("RuSt"));
    assert_eq!(chunk_string, expected_chunk_string);
    assert_eq!(chunk.crc(), 2882656334);
}

#[test]
fn test_invalid_chunk_from_bytes() {
    let data_length: u32 = 42;
    let chunk_type: &[u8] = "RuSt".as_bytes();
    let message_bytes: &[u8] = "This is where your secret message will be!".as_bytes();
    let crc: u32 = 2882656333;

    let chunk_data: Vec<u8> = data_length
        .to_be_bytes()
        .iter()
        .chain(chunk_type.iter())
        .chain(message_bytes.iter())
        .chain(crc.to_be_bytes().iter())
        .copied()
        .collect();

    let chunk: Result<Chunk, PngError> = Chunk::try_from_bytes(chunk_data.as_ref(), Some(true));
    assert!(chunk.is_err());
}

#[test]
fn test_chunk_trait_impls() {
    let data_length: u32 = 42;
    let chunk_type: &[u8] = "RuSt".as_bytes();
    let message_bytes: &[u8] = "This is where your secret message will be!".as_bytes();
    let crc: u32 = 2882656334;

    let chunk_data: Vec<u8> = data_length
        .to_be_bytes()
        .iter()
        .chain(chunk_type.iter())
        .chain(message_bytes.iter())
        .chain(crc.to_be_bytes().iter())
        .copied()
        .collect();

    let chunk: Chunk = Chunk::try_from_bytes(chunk_data.as_ref(), Some(true)).unwrap();

    let _chunk_string = format!("{:?}", chunk.clone());
}

#[test]
fn test_chunk_round_trip() {
    let chunk: Chunk = testing_chunk();
    let wire: Vec<u8> = chunk.as_bytes();
    let reparsed: Chunk = Chunk::try_from_bytes(wire.as_ref(), None).unwrap();
    assert_eq!(reparsed.length(), chunk.length());
    assert_eq!(reparsed.chunk_type().bytes(), chunk.chunk_type().bytes());
    assert_eq!(reparsed.data(), chunk.data());
    assert_eq!(reparsed.crc(), chunk.crc());
    assert_eq!(reparsed.as_bytes(), wire);
}

#[test]
fn test_chunk_agrees_with_crc_crate() {
    let chunk: Chunk = testing_chunk();
    let mut checked: Vec<u8> = Vec::new();
    checked.extend_from_slice(&chunk.chunk_type().bytes());
    checked.extend_from_slice(chunk.data());
    let expected: u32 = crc::Crc::<u32>::new(&crc::CRC_32_ISO_HDLC).checksum(&checked);
    assert_eq!(chunk.crc(), expected);
}

#[test]
fn test_chunk_too_short() {
    let bytes: [u8; 5] = [0, 0, 0, 0, 65];
    assert_eq!(
        Chunk::try_from_bytes(&bytes, None).unwrap_err(),
        PngError::TooShort
    );
}

#[test]
fn test_chunk_truncated_declared_length() {
    // Declares a 40-byte payload but supplies none.
    let mut bytes: Vec<u8> = vec![0, 0, 0, 40];
    bytes.extend_from_slice("RuSt".as_bytes());
    bytes.extend_from_slice(&[0, 0, 0, 0]);
    assert_eq!(
        Chunk::try_from_bytes(&bytes, None).unwrap_err(),
        PngError::TruncatedStream
    );
}

#[test]
fn test_chunk_strict_rejects_non_alphabetic_type() {
    let type_bytes: [u8; 4] = [82, 117, 49, 116];
    let payload: &[u8] = "hello".as_bytes();
    let mut checked: Vec<u8> = Vec::new();
    checked.extend_from_slice(&type_bytes);
    checked.extend_from_slice(payload);
    let crc: u32 = crc::Crc::<u32>::new(&crc::CRC_32_ISO_HDLC).checksum(&checked);

    let mut wire: Vec<u8> = (payload.len() as u32).to_be_bytes().to_vec();
    wire.extend_from_slice(&checked);
    wire.extend_from_slice(&crc.to_be_bytes());

    assert_eq!(
        Chunk::try_from_bytes(&wire, None).unwrap_err(),
        PngError::InvalidTypeBytes
    );
}

#[test]
fn test_chunk_lenient_normalizes_non_alphabetic_type() {
    let type_bytes: [u8; 4] = [82, 117, 49, 116];
    let payload: &[u8] = "hello".as_bytes();
    let mut checked: Vec<u8> = Vec::new();
    checked.extend_from_slice(&type_bytes);
    checked.extend_from_slice(payload);
    let crc: u32 = crc::Crc::<u32>::new(&crc::CRC_32_ISO_HDLC).checksum(&checked);

    let mut wire: Vec<u8> = (payload.len() as u32).to_be_bytes().to_vec();
    wire.extend_from_slice(&checked);
    wire.extend_from_slice(&crc.to_be_bytes());

    let chunk: Chunk = Chunk::try_from_bytes(&wire, Some(true)).unwrap();
    // The digit 49 is below 97, so its placeholder is the uppercase letter 90.
    assert_eq!(chunk.chunk_type().bytes(), [82, 117, 90, 116]);
    assert_eq!(chunk.data(), payload);
}

#[test]
fn test_chunk_bit_flip_fails_checksum() {
    let chunk: Chunk = testing_chunk();
    let wire: Vec<u8> = chunk.as_bytes();
    // Flip one bit in every byte of the type and payload region.
    for pos in 4..(wire.len() - 4) {
        for bit in 0..8 {
            let mut corrupt = wire.clone();
            corrupt[pos] ^= 1 << bit;
            assert_eq!(
                Chunk::try_from_bytes(corrupt.as_ref(), None).unwrap_err(),
                PngError::ChecksumMismatch
            );
        }
    }
}

#[test]
fn test_chunk_data_as_string_invalid_utf8() {
    let ct: ChunkType = ChunkType::from_text("RuSt").unwrap();
    let chunk: Chunk = Chunk::new(ct, vec![255, 254, 253]);
    assert_eq!(chunk.data_as_string().unwrap_err(), PngError::InvalidText);
}
