use pngme::chunk::Chunk;
use pngme::chunk_type::ChunkType;
use pngme::error::PngError;

fn chunk(ty: &str, payload: &[u8]) -> Chunk {
    Chunk::new(ChunkType::from_str(ty).unwrap(), payload.to_vec())
}

#[test]
fn new_computes_known_checksum() {
    // The CRC-32 (ISO-HDLC) of the four bytes "IEND" is a well-known value.
    let c = chunk("IEND", b"");
    assert_eq!(c.crc(), 0xAE42_6082);
    assert_eq!(c.length(), 0);
}

#[test]
fn new_exposes_type_and_payload() {
    let c = chunk("FrSt", b"I am the first chunk");
    assert_eq!(c.chunk_type().bytes(), *b"FrSt");
    assert_eq!(c.data(), b"I am the first chunk");
    assert_eq!(c.length(), 20);
}

#[test]
fn encode_layout() {
    let c = chunk("TeSt", b"Message");
    let e = c.as_bytes();
    assert_eq!(e.len(), 12 + 7);
    assert_eq!(&e[0..4], &[0, 0, 0, 7]);
    assert_eq!(&e[4..8], b"TeSt");
    assert_eq!(&e[8..15], b"Message");
    assert_eq!(&e[15..19], &c.crc().to_be_bytes());
}

#[test]
fn round_trip() {
    let c = chunk("FrSt", b"I am the first chunk");
    let e = c.as_bytes();
    let (d, used) = Chunk::try_from(e.as_slice()).unwrap();
    assert_eq!(used, 12 + 20);
    assert_eq!(d.chunk_type().bytes(), c.chunk_type().bytes());
    assert_eq!(d.data(), c.data());
    assert_eq!(d.crc(), c.crc());
}

#[test]
fn round_trip_empty_payload() {
    let c = chunk("emTy", b"");
    let e = c.as_bytes();
    let (d, used) = Chunk::try_from(e.as_slice()).unwrap();
    assert_eq!(used, 12);
    assert_eq!(d.data(), b"");
    assert_eq!(d.crc(), c.crc());
}

#[test]
fn decode_ignores_trailing_bytes() {
    let c = chunk("TeSt", b"Message");
    let mut e = c.as_bytes();
    e.extend_from_slice(b"garbage after the chunk");
    let (d, used) = Chunk::try_from(e.as_slice()).unwrap();
    assert_eq!(used, 12 + 7);
    assert_eq!(d.data(), b"Message");
}

#[test]
fn decode_rejects_short_buffer() {
    let empty: &[u8] = &[];
    assert_eq!(Chunk::try_from(empty).map(|p| p.1), Err(PngError::TruncatedInput));
    assert_eq!(Chunk::try_from(&[0u8; 11][..]).map(|p| p.1), Err(PngError::TruncatedInput));
}

#[test]
fn decode_rejects_declared_length_past_end() {
    let c = chunk("TeSt", b"Message");
    let e = c.as_bytes();
    // Drop the final byte: the buffer is now shorter than 12 + length.
    let r = Chunk::try_from(&e[..e.len() - 1]);
    assert_eq!(r.map(|p| p.1), Err(PngError::TruncatedInput));
}

#[test]
fn decode_rejects_non_letter_type() {
    let mut e = chunk("TeSt", b"Message").as_bytes();
    e[4] = b'1';
    let r = Chunk::try_from(e.as_slice());
    assert_eq!(r.map(|p| p.1), Err(PngError::InvalidType));
}

#[test]
fn flipped_payload_bit_fails_checksum() {
    let mut e = chunk("TeSt", b"Message").as_bytes();
    e[8] ^= 0x01;
    let r = Chunk::try_from(e.as_slice());
    assert_eq!(r.map(|p| p.1), Err(PngError::ChecksumMismatch));
}

#[test]
fn flipped_type_bit_fails_checksum() {
    let mut e = chunk("TeSt", b"Message").as_bytes();
    // 'T' ^ 0x02 == 'V': still a letter, so the checksum check must catch it.
    e[4] ^= 0x02;
    let r = Chunk::try_from(e.as_slice());
    assert_eq!(r.map(|p| p.1), Err(PngError::ChecksumMismatch));
}

#[test]
fn altered_stored_checksum_fails() {
    let mut e = chunk("TeSt", b"Message").as_bytes();
    let last = e.len() - 1;
    e[last] ^= 0xFF;
    let r = Chunk::try_from(e.as_slice());
    assert_eq!(r.map(|p| p.1), Err(PngError::ChecksumMismatch));
}

#[test]
fn data_as_string_valid_utf8() {
    let c = chunk("TeSt", b"Message");
    assert_eq!(c.data_as_string().unwrap(), "Message");
}

#[test]
fn data_as_string_non_ascii_utf8() {
    let c = chunk("TeSt", "héllo".as_bytes());
    assert_eq!(c.data_as_string().unwrap(), "héllo");
}

#[test]
fn data_as_string_invalid_utf8() {
    let c = chunk("TeSt", &[0xFF, 0xFE, 0x00]);
    assert_eq!(c.data_as_string(), Err(PngError::Encoding));
}
