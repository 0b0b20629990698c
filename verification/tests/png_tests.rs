use pngme::chunk::Chunk;
use pngme::chunk_type::ChunkType;
use pngme::error::PngError;
use pngme::png::Png;

const MAGIC: [u8; 8] = [137, 80, 78, 71, 13, 10, 26, 10];

fn chunk(ty: &str, payload: &[u8]) -> Chunk {
    Chunk::new(ChunkType::from_str(ty).unwrap(), payload.to_vec())
}

#[test]
fn header_is_fixed_magic() {
    let p = Png::from_chunks(Vec::new());
    assert_eq!(p.header(), MAGIC);
}

#[test]
fn empty_container_encodes_to_magic_alone() {
    let p = Png::from_chunks(Vec::new());
    assert_eq!(p.as_bytes(), MAGIC.to_vec());
}

#[test]
fn as_bytes_is_header_then_chunks_in_order() {
    let a = chunk("FrSt", b"one");
    let b = chunk("ScNd", b"two");
    let mut expected = MAGIC.to_vec();
    expected.extend_from_slice(&a.as_bytes());
    expected.extend_from_slice(&b.as_bytes());
    let p = Png::from_chunks(vec![a, b]);
    assert_eq!(p.as_bytes(), expected);
}

#[test]
fn round_trip_preserves_chunks_and_order() {
    let p = Png::from_chunks(vec![
        chunk("FrSt", b"I am the first chunk"),
        chunk("miDl", b"in between"),
        chunk("LASt", b"the end"),
    ]);
    let e = p.as_bytes();
    let q = Png::try_from(e.as_slice()).unwrap();
    assert_eq!(q.chunks().len(), 3);
    for (orig, dec) in p.chunks().iter().zip(q.chunks().iter()) {
        assert_eq!(orig.chunk_type().bytes(), dec.chunk_type().bytes());
        assert_eq!(orig.data(), dec.data());
        assert_eq!(orig.crc(), dec.crc());
    }
}

#[test]
fn decode_rejects_wrong_header() {
    let p = Png::from_chunks(vec![chunk("TeSt", b"Message")]);
    let mut e = p.as_bytes();
    e[0] = 0;
    assert!(matches!(Png::try_from(e.as_slice()), Err(PngError::InvalidHeader)));
}

#[test]
fn decode_rejects_short_png_buffer() {
    assert!(matches!(Png::try_from(&MAGIC[..7]), Err(PngError::InvalidHeader)));
    let empty: &[u8] = &[];
    assert!(matches!(Png::try_from(empty), Err(PngError::InvalidHeader)));
}

#[test]
fn decode_header_checked_before_contents() {
    // A wrong header fails regardless of what follows.
    let mut e = vec![1u8, 2, 3, 4, 5, 6, 7, 8];
    e.extend_from_slice(&chunk("TeSt", b"Message").as_bytes());
    assert!(matches!(Png::try_from(e.as_slice()), Err(PngError::InvalidHeader)));
}

#[test]
fn decode_propagates_chunk_error() {
    let p = Png::from_chunks(vec![chunk("TeSt", b"Message")]);
    let mut e = p.as_bytes();
    e[16] ^= 0x10; // inside the payload: checksum no longer matches
    assert!(matches!(Png::try_from(e.as_slice()), Err(PngError::ChecksumMismatch)));
}

#[test]
fn decode_rejects_trailing_garbage_as_truncated() {
    let p = Png::from_chunks(vec![chunk("TeSt", b"Message")]);
    let mut e = p.as_bytes();
    e.extend_from_slice(&[0, 0]); // not even a chunk header
    assert!(matches!(Png::try_from(e.as_slice()), Err(PngError::TruncatedInput)));
}

#[test]
fn append_chunk_goes_to_the_end() {
    let mut p = Png::from_chunks(vec![chunk("FrSt", b"one")]);
    p.append_chunk(chunk("TeSt", b"two"));
    assert_eq!(p.chunks().len(), 2);
    assert_eq!(p.chunks()[1].chunk_type().bytes(), *b"TeSt");
}

#[test]
fn end_to_end_decode_append_encode_decode() {
    let first = Png::from_chunks(vec![chunk("FrSt", b"I am the first chunk")]);
    let bytes = first.as_bytes();

    let mut p = Png::try_from(bytes.as_slice()).unwrap();
    p.append_chunk(chunk("TeSt", b"Message"));
    let again = Png::try_from(p.as_bytes().as_slice()).unwrap();

    assert_eq!(again.chunks().len(), 2);
    assert_eq!(again.chunks()[0].chunk_type().bytes(), *b"FrSt");
    assert_eq!(again.chunks()[0].data(), b"I am the first chunk");
    assert_eq!(again.chunks()[1].chunk_type().bytes(), *b"TeSt");
    assert_eq!(again.chunks()[1].data(), b"Message");
}

#[test]
fn chunk_by_type_finds_first_match() {
    let p = Png::from_chunks(vec![
        chunk("FrSt", b"one"),
        chunk("TeSt", b"two"),
        chunk("TeSt", b"three"),
    ]);
    let found = p.chunk_by_type("TeSt").unwrap().unwrap();
    assert_eq!(found.data(), b"two");
}

#[test]
fn chunk_by_type_none_when_absent() {
    let p = Png::from_chunks(vec![chunk("FrSt", b"one")]);
    assert!(p.chunk_by_type("TeSt").unwrap().is_none());
}

#[test]
fn chunk_by_type_rejects_malformed_text() {
    let p = Png::from_chunks(vec![chunk("FrSt", b"one")]);
    assert!(matches!(p.chunk_by_type("T3St"), Err(PngError::InvalidType)));
    assert!(matches!(p.chunk_by_type("TeSts"), Err(PngError::InvalidType)));
}

#[test]
fn remove_chunk_removes_first_match_only() {
    let mut p = Png::from_chunks(vec![
        chunk("TeSt", b"first"),
        chunk("miDl", b"keep"),
        chunk("TeSt", b"second"),
    ]);
    let removed = p.remove_chunk("TeSt").unwrap();
    assert_eq!(removed.data(), b"first");
    assert_eq!(p.chunks().len(), 2);
    assert_eq!(p.chunks()[0].data(), b"keep");
    assert_eq!(p.chunks()[1].data(), b"second");
}

#[test]
fn remove_chunk_not_found_leaves_list_unchanged() {
    let mut p = Png::from_chunks(vec![chunk("FrSt", b"one"), chunk("ScNd", b"two")]);
    let r = p.remove_chunk("TeSt");
    assert!(matches!(r, Err(PngError::NotFound)));
    assert_eq!(p.chunks().len(), 2);
    assert_eq!(p.chunks()[0].chunk_type().bytes(), *b"FrSt");
    assert_eq!(p.chunks()[0].data(), b"one");
    assert_eq!(p.chunks()[1].chunk_type().bytes(), *b"ScNd");
    assert_eq!(p.chunks()[1].data(), b"two");
}

#[test]
fn remove_chunk_rejects_malformed_text() {
    let mut p = Png::from_chunks(vec![chunk("FrSt", b"one")]);
    assert!(matches!(p.remove_chunk("bad!"), Err(PngError::InvalidType)));
    assert_eq!(p.chunks().len(), 1);
}
