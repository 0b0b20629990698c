use pngme::chunk_type::ChunkType;
use pngme::error::PngError;

#[test]
fn from_valid_bytes() {
    let t = ChunkType::try_from([82, 117, 83, 116]).unwrap();
    assert_eq!(t.bytes(), [82, 117, 83, 116]);
}

#[test]
fn from_bytes_rejects_non_letter() {
    assert_eq!(ChunkType::try_from([82, 49, 83, 116]), Err(PngError::InvalidType));
    assert_eq!(ChunkType::try_from([0, 0, 0, 0]), Err(PngError::InvalidType));
    assert_eq!(ChunkType::try_from([82, 117, 83, 32]), Err(PngError::InvalidType));
    assert_eq!(ChunkType::try_from([91, 117, 83, 116]), Err(PngError::InvalidType));
    assert_eq!(ChunkType::try_from([82, 117, 123, 116]), Err(PngError::InvalidType));
}

#[test]
fn from_str_valid() {
    let t = ChunkType::from_str("RuSt").unwrap();
    assert_eq!(t.bytes(), *b"RuSt");
    assert_eq!(t.to_string(), "RuSt");
}

#[test]
fn from_str_rejects_wrong_length() {
    assert_eq!(ChunkType::from_str(""), Err(PngError::InvalidType));
    assert_eq!(ChunkType::from_str("RuS"), Err(PngError::InvalidType));
    assert_eq!(ChunkType::from_str("RuStZ"), Err(PngError::InvalidType));
}

#[test]
fn from_str_rejects_non_letter() {
    assert_eq!(ChunkType::from_str("Ru1t"), Err(PngError::InvalidType));
    assert_eq!(ChunkType::from_str("Ru t"), Err(PngError::InvalidType));
    assert_eq!(ChunkType::from_str("Rus;"), Err(PngError::InvalidType));
}

#[test]
fn classifier_rust_example() {
    let t = ChunkType::from_str("RuSt").unwrap();
    assert!(t.is_critical());
    assert!(!t.is_public());
    assert!(t.is_reserved_bit_valid());
    assert!(t.is_safe_to_copy());
    assert!(t.is_valid());
    assert!(!t.is_err());
}

#[test]
fn classifier_lowercase_flags() {
    let t = ChunkType::from_str("ruIN").unwrap();
    assert!(!t.is_critical());
    assert!(!t.is_public());
    assert!(t.is_reserved_bit_valid());
    assert!(!t.is_safe_to_copy());
}

#[test]
fn reserved_bit_invalid_is_still_constructible() {
    let t = ChunkType::from_str("Rust").unwrap();
    assert!(!t.is_reserved_bit_valid());
    assert!(!t.is_valid());
    assert!(t.is_err());
}

#[test]
fn equality_is_byte_equality() {
    let a = ChunkType::from_str("RuSt").unwrap();
    let b = ChunkType::from_str("RuSt").unwrap();
    let c = ChunkType::from_str("ruSt").unwrap();
    assert!(a == b);
    assert!(a != c);
}
