use pngme::chunk_type::ChunkType;
use pngme::chunk_type::ChunkTypeError;

#[test]
pub fn test_chunk_type_from_bytes() {
    let expected = [82, 117, 83, 116];
    let actual = ChunkType::try_from([82, 117, 83, 116]).unwrap();

    assert_eq!(expected, actual.bytes());
}

#[test]
pub fn test_chunk_type_from_str() {
    let expected = ChunkType::try_from([82, 117, 83, 116]).unwrap();
    let actual = ChunkType::from_str("RuSt").unwrap();
    assert_eq!(expected, actual);
}

#[test]
pub fn test_chunk_type_is_critical() {
    let chunk = ChunkType::from_str("RuSt").unwrap();
    assert!(chunk.is_critical());
}

#[test]
pub fn test_chunk_type_is_not_critical() {
    let chunk = ChunkType::from_str("ruSt").unwrap();
    assert!(!chunk.is_critical());
}

#[test]
pub fn test_chunk_type_is_public() {
    let chunk = ChunkType::from_str("RUSt").unwrap();
    assert!(chunk.is_public());
}

#[test]
pub fn test_chunk_type_is_not_public() {
    let chunk = ChunkType::from_str("RuSt").unwrap();
    assert!(!chunk.is_public());
}

#[test]
pub fn test_chunk_type_is_reserved_bit_valid() {
    let chunk = ChunkType::from_str("RuSt").unwrap();
    assert!(chunk.is_reserved_bit_valid());
}

#[test]
pub fn test_chunk_type_is_reserved_bit_invalid() {
    let chunk = ChunkType::from_str("Rust").unwrap();
    assert!(!chunk.is_reserved_bit_valid());
}

#[test]
pub fn test_chunk_type_is_safe_to_copy() {
    let chunk = ChunkType::from_str("RuSt").unwrap();
    assert!(chunk.is_safe_to_copy());
}

#[test]
pub fn test_chunk_type_is_unsafe_to_copy() {
    let chunk = ChunkType::from_str("RuST").unwrap();
    assert!(!chunk.is_safe_to_copy());
}

#[test]
pub fn test_valid_chunk_is_valid() {
    let chunk = ChunkType::from_str("RuSt").unwrap();
    assert!(chunk.is_valid());
}

#[test]
pub fn test_invalid_chunk_is_valid() {
    let chunk = ChunkType::from_str("Rust").unwrap();
    assert!(!chunk.is_valid());

    let chunk = ChunkType::from_str("Ru1t");
    assert!(chunk.is_err());
}

#[test]
pub fn test_chunk_type_string() {
    let chunk = ChunkType::from_str("RuSt").unwrap();
    assert_eq!(&chunk.to_string(), "RuSt");
}

#[test]
pub fn test_chunk_type_trait_impls() {
    let chunk_type_1: ChunkType = ChunkType::try_from([82, 117, 83, 116]).unwrap();
    let chunk_type_2: ChunkType = ChunkType::from_str("RuSt").unwrap();
    let _chunk_string = chunk_type_1.to_string();
    let _are_chunks_equal = chunk_type_1 == chunk_type_2;
}

#[test]
pub fn test_chunk_type_wrong_length() {
    assert_eq!(ChunkType::from_str("Rus"), Err(ChunkTypeError::WrongLength));
    assert_eq!(ChunkType::from_str("Rusty"), Err(ChunkTypeError::WrongLength));
}

#[test]
pub fn test_chunk_type_invalid_character() {
    assert_eq!(ChunkType::from_str("Ru1t"), Err(ChunkTypeError::InvalidCharacter));
    assert_eq!(
        ChunkType::try_from([82, 117, 49, 116]),
        Err(ChunkTypeError::InvalidCharacter)
    );
}

#[test]
pub fn test_chunk_type_flag_vectors() {
    let rust = ChunkType::from_str("RuSt").unwrap();
    assert!(rust.is_critical());
    assert!(!rust.is_public());
    assert!(rust.is_reserved_bit_valid());
    assert!(rust.is_safe_to_copy());

    assert!(!ChunkType::from_str("ruSt").unwrap().is_critical());
    assert!(ChunkType::from_str("RUSt").unwrap().is_public());
    let lower_reserved = ChunkType::from_str("Rust").unwrap();
    assert!(!lower_reserved.is_reserved_bit_valid());
    assert!(!lower_reserved.is_valid());
    assert!(!ChunkType::from_str("RuST").unwrap().is_safe_to_copy());
}
