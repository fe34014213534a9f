use pngme::chunk_type::ChunkType;
use pngme::error::PngMeError;

#[test]
pub fn test_chunk_type_from_bytes() {
    let expected = [82, 117, 83, 116];
    let actual = ChunkType::from_bytes([82, 117, 83, 116]).unwrap();

    assert_eq!(expected, actual.bytes());
}

#[test]
pub fn test_chunk_type_from_str() {
    let expected = ChunkType::from_bytes([82, 117, 83, 116]).unwrap();
    let actual = ChunkType::from_string("RuSt").unwrap();
    assert_eq!(expected, actual);
}

#[test]
pub fn test_chunk_type_is_critical() {
    let chunk = ChunkType::from_string("RuSt").unwrap();
    assert!(chunk.is_critical());
}

#[test]
pub fn test_chunk_type_is_not_critical() {
    let chunk = ChunkType::from_string("ruSt").unwrap();
    assert!(!chunk.is_critical());
}

#[test]
pub fn test_chunk_type_is_public() {
    let chunk = ChunkType::from_string("RUSt").unwrap();
    assert!(chunk.is_public());
}

#[test]
pub fn test_chunk_type_is_not_public() {
    let chunk = ChunkType::from_string("RuSt").unwrap();
    assert!(!chunk.is_public());
}

#[test]
pub fn test_chunk_type_is_reserved_bit_valid() {
    let chunk = ChunkType::from_string("RuSt").unwrap();
    assert!(chunk.is_reserved_bit_valid());
}

#[test]
pub fn test_chunk_type_is_reserved_bit_invalid() {
    let chunk = ChunkType::from_string("Rust").unwrap();
    assert!(!chunk.is_reserved_bit_valid());
}

#[test]
pub fn test_chunk_type_is_safe_to_copy() {
    let chunk = ChunkType::from_string("RuSt").unwrap();
    assert!(chunk.is_safe_to_copy());
}

#[test]
pub fn test_chunk_type_is_unsafe_to_copy() {
    let chunk = ChunkType::from_string("RuST").unwrap();
    assert!(!chunk.is_safe_to_copy());
}

#[test]
pub fn test_valid_chunk_is_valid() {
    let chunk = ChunkType::from_string("RuSt").unwrap();
    assert!(chunk.is_valid());
}

#[test]
pub fn test_invalid_chunk_is_valid() {
    let chunk = ChunkType::from_string("Rust").unwrap();
    assert!(!chunk.is_valid());

    let chunk = ChunkType::from_string("Ru1t");
    assert!(chunk.is_err());
}

#[test]
pub fn test_chunk_type_string() {
    let chunk = ChunkType::from_string("RuSt").unwrap();
    assert_eq!(&chunk.to_text(), "RuSt");
}

#[test]
pub fn test_chunk_type_trait_impls() {
    let chunk_type_1: ChunkType = ChunkType::from_bytes([82, 117, 83, 116]).unwrap();
    let chunk_type_2: ChunkType = ChunkType::from_string("RuSt").unwrap();
    let _chunk_string = chunk_type_1.to_text();
    let are_chunks_equal = chunk_type_1 == chunk_type_2;
    assert!(are_chunks_equal);
}

#[test]
pub fn test_chunk_type_string_length_error() {
    let err = ChunkType::from_string("Ru").unwrap_err();
    assert_eq!(err, PngMeError::InvalidChunkLength);
}

#[test]
pub fn test_chunk_type_alphabet_error() {
    let err = ChunkType::from_string("Ru1t").unwrap_err();
    assert_eq!(err, PngMeError::InvalidBytes);

    let err = ChunkType::from_bytes([82, 117, 49, 116]).unwrap_err();
    assert_eq!(err, PngMeError::InvalidBytes);
}

#[test]
pub fn test_chunk_type_property_bits() {
    let chunk = ChunkType::from_string("RuSt").unwrap();
    assert!(chunk.is_critical());
    assert!(!chunk.is_public());
    assert!(chunk.is_reserved_bit_valid());
    assert!(chunk.is_safe_to_copy());
}

#[test]
pub fn test_chunk_type_is_valid_byte() {
    assert!(ChunkType::is_valid_byte(b'A'));
    assert!(ChunkType::is_valid_byte(b'z'));
    assert!(!ChunkType::is_valid_byte(b'1'));
    assert!(!ChunkType::is_valid_byte(b' '));
}

#[test]
pub fn test_chunk_type_is_valid_byte_array() {
    assert!(ChunkType::is_valid_byte_array(&[82, 117, 83, 116]));
    assert!(!ChunkType::is_valid_byte_array(&[82, 117, 49, 116]));
    assert!(!ChunkType::is_valid_byte_array(&[82, 117, 83]));
}
