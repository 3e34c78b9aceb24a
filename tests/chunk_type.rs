use pngme::chunk_type::{is_alpha, is_upper, ChunkType};
use pngme::error::FormatError;

#[test]
fn test_is_upper() {
    let tests = [(0b0010_0100 as u8, false), (0b0000_0100 as u8, true)];
    for (byte, exp) in tests.iter() {
        assert_eq!(*exp, is_upper(*byte));
    }
}

#[test]
pub fn test_chunk_type_from_bytes() {
    let expected = [82, 117, 83, 116];
    let actual = ChunkType::try_from([82, 117, 83, 116]).unwrap();

    assert_eq!(expected, actual.bytes());
}

#[test]
pub fn test_chunk_type_from_str() {
    let expected = ChunkType::try_from([82, 117, 83, 116]).unwrap();
    let actual = ChunkType::from_str("RuSt").unwrap();
    assert_eq!(expected, actual);
}

#[test]
pub fn test_chunk_type_is_critical() {
    let chunk = ChunkType::from_str("RuSt").unwrap();
    assert!(chunk.is_critical());
}

#[test]
pub fn test_chunk_type_is_not_critical() {
    let chunk = ChunkType::from_str("ruSt").unwrap();
    assert!(!chunk.is_critical());
}

#[test]
pub fn test_chunk_type_is_public() {
    let chunk = ChunkType::from_str("RUSt").unwrap();
    assert!(chunk.is_public());
}

#[test]
pub fn test_chunk_type_is_not_public() {
    let chunk = ChunkType::from_str("RuSt").unwrap();
    assert!(!chunk.is_public());
}

#[test]
pub fn test_chunk_type_is_reserved_bit_valid() {
    let chunk = ChunkType::from_str("RuSt").unwrap();
    assert!(chunk.is_reserved_bit_valid());
}

#[test]
pub fn test_chunk_type_is_reserved_bit_invalid() {
    let chunk = ChunkType::from_str("Rust").unwrap();
    assert!(!chunk.is_reserved_bit_valid());
}

#[test]
pub fn test_chunk_type_is_safe_to_copy() {
    let chunk = ChunkType::from_str("RuSt").unwrap();
    assert!(chunk.is_safe_to_copy());
}

#[test]
pub fn test_chunk_type_is_unsafe_to_copy() {
    let chunk = ChunkType::from_str("RuST").unwrap();
    assert!(!chunk.is_safe_to_copy());
}

#[test]
pub fn test_valid_chunk_is_valid() {
    let chunk = ChunkType::from_str("RuSt").unwrap();
    assert!(chunk.is_valid());
}

#[test]
pub fn test_invalid_chunk_is_valid() {
    let chunk = ChunkType::from_str("Rust").unwrap();
    assert!(!chunk.is_valid());

    let chunk = ChunkType::from_str("Ru1t");
    assert!(chunk.is_err());
}

#[test]
pub fn test_chunk_type_string() {
    let chunk = ChunkType::from_str("RuSt").unwrap();
    assert_eq!(&chunk.to_string(), "RuSt");
}

#[test]
pub fn test_chunk_type_trait_impls() {
    let chunk_type_1: ChunkType = ChunkType::try_from([82, 117, 83, 116]).unwrap();
    let chunk_type_2: ChunkType = ChunkType::from_str("RuSt").unwrap();
    let _chunk_string = chunk_type_1.to_string();
    let _are_chunks_equal = chunk_type_1 == chunk_type_2;
}

#[test]
fn rust_tag_properties() {
    let t = ChunkType::from_str("RuSt").unwrap();
    assert!(t.is_critical());
    assert!(!t.is_public());
    assert!(t.is_reserved_bit_valid());
    assert!(t.is_safe_to_copy());
    let r = ChunkType::from_str("Rust").unwrap();
    assert!(!r.is_reserved_bit_valid());
    assert_eq!(ChunkType::from_str("Ru1t"), Err(FormatError::InvalidChunkType));
}

#[test]
fn from_str_rejects_wrong_length() {
    assert_eq!(ChunkType::from_str("Rus"), Err(FormatError::InvalidLength));
    assert_eq!(ChunkType::from_str("RuStX"), Err(FormatError::InvalidLength));
    assert_eq!(ChunkType::from_str(""), Err(FormatError::InvalidLength));
    // four characters but five bytes
    assert_eq!(ChunkType::from_str("Ru\u{e9}t"), Err(FormatError::InvalidLength));
}

#[test]
fn try_from_rejects_non_letters() {
    assert_eq!(ChunkType::try_from([82, 117, 64, 116]), Err(FormatError::InvalidChunkType));
    assert_eq!(ChunkType::try_from([91, 117, 83, 116]), Err(FormatError::InvalidChunkType));
    assert_eq!(ChunkType::try_from([82, 117, 83, 123]), Err(FormatError::InvalidChunkType));
    assert!(ChunkType::try_from([65, 90, 97, 122]).is_ok());
}

#[test]
fn is_alpha_bounds() {
    assert!(is_alpha(b'A') && is_alpha(b'Z') && is_alpha(b'a') && is_alpha(b'z'));
    assert!(!is_alpha(b'@') && !is_alpha(b'[') && !is_alpha(b'`') && !is_alpha(b'{'));
}
