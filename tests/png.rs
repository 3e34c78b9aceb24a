use pngme::chunk::Chunk;
use pngme::chunk_type::ChunkType;
use pngme::error::FormatError;
use pngme::png::Png;

const SIGNATURE: [u8; 8] = [137, 80, 78, 71, 13, 10, 26, 10];

fn chunk(tag: &str, data: &[u8]) -> Chunk {
    Chunk::new(ChunkType::from_str(tag).unwrap(), data.to_vec())
}

fn file_of(chunks: &[Chunk]) -> Vec<u8> {
    let mut bytes = SIGNATURE.to_vec();
    for c in chunks {
        bytes.extend(c.as_bytes());
    }
    bytes
}

fn minimal() -> Vec<u8> {
    file_of(&[chunk("IHDR", &[0, 0, 0, 1, 0, 0, 0, 1, 8, 2, 0, 0, 0])])
}

fn types_of(png: &Png) -> Vec<String> {
    png.chunks().iter().map(|c| c.chunk_type().to_string()).collect()
}

#[test]
fn append_then_remove_hidden_chunk() {
    let original = minimal();
    let mut png = Png::try_from(&original).unwrap();
    png.append_chunk(chunk("ruSt", b"hidden"));
    let written = png.as_bytes();
    let reread = Png::try_from(&written).unwrap();
    let found = reread.chunk_by_type("ruSt").unwrap();
    assert_eq!(found.data(), b"hidden");
    assert_eq!(found.data_as_string().unwrap(), "hidden");

    let mut reread = reread;
    let removed = reread.remove_first_chunk("ruSt").unwrap();
    assert_eq!(removed.data(), b"hidden");
    assert_eq!(removed.chunk_type().to_string(), "ruSt");
    let after = reread.as_bytes();
    assert_eq!(after, original);
    let again = Png::try_from(&after).unwrap();
    assert!(again.chunk_by_type("ruSt").is_none());
    assert_eq!(types_of(&again), vec!["IHDR".to_string()]);
}

#[test]
fn missing_type_is_not_found_and_changes_nothing() {
    let mut png = Png::try_from(&file_of(&[chunk("IHDR", b"a"), chunk("teXt", b"b")])).unwrap();
    assert!(png.chunk_by_type("zzzz").is_none());
    let before = png.as_bytes();
    let n = png.chunks().len();
    assert_eq!(png.remove_first_chunk("zzzz").unwrap_err(), FormatError::ChunkNotFound);
    assert_eq!(png.chunks().len(), n);
    assert_eq!(png.as_bytes(), before);
}

#[test]
fn declared_length_past_end_is_truncated() {
    let mut bytes = SIGNATURE.to_vec();
    bytes.extend_from_slice(&100u32.to_be_bytes());
    bytes.extend_from_slice(&[b'R', b'u', b'S', b't', 1, 2, 3, 4, 5, 6]);
    assert_eq!(Png::try_from(&bytes).unwrap_err(), FormatError::TruncatedChunk);
}

#[test]
fn trailing_partial_record_is_truncated() {
    let mut bytes = minimal();
    bytes.extend_from_slice(&[0, 0, 0]);
    assert_eq!(Png::try_from(&bytes).unwrap_err(), FormatError::TruncatedChunk);
}

#[test]
fn bad_signature_is_refused() {
    assert_eq!(Png::try_from(&[]).unwrap_err(), FormatError::BadSignature);
    assert_eq!(Png::try_from(&SIGNATURE[..7]).unwrap_err(), FormatError::BadSignature);
    let mut bytes = minimal();
    bytes[1] = b'Q';
    assert_eq!(Png::try_from(&bytes).unwrap_err(), FormatError::BadSignature);
    let mut last = minimal();
    last[7] = 0;
    assert_eq!(Png::try_from(&last).unwrap_err(), FormatError::BadSignature);
}

#[test]
fn signature_alone_is_an_empty_file() {
    let png = Png::try_from(&SIGNATURE).unwrap();
    assert!(png.chunks().is_empty());
    assert_eq!(png.as_bytes(), SIGNATURE.to_vec());
}

#[test]
fn chunk_errors_propagate() {
    let mut bad_crc = minimal();
    let end = bad_crc.len() - 1;
    bad_crc[end] ^= 0xff;
    assert_eq!(Png::try_from(&bad_crc).unwrap_err(), FormatError::ChecksumMismatch);
    let mut bad_type = minimal();
    bad_type[14] = b'2';
    assert_eq!(Png::try_from(&bad_type).unwrap_err(), FormatError::InvalidChunkType);
}

#[test]
fn file_round_trip_keeps_order() {
    let chunks = [chunk("IHDR", b"head"), chunk("teXt", b""), chunk("ruSt", b"one"), chunk("ruSt", b"two"), chunk("IEND", b"")];
    let bytes = file_of(&chunks);
    let png = Png::try_from(&bytes).unwrap();
    assert_eq!(png.as_bytes(), bytes);
    let again = Png::try_from(&png.as_bytes()).unwrap();
    assert_eq!(types_of(&again), vec!["IHDR", "teXt", "ruSt", "ruSt", "IEND"]);
    assert_eq!(again.chunk_by_type("ruSt").unwrap().data(), b"one");
}

#[test]
fn remove_takes_the_first_of_equal_types() {
    let mut png = Png::try_from(&file_of(&[chunk("IHDR", b""), chunk("ruSt", b"one"), chunk("teXt", b""), chunk("ruSt", b"two")])).unwrap();
    assert_eq!(png.remove_first_chunk("ruSt").unwrap().data(), b"one");
    assert_eq!(types_of(&png), vec!["IHDR", "teXt", "ruSt"]);
    assert_eq!(png.chunk_by_type("ruSt").unwrap().data(), b"two");
    assert_eq!(png.remove_first_chunk("ruSt").unwrap().data(), b"two");
    assert_eq!(png.remove_first_chunk("ruSt").unwrap_err(), FormatError::ChunkNotFound);
}

#[test]
fn lookup_needs_the_exact_spelling() {
    let png = Png::try_from(&file_of(&[chunk("ruSt", b"x")])).unwrap();
    assert!(png.chunk_by_type("RuSt").is_none());
    assert!(png.chunk_by_type("ruS").is_none());
    assert!(png.chunk_by_type("ruSt").is_some());
}

#[test]
fn file_text_form() {
    let png = Png::try_from(&file_of(&[chunk("IHDR", &[1, 2]), chunk("ruSt", b"")])).unwrap();
    assert_eq!(png.to_string(), "[IHDR] [1, 2]\n[ruSt] []\n");
}
