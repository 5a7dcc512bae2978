use pngme::chunk::Chunk;
use pngme::chunk::ChunkError;
use pngme::chunk_type::ChunkType;
use pngme::chunk_type::ChunkTypeError;
use pngme::png::Png;
use pngme::png::PngError;

const SIGNATURE: [u8; 8] = [137, 80, 78, 71, 13, 10, 26, 10];

fn chunk_from(type_text: &str, message: &str) -> Chunk {
    let chunk_type = ChunkType::from_str(type_text).unwrap();
    Chunk::new(chunk_type, message.as_bytes().to_vec())
}

fn buffer_with(chunks: &[Chunk]) -> Vec<u8> {
    let mut bytes: Vec<u8> = SIGNATURE.to_vec();
    for chunk in chunks {
        bytes.extend_from_slice(&chunk.as_bytes());
    }
    bytes
}

#[test]
fn test_png_too_small() {
    let bytes: Vec<u8> = vec![137, 80, 78, 71, 13, 10, 26];
    assert_eq!(Png::try_from(bytes.as_ref()).unwrap_err(), PngError::TooSmall);
}

#[test]
fn test_png_invalid_header() {
    let bytes: Vec<u8> = vec![13, 80, 78, 71, 13, 10, 26, 10];
    assert_eq!(
        Png::try_from(bytes.as_ref()).unwrap_err(),
        PngError::InvalidHeader
    );
}

#[test]
fn test_png_empty_parses_and_serializes() {
    let bytes: Vec<u8> = SIGNATURE.to_vec();
    let png = Png::try_from(bytes.as_ref()).unwrap();
    assert_eq!(png.chunks().len(), 0);
    assert_eq!(png.as_bytes(), bytes);
}

#[test]
fn test_png_round_trip() {
    let buffer = buffer_with(&[
        chunk_from("FrSt", "I am the first chunk"),
        chunk_from("miDl", "I am another chunk"),
        chunk_from("LASt", "I am the last chunk"),
    ]);
    let png = Png::try_from(buffer.as_ref()).unwrap();
    assert_eq!(png.chunks().len(), 3);
    assert_eq!(png.as_bytes(), buffer);
}

#[test]
fn test_png_trailing_bytes() {
    let mut buffer = buffer_with(&[chunk_from("TeSt", "payload")]);
    buffer.extend_from_slice(&[1, 2, 3, 4, 5]);
    assert_eq!(
        Png::try_from(buffer.as_ref()).unwrap_err(),
        PngError::TrailingBytes
    );
}

#[test]
fn test_png_chunk_claims_too_much_data() {
    let mut buffer: Vec<u8> = SIGNATURE.to_vec();
    buffer.extend_from_slice(&[0, 0, 0, 90]);
    buffer.extend_from_slice("TeSt".as_bytes());
    buffer.extend_from_slice(&[0, 0, 0, 0]);
    assert_eq!(
        Png::try_from(buffer.as_ref()).unwrap_err(),
        PngError::Chunk(ChunkError::DataLengthMismatch)
    );
}

#[test]
fn test_png_propagates_type_error() {
    let mut buffer: Vec<u8> = SIGNATURE.to_vec();
    buffer.extend_from_slice(&[0, 0, 0, 0]);
    buffer.extend_from_slice(&[82, 117, 49, 116]);
    buffer.extend_from_slice(&[0, 0, 0, 0]);
    assert_eq!(
        Png::try_from(buffer.as_ref()).unwrap_err(),
        PngError::Chunk(ChunkError::ChunkType(ChunkTypeError::InvalidCharacter))
    );
}

#[test]
fn test_png_propagates_crc_error() {
    let mut buffer = buffer_with(&[chunk_from("TeSt", "payload")]);
    let last = buffer.len() - 1;
    buffer[last] ^= 0x01;
    assert_eq!(
        Png::try_from(buffer.as_ref()).unwrap_err(),
        PngError::Chunk(ChunkError::CrcMismatch)
    );
}

#[test]
fn test_png_append_find_remove() {
    let mut png = Png::new();
    assert_eq!(png.chunks().len(), 0);

    png.append_chunk(chunk_from("TeSt", "Message"));
    let found = png.chunk_by_type("TeSt").unwrap();
    assert_eq!(found.data(), "Message".as_bytes());

    let removed = png.remove_chunk("TeSt").unwrap();
    assert_eq!(removed.data(), "Message".as_bytes());
    assert!(png.chunk_by_type("TeSt").is_none());

    assert_eq!(png.remove_chunk("TeSt").unwrap_err(), PngError::NotFound);
}

#[test]
fn test_png_duplicate_types() {
    let mut png = Png::new();
    png.append_chunk(chunk_from("TeSt", "first"));
    png.append_chunk(chunk_from("TeSt", "second"));

    let found = png.chunk_by_type("TeSt").unwrap();
    assert_eq!(found.data(), "first".as_bytes());

    let removed = png.remove_chunk("TeSt").unwrap();
    assert_eq!(removed.data(), "first".as_bytes());
    assert_eq!(png.chunks().len(), 1);
    assert_eq!(png.chunk_by_type("TeSt").unwrap().data(), "second".as_bytes());

    let removed = png.remove_chunk("TeSt").unwrap();
    assert_eq!(removed.data(), "second".as_bytes());
    assert_eq!(png.chunks().len(), 0);
}

#[test]
fn test_png_append_then_serialize_and_reparse() {
    let buffer = buffer_with(&[chunk_from("FrSt", "existing")]);
    let mut png = Png::try_from(buffer.as_ref()).unwrap();
    png.append_chunk(chunk_from("seCt", "hidden message"));

    let bytes = png.as_bytes();
    let reparsed = Png::try_from(bytes.as_ref()).unwrap();
    assert_eq!(reparsed.chunks().len(), 2);
    let secret = reparsed.chunk_by_type("seCt").unwrap();
    assert_eq!(secret.data_as_string().unwrap(), "hidden message");
}

#[test]
fn test_png_find_respects_case() {
    let mut png = Png::new();
    png.append_chunk(chunk_from("TeSt", "payload"));
    assert!(png.chunk_by_type("test").is_none());
    assert!(png.chunk_by_type("TeS").is_none());
    assert!(png.chunk_by_type("TeSt").is_some());
}
