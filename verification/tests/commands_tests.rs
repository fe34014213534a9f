use pngme::commands::{encode, remove};
use pngme::chunk::Chunk;
use pngme::chunk_type::ChunkType;
use pngme::error::PngMeError;
use pngme::png::Png;

fn base_png_bytes() -> Vec<u8> {
    let png = Png::from_chunks(vec![Chunk::new(
        ChunkType::from_string("IHDR").unwrap(),
        b"not a real header".to_vec(),
    )]);
    png.as_bytes()
}

#[test]
fn test_encode_appends_message_chunk() {
    let out = encode(base_png_bytes().as_slice(), "ruSt", "a secret").unwrap();
    let png = Png::decode(out.as_slice()).unwrap();
    assert_eq!(png.chunks().len(), 2);
    let chunk = png.chunk_by_type("ruSt").unwrap();
    assert_eq!(chunk.data_as_string().unwrap(), "a secret");
}

#[test]
fn test_encode_rejects_bad_stream() {
    assert_eq!(
        encode(b"definitely not a png", "ruSt", "a secret"),
        Err(PngMeError::InvalidHeader)
    );
}

#[test]
fn test_encode_rejects_bad_type_code() {
    assert_eq!(
        encode(base_png_bytes().as_slice(), "ru", "a secret"),
        Err(PngMeError::InvalidChunkLength)
    );
    assert_eq!(
        encode(base_png_bytes().as_slice(), "ru5t", "a secret"),
        Err(PngMeError::InvalidBytes)
    );
}

#[test]
fn test_remove_deletes_the_chunk() {
    let with_message = encode(base_png_bytes().as_slice(), "ruSt", "a secret").unwrap();
    let out = remove(with_message.as_slice(), "ruSt").unwrap();
    let png = Png::decode(out.as_slice()).unwrap();
    assert_eq!(png.chunks().len(), 1);
    assert!(png.chunk_by_type("ruSt").is_none());
    assert_eq!(out, base_png_bytes());
}

#[test]
fn test_remove_absent_type() {
    assert_eq!(
        remove(base_png_bytes().as_slice(), "ruSt"),
        Err(PngMeError::ChunkNotFound)
    );
}

#[test]
fn test_error_messages() {
    assert_eq!(PngMeError::InvalidHeader.message(), "invalid PNG file header");
    assert_eq!(PngMeError::InvalidCRC.message(), "CRC mismatch");
}
