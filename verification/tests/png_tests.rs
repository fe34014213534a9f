use pngme::chunk::Chunk;
use pngme::chunk_type::ChunkType;
use pngme::error::PngMeError;
use pngme::png::Png;

fn chunk_from(chunk_type: &str, data: &[u8]) -> Chunk {
    Chunk::new(ChunkType::from_string(chunk_type).unwrap(), data.to_vec())
}

fn testing_png() -> Png {
    Png::from_chunks(vec![
        chunk_from("FrSt", b"I am the first chunk"),
        chunk_from("miDl", b"I am another chunk"),
        chunk_from("LASt", b"I am the last chunk"),
    ])
}

#[test]
fn test_png_from_chunks() {
    let png = testing_png();
    assert_eq!(png.chunks().len(), 3);
}

#[test]
fn test_png_signature() {
    assert_eq!(Png::signature(), [137, 80, 78, 71, 13, 10, 26, 10]);
    let png = testing_png();
    assert_eq!(&png.as_bytes()[0..8], [137, 80, 78, 71, 13, 10, 26, 10]);
}

#[test]
fn test_png_round_trip() {
    let png = testing_png();
    let bytes = png.as_bytes();
    assert_eq!(Png::decode(bytes.as_slice()), Ok(png));
}

#[test]
fn test_png_decode_empty_stream() {
    let png = Png::decode(&[137, 80, 78, 71, 13, 10, 26, 10]).unwrap();
    assert_eq!(png.chunks().len(), 0);
}

#[test]
fn test_png_decode_invalid_header() {
    let png = testing_png();
    let mut bytes = png.as_bytes();
    bytes[0] = 13;
    assert_eq!(
        Png::decode(bytes.as_slice()),
        Err(PngMeError::InvalidHeader)
    );
}

#[test]
fn test_png_decode_short_header() {
    assert_eq!(Png::decode(&[137, 80, 78]), Err(PngMeError::InvalidHeader));
}

#[test]
fn test_png_decode_corrupt_chunk() {
    let png = testing_png();
    let mut bytes = png.as_bytes();
    bytes[9] ^= 0x01;
    assert!(Png::decode(bytes.as_slice()).is_err());
}

#[test]
fn test_png_decode_truncated_chunk() {
    let png = testing_png();
    let mut bytes = png.as_bytes();
    bytes.truncate(bytes.len() - 1);
    assert_eq!(
        Png::decode(bytes.as_slice()),
        Err(PngMeError::InvalidChunkLength)
    );
}

#[test]
fn test_png_append_and_lookup() {
    let mut png = testing_png();
    png.append_chunk(chunk_from("teSt", b"hello"));
    let chunk = png.chunk_by_type("teSt").unwrap();
    assert_eq!(chunk.chunk_type().to_text(), String::from("teSt"));
    assert_eq!(chunk.data_as_string().unwrap(), String::from("hello"));
    assert!(png.chunk_by_type("nope").is_none());
}

#[test]
fn test_png_lookup_is_case_sensitive() {
    let png = testing_png();
    assert!(png.chunk_by_type("miDl").is_some());
    assert!(png.chunk_by_type("MIDL").is_none());
}

#[test]
fn test_png_remove_chunk() {
    let mut png = testing_png();
    let removed = png.remove_chunk("miDl").unwrap();
    assert_eq!(removed.data_as_string().unwrap(), "I am another chunk");
    assert!(png.chunk_by_type("miDl").is_none());
    assert_eq!(png.chunks().len(), 2);
}

#[test]
fn test_png_remove_absent_chunk() {
    let mut png = testing_png();
    let before = png.as_bytes();
    assert_eq!(png.remove_chunk("nope"), Err(PngMeError::ChunkNotFound));
    assert_eq!(png.as_bytes(), before);
}

#[test]
fn test_png_duplicate_types() {
    let mut png = testing_png();
    png.append_chunk(chunk_from("duPe", b"one"));
    png.append_chunk(chunk_from("duPe", b"two"));

    let first = png.chunk_by_type("duPe").unwrap();
    assert_eq!(first.data_as_string().unwrap(), "one");

    let removed = png.remove_chunk("duPe").unwrap();
    assert_eq!(removed.data_as_string().unwrap(), "one");

    let second = png.chunk_by_type("duPe").unwrap();
    assert_eq!(second.data_as_string().unwrap(), "two");
}

#[test]
fn test_png_round_trip_preserves_order() {
    let png = testing_png();
    let decoded = Png::decode(png.as_bytes().as_slice()).unwrap();
    let types: Vec<String> = decoded
        .chunks()
        .iter()
        .map(|c| c.chunk_type().to_text())
        .collect();
    assert_eq!(types, vec!["FrSt", "miDl", "LASt"]);
}
