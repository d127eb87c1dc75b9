use pngme::chunk::Chunk;
use pngme::chunk_type::ChunkType;
use pngme::error::PngError;
use std::str::FromStr;
use pngme::png::{standard_header, Png};

fn chunk_of(chunk_type: &str, data: &str) -> Chunk {
    Chunk::new(ChunkType::from_str(chunk_type).unwrap(), data.as_bytes().to_vec())
}

fn testing_chunks() -> Vec<Chunk> {
    vec![
        chunk_of("FrSt", "I am the first chunk"),
        chunk_of("miDl", "I am another chunk"),
        chunk_of("LASt", "I am the last chunk"),
    ]
}

fn testing_bytes() -> Vec<u8> {
    let mut bytes = vec![137, 80, 78, 71, 13, 10, 26, 10];
    for c in testing_chunks() {
        bytes.extend(c.as_bytes());
    }
    bytes
}

#[test]
fn header_is_the_png_signature() {
    assert_eq!(standard_header(), [0x89, 0x50, 0x4E, 0x47, 0x0D, 0x0A, 0x1A, 0x0A]);
    assert_eq!(Png::from_chunks(Vec::new()).header(), standard_header());
}

#[test]
fn empty_png_is_the_signature() {
    let png = Png::from_chunks(Vec::new());
    assert_eq!(png.as_bytes(), vec![137, 80, 78, 71, 13, 10, 26, 10]);
    let back = Png::try_from(&png.as_bytes()).unwrap();
    assert_eq!(back.chunks().len(), 0);
}

#[test]
fn png_from_chunks_keeps_order() {
    let png = Png::from_chunks(testing_chunks());
    assert_eq!(png.chunks().len(), 3);
    assert_eq!(png.chunk_types().unwrap(), vec!["FrSt", "miDl", "LASt"]);
    assert_eq!(png.as_bytes(), testing_bytes());
}

#[test]
fn png_round_trip() {
    let png = Png::try_from(&testing_bytes()).unwrap();
    assert_eq!(png.chunks().len(), 3);
    assert_eq!(png.chunks()[0].crc(), 920434671);
    assert_eq!(png.chunks()[1].crc(), 3346321170);
    assert_eq!(png.chunks()[2].crc(), 313548900);
    assert_eq!(png.chunks()[1].data_as_string().unwrap(), "I am another chunk");
    let bytes = png.as_bytes();
    assert_eq!(bytes, testing_bytes());
    let again = Png::try_from(&bytes).unwrap();
    assert_eq!(again, png);
}

#[test]
fn wrong_signature() {
    let bytes: Vec<u8> = vec![
        13, 80, 78, 71, 13, 10, 26, 10, 0, 0, 0, 0, 73, 69, 78, 68, 0xAE, 0x42, 0x60, 0x82,
    ];
    assert_eq!(Png::try_from(&bytes), Err(PngError::SignatureMismatch));
    let other: Vec<u8> = vec![
        201, 7, 99, 14, 250, 3, 61, 180, 45, 90, 12, 77, 31, 8, 222, 140, 5, 66, 19, 101,
    ];
    assert_eq!(Png::try_from(&other), Err(PngError::SignatureMismatch));
    assert_eq!(Png::try_from(&[]), Err(PngError::SignatureMismatch));
    assert_eq!(Png::try_from(&[137, 80, 78, 71, 13, 10, 26]), Err(PngError::SignatureMismatch));
}

#[test]
fn truncated_mid_chunk() {
    let bytes = testing_bytes();
    for cut in [1, 5, 12, 20] {
        assert_eq!(
            Png::try_from(&bytes[..bytes.len() - cut]),
            Err(PngError::TruncatedRecord)
        );
    }
    assert_eq!(Png::try_from(&bytes[..9]), Err(PngError::TruncatedRecord));
}

#[test]
fn trailing_bytes_are_not_dropped() {
    let mut bytes = testing_bytes();
    bytes.extend_from_slice(&[0, 0, 0]);
    assert_eq!(Png::try_from(&bytes), Err(PngError::TruncatedRecord));
}

#[test]
fn chunk_errors_come_through() {
    let mut bytes = testing_bytes();
    bytes[8 + 4] = b'1';
    assert_eq!(Png::try_from(&bytes), Err(PngError::MalformedTag));
    let mut bytes = testing_bytes();
    let last = bytes.len() - 1;
    bytes[last] ^= 0x80;
    assert_eq!(Png::try_from(&bytes), Err(PngError::ChecksumMismatch));
    let mut bytes = testing_bytes();
    bytes[8 + 10] ^= 0x01;
    assert_eq!(Png::try_from(&bytes), Err(PngError::ChecksumMismatch));
}

#[test]
fn append_goes_to_the_end() {
    let mut png = Png::from_chunks(testing_chunks());
    png.append_chunk(chunk_of("TeSt", "Message"));
    assert_eq!(png.chunk_types().unwrap(), vec!["FrSt", "miDl", "LASt", "TeSt"]);
    let chunk = png.chunk_by_type("TeSt").unwrap();
    assert_eq!(chunk.data_as_string().unwrap(), "Message");
}

#[test]
fn find_and_remove_take_the_first_match() {
    let mut png = Png::from_chunks(vec![
        chunk_of("ruSt", "one"),
        chunk_of("miDl", "two"),
        chunk_of("ruSt", "three"),
    ]);
    assert_eq!(png.chunk_by_type("ruSt").unwrap().data_as_string().unwrap(), "one");
    let before = png.as_bytes();
    assert_eq!(png.remove_chunk("NoNe"), Err(PngError::TagNotFound));
    assert_eq!(png.as_bytes(), before);
    assert_eq!(png.chunk_types().unwrap(), vec!["ruSt", "miDl", "ruSt"]);
    let gone = png.remove_chunk("ruSt").unwrap();
    assert_eq!(gone.data_as_string().unwrap(), "one");
    assert_eq!(png.chunk_types().unwrap(), vec!["miDl", "ruSt"]);
    assert_eq!(png.chunk_by_type("ruSt").unwrap().data_as_string().unwrap(), "three");
    assert_eq!(png.chunks()[0].data_as_string().unwrap(), "two");
}

#[test]
fn find_reports_absence() {
    let png = Png::from_chunks(testing_chunks());
    assert!(png.chunk_by_type("NoNe").is_none());
    assert!(png.chunk_by_type("FrS").is_none());
    assert!(png.chunk_by_type("").is_none());
}

#[test]
fn chunk_types_of_a_type_that_is_no_text() {
    let odd = Chunk::new(ChunkType::new([0xff, 65, 65, 65]), Vec::new());
    let png = Png::from_chunks(vec![chunk_of("FrSt", "x"), odd]);
    assert_eq!(png.chunk_types(), Err(PngError::NonTextPayload));
}
