use pngme::chunk::Chunk;
use pngme::chunk_type::ChunkType;
use pngme::error::PngError;
use pngme::png::{PngContainer, PNG_SIGNATURE};

fn chunk(tag: &str, data: &str) -> Chunk {
    Chunk::new(ChunkType::from_string(tag).unwrap(), data.as_bytes().to_vec())
}

fn three_chunks() -> Vec<Chunk> {
    vec![
        chunk("FrSt", "I am the first chunk"),
        chunk("miDl", "I am another chunk"),
        chunk("LASt", "I am the last chunk"),
    ]
}

fn file_of(chunks: &[Chunk]) -> Vec<u8> {
    let mut bytes = PNG_SIGNATURE.to_vec();
    for c in chunks {
        bytes.extend_from_slice(&c.as_bytes());
    }
    bytes
}

fn tags(png: &PngContainer) -> Vec<String> {
    png.chunks().iter().map(|c| c.chunk_type().to_string()).collect()
}

#[test]
fn the_signature_is_the_png_signature() {
    assert_eq!(PNG_SIGNATURE, [0x89, 0x50, 0x4e, 0x47, 0x0d, 0x0a, 0x1a, 0x0a]);
    let png = PngContainer::parse(&file_of(&three_chunks())).unwrap();
    assert_eq!(png.signature(), PNG_SIGNATURE);
}

#[test]
fn a_smallest_image_is_decoded() {
    let bytes: Vec<u8> = vec![
        0x89, 0x50, 0x4e, 0x47, 0x0d, 0x0a, 0x1a, 0x0a, 0x00, 0x00, 0x00, 0x0d, 0x49, 0x48, 0x44,
        0x52, 0x00, 0x00, 0x00, 0x01, 0x00, 0x00, 0x00, 0x01, 0x08, 0x02, 0x00, 0x00, 0x00, 0x90,
        0x77, 0x53, 0xde, 0x00, 0x00, 0x00, 0x00, 0x49, 0x45, 0x4e, 0x44, 0xae, 0x42, 0x60, 0x82,
    ];
    let png = PngContainer::parse(&bytes).unwrap();
    assert_eq!(tags(&png), vec!["IHDR", "IEND"]);
    assert_eq!(png.chunks()[0].length(), 13);
    assert_eq!(png.chunks()[0].crc(), 0x9077_53de);
    assert_eq!(png.chunks()[1].length(), 0);
    assert_eq!(png.as_bytes(), bytes);
}

#[test]
fn chunks_keep_the_order_of_the_file() {
    let png = PngContainer::parse(&file_of(&three_chunks())).unwrap();
    assert_eq!(png.chunks().len(), 3);
    assert_eq!(tags(&png), vec!["FrSt", "miDl", "LASt"]);
    assert_eq!(png.chunks(), &three_chunks()[..]);
    assert_eq!(png.chunks()[0].crc(), 920434671);
    assert_eq!(png.chunks()[1].crc(), 3346321170);
    assert_eq!(png.chunks()[2].crc(), 313548900);
}

#[test]
fn chunks_can_be_walked_again() {
    let png = PngContainer::parse(&file_of(&three_chunks())).unwrap();
    let first: Vec<u32> = png.chunks().iter().map(|c| c.length()).collect();
    let second: Vec<u32> = png.chunks().iter().map(|c| c.length()).collect();
    assert_eq!(first, vec![20, 18, 19]);
    assert_eq!(first, second);
}

#[test]
fn a_file_of_the_signature_alone_has_no_chunks() {
    let png = PngContainer::parse(&PNG_SIGNATURE).unwrap();
    assert_eq!(png.chunks().len(), 0);
    assert_eq!(png.as_bytes(), PNG_SIGNATURE.to_vec());
}

#[test]
fn a_wrong_signature_is_an_invalid_signature() {
    let good = file_of(&three_chunks());
    for at in 0..8 {
        let mut bad = good.clone();
        bad[at] ^= 0x20;
        assert_eq!(PngContainer::parse(&bad).unwrap_err(), PngError::InvalidSignature);
    }
    let mut other = vec![13, 80, 78, 71, 13, 10, 26, 10];
    other.extend_from_slice(&chunk("FrSt", "x").as_bytes());
    assert_eq!(PngContainer::parse(&other).unwrap_err(), PngError::InvalidSignature);
}

#[test]
fn a_buffer_shorter_than_the_signature_is_an_invalid_signature() {
    for n in 0..8 {
        assert_eq!(
            PngContainer::parse(&PNG_SIGNATURE[..n]).unwrap_err(),
            PngError::InvalidSignature
        );
    }
}

#[test]
fn a_bad_chunk_ends_the_decoding_with_its_error() {
    let good = file_of(&three_chunks());

    let mut bad_crc = good.clone();
    let end_of_second = 8 + (12 + 20) + (12 + 18);
    bad_crc[end_of_second - 1] ^= 1;
    assert_eq!(PngContainer::parse(&bad_crc).unwrap_err(), PngError::CrcMismatch);

    let mut bad_tag = good.clone();
    bad_tag[8 + 4] = b'1';
    assert_eq!(PngContainer::parse(&bad_tag).unwrap_err(), PngError::InvalidChunkType);

    assert_eq!(PngContainer::parse(&good[..good.len() - 1]).unwrap_err(), PngError::Truncated);
    assert_eq!(PngContainer::parse(&good[..9]).unwrap_err(), PngError::Truncated);

    let mut trailing = good.clone();
    trailing.extend_from_slice(&[0, 0, 0]);
    assert_eq!(PngContainer::parse(&trailing).unwrap_err(), PngError::Truncated);
}

#[test]
fn the_first_bad_chunk_decides_the_error() {
    let mut bytes = file_of(&three_chunks());
    bytes[8 + 4] = b'1';
    let n = bytes.len();
    bytes[n - 1] ^= 1;
    assert_eq!(PngContainer::parse(&bytes).unwrap_err(), PngError::InvalidChunkType);
}

#[test]
fn decoding_the_encoding_gives_the_container_back() {
    let mut png = PngContainer::parse(&PNG_SIGNATURE).unwrap();
    for c in three_chunks() {
        png.append_chunk(c);
    }
    png.append_chunk(chunk("FrSt", ""));
    let bytes = png.as_bytes();
    let back = PngContainer::parse(&bytes).unwrap();
    assert_eq!(back.signature(), png.signature());
    assert_eq!(back.chunks(), png.chunks());
    assert_eq!(back, png);
    assert_eq!(back.as_bytes(), bytes);
}

#[test]
fn as_bytes_is_the_signature_and_then_the_chunks() {
    let png = PngContainer::parse(&file_of(&three_chunks())).unwrap();
    let mut expected = vec![0x89, 0x50, 0x4e, 0x47, 0x0d, 0x0a, 0x1a, 0x0a];
    for c in three_chunks() {
        expected.extend_from_slice(&c.as_bytes());
    }
    assert_eq!(png.as_bytes(), expected);
    assert_eq!(expected.len(), 8 + 32 + 30 + 31);
}

#[test]
fn an_appended_chunk_comes_last() {
    let mut png = PngContainer::parse(&file_of(&three_chunks())).unwrap();
    png.append_chunk(chunk("TeSt", "Message"));
    assert_eq!(tags(&png), vec!["FrSt", "miDl", "LASt", "TeSt"]);
    assert_eq!(png.chunks()[3], chunk("TeSt", "Message"));
    let mut expected = file_of(&three_chunks());
    expected.extend_from_slice(&chunk("TeSt", "Message").as_bytes());
    assert_eq!(png.as_bytes(), expected);
}

#[test]
fn an_appended_chunk_is_found_removed_and_then_gone() {
    let mut png = PngContainer::parse(&file_of(&three_chunks())).unwrap();
    let before = png.as_bytes();
    png.append_chunk(chunk("TeSt", "Message"));
    assert_eq!(png.chunk_by_type("TeSt"), Some(&chunk("TeSt", "Message")));
    assert_eq!(png.remove_chunk("TeSt"), Ok(chunk("TeSt", "Message")));
    assert_eq!(png.chunk_by_type("TeSt"), None);
    assert_eq!(png.as_bytes(), before);
}

#[test]
fn the_first_chunk_of_a_type_is_the_one_found_and_removed() {
    let mut png = PngContainer::parse(&PNG_SIGNATURE).unwrap();
    png.append_chunk(chunk("FrSt", "one"));
    png.append_chunk(chunk("TeSt", "two"));
    png.append_chunk(chunk("miDl", "three"));
    png.append_chunk(chunk("TeSt", "four"));
    assert_eq!(png.chunk_by_type("TeSt").unwrap().data(), b"two");
    assert_eq!(png.remove_chunk("TeSt").unwrap().data(), b"two");
    assert_eq!(tags(&png), vec!["FrSt", "miDl", "TeSt"]);
    assert_eq!(png.chunk_by_type("TeSt").unwrap().data(), b"four");
    assert_eq!(png.remove_chunk("TeSt").unwrap().data(), b"four");
    assert_eq!(tags(&png), vec!["FrSt", "miDl"]);
    assert_eq!(png.remove_chunk("TeSt"), Err(PngError::ChunkNotFound));
}

#[test]
fn removing_an_absent_type_changes_nothing() {
    let mut png = PngContainer::parse(&file_of(&three_chunks())).unwrap();
    let before = png.as_bytes();
    assert_eq!(png.remove_chunk("TeSt"), Err(PngError::ChunkNotFound));
    assert_eq!(png.as_bytes(), before);
    assert_eq!(png.chunks(), &three_chunks()[..]);
}

#[test]
fn the_type_is_matched_letter_for_letter() {
    let png = PngContainer::parse(&file_of(&three_chunks())).unwrap();
    assert_eq!(png.chunk_by_type("miDl").unwrap().data(), b"I am another chunk");
    assert_eq!(png.chunk_by_type("MIDL"), None);
    assert_eq!(png.chunk_by_type("midl"), None);
    assert_eq!(png.chunk_by_type("FrSt").unwrap().length(), 20);
    assert_eq!(png.chunk_by_type("LASt").unwrap().length(), 19);
}

#[test]
fn a_string_that_is_no_tag_matches_no_chunk() {
    let mut png = PngContainer::parse(&file_of(&three_chunks())).unwrap();
    for s in ["", "miD", "miDl ", "mi1l", "FrSt!", "\u{e9}\u{e9}", "miDlmiDl"] {
        assert_eq!(png.chunk_by_type(s), None);
        assert_eq!(png.remove_chunk(s), Err(PngError::ChunkNotFound));
    }
    assert_eq!(png.chunks().len(), 3);
}

#[test]
fn try_from_decodes_like_parse() {
    let bytes = file_of(&three_chunks());
    let a = PngContainer::try_from(&bytes[..]).unwrap();
    let b = PngContainer::parse(&bytes).unwrap();
    assert_eq!(a, b);
    assert_eq!(
        PngContainer::try_from(&bytes[1..]).unwrap_err(),
        PngError::InvalidSignature
    );
}
