use pngme::chunk::Chunk;
use pngme::chunk_type::ChunkType;
use pngme::error::PngError;
use pngme::png::Png;
use std::str::FromStr;

const HEADER: [u8; 8] = [137, 80, 78, 71, 13, 10, 26, 10];

fn chunk(tag: &str, data: &str) -> Chunk {
    Chunk::new(ChunkType::from_str(tag).unwrap(), data.as_bytes().to_vec())
}

fn testing_chunks() -> Vec<Chunk> {
    vec![
        chunk("FrSt", "I am the first chunk"),
        chunk("miDl", "I am another chunk"),
        chunk("LASt", "I am the last chunk"),
    ]
}

fn testing_bytes() -> Vec<u8> {
    let mut bytes = HEADER.to_vec();
    for c in testing_chunks() {
        bytes.extend_from_slice(&c.as_bytes());
    }
    bytes
}

fn tags(png: &Png) -> Vec<String> {
    png.chunks().iter().map(|c| c.chunk_type().to_string()).collect()
}

#[test]
fn the_signature_is_that_of_png() {
    assert_eq!(Png::header(), HEADER);
}

#[test]
fn a_fresh_container_is_the_signature_alone() {
    let png = Png::new();
    assert_eq!(png.chunks().len(), 0);
    assert_eq!(png.as_bytes(), HEADER.to_vec());
    let back = Png::try_from(&HEADER[..]).unwrap();
    assert_eq!(back.chunks().len(), 0);
}

#[test]
fn chunks_are_kept_in_their_order() {
    let png = Png::from_chunks(testing_chunks());
    assert_eq!(tags(&png), vec!["FrSt", "miDl", "LASt"]);
    assert_eq!(png.as_bytes(), testing_bytes());
}

#[test]
fn a_container_is_read_chunk_by_chunk() {
    let png = Png::try_from(testing_bytes().as_slice()).unwrap();
    assert_eq!(tags(&png), vec!["FrSt", "miDl", "LASt"]);
    assert_eq!(png.chunks()[1].data_as_string().unwrap(), "I am another chunk");
    assert_eq!(png.chunks()[2].length(), 19);
}

#[test]
fn a_written_container_is_read_back() {
    let png = Png::from_chunks(testing_chunks());
    let back = Png::try_from(png.as_bytes().as_slice()).unwrap();
    assert_eq!(back.chunks().len(), 3);
    for (a, b) in png.chunks().iter().zip(back.chunks().iter()) {
        assert_eq!(a.chunk_type(), b.chunk_type());
        assert_eq!(a.data(), b.data());
        assert_eq!(a.crc(), b.crc());
    }
    assert_eq!(back.as_bytes(), png.as_bytes());
}

#[test]
fn another_signature_is_a_bad_signature() {
    for at in 0..8 {
        let mut bytes = testing_bytes();
        bytes[at] ^= 1;
        assert_eq!(Png::try_from(bytes.as_slice()).unwrap_err(), PngError::BadSignature);
    }
}

#[test]
fn a_bad_signature_comes_before_all_else() {
    // What follows is no chunk at all.
    let bytes = [13, 80, 78, 71, 13, 10, 26, 10, 1, 2, 3];
    assert_eq!(Png::try_from(&bytes[..]).unwrap_err(), PngError::BadSignature);
    // What follows is a chunk with a wrong checksum.
    let mut bytes = testing_bytes();
    bytes[0] = 0;
    let last = bytes.len() - 1;
    bytes[last] ^= 1;
    assert_eq!(Png::try_from(bytes.as_slice()).unwrap_err(), PngError::BadSignature);
}

#[test]
fn fewer_than_eight_bytes_are_a_bad_signature() {
    for n in 0..8 {
        assert_eq!(Png::try_from(&HEADER[..n]).unwrap_err(), PngError::BadSignature);
    }
}

#[test]
fn too_few_bytes_for_a_chunk_are_trailing_bytes() {
    for extra in 1..12 {
        let mut bytes = testing_bytes();
        bytes.extend(std::iter::repeat(0u8).take(extra));
        assert_eq!(Png::try_from(bytes.as_slice()).unwrap_err(), PngError::TrailingBytes);
        let mut bytes = HEADER.to_vec();
        bytes.extend(std::iter::repeat(b'a').take(extra));
        assert_eq!(Png::try_from(bytes.as_slice()).unwrap_err(), PngError::TrailingBytes);
    }
}

#[test]
fn a_last_chunk_cut_short_is_truncated() {
    let bytes = testing_bytes();
    let last = chunk("LASt", "I am the last chunk").as_bytes().len();
    // At least twelve bytes of the last chunk are left: a frame whose data is missing.
    for cut in 1..=(last - 12) {
        assert_eq!(
            Png::try_from(&bytes[..bytes.len() - cut]).unwrap_err(),
            PngError::Truncated
        );
    }
    // Fewer than twelve are left: they frame nothing.
    for cut in (last - 11)..last {
        assert_eq!(
            Png::try_from(&bytes[..bytes.len() - cut]).unwrap_err(),
            PngError::TrailingBytes
        );
    }
    assert_eq!(Png::try_from(&bytes[..bytes.len() - last]).unwrap().chunks().len(), 2);
}

#[test]
fn the_failure_of_a_chunk_is_that_of_the_container() {
    let first = chunk("FrSt", "I am the first chunk").as_bytes().len();
    // A wrong checksum in the second chunk.
    let mut bytes = testing_bytes();
    bytes[8 + first + 10] ^= 1;
    assert_eq!(Png::try_from(bytes.as_slice()).unwrap_err(), PngError::ChecksumMismatch);
    // A digit in the type of the second chunk.
    let mut bytes = testing_bytes();
    bytes[8 + first + 5] = b'7';
    assert_eq!(Png::try_from(bytes.as_slice()).unwrap_err(), PngError::InvalidTag);
    // A length in the second chunk that reaches beyond the buffer.
    let mut bytes = testing_bytes();
    bytes[8 + first] = 1;
    assert_eq!(Png::try_from(bytes.as_slice()).unwrap_err(), PngError::Truncated);
}

#[test]
fn an_appended_chunk_is_found() {
    let mut png = Png::from_chunks(testing_chunks());
    png.append_chunk(chunk("TeSt", "Message"));
    assert_eq!(tags(&png), vec!["FrSt", "miDl", "LASt", "TeSt"]);
    let found = png.chunk_by_type("TeSt").unwrap().unwrap();
    assert_eq!(found.chunk_type().to_string(), "TeSt");
    assert_eq!(found.data_as_string().unwrap(), "Message");
}

#[test]
fn of_several_chunks_of_a_type_the_earliest_is_found() {
    let mut png = Png::from_chunks(testing_chunks());
    png.append_chunk(chunk("miDl", "a later one"));
    png.append_chunk(chunk("miDl", "the latest one"));
    let found = png.chunk_by_type("miDl").unwrap().unwrap();
    assert_eq!(found.data_as_string().unwrap(), "I am another chunk");
}

#[test]
fn of_several_chunks_of_a_type_the_earliest_is_removed() {
    let mut png = Png::from_chunks(testing_chunks());
    png.append_chunk(chunk("miDl", "a later one"));
    let removed = png.remove_chunk("miDl").unwrap();
    assert_eq!(removed.data_as_string().unwrap(), "I am another chunk");
    assert_eq!(tags(&png), vec!["FrSt", "LASt", "miDl"]);
    let removed = png.remove_chunk("miDl").unwrap();
    assert_eq!(removed.data_as_string().unwrap(), "a later one");
    assert_eq!(tags(&png), vec!["FrSt", "LASt"]);
    assert_eq!(png.remove_chunk("miDl").unwrap_err(), PngError::NotFound);
}

#[test]
fn a_type_that_no_chunk_has_is_not_found() {
    let png = Png::from_chunks(testing_chunks());
    assert!(png.chunk_by_type("TeSt").unwrap().is_none());
    // The case of each letter counts.
    assert!(png.chunk_by_type("frst").unwrap().is_none());
    assert!(Png::new().chunk_by_type("FrSt").unwrap().is_none());
}

#[test]
fn removing_what_is_not_there_changes_nothing() {
    let mut png = Png::from_chunks(testing_chunks());
    let before = png.as_bytes();
    assert_eq!(png.remove_chunk("TeSt").unwrap_err(), PngError::NotFound);
    assert_eq!(png.as_bytes(), before);
    assert_eq!(tags(&png), vec!["FrSt", "miDl", "LASt"]);
    let mut empty = Png::new();
    assert_eq!(empty.remove_chunk("TeSt").unwrap_err(), PngError::NotFound);
    assert_eq!(empty.as_bytes(), HEADER.to_vec());
}

#[test]
fn text_that_spells_no_type_fails_as_the_type_does() {
    let mut png = Png::from_chunks(testing_chunks());
    let before = png.as_bytes();
    assert_eq!(png.chunk_by_type("FrS").unwrap_err(), PngError::InvalidLength);
    assert_eq!(png.chunk_by_type("FrS1").unwrap_err(), PngError::InvalidTag);
    assert_eq!(png.remove_chunk("FrStx").unwrap_err(), PngError::InvalidLength);
    assert_eq!(png.remove_chunk("Fr t").unwrap_err(), PngError::InvalidTag);
    assert_eq!(png.as_bytes(), before);
}

#[test]
fn the_trait_reads_as_the_method_does() {
    let bytes = testing_bytes();
    let png: Png = TryFrom::try_from(bytes.as_slice()).unwrap();
    assert_eq!(png.as_bytes(), bytes);
    let bad: Result<Png, PngError> = TryFrom::try_from(&bytes[1..]);
    assert_eq!(bad.unwrap_err(), PngError::BadSignature);
}
