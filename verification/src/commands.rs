use vstd::prelude::*;
use vstd::slice::slice_to_vec;
use vstd::string::StringSliceAdditionalSpecFns;
use vstd::utf8::{decode_utf8, valid_utf8};
use crate::checksum::crc32;
use crate::chunk::{Chunk, ChunkModel};
use crate::chunk_type::{type_of_text, ChunkType};
use crate::error::PngError;
use crate::png::{parse_png, png_bytes, position, Png};

verus! {

/// The chunk of type `t` that holds `message`.
pub open spec fn message_chunk(t: Seq<u8>, message: Seq<u8>) -> ChunkModel {
    ChunkModel { chunk_type: t, data: message, crc: crc32(t + message) }
}

/// The file with a message chunk at its end. The file is read first, so
/// its failure comes before that of the chunk type.
pub open spec fn encoded(file: Seq<u8>, type_text: Seq<u8>, message: Seq<u8>) -> Result<
    Seq<u8>,
    PngError,
> {
    match parse_png(file) {
        Err(e) => Err(e),
        Ok(chunks) => match type_of_text(type_text) {
            Err(e) => Err(e),
            Ok(t) => Ok(png_bytes(chunks.push(message_chunk(t, message)))),
        },
    }
}

/// The message that the first chunk of the type holds: `NotFound` where
/// there is no such chunk, `NotUtf8` where its data is no text.
pub open spec fn decoded(file: Seq<u8>, type_text: Seq<u8>) -> Result<Seq<char>, PngError> {
    match parse_png(file) {
        Err(e) => Err(e),
        Ok(chunks) => match type_of_text(type_text) {
            Err(e) => Err(e),
            Ok(t) => match position(chunks, t) {
                None => Err(PngError::NotFound),
                Some(i) => if valid_utf8(chunks[i].data) {
                    Ok(decode_utf8(chunks[i].data))
                } else {
                    Err(PngError::NotUtf8)
                },
            },
        },
    }
}

/// The file without the first chunk of the type: `NotFound` where there
/// is no such chunk.
pub open spec fn removed(file: Seq<u8>, type_text: Seq<u8>) -> Result<Seq<u8>, PngError> {
    match parse_png(file) {
        Err(e) => Err(e),
        Ok(chunks) => match type_of_text(type_text) {
            Err(e) => Err(e),
            Ok(t) => match position(chunks, t) {
                None => Err(PngError::NotFound),
                Some(i) => Ok(png_bytes(chunks.remove(i))),
            },
        },
    }
}

/// Hides `message` in the container that `file` holds, as a new last
/// chunk of the type that `chunk_type` spells, and returns the new file.
pub fn encode(file: &[u8], chunk_type: &str, message: &str) -> (r: Result<Vec<u8>, PngError>)
    ensures
        match encoded(file@, chunk_type.spec_bytes(), message.spec_bytes()) {
            Ok(bytes) => r is Ok && r->Ok_0@ == bytes,
            Err(e) => r == Err::<Vec<u8>, PngError>(e),
        },
{
    let mut png = match Png::try_from(file) {
        Ok(p) => p,
        Err(e) => {
            return Err(e);
        },
    };
    let tag = match ChunkType::from_str(chunk_type) {
        Ok(t) => t,
        Err(e) => {
            return Err(e);
        },
    };
    let chunk = Chunk::new(tag, slice_to_vec(message.as_bytes()));
    png.append_chunk(chunk);
    Ok(png.as_bytes())
}

/// Finds the message hidden in the container that `file` holds, in the
/// first chunk of the type that `chunk_type` spells.
pub fn decode(file: &[u8], chunk_type: &str) -> (r: Result<String, PngError>)
    ensures
        match decoded(file@, chunk_type.spec_bytes()) {
            Ok(text) => r is Ok && r->Ok_0@ == text,
            Err(e) => r == Err::<String, PngError>(e),
        },
{
    let png = match Png::try_from(file) {
        Ok(p) => p,
        Err(e) => {
            return Err(e);
        },
    };
    let found = match png.chunk_by_type(chunk_type) {
        Ok(f) => f,
        Err(e) => {
            return Err(e);
        },
    };
    match found {
        Some(chunk) => chunk.data_as_string(),
        None => Err(PngError::NotFound),
    }
}

/// Takes the first chunk of the type that `chunk_type` spells out of the
/// container that `file` holds, and returns the new file.
pub fn remove(file: &[u8], chunk_type: &str) -> (r: Result<Vec<u8>, PngError>)
    ensures
        match removed(file@, chunk_type.spec_bytes()) {
            Ok(bytes) => r is Ok && r->Ok_0@ == bytes,
            Err(e) => r == Err::<Vec<u8>, PngError>(e),
        },
{
    let mut png = match Png::try_from(file) {
        Ok(p) => p,
        Err(e) => {
            return Err(e);
        },
    };
    match png.remove_chunk(chunk_type) {
        Ok(_) => Ok(png.as_bytes()),
        Err(e) => Err(e),
    }
}

/// A summary of each chunk of the container that `file` holds, in order.
pub fn print_chunks(file: &[u8]) -> (r: Result<Vec<String>, PngError>)
    ensures
        match parse_png(file@) {
            Ok(chunks) => r is Ok && r->Ok_0@.len() == chunks.len() && forall|i: int|
                0 <= i < chunks.len() ==> (#[trigger] r->Ok_0@[i])@ == chunks[i].summary(),
            Err(e) => r == Err::<Vec<String>, PngError>(e),
        },
{
    let png = match Png::try_from(file) {
        Ok(p) => p,
        Err(e) => {
            return Err(e);
        },
    };
    let chunks = png.chunks();
    let mut lines: Vec<String> = Vec::new();
    let mut i: usize = 0;
    while i < chunks.len()
        invariant
            i <= chunks@.len(),
            chunks@.len() == png@.len(),
            crate::png::models(chunks@) == png@,
            lines@.len() == i,
            forall|j: int| 0 <= j < i ==> (#[trigger] lines@[j])@ == png@[j].summary(),
        decreases chunks@.len() - i,
    {
        assert(png@[i as int] == chunks@[i as int]@);
        lines.push(chunks[i].to_string());
        i += 1;
    }
    Ok(lines)
}

} // verus!
