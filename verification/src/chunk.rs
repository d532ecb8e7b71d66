use vstd::prelude::*;
use vstd::slice::{slice_subrange, slice_to_vec};
use vstd::string::StringExecFns;
use vstd::utf8::{decode_utf8, valid_utf8};
use crate::checksum::{checksum, crc32};
use crate::chunk_type::{all_alphabetic, is_alphabetic, ChunkType};
use crate::error::PngError;
use crate::text::{ascii_chars, decimal, decimal_string};
use crate::wire::{
    append_bytes, be_bytes, be_value, lemma_be_bytes_of_value, lemma_be_value_of_bytes,
    length_field, read_be, to_be_bytes,
};

verus! {

/// What a chunk holds, as mathematics: the four bytes of its type, its
/// data, and its checksum.
pub struct ChunkModel {
    pub chunk_type: Seq<u8>,
    pub data: Seq<u8>,
    pub crc: u32,
}

impl ChunkModel {
    /// The type is four ASCII letters, and the checksum is that of the type
    /// followed by the data.
    pub open spec fn wf(self) -> bool {
        &&& self.chunk_type.len() == 4
        &&& all_alphabetic(self.chunk_type)
        &&& self.crc == crc32(self.chunk_type + self.data)
    }

    /// The length of the data can be written in the length field.
    pub open spec fn fits(self) -> bool {
        self.data.len() <= u32::MAX
    }

    /// These fields, once the checksum that type and data give is known
    /// to be `computed`: the same fields where it is the one they hold,
    /// and `ChecksumMismatch` where it is not.
    pub open spec fn judged(self, computed: u32) -> Result<ChunkModel, PngError> {
        if self.crc == computed {
            Ok(self)
        } else {
            Err(PngError::ChecksumMismatch)
        }
    }

    /// The chunk on the wire: length, type, data, checksum.
    pub open spec fn as_bytes(self) -> Seq<u8> {
        be_bytes(length_field(self.data.len())) + self.chunk_type + self.data + be_bytes(self.crc)
    }

    /// The chunk in words, for a reader: the length field, the type, the
    /// number of bytes of data and the checksum, a line each.
    pub open spec fn summary(self) -> Seq<char> {
        "Chunk {\n  Length: "@ + ascii_chars(decimal(length_field(self.data.len()) as nat))
            + "\n  Type: "@ + ascii_chars(self.chunk_type) + "\n  Data: "@ + ascii_chars(
            decimal(self.data.len()),
        ) + " bytes\n  Crc: "@ + ascii_chars(decimal(self.crc as nat)) + "\n}\n"@
    }
}

/// The fields of the chunk that `bytes` begins with, as they stand there:
/// the checksum is the one that is stored, and nothing has judged it yet.
///
/// The fields are read in order, and the first that fails decides: a
/// length or a type that is cut short is `Truncated`, a type that is not
/// four ASCII letters is `InvalidTag`, and data or a checksum that is cut
/// short is `Truncated`. Bytes after the checksum are not looked at.
pub open spec fn read_frame(bytes: Seq<u8>) -> Result<ChunkModel, PngError> {
    if bytes.len() < 8 {
        Err(PngError::Truncated)
    } else if !all_alphabetic(bytes.subrange(4, 8)) {
        Err(PngError::InvalidTag)
    } else {
        let len = be_value(bytes.subrange(0, 4)) as int;
        if bytes.len() < 12 + len {
            Err(PngError::Truncated)
        } else {
            Ok(
                ChunkModel {
                    chunk_type: bytes.subrange(4, 8),
                    data: bytes.subrange(8, 8 + len),
                    crc: be_value(bytes.subrange(8 + len, 12 + len)),
                },
            )
        }
    }
}

/// The chunk that `bytes` begins with, or why it begins with none: its
/// fields as they are read, where the checksum that is stored is the one
/// that type and data give, and `ChecksumMismatch` where it is another.
pub open spec fn parse_chunk(bytes: Seq<u8>) -> Result<ChunkModel, PngError> {
    match read_frame(bytes) {
        Err(e) => Err(e),
        Ok(frame) => frame.judged(crc32(frame.chunk_type + frame.data)),
    }
}

/// The fields of a chunk as they were read from a buffer. The checksum is
/// the one that stood there; whether it is the right one is not known.
#[derive(Debug)]
pub struct Frame {
    pub chunk_type: ChunkType,
    pub data: Vec<u8>,
    pub crc: u32,
}

impl View for Frame {
    type V = ChunkModel;

    open spec fn view(&self) -> ChunkModel {
        ChunkModel { chunk_type: self.chunk_type@, data: self.data@, crc: self.crc }
    }
}

impl Frame {
    /// Reads the fields of the chunk that `value` begins with.
    pub fn read(value: &[u8]) -> (r: Result<Frame, PngError>)
        ensures
            match read_frame(value@) {
                Ok(m) => r is Ok && r->Ok_0@ == m,
                Err(e) => r == Err::<Frame, PngError>(e),
            },
            r is Ok ==> 12 + r->Ok_0@.data.len() <= value@.len() <= usize::MAX,
    {
        let total = value.len();
        if total < 8 {
            return Err(PngError::Truncated);
        }
        let length = read_be(value, 0);
        let tag: [u8; 4] = [value[4], value[5], value[6], value[7]];
        assert(tag@ =~= value@.subrange(4, 8));
        let chunk_type = match ChunkType::try_from(tag) {
            Ok(t) => t,
            Err(e) => {
                return Err(e);
            },
        };
        let rest: usize = total - 8;
        if (rest as u64) < (length as u64) {
            return Err(PngError::Truncated);
        }
        let len: usize = length as usize;
        if rest - len < 4 {
            return Err(PngError::Truncated);
        }
        let end: usize = 8 + len;
        let crc = read_be(value, end);
        let data = slice_to_vec(slice_subrange(value, 8, end));
        Ok(Frame { chunk_type, data, crc })
    }

    /// Holds the checksum that was read against the one that was computed:
    /// the fields unchanged where the two are equal, and
    /// `ChecksumMismatch` where they are not.
    pub fn judge(self, computed: u32) -> (r: Result<Frame, PngError>)
        ensures
            match self@.judged(computed) {
                Ok(m) => r == Ok::<Frame, PngError>(self),
                Err(e) => r == Err::<Frame, PngError>(e),
            },
    {
        if self.crc != computed {
            return Err(PngError::ChecksumMismatch);
        }
        Ok(self)
    }
}

/// One chunk: a type, data of any length, and the checksum of both.
#[derive(Debug)]
pub struct Chunk {
    chunk_type: ChunkType,
    data: Vec<u8>,
    crc: u32,
}

impl View for Chunk {
    type V = ChunkModel;

    closed spec fn view(&self) -> ChunkModel {
        ChunkModel { chunk_type: self.chunk_type@, data: self.data@, crc: self.crc }
    }
}

impl Chunk {
    /// What holds of every chunk: its model is well formed.
    #[verifier::type_invariant]
    pub open spec fn wf(&self) -> bool {
        self@.wf()
    }

    /// Makes a chunk of a type and data, and computes its checksum.
    pub fn new(chunk_type: ChunkType, data: Vec<u8>) -> (r: Chunk)
        ensures
            r@.chunk_type == chunk_type@,
            r@.data == data@,
            r@.crc == crc32(chunk_type@ + data@),
            r.wf(),
    {
        proof {
            use_type_invariant(&chunk_type);
        }
        let tag = chunk_type.bytes();
        let mut combined: Vec<u8> = Vec::new();
        append_bytes(&mut combined, tag.as_slice());
        append_bytes(&mut combined, data.as_slice());
        assert(combined@ =~= chunk_type@ + data@);
        let crc = checksum(combined.as_slice());
        Chunk { chunk_type, data, crc }
    }

    /// Reads the chunk that `value` begins with: its fields, and then the
    /// checksum of type and data, against which the one read is held.
    pub fn try_from(value: &[u8]) -> (r: Result<Chunk, PngError>)
        ensures
            match parse_chunk(value@) {
                Ok(m) => r is Ok && r->Ok_0@ == m && r->Ok_0.wf(),
                Err(e) => r == Err::<Chunk, PngError>(e),
            },
    {
        let frame = match Frame::read(value) {
            Ok(f) => f,
            Err(e) => {
                return Err(e);
            },
        };
        let end: usize = 8 + frame.data.len();
        assert(value@.subrange(4, end as int) =~= frame@.chunk_type + frame@.data);
        let computed = checksum(slice_subrange(value, 4, end));
        let frame = match frame.judge(computed) {
            Ok(f) => f,
            Err(e) => {
                return Err(e);
            },
        };
        proof {
            use_type_invariant(&frame.chunk_type);
        }
        Ok(Chunk { chunk_type: frame.chunk_type, data: frame.data, crc: frame.crc })
    }

    /// The number of bytes of data, as the length field holds it.
    pub fn length(&self) -> (r: u32)
        ensures
            r == length_field(self@.data.len()),
            self@.fits() ==> r == self@.data.len(),
    {
        (self.data.len() as u64 % 0x1_0000_0000) as u32
    }

    /// The chunk's type.
    pub fn chunk_type(&self) -> (r: &ChunkType)
        ensures
            r@ == self@.chunk_type,
    {
        &self.chunk_type
    }

    /// The chunk's data.
    pub fn data(&self) -> (r: &[u8])
        ensures
            r@ == self@.data,
    {
        self.data.as_slice()
    }

    /// The chunk's checksum.
    pub fn crc(&self) -> (r: u32)
        ensures
            r == self@.crc,
            r == crc32(self@.chunk_type + self@.data),
    {
        proof {
            use_type_invariant(self);
        }
        self.crc
    }

    /// The data as text. Fails with `NotUtf8` exactly when the data is not
    /// valid UTF-8.
    pub fn data_as_string(&self) -> (r: Result<String, PngError>)
        ensures
            valid_utf8(self@.data) ==> r is Ok && r->Ok_0@ == decode_utf8(self@.data),
            !valid_utf8(self@.data) ==> r == Err::<String, PngError>(PngError::NotUtf8),
    {
        match String::from_utf8(self.data.clone()) {
            Ok(s) => {
                proof {
                    vstd::utf8::encode_utf8_decode_utf8(s@);
                }
                Ok(s)
            },
            Err(_) => Err(PngError::NotUtf8),
        }
    }

    /// The chunk in words, for a reader.
    pub fn to_string(&self) -> (r: String)
        ensures
            r@ == self@.summary(),
    {
        let mut s = String::from_str("Chunk {\n  Length: ");
        s.append(decimal_string(self.length() as u64).as_str());
        s.append("\n  Type: ");
        s.append(self.chunk_type.to_string().as_str());
        s.append("\n  Data: ");
        s.append(decimal_string(self.data.len() as u64).as_str());
        s.append(" bytes\n  Crc: ");
        s.append(decimal_string(self.crc as u64).as_str());
        s.append("\n}\n");
        s
    }

    /// The chunk on the wire: the length of the data in four bytes, the
    /// type, the data, and the checksum in four bytes.
    pub fn as_bytes(&self) -> (r: Vec<u8>)
        ensures
            r@ == self@.as_bytes(),
            r@.len() == 12 + self@.data.len(),
    {
        proof {
            use_type_invariant(self);
        }
        let mut out: Vec<u8> = Vec::new();
        append_bytes(&mut out, to_be_bytes(self.length()).as_slice());
        append_bytes(&mut out, self.chunk_type.bytes().as_slice());
        append_bytes(&mut out, self.data.as_slice());
        append_bytes(&mut out, to_be_bytes(self.crc).as_slice());
        out
    }
}

impl Clone for Chunk {
    /// A chunk of the same type, data and checksum.
    fn clone(&self) -> (r: Chunk)
        ensures
            r@ == self@,
    {
        proof {
            use_type_invariant(self);
        }
        Chunk { chunk_type: self.chunk_type, data: self.data.clone(), crc: self.crc }
    }
}

impl<'a> TryFrom<&'a [u8]> for Chunk {
    type Error = PngError;

    /// Reads the chunk that `value` begins with, as the method of the
    /// same name does.
    fn try_from(value: &'a [u8]) -> (r: Result<Chunk, PngError>)
        ensures
            match parse_chunk(value@) {
                Ok(m) => r is Ok && r->Ok_0@ == m && r->Ok_0.wf(),
                Err(e) => r == Err::<Chunk, PngError>(e),
            },
    {
        Chunk::try_from(value)
    }
}

impl<'a> vstd::std_specs::convert::TryFromSpecImpl<&'a [u8]> for Chunk {
    /// No chunk can be named in a specification by its bytes alone, so the
    /// trait's own clause is switched off; what `try_from` returns is
    /// stated on the impl.
    open spec fn obeys_try_from_spec() -> bool {
        false
    }

    open spec fn try_from_spec(v: &'a [u8]) -> Result<Chunk, PngError> {
        arbitrary()
    }
}

/// Where each field of a frame stands in it.
proof fn lemma_layout(length: Seq<u8>, tag: Seq<u8>, data: Seq<u8>, crc: Seq<u8>, rest: Seq<u8>)
    requires
        length.len() == 4,
        tag.len() == 4,
        crc.len() == 4,
    ensures
        ({
            let frame = length + tag + data + crc;
            let bytes = frame + rest;
            let len = data.len() as int;
            &&& frame.len() == 12 + len
            &&& bytes.len() == 12 + len + rest.len()
            &&& bytes.subrange(0, 4) == length
            &&& bytes.subrange(4, 8) == tag
            &&& bytes.subrange(8, 8 + len) == data
            &&& bytes.subrange(8 + len, 12 + len) == crc
            &&& bytes.subrange(4, 8 + len) == tag + data
            &&& bytes.skip(12 + len) == rest
        }),
{
    let frame = length + tag + data + crc;
    let bytes = frame + rest;
    let len = data.len() as int;
    assert(bytes.subrange(0, 4) =~= length);
    assert(bytes.subrange(4, 8) =~= tag);
    assert(bytes.subrange(8, 8 + len) =~= data);
    assert(bytes.subrange(8 + len, 12 + len) =~= crc);
    assert(bytes.subrange(4, 8 + len) =~= tag + data);
    assert(bytes.skip(12 + len) =~= rest);
}

/// A well-formed chunk whose length fits is read back from its bytes,
/// whatever bytes follow them.
pub proof fn lemma_parse_as_bytes(c: ChunkModel, rest: Seq<u8>)
    requires
        c.wf(),
        c.fits(),
    ensures
        c.as_bytes().len() == 12 + c.data.len(),
        (c.as_bytes() + rest).skip(12 + c.data.len() as int) == rest,
        parse_chunk(c.as_bytes() + rest) == Ok::<ChunkModel, PngError>(c),
{
    let length = be_bytes(length_field(c.data.len()));
    let crc = be_bytes(c.crc);
    lemma_be_value_of_bytes(length_field(c.data.len()));
    lemma_be_value_of_bytes(c.crc);
    lemma_layout(length, c.chunk_type, c.data, crc, rest);
}

/// Where each field of a written chunk stands in it.
proof fn lemma_fields(c: ChunkModel)
    requires
        c.wf(),
    ensures
        ({
            let bytes = c.as_bytes();
            let len = c.data.len() as int;
            &&& bytes.len() == 12 + len
            &&& bytes.subrange(0, 4) == be_bytes(length_field(c.data.len()))
            &&& bytes.subrange(4, 8) == c.chunk_type
            &&& bytes.subrange(8, 8 + len) == c.data
            &&& bytes.subrange(8 + len, 12 + len) == be_bytes(c.crc)
            &&& bytes.subrange(4, 8 + len) == c.chunk_type + c.data
            &&& be_bytes(c.crc).len() == 4
            &&& be_value(be_bytes(c.crc)) == c.crc
            &&& be_value(be_bytes(length_field(c.data.len()))) == length_field(c.data.len())
        }),
{
    let length = be_bytes(length_field(c.data.len()));
    let crc = be_bytes(c.crc);
    lemma_be_value_of_bytes(length_field(c.data.len()));
    lemma_be_value_of_bytes(c.crc);
    lemma_layout(length, c.chunk_type, c.data, crc, Seq::empty());
    assert(c.as_bytes() + Seq::<u8>::empty() =~= c.as_bytes());
}

/// Writing a chunk and reading it back gives the same type, data and
/// checksum.
pub proof fn lemma_round_trip(c: ChunkModel)
    requires
        c.wf(),
        c.fits(),
    ensures
        parse_chunk(c.as_bytes()) == Ok::<ChunkModel, PngError>(c),
{
    lemma_fields(c);
}

/// Changing any one byte of the checksum of a written chunk makes reading
/// it fail with `ChecksumMismatch`.
pub proof fn lemma_corrupt_checksum(c: ChunkModel, i: int, b: u8)
    requires
        c.wf(),
        c.fits(),
        0 <= i < 4,
        b != c.as_bytes()[8 + c.data.len() + i],
    ensures
        parse_chunk(c.as_bytes().update(8 + c.data.len() + i, b)) == Err::<ChunkModel, PngError>(
            PngError::ChecksumMismatch,
        ),
{
    let len = c.data.len() as int;
    let whole = c.as_bytes();
    let bytes = whole.update(8 + len + i, b);
    lemma_fields(c);
    assert(bytes.subrange(0, 4) =~= whole.subrange(0, 4));
    assert(bytes.subrange(4, 8) =~= whole.subrange(4, 8));
    assert(bytes.subrange(8, 8 + len) =~= whole.subrange(8, 8 + len));
    let stored = bytes.subrange(8 + len, 12 + len);
    assert(stored[i] == b);
    assert(whole.subrange(8 + len, 12 + len)[i] == whole[8 + len + i]);
    if be_value(stored) == c.crc {
        lemma_be_bytes_of_value(stored);
    }
}

/// Every proper prefix of a written chunk fails to read with `Truncated`.
pub proof fn lemma_truncated(c: ChunkModel, n: int)
    requires
        c.wf(),
        c.fits(),
        0 <= n < c.as_bytes().len(),
    ensures
        parse_chunk(c.as_bytes().take(n)) == Err::<ChunkModel, PngError>(PngError::Truncated),
{
    let whole = c.as_bytes();
    let bytes = whole.take(n);
    lemma_fields(c);
    if n >= 8 {
        assert(bytes.subrange(0, 4) =~= whole.subrange(0, 4));
        assert(bytes.subrange(4, 8) =~= whole.subrange(4, 8));
    }
}

/// A written chunk with one byte taken out, at `k`, fails to read with
/// `Truncated`, as long as what then stands where the type is read is
/// still four letters and what stands where the length is read is no
/// smaller than before. Both hold wherever the byte comes out of the data
/// or the checksum.
pub proof fn lemma_byte_removed(c: ChunkModel, k: int)
    requires
        c.wf(),
        c.fits(),
        0 <= k < c.as_bytes().len(),
        k < 8 ==> is_alphabetic(c.as_bytes()[8]),
        k < 4 ==> be_value(c.as_bytes().remove(k).subrange(0, 4)) >= c.data.len(),
    ensures
        parse_chunk(c.as_bytes().remove(k)) == Err::<ChunkModel, PngError>(PngError::Truncated),
{
    let whole = c.as_bytes();
    let bytes = whole.remove(k);
    lemma_fields(c);
    assert forall|j: int| 0 <= j < 4 implies is_alphabetic(#[trigger] bytes.subrange(4, 8)[j]) by {
        if 4 + j < k {
            assert(bytes[4 + j] == whole[4 + j]);
            assert(whole[4 + j] == whole.subrange(4, 8)[j]);
        } else {
            assert(bytes[4 + j] == whole[5 + j]);
            if j < 3 {
                assert(whole[5 + j] == whole.subrange(4, 8)[j + 1]);
            }
        }
    }
    if k >= 4 {
        assert(bytes.subrange(0, 4) =~= whole.subrange(0, 4));
    }
}

/// What is read is well formed, its length fits, and the bytes it was
/// read from are the very bytes that writing it gives.
pub proof fn lemma_parsed(bytes: Seq<u8>)
    requires
        parse_chunk(bytes) is Ok,
    ensures
        ({
            let c = parse_chunk(bytes)->Ok_0;
            &&& c.wf()
            &&& c.fits()
            &&& bytes.len() >= 12 + c.data.len()
            &&& bytes.take(12 + c.data.len() as int) == c.as_bytes()
        }),
{
    let c = parse_chunk(bytes)->Ok_0;
    let len = c.data.len() as int;
    assert(bytes.subrange(4, 8 + len) =~= c.chunk_type + c.data);
    lemma_be_bytes_of_value(bytes.subrange(0, 4));
    lemma_be_bytes_of_value(bytes.subrange(8 + len, 12 + len));
    assert(bytes.take(12 + len) =~= bytes.subrange(0, 4) + c.chunk_type + c.data + bytes.subrange(
        8 + len,
        12 + len,
    ));
}

} // verus!
