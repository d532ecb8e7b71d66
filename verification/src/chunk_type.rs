use vstd::prelude::*;
use vstd::string::StringSliceAdditionalSpecFns;
use vstd::utf8::encode_utf8;
use crate::error::PngError;
use crate::text::{ascii_chars, lemma_ascii_is_utf8};

verus! {

/// Whether `b` is an ASCII letter, `A` to `Z` or `a` to `z`.
pub open spec fn is_alphabetic(b: u8) -> bool {
    (0x41 <= b <= 0x5a) || (0x61 <= b <= 0x7a)
}

/// Whether `b` is an ASCII capital letter.
pub open spec fn is_uppercase(b: u8) -> bool {
    0x41 <= b <= 0x5a
}

/// Whether `b` is an ASCII small letter.
pub open spec fn is_lowercase(b: u8) -> bool {
    0x61 <= b <= 0x7a
}

/// Whether every byte of `bytes` is an ASCII letter.
pub open spec fn all_alphabetic(bytes: Seq<u8>) -> bool {
    forall|i: int| 0 <= i < bytes.len() ==> is_alphabetic(#[trigger] bytes[i])
}

/// What a chunk type given as text comes to: the text's own bytes where
/// they are four ASCII letters, `InvalidLength` where they are not four,
/// and otherwise `InvalidTag`.
pub open spec fn type_of_text(text: Seq<u8>) -> Result<Seq<u8>, PngError> {
    if text.len() != 4 {
        Err(PngError::InvalidLength)
    } else if !all_alphabetic(text) {
        Err(PngError::InvalidTag)
    } else {
        Ok(text)
    }
}

fn byte_is_alphabetic(b: u8) -> (r: bool)
    ensures
        r == is_alphabetic(b),
{
    (0x41 <= b && b <= 0x5a) || (0x61 <= b && b <= 0x7a)
}

/// Tells whether all four bytes are ASCII letters.
pub fn is_bytes_ascii_alphabetic(bytes: &[u8; 4]) -> (res: bool)
    ensures
        res == all_alphabetic(bytes@),
{
    let mut res = true;
    let mut i: usize = 0;
    while i < 4
        invariant
            i <= 4,
            res == all_alphabetic(bytes@.take(i as int)),
        decreases 4 - i,
    {
        if !byte_is_alphabetic(bytes[i]) {
            res = false;
        }
        proof {
            let before = bytes@.take(i as int);
            let after = bytes@.take(i + 1);
            assert(after[i as int] == bytes@[i as int]);
            assert(forall|j: int| 0 <= j < i ==> before[j] == after[j]);
        }
        i += 1;
    }
    assert(bytes@.take(4) =~= bytes@);
    res
}

/// A four-letter chunk type. The case of each letter is a flag.
#[derive(Debug, Clone, Copy)]
pub struct ChunkType {
    bytes: [u8; 4],
}

impl View for ChunkType {
    type V = Seq<u8>;

    /// The four bytes, in order.
    closed spec fn view(&self) -> Seq<u8> {
        self.bytes@
    }
}

impl ChunkType {
    /// What holds of every chunk type: four bytes, all ASCII letters.
    #[verifier::type_invariant]
    pub open spec fn wf(&self) -> bool {
        self@.len() == 4 && all_alphabetic(self@)
    }

    /// Makes a chunk type of four bytes. Fails with `InvalidTag` exactly
    /// when one of them is not an ASCII letter.
    pub fn try_from(value: [u8; 4]) -> (r: Result<ChunkType, PngError>)
        ensures
            all_alphabetic(value@) ==> r is Ok && r->Ok_0@ == value@ && r->Ok_0.wf(),
            !all_alphabetic(value@) ==> r == Err::<ChunkType, PngError>(PngError::InvalidTag),
    {
        if !is_bytes_ascii_alphabetic(&value) {
            return Err(PngError::InvalidTag);
        }
        Ok(ChunkType { bytes: value })
    }

    /// Makes a chunk type of a text of four ASCII letters.
    pub fn from_str(s: &str) -> (r: Result<ChunkType, PngError>)
        ensures
            match type_of_text(s.spec_bytes()) {
                Ok(t) => r is Ok && r->Ok_0@ == t && r->Ok_0.wf(),
                Err(e) => r == Err::<ChunkType, PngError>(e),
            },
    {
        let text = s.as_bytes();
        if text.len() != 4 {
            return Err(PngError::InvalidLength);
        }
        let value: [u8; 4] = [text[0], text[1], text[2], text[3]];
        assert(value@ =~= text@);
        ChunkType::try_from(value)
    }

    /// The four bytes.
    pub fn bytes(&self) -> (r: [u8; 4])
        ensures
            r@ == self@,
    {
        self.bytes
    }

    /// Whether the bytes are ASCII letters and the third of them a capital.
    /// The first half holds of every chunk type; it is tested all the same.
    pub fn is_valid(&self) -> (r: bool)
        ensures
            r == (all_alphabetic(self@) && is_uppercase(self@[2])),
            r == is_uppercase(self@[2]),
    {
        proof {
            use_type_invariant(self);
        }
        is_bytes_ascii_alphabetic(&self.bytes) && self.is_reserved_bit_valid()
    }

    /// Whether the first letter is a capital.
    pub fn is_critical(&self) -> (r: bool)
        ensures
            r == is_uppercase(self@[0]),
    {
        0x41 <= self.bytes[0] && self.bytes[0] <= 0x5a
    }

    /// Whether the second letter is a capital.
    pub fn is_public(&self) -> (r: bool)
        ensures
            r == is_uppercase(self@[1]),
    {
        0x41 <= self.bytes[1] && self.bytes[1] <= 0x5a
    }

    /// Whether the third letter is a capital.
    pub fn is_reserved_bit_valid(&self) -> (r: bool)
        ensures
            r == is_uppercase(self@[2]),
    {
        0x41 <= self.bytes[2] && self.bytes[2] <= 0x5a
    }

    /// Whether the fourth letter is a small one.
    pub fn is_safe_to_copy(&self) -> (r: bool)
        ensures
            r == is_lowercase(self@[3]),
    {
        0x61 <= self.bytes[3] && self.bytes[3] <= 0x7a
    }

    /// The four letters as text.
    pub fn to_string(&self) -> (r: String)
        ensures
            r@ == ascii_chars(self@),
            encode_utf8(r@) == self@,
    {
        proof {
            use_type_invariant(self);
            lemma_ascii_is_utf8(self.bytes@);
        }
        let mut text: Vec<u8> = Vec::new();
        text.push(self.bytes[0]);
        text.push(self.bytes[1]);
        text.push(self.bytes[2]);
        text.push(self.bytes[3]);
        assert(text@ =~= self.bytes@);
        match String::from_utf8(text) {
            Ok(s) => {
                proof {
                    vstd::utf8::encode_utf8_decode_utf8(s@);
                }
                s
            },
            Err(_) => String::new(),
        }
    }
}

impl TryFrom<[u8; 4]> for ChunkType {
    type Error = PngError;

    fn try_from(value: [u8; 4]) -> (r: Result<ChunkType, PngError>) {
        let r = ChunkType::try_from(value);
        assert(r is Ok ==> r->Ok_0.bytes =~= value);
        r
    }
}

impl vstd::std_specs::convert::TryFromSpecImpl<[u8; 4]> for ChunkType {
    open spec fn obeys_try_from_spec() -> bool {
        true
    }

    closed spec fn try_from_spec(v: [u8; 4]) -> Result<ChunkType, PngError> {
        if all_alphabetic(v@) {
            Ok(ChunkType { bytes: v })
        } else {
            Err(PngError::InvalidTag)
        }
    }
}

impl std::str::FromStr for ChunkType {
    type Err = PngError;

    /// Makes a chunk type of a text of four ASCII letters, as the method
    /// of the same name does.
    fn from_str(s: &str) -> (r: Result<ChunkType, PngError>)
        ensures
            match type_of_text(s.spec_bytes()) {
                Ok(t) => r is Ok && r->Ok_0@ == t && r->Ok_0.wf(),
                Err(e) => r == Err::<ChunkType, PngError>(e),
            },
    {
        ChunkType::from_str(s)
    }
}

impl PartialEq for ChunkType {
    fn eq(&self, other: &ChunkType) -> (r: bool) {
        let r = self.bytes[0] == other.bytes[0] && self.bytes[1] == other.bytes[1]
            && self.bytes[2] == other.bytes[2] && self.bytes[3] == other.bytes[3];
        assert(r == (self.bytes@ =~= other.bytes@));
        r
    }
}

impl Eq for ChunkType {}

impl vstd::std_specs::cmp::PartialEqSpecImpl for ChunkType {
    open spec fn obeys_eq_spec() -> bool {
        true
    }

    /// Two chunk types are equal when their bytes are.
    open spec fn eq_spec(&self, other: &ChunkType) -> bool {
        self@ == other@
    }
}

} // verus!
