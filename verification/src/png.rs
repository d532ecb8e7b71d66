use vstd::prelude::*;
use vstd::slice::slice_subrange;
use vstd::string::StringSliceAdditionalSpecFns;
use crate::chunk::{lemma_parse_as_bytes, lemma_parsed, parse_chunk, Chunk, ChunkModel};
use crate::chunk_type::{type_of_text, ChunkType};
use crate::error::PngError;
use crate::wire::append_bytes;

verus! {

/// The eight bytes that every container begins with.
pub open spec fn signature() -> Seq<u8> {
    seq![137u8, 80u8, 78u8, 71u8, 13u8, 10u8, 26u8, 10u8]
}

/// The chunks on the wire, one after the other.
pub open spec fn chunks_bytes(chunks: Seq<ChunkModel>) -> Seq<u8>
    decreases chunks.len(),
{
    if chunks.len() == 0 {
        Seq::empty()
    } else {
        chunks[0].as_bytes() + chunks_bytes(chunks.skip(1))
    }
}

/// The container on the wire: the signature, then the chunks.
pub open spec fn png_bytes(chunks: Seq<ChunkModel>) -> Seq<u8> {
    signature() + chunks_bytes(chunks)
}

/// `first` put in front of what `rest` holds, where it holds chunks.
pub open spec fn prepend(first: Seq<ChunkModel>, rest: Result<Seq<ChunkModel>, PngError>) -> Result<
    Seq<ChunkModel>,
    PngError,
> {
    match rest {
        Ok(more) => Ok(first + more),
        Err(e) => Err(e),
    }
}

/// The chunks that `bytes` is made of, or why it is not made of chunks.
///
/// No bytes are no chunks. Fewer than twelve bytes cannot frame a chunk
/// and are `TrailingBytes`. Otherwise a chunk is read, and its failure is
/// the failure of the whole; after it, the rest is read in the same way.
pub open spec fn parse_chunks(bytes: Seq<u8>) -> Result<Seq<ChunkModel>, PngError>
    decreases bytes.len(),
{
    if bytes.len() == 0 {
        Ok(Seq::empty())
    } else if bytes.len() < 12 {
        Err(PngError::TrailingBytes)
    } else {
        match parse_chunk(bytes) {
            Err(e) => Err(e),
            Ok(c) => prepend(seq![c], parse_chunks(bytes.skip(12 + c.data.len() as int))),
        }
    }
}

/// The chunks of the container that `bytes` holds: `BadSignature` unless
/// it begins with the signature, and otherwise what the rest is made of.
pub open spec fn parse_png(bytes: Seq<u8>) -> Result<Seq<ChunkModel>, PngError> {
    if bytes.len() < 8 || bytes.take(8) != signature() {
        Err(PngError::BadSignature)
    } else {
        parse_chunks(bytes.skip(8))
    }
}

/// Whether `i` is the place of the first chunk of type `t`.
pub open spec fn is_first(chunks: Seq<ChunkModel>, t: Seq<u8>, i: int) -> bool {
    &&& 0 <= i < chunks.len()
    &&& chunks[i].chunk_type == t
    &&& forall|j: int| 0 <= j < i ==> (#[trigger] chunks[j]).chunk_type != t
}

/// The place of the first chunk of type `t`, if there is one.
pub open spec fn position(chunks: Seq<ChunkModel>, t: Seq<u8>) -> Option<int> {
    if exists|i: int| is_first(chunks, t, i) {
        Some(choose|i: int| is_first(chunks, t, i))
    } else {
        None
    }
}

/// The models of a sequence of chunks.
pub open spec fn models(chunks: Seq<Chunk>) -> Seq<ChunkModel> {
    chunks.map_values(|c: Chunk| c@)
}

/// There is one first chunk of a type at most, and `position` names it.
pub proof fn lemma_position(chunks: Seq<ChunkModel>, t: Seq<u8>, i: int)
    requires
        is_first(chunks, t, i),
    ensures
        position(chunks, t) == Some(i),
{
    let k = choose|k: int| is_first(chunks, t, k);
    assert(is_first(chunks, t, k));
    if k < i {
        assert(chunks[k].chunk_type != t);
    } else if i < k {
        assert(chunks[i].chunk_type != t);
    }
}

/// Where no chunk has the type, `position` is `None`.
pub proof fn lemma_position_none(chunks: Seq<ChunkModel>, t: Seq<u8>)
    requires
        forall|j: int| 0 <= j < chunks.len() ==> (#[trigger] chunks[j]).chunk_type != t,
    ensures
        position(chunks, t) is None,
{
}

/// A container: chunks in the order in which they stand on the wire.
#[derive(Debug)]
pub struct Png {
    chunks: Vec<Chunk>,
}

impl View for Png {
    type V = Seq<ChunkModel>;

    closed spec fn view(&self) -> Seq<ChunkModel> {
        models(self.chunks@)
    }
}

impl Png {
    /// The signature, as the bytes that are written and looked for.
    pub fn header() -> (r: [u8; 8])
        ensures
            r@ == signature(),
    {
        let r: [u8; 8] = [137, 80, 78, 71, 13, 10, 26, 10];
        assert(r@ =~= signature());
        r
    }

    /// A container with no chunks.
    pub fn new() -> (r: Png)
        ensures
            r@ == Seq::<ChunkModel>::empty(),
    {
        let r = Png { chunks: Vec::new() };
        assert(r@ =~= Seq::<ChunkModel>::empty());
        r
    }

    /// A container of the given chunks, in their order.
    pub fn from_chunks(chunks: Vec<Chunk>) -> (r: Png)
        ensures
            r@ == models(chunks@),
    {
        Png { chunks }
    }

    /// Puts `chunk` after the chunks that are there. Nothing is asked of
    /// its type: chunks of one type may stand side by side.
    pub fn append_chunk(&mut self, chunk: Chunk)
        ensures
            final(self)@ == old(self)@.push(chunk@),
    {
        self.chunks.push(chunk);
        assert(self@ =~= old(self)@.push(chunk@));
    }

    /// The chunks, in their order.
    pub fn chunks(&self) -> (r: &[Chunk])
        ensures
            models(r@) == self@,
    {
        self.chunks.as_slice()
    }

    /// Reads a container: the signature, and then chunks to the last byte.
    pub fn try_from(value: &[u8]) -> (r: Result<Png, PngError>)
        ensures
            match parse_png(value@) {
                Ok(m) => r is Ok && r->Ok_0@ == m,
                Err(e) => r == Err::<Png, PngError>(e),
            },
            value@.len() < 8 || value@.take(8) != signature() ==> r == Err::<Png, PngError>(
                PngError::BadSignature,
            ),
    {
        let total = value.len();
        if total < 8 {
            return Err(PngError::BadSignature);
        }
        let header = Png::header();
        let mut k: usize = 0;
        while k < 8
            invariant
                k <= 8 <= total == value@.len(),
                header@ == signature(),
                forall|j: int| 0 <= j < k ==> value@[j] == signature()[j],
            decreases 8 - k,
        {
            if value[k] != header[k] {
                assert(value@.take(8)[k as int] != signature()[k as int]);
                return Err(PngError::BadSignature);
            }
            k += 1;
        }
        assert(value@.take(8) =~= signature());
        let ghost body = value@.skip(8);
        let mut chunks: Vec<Chunk> = Vec::new();
        let mut at: usize = 8;
        assert(body.skip(0) =~= body);
        assert(models(chunks@) =~= Seq::<ChunkModel>::empty());
        assert(prepend(Seq::empty(), parse_chunks(body)) == parse_chunks(body)) by {
            match parse_chunks(body) {
                Ok(m) => {
                    assert(Seq::<ChunkModel>::empty() + m =~= m);
                },
                Err(_) => {},
            }
        }
        while at < total
            invariant
                8 <= at <= total == value@.len(),
                body == value@.skip(8),
                parse_png(value@) == parse_chunks(body),
                parse_chunks(body) == prepend(models(chunks@), parse_chunks(body.skip(at - 8))),
            decreases total - at,
        {
            let ghost rest = body.skip(at - 8);
            if total - at < 12 {
                return Err(PngError::TrailingBytes);
            }
            let piece = slice_subrange(value, at, total);
            assert(piece@ =~= rest);
            let chunk = match Chunk::try_from(piece) {
                Ok(c) => c,
                Err(e) => {
                    return Err(e);
                },
            };
            let size: usize = 12 + chunk.data().len();
            proof {
                let after = rest.skip(size as int);
                assert(after =~= body.skip(at + size - 8));
                let done = models(chunks@);
                assert(models(chunks@.push(chunk)) =~= done.push(chunk@));
                match parse_chunks(after) {
                    Ok(m) => {
                        assert(done + (seq![chunk@] + m) =~= done.push(chunk@) + m);
                    },
                    Err(_) => {},
                }
            }
            chunks.push(chunk);
            at += size;
        }
        proof {
            assert(body.skip(at - 8) =~= Seq::<u8>::empty());
            assert(models(chunks@) + Seq::<ChunkModel>::empty() =~= models(chunks@));
        }
        Ok(Png { chunks })
    }

    /// The place of the first chunk whose type is `wanted`.
    fn find(&self, wanted: &ChunkType) -> (r: Option<usize>)
        ensures
            match r {
                Some(i) => position(self@, wanted@) == Some(i as int) && i < self.chunks@.len(),
                None => position(self@, wanted@) is None,
            },
    {
        let mut i: usize = 0;
        while i < self.chunks.len()
            invariant
                i <= self.chunks@.len(),
                self@.len() == self.chunks@.len(),
                forall|j: int| 0 <= j < i ==> (#[trigger] self@[j]).chunk_type != wanted@,
            decreases self.chunks@.len() - i,
        {
            if *self.chunks[i].chunk_type() == *wanted {
                proof {
                    lemma_position(self@, wanted@, i as int);
                }
                return Some(i);
            }
            i += 1;
        }
        proof {
            lemma_position_none(self@, wanted@);
        }
        None
    }

    /// The first chunk of the type that `chunk_type` spells, if there is
    /// one. Fails where `chunk_type` spells no chunk type.
    pub fn chunk_by_type(&self, chunk_type: &str) -> (r: Result<Option<&Chunk>, PngError>)
        ensures
            match type_of_text(chunk_type.spec_bytes()) {
                Err(e) => r == Err::<Option<&Chunk>, PngError>(e),
                Ok(t) => r is Ok && match position(self@, t) {
                    Some(i) => r->Ok_0 is Some && r->Ok_0->Some_0@ == self@[i],
                    None => r->Ok_0 is None,
                },
            },
    {
        let wanted = match ChunkType::from_str(chunk_type) {
            Ok(t) => t,
            Err(e) => {
                return Err(e);
            },
        };
        match self.find(&wanted) {
            Some(i) => {
                assert(self@[i as int] == self.chunks@[i as int]@);
                Ok(Some(&self.chunks[i]))
            },
            None => Ok(None),
        }
    }

    /// Takes out the first chunk of the type that `chunk_type` spells and
    /// returns it; the others keep their order. Fails where `chunk_type`
    /// spells no chunk type, and with `NotFound` where no chunk has the
    /// type; the container is then as it was.
    pub fn remove_chunk(&mut self, chunk_type: &str) -> (r: Result<Chunk, PngError>)
        ensures
            match type_of_text(chunk_type.spec_bytes()) {
                Err(e) => r == Err::<Chunk, PngError>(e) && final(self)@ == old(self)@,
                Ok(t) => match position(old(self)@, t) {
                    Some(i) => r is Ok && r->Ok_0@ == old(self)@[i] && final(self)@ == old(
                        self,
                    )@.remove(i),
                    None => r == Err::<Chunk, PngError>(PngError::NotFound) && final(self)@ == old(
                        self,
                    )@,
                },
            },
    {
        let wanted = match ChunkType::from_str(chunk_type) {
            Ok(t) => t,
            Err(e) => {
                return Err(e);
            },
        };
        match self.find(&wanted) {
            Some(i) => {
                assert(self@[i as int] == self.chunks@[i as int]@);
                let chunk = self.chunks.remove(i);
                assert(self@ =~= old(self)@.remove(i as int));
                Ok(chunk)
            },
            None => Err(PngError::NotFound),
        }
    }

    /// The container on the wire: the signature, then each chunk. Each
    /// chunk written is well formed, as every chunk is.
    pub fn as_bytes(&self) -> (r: Vec<u8>)
        ensures
            r@ == png_bytes(self@),
            forall|i: int| 0 <= i < self@.len() ==> (#[trigger] self@[i]).wf(),
    {
        let mut out: Vec<u8> = Vec::new();
        append_bytes(&mut out, Png::header().as_slice());
        let mut i: usize = 0;
        assert(self@.take(0) =~= Seq::<ChunkModel>::empty());
        while i < self.chunks.len()
            invariant
                i <= self.chunks@.len(),
                self@.len() == self.chunks@.len(),
                out@ == png_bytes(self@.take(i as int)),
                forall|j: int| 0 <= j < i ==> (#[trigger] self@[j]).wf(),
            decreases self.chunks@.len() - i,
        {
            let chunk = &self.chunks[i];
            proof {
                use_type_invariant(chunk);
            }
            let piece = chunk.as_bytes();
            append_bytes(&mut out, piece.as_slice());
            proof {
                lemma_chunks_bytes_push(self@.take(i as int), self@[i as int]);
                assert(self@.take(i + 1) =~= self@.take(i as int).push(self@[i as int]));
                assert(out@ =~= png_bytes(self@.take(i + 1)));
            }
            i += 1;
        }
        assert(self@.take(self@.len() as int) =~= self@);
        out
    }
}

impl<'a> TryFrom<&'a [u8]> for Png {
    type Error = PngError;

    /// Reads a container, as the method of the same name does.
    fn try_from(value: &'a [u8]) -> (r: Result<Png, PngError>)
        ensures
            match parse_png(value@) {
                Ok(m) => r is Ok && r->Ok_0@ == m,
                Err(e) => r == Err::<Png, PngError>(e),
            },
            value@.len() < 8 || value@.take(8) != signature() ==> r == Err::<Png, PngError>(
                PngError::BadSignature,
            ),
    {
        Png::try_from(value)
    }
}

impl<'a> vstd::std_specs::convert::TryFromSpecImpl<&'a [u8]> for Png {
    /// No container can be named in a specification by its bytes alone,
    /// so the trait's own clause is switched off; what `try_from` returns
    /// is stated on the impl.
    open spec fn obeys_try_from_spec() -> bool {
        false
    }

    open spec fn try_from_spec(v: &'a [u8]) -> Result<Png, PngError> {
        arbitrary()
    }
}

/// The bytes of chunks with one more at the end are the bytes of the
/// chunks and then those of the one.
pub proof fn lemma_chunks_bytes_push(chunks: Seq<ChunkModel>, c: ChunkModel)
    ensures
        chunks_bytes(chunks.push(c)) == chunks_bytes(chunks) + c.as_bytes(),
    decreases chunks.len(),
{
    let all = chunks.push(c);
    if chunks.len() == 0 {
        assert(all.skip(1) =~= chunks);
        assert(chunks_bytes(all) =~= c.as_bytes() + chunks_bytes(chunks));
        assert(chunks_bytes(chunks) + c.as_bytes() =~= c.as_bytes());
    } else {
        lemma_chunks_bytes_push(chunks.skip(1), c);
        assert(all.skip(1) =~= chunks.skip(1).push(c));
        assert(chunks_bytes(all) =~= chunks_bytes(chunks) + c.as_bytes());
    }
}

/// Writing chunks and reading them back gives the same chunks in the same
/// order, as long as each is well formed and its length fits.
pub proof fn lemma_chunks_round_trip(chunks: Seq<ChunkModel>)
    requires
        forall|i: int| 0 <= i < chunks.len() ==> (#[trigger] chunks[i]).wf() && chunks[i].fits(),
    ensures
        parse_chunks(chunks_bytes(chunks)) == Ok::<Seq<ChunkModel>, PngError>(chunks),
    decreases chunks.len(),
{
    if chunks.len() == 0 {
        assert(chunks =~= Seq::<ChunkModel>::empty());
    } else {
        let first = chunks[0];
        let rest = chunks.skip(1);
        let bytes = chunks_bytes(chunks);
        assert forall|i: int| 0 <= i < rest.len() implies (#[trigger] rest[i]).wf()
            && rest[i].fits() by {
            assert(rest[i] == chunks[i + 1]);
        }
        lemma_chunks_round_trip(rest);
        lemma_parse_as_bytes(first, chunks_bytes(rest));
        assert(bytes.skip(12 + first.data.len() as int) =~= chunks_bytes(rest));
        assert(seq![first] + rest =~= chunks);
    }
}

/// Writing a container and reading it back gives the same chunks in the
/// same order, as long as each is well formed and its length fits.
pub proof fn lemma_round_trip(chunks: Seq<ChunkModel>)
    requires
        forall|i: int| 0 <= i < chunks.len() ==> (#[trigger] chunks[i]).wf() && chunks[i].fits(),
    ensures
        parse_png(png_bytes(chunks)) == Ok::<Seq<ChunkModel>, PngError>(chunks),
{
    lemma_chunks_round_trip(chunks);
    lemma_signature_split(chunks_bytes(chunks));
}

/// What follows the signature is found again behind it.
proof fn lemma_signature_split(body: Seq<u8>)
    ensures
        (signature() + body).len() >= 8,
        (signature() + body).take(8) == signature(),
        (signature() + body).skip(8) == body,
{
    assert(signature().len() == 8);
    assert((signature() + body).take(8) =~= signature());
    assert((signature() + body).skip(8) =~= body);
}

/// A chunk put at the end is the first of its type exactly when no chunk
/// before it has that type. A type that had a first chunk keeps it:
/// among several chunks of one type, the earliest is the one found.
pub proof fn lemma_append_then_find(chunks: Seq<ChunkModel>, c: ChunkModel, t: Seq<u8>)
    ensures
        position(chunks, c.chunk_type) is None ==> position(chunks.push(c), c.chunk_type) == Some(
            chunks.len() as int,
        ),
        position(chunks, t) is Some ==> position(chunks.push(c), t) == position(chunks, t),
{
    let all = chunks.push(c);
    if position(chunks, c.chunk_type) is None {
        assert forall|j: int| 0 <= j < chunks.len() implies (#[trigger] all[j]).chunk_type
            != c.chunk_type by {
            if chunks[j].chunk_type == c.chunk_type {
                lemma_first_exists(chunks, c.chunk_type, j);
            }
        }
        lemma_position(all, c.chunk_type, chunks.len() as int);
    }
    if position(chunks, t) is Some {
        let i = position(chunks, t)->Some_0;
        assert(is_first(chunks, t, i));
        assert forall|j: int| 0 <= j < i implies (#[trigger] all[j]).chunk_type != t by {
            assert(all[j] == chunks[j]);
        }
        assert(all[i] == chunks[i]);
        lemma_position(all, t, i);
    }
}

/// Where some chunk has the type, a first one has it.
pub proof fn lemma_first_exists(chunks: Seq<ChunkModel>, t: Seq<u8>, j: int)
    requires
        0 <= j < chunks.len(),
        chunks[j].chunk_type == t,
    ensures
        position(chunks, t) is Some,
        position(chunks, t)->Some_0 <= j,
        is_first(chunks, t, position(chunks, t)->Some_0),
    decreases j,
{
    if forall|k: int| 0 <= k < j ==> (#[trigger] chunks[k]).chunk_type != t {
        lemma_position(chunks, t, j);
    } else {
        let k = choose|k: int| 0 <= k < j && (#[trigger] chunks[k]).chunk_type == t;
        lemma_first_exists(chunks, t, k);
    }
}

/// Chunks are read only from the very bytes that writing them gives, and
/// each chunk read is well formed with a length that fits.
pub proof fn lemma_parsed_chunks(bytes: Seq<u8>)
    requires
        parse_chunks(bytes) is Ok,
    ensures
        ({
            let chunks = parse_chunks(bytes)->Ok_0;
            &&& chunks_bytes(chunks) == bytes
            &&& forall|i: int|
                0 <= i < chunks.len() ==> (#[trigger] chunks[i]).wf() && chunks[i].fits()
        }),
    decreases bytes.len(),
{
    let chunks = parse_chunks(bytes)->Ok_0;
    if bytes.len() == 0 {
        assert(chunks_bytes(chunks) =~= bytes);
    } else {
        let first = parse_chunk(bytes)->Ok_0;
        let size = 12 + first.data.len() as int;
        lemma_parsed(bytes);
        lemma_parsed_chunks(bytes.skip(size));
        let rest = parse_chunks(bytes.skip(size))->Ok_0;
        assert(chunks =~= seq![first] + rest);
        assert(chunks.skip(1) =~= rest);
        assert(bytes =~= bytes.take(size) + bytes.skip(size));
        assert forall|i: int| 0 <= i < chunks.len() implies (#[trigger] chunks[i]).wf()
            && chunks[i].fits() by {
            if i > 0 {
                assert(chunks[i] == rest[i - 1]);
            }
        }
    }
}

/// A container is read only from the very bytes that writing it gives.
pub proof fn lemma_parsed_png(bytes: Seq<u8>)
    requires
        parse_png(bytes) is Ok,
    ensures
        png_bytes(parse_png(bytes)->Ok_0) == bytes,
{
    lemma_parsed_chunks(bytes.skip(8));
    assert(bytes =~= bytes.take(8) + bytes.skip(8));
}

} // verus!
