//! A PNG file as its signature followed by an ordered list of chunks.

use vstd::prelude::*;
use crate::chunk::{
    Chunk, ChunkError, chunk_bytes, decode_chunk_spec, lemma_chunk_decodes_before_more,
    lemma_record_reencodes, payload_fits, record_len,
};
use crate::chunk_type::valid_type_code;
use crate::chunk_type::ChunkType;

verus! {

/// The eight bytes that open every PNG file.
pub const STANDARD_HEADER: [u8; 8] = [137, 80, 78, 71, 13, 10, 26, 10];

/// The PNG signature.
pub open spec fn signature() -> Seq<u8> {
    seq![137u8, 80u8, 78u8, 71u8, 13u8, 10u8, 26u8, 10u8]
}

/// Why bytes could not be decoded into a PNG file.
#[derive(Debug, Clone, Copy, PartialEq, Eq, Structural)]
pub enum PngError {
    /// The first eight bytes are not the PNG signature.
    BadSignature,
    /// A chunk after the signature could not be decoded.
    Chunk(ChunkError),
}

/// The chunks, in order, as type code and payload.
pub type ChunkViews = Seq<(Seq<u8>, Seq<u8>)>;

/// The wire forms of `cs`, one after the other.
pub open spec fn chunks_bytes(cs: ChunkViews) -> Seq<u8>
    decreases cs.len(),
{
    if cs.len() == 0 {
        Seq::empty()
    } else {
        chunks_bytes(cs.drop_last()) + chunk_bytes(cs.last().0, cs.last().1)
    }
}

/// The bytes of a PNG file with chunks `cs`.
pub open spec fn png_bytes(cs: ChunkViews) -> Seq<u8> {
    signature() + chunks_bytes(cs)
}

/// `done` followed by the chunks of `rest`, or the error of `rest`.
pub open spec fn after(done: ChunkViews, rest: Result<ChunkViews, ChunkError>) -> Result<
    ChunkViews,
    ChunkError,
> {
    match rest {
        Ok(cs) => Ok(done + cs),
        Err(e) => Err(e),
    }
}

/// Taking chunks in two steps is taking them at once.
pub proof fn lemma_after_after(a: ChunkViews, b: ChunkViews, r: Result<ChunkViews, ChunkError>)
    ensures
        after(a, after(b, r)) == after(a + b, r),
{
    if let Ok(cs) = r {
        assert(a + (b + cs) =~= (a + b) + cs);
    }
}

/// The chunks whose records fill `b` exactly, or the error of the first record
/// that does not decode.
pub open spec fn decode_chunks_spec(b: Seq<u8>) -> Result<ChunkViews, ChunkError>
    decreases b.len(),
{
    if b.len() == 0 {
        Ok(Seq::empty())
    } else {
        match decode_chunk_spec(b) {
            Err(e) => Err(e),
            Ok(c) => after(seq![c], decode_chunks_spec(b.subrange(record_len(b), b.len() as int))),
        }
    }
}

/// The chunks of the PNG file `b`, or why it is not one.
pub open spec fn decode_png_spec(b: Seq<u8>) -> Result<ChunkViews, PngError> {
    if b.len() < 8 || b.subrange(0, 8) != signature() {
        Err(PngError::BadSignature)
    } else {
        match decode_chunks_spec(b.subrange(8, b.len() as int)) {
            Ok(cs) => Ok(cs),
            Err(e) => Err(PngError::Chunk(e)),
        }
    }
}

/// The views of `cs`.
pub open spec fn views_of(cs: Seq<Chunk>) -> ChunkViews {
    cs.map_values(|c: Chunk| c@)
}

/// Encoding a chunk followed by others is encoding the chunk, then the
/// others.
pub proof fn lemma_chunks_bytes_prepend(c: (Seq<u8>, Seq<u8>), cs: ChunkViews)
    ensures
        chunks_bytes(seq![c] + cs) == chunk_bytes(c.0, c.1) + chunks_bytes(cs),
    decreases cs.len(),
{
    let s = seq![c] + cs;
    if cs.len() == 0 {
        assert(s.drop_last() =~= Seq::<(Seq<u8>, Seq<u8>)>::empty());
        assert(s.last() == c);
        assert(chunks_bytes(s.drop_last()) == Seq::<u8>::empty());
        assert(chunks_bytes(s) =~= chunk_bytes(c.0, c.1) + chunks_bytes(cs));
    } else {
        lemma_chunks_bytes_prepend(c, cs.drop_last());
        assert(s.drop_last() =~= seq![c] + cs.drop_last());
        assert(s.last() == cs.last());
        let head = chunk_bytes(c.0, c.1);
        let tail = chunk_bytes(cs.last().0, cs.last().1);
        assert(chunks_bytes(s) == chunks_bytes(seq![c] + cs.drop_last()) + tail);
        assert(chunks_bytes(cs) == chunks_bytes(cs.drop_last()) + tail);
        assert((head + chunks_bytes(cs.drop_last())) + tail =~= head + (chunks_bytes(
            cs.drop_last(),
        ) + tail));
    }
}

/// Records that decode re-encode to the bytes they came from.
pub proof fn lemma_chunks_round_trip(b: Seq<u8>)
    requires
        decode_chunks_spec(b) is Ok,
    ensures
        chunks_bytes(decode_chunks_spec(b)->Ok_0) == b,
    decreases b.len(),
{
    if b.len() == 0 {
        assert(b =~= Seq::<u8>::empty());
    } else {
        let c = decode_chunk_spec(b)->Ok_0;
        let n = record_len(b);
        let rest = b.subrange(n, b.len() as int);
        lemma_record_reencodes(b);
        lemma_chunks_round_trip(rest);
        lemma_chunks_bytes_prepend(c, decode_chunks_spec(rest)->Ok_0);
        assert(b =~= b.subrange(0, n) + rest);
    }
}

/// A file that decodes re-encodes to exactly the bytes it was decoded from.
pub proof fn lemma_png_round_trip(b: Seq<u8>)
    requires
        decode_png_spec(b) is Ok,
    ensures
        png_bytes(decode_png_spec(b)->Ok_0) == b,
{
    lemma_chunks_round_trip(b.subrange(8, b.len() as int));
    assert(b =~= b.subrange(0, 8) + b.subrange(8, b.len() as int));
}

/// Every chunk of `cs` has a valid type code and a payload that fits a record.
pub open spec fn all_encodable(cs: ChunkViews) -> bool {
    forall|i: int|
        0 <= i < cs.len() ==> valid_type_code(#[trigger] cs[i].0) && payload_fits(cs[i].1.len())
}

/// The records of chunks that can be encoded decode back into those chunks.
pub proof fn lemma_chunks_decode_their_encoding(cs: ChunkViews)
    requires
        all_encodable(cs),
    ensures
        decode_chunks_spec(chunks_bytes(cs)) == Ok::<_, ChunkError>(cs),
    decreases cs.len(),
{
    if cs.len() == 0 {
        assert(chunks_bytes(cs) == Seq::<u8>::empty());
        assert(cs =~= Seq::<(Seq<u8>, Seq<u8>)>::empty());
    } else {
        let c = cs[0];
        let rest = cs.drop_first();
        assert(cs =~= seq![c] + rest);
        assert(all_encodable(rest)) by {
            assert forall|i: int| 0 <= i < rest.len() implies valid_type_code(#[trigger] rest[i].0)
                && payload_fits(rest[i].1.len()) by {
                assert(rest[i] == cs[i + 1]);
            }
        }
        lemma_chunks_decode_their_encoding(rest);
        lemma_chunks_bytes_prepend(c, rest);
        assert(valid_type_code(cs[0].0));
        lemma_decode_record_then_more(c.0, c.1, chunks_bytes(rest));
        assert(chunks_bytes(cs) == chunk_bytes(c.0, c.1) + chunks_bytes(rest));
        assert(seq![(c.0, c.1)] + rest =~= cs);
    }
}

/// Decoding a record followed by more bytes gives its chunk followed by what
/// the rest decodes to.
proof fn lemma_decode_record_then_more(code: Seq<u8>, data: Seq<u8>, more: Seq<u8>)
    requires
        valid_type_code(code),
        payload_fits(data.len()),
    ensures
        decode_chunks_spec(chunk_bytes(code, data) + more) == after(
            seq![(code, data)],
            decode_chunks_spec(more),
        ),
{
    let first = chunk_bytes(code, data);
    let b = first + more;
    lemma_chunk_decodes_before_more(code, data, more);
    assert(b.subrange(first.len() as int, b.len() as int) =~= more);
    lemma_decode_chunks_step(b);
}

/// Decoding records is decoding the first, then the others.
proof fn lemma_decode_chunks_step(b: Seq<u8>)
    requires
        decode_chunk_spec(b) is Ok,
        b.len() > 0,
    ensures
        decode_chunks_spec(b) == after(
            seq![decode_chunk_spec(b)->Ok_0],
            decode_chunks_spec(b.subrange(record_len(b), b.len() as int)),
        ),
{
}

/// A file whose chunks can all be encoded decodes from its bytes into those
/// same chunks.
pub proof fn lemma_png_decodes_its_encoding(cs: ChunkViews)
    requires
        all_encodable(cs),
    ensures
        decode_png_spec(png_bytes(cs)) == Ok::<_, PngError>(cs),
{
    let b = png_bytes(cs);
    assert(b.subrange(0, 8) =~= signature());
    assert(b.subrange(8, b.len() as int) =~= chunks_bytes(cs));
    lemma_chunks_decode_their_encoding(cs);
}

/// Some chunk of `cs` has type code `code`.
pub open spec fn has_type(cs: ChunkViews, code: Seq<u8>) -> bool {
    exists|i: int| 0 <= i < cs.len() && #[trigger] cs[i].0 == code
}

/// `i` is the position of the first chunk of `cs` with type code `code`.
pub open spec fn is_first_of_type(cs: ChunkViews, code: Seq<u8>, i: int) -> bool {
    &&& 0 <= i < cs.len()
    &&& cs[i].0 == code
    &&& forall|j: int| 0 <= j < i ==> #[trigger] cs[j].0 != code
}

/// A PNG file: its chunks in file order. Its view is the sequence of the
/// chunks' views.
#[derive(Debug, Clone)]
pub struct Png {
    chunks: Vec<Chunk>,
}

impl View for Png {
    type V = ChunkViews;

    closed spec fn view(&self) -> ChunkViews {
        views_of(self.chunks@)
    }
}

impl Png {
    /// A file with the chunks `chunks`, in that order.
    pub fn from_chunks(chunks: Vec<Chunk>) -> (r: Png)
        ensures
            r@ == views_of(chunks@),
    {
        Png { chunks }
    }

    /// The chunks, in file order.
    pub fn chunks(&self) -> (r: &[Chunk])
        ensures
            views_of(r@) == self@,
    {
        self.chunks.as_slice()
    }

    /// Adds `chunk` after the last chunk.
    pub fn append_chunk(&mut self, chunk: Chunk)
        ensures
            final(self)@ == old(self)@.push(chunk@),
    {
        self.chunks.push(chunk);
        proof {
            assert(views_of(self.chunks@) =~= old(self)@.push(chunk@));
        }
    }

    fn position_of(&self, chunk_type: &ChunkType) -> (r: Option<usize>)
        ensures
            match r {
                Some(i) => is_first_of_type(self@, chunk_type@, i as int),
                None => !has_type(self@, chunk_type@),
            },
    {
        let mut i: usize = 0;
        while i < self.chunks.len()
            invariant
                i <= self.chunks@.len(),
                forall|j: int| 0 <= j < i ==> #[trigger] self@[j].0 != chunk_type@,
            decreases self.chunks@.len() - i,
        {
            if self.chunks[i].chunk_type().eq(chunk_type) {
                return Some(i);
            }
            i = i + 1;
        }
        None
    }

    /// The first chunk whose type is `chunk_type`, if any.
    pub fn find_first(&self, chunk_type: &ChunkType) -> (r: Option<&Chunk>)
        ensures
            match r {
                Some(c) => exists|i: int|
                    is_first_of_type(self@, chunk_type@, i) && c@ == #[trigger] self@[i],
                None => !has_type(self@, chunk_type@),
            },
    {
        match self.position_of(chunk_type) {
            Some(i) => Some(&self.chunks[i]),
            None => None,
        }
    }

    /// Takes out and returns the first chunk whose type is `chunk_type`, if
    /// any; the other chunks keep their order. Where no chunk has that type,
    /// nothing changes, and the file encodes as before.
    pub fn remove_first_chunk(&mut self, chunk_type: &ChunkType) -> (r: Option<Chunk>)
        ensures
            match r {
                Some(c) => exists|i: int|
                    is_first_of_type(old(self)@, chunk_type@, i) && c@ == #[trigger] old(self)@[i]
                        && final(self)@ == old(self)@.remove(i),
                None => !has_type(old(self)@, chunk_type@) && final(self)@ == old(self)@,
            },
            !has_type(old(self)@, chunk_type@) ==> r is None && png_bytes(final(self)@)
                == png_bytes(old(self)@),
    {
        match self.position_of(chunk_type) {
            Some(i) => {
                let c = self.chunks.remove(i);
                proof {
                    assert(views_of(self.chunks@) =~= old(self)@.remove(i as int));
                }
                Some(c)
            },
            None => None,
        }
    }

    /// The bytes of the file: the signature, then each chunk's record in order.
    pub fn as_bytes(&self) -> (r: Vec<u8>)
        ensures
            r@ == png_bytes(self@),
    {
        let mut out: Vec<u8> = Vec::new();
        out.extend_from_slice(STANDARD_HEADER.as_slice());
        proof {
            assert(out@ =~= signature());
            assert(self@.subrange(0, 0) =~= Seq::<(Seq<u8>, Seq<u8>)>::empty());
        }
        let mut i: usize = 0;
        while i < self.chunks.len()
            invariant
                i <= self.chunks@.len(),
                out@ == signature() + chunks_bytes(self@.subrange(0, i as int)),
            decreases self.chunks@.len() - i,
        {
            let record = self.chunks[i].as_bytes();
            out.extend_from_slice(record.as_slice());
            proof {
                let done = self@.subrange(0, i + 1);
                assert(done.drop_last() =~= self@.subrange(0, i as int));
                assert(done.last() == self@[i as int]);
                assert(out@ =~= signature() + chunks_bytes(done));
            }
            i = i + 1;
        }
        proof {
            assert(self@.subrange(0, i as int) =~= self@);
        }
        out
    }

    /// The file that `bytes` holds: the signature, then records up to the end.
    pub fn decode(bytes: &[u8]) -> (r: Result<Png, PngError>)
        ensures
            match r {
                Ok(p) => decode_png_spec(bytes@) == Ok::<_, PngError>(p@),
                Err(e) => decode_png_spec(bytes@) == Err::<ChunkViews, _>(e),
            },
    {
        let len = bytes.len();
        if len < 8 || !has_signature(bytes) {
            return Err(PngError::BadSignature);
        }
        let ghost body = bytes@.subrange(8, len as int);
        let mut chunks: Vec<Chunk> = Vec::new();
        let mut pos: usize = 8;
        while pos < len
            invariant
                8 <= pos <= len,
                len == bytes@.len(),
                bytes@.subrange(0, 8) == signature(),
                body == bytes@.subrange(8, len as int),
                decode_chunks_spec(body) == after(
                    views_of(chunks@),
                    decode_chunks_spec(bytes@.subrange(pos as int, len as int)),
                ),
            decreases len - pos,
        {
            let ghost rest = bytes@.subrange(pos as int, len as int);
            let rest_slice = &bytes[pos..len];
            match Chunk::decode_prefix(rest_slice) {
                Ok((c, n)) => {
                    proof {
                        assert(rest_slice@ == rest);
                        lemma_after_after(views_of(chunks@), seq![c@], decode_chunks_spec(bytes@.subrange(pos + n, len as int)));
                        assert(rest.subrange(n as int, rest.len() as int) =~= bytes@.subrange(
                            pos + n,
                            len as int,
                        ));
                        assert(views_of(chunks@.push(c)) =~= views_of(chunks@) + seq![c@]);
                    }
                    chunks.push(c);
                    pos = pos + n;
                },
                Err(e) => {
                    proof {
                        assert(rest_slice@ == rest);
                        assert(decode_chunks_spec(rest) == Err::<ChunkViews, _>(e));
                    }
                    return Err(PngError::Chunk(e));
                },
            }
        }
        proof {
            assert(bytes@.subrange(pos as int, len as int) =~= Seq::<u8>::empty());
            assert(views_of(chunks@) + Seq::<(Seq<u8>, Seq<u8>)>::empty() =~= views_of(chunks@));
        }
        Ok(Png { chunks })
    }
}

impl<'a> TryFrom<&'a [u8]> for Png {
    type Error = PngError;

    fn try_from(bytes: &'a [u8]) -> (r: Result<Png, PngError>)
        ensures
            match r {
                Ok(p) => decode_png_spec(bytes@) == Ok::<_, PngError>(p@),
                Err(e) => decode_png_spec(bytes@) == Err::<ChunkViews, _>(e),
            },
    {
        Png::decode(bytes)
    }
}

impl<'a> vstd::std_specs::convert::TryFromSpecImpl<&'a [u8]> for Png {
    open spec fn obeys_try_from_spec() -> bool {
        false
    }

    open spec fn try_from_spec(bytes: &'a [u8]) -> Result<Png, PngError> {
        arbitrary()
    }
}

fn has_signature(bytes: &[u8]) -> (r: bool)
    requires
        bytes@.len() >= 8,
    ensures
        r == (bytes@.subrange(0, 8) == signature()),
{
    let mut i: usize = 0;
    while i < 8
        invariant
            i <= 8,
            bytes@.len() >= 8,
            forall|j: int| 0 <= j < i ==> bytes@[j] == signature()[j],
        decreases 8 - i,
    {
        if bytes[i] != STANDARD_HEADER[i] {
            proof {
                assert(bytes@.subrange(0, 8)[i as int] != signature()[i as int]);
            }
            return false;
        }
        i = i + 1;
    }
    proof {
        assert(bytes@.subrange(0, 8) =~= signature());
    }
    true
}

} // verus!
