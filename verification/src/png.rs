use vstd::prelude::*;
use vstd::slice::slice_subrange;
use vstd::string::StringSliceAdditionalSpecFns;

use crate::be32::{lemma_u32_be_bytes_round_trip, spec_u32_from_be_bytes, u32_from_be_at};
use crate::chunk::{
    chunk_view_valid, lemma_chunk_round_trip, spec_chunk_bytes, spec_chunk_decode, Chunk,
    ChunkView,
};
use crate::error::PngMeError;

verus! {

/// The fixed 8-byte signature that opens every PNG stream.
pub open spec fn spec_signature() -> Seq<u8> {
    seq![137u8, 80u8, 78u8, 71u8, 13u8, 10u8, 26u8, 10u8]
}

/// The views of a chunk sequence, in stored order.
pub open spec fn chunk_views(chunks: Seq<Chunk>) -> Seq<ChunkView> {
    chunks.map_values(|c: Chunk| c@)
}

/// The serialized chunk sequence: each chunk's bytes, concatenated in order.
pub open spec fn spec_chunks_bytes(views: Seq<ChunkView>) -> Seq<u8>
    decreases views.len(),
{
    if views.len() == 0 {
        Seq::empty()
    } else {
        spec_chunk_bytes(views[0]) + spec_chunks_bytes(views.drop_first())
    }
}

/// A whole PNG stream: the signature, then the chunks.
pub open spec fn spec_png_bytes(views: Seq<ChunkView>) -> Seq<u8> {
    spec_signature() + spec_chunks_bytes(views)
}

/// What decoding a stream yields: after the signature, chunks are cut off
/// one by one, each spanning 12 bytes plus its declared length, until the
/// buffer is exhausted; any chunk's failure is the stream's failure.
pub open spec fn spec_decode_chunks(bytes: Seq<u8>) -> Result<Seq<ChunkView>, PngMeError>
    decreases bytes.len(),
{
    if bytes.len() == 0 {
        Ok(Seq::empty())
    } else if bytes.len() < 12 {
        Err(PngMeError::InvalidChunkLength)
    } else {
        let span = 12 + spec_u32_from_be_bytes(bytes.subrange(0, 4));
        if bytes.len() < span {
            Err(PngMeError::InvalidChunkLength)
        } else {
            match spec_chunk_decode(bytes.take(span)) {
                Ok(v) => match spec_decode_chunks(bytes.skip(span)) {
                    Ok(rest) => Ok(seq![v] + rest),
                    Err(e) => Err(e),
                },
                Err(e) => Err(e),
            }
        }
    }
}

/// Decoding a full buffer: the signature is demanded first, whatever
/// follows it.
pub open spec fn spec_png_decode(bytes: Seq<u8>) -> Result<Seq<ChunkView>, PngMeError> {
    if bytes.len() < 8 || bytes.subrange(0, 8) != spec_signature() {
        Err(PngMeError::InvalidHeader)
    } else {
        spec_decode_chunks(bytes.skip(8))
    }
}

/// True when none of the first `i` chunk views carries the type code `ty`.
pub open spec fn no_match_before(views: Seq<ChunkView>, ty: Seq<u8>, i: int) -> bool {
    forall|j: int| 0 <= j < i ==> (#[trigger] views[j]).chunk_type != ty
}

/// An ordered sequence of chunks behind the fixed PNG signature.
#[derive(Debug)]
pub struct Png {
    chunks: Vec<Chunk>,
}

impl View for Png {
    type V = Seq<ChunkView>;

    closed spec fn view(&self) -> Seq<ChunkView> {
        chunk_views(self.chunks@)
    }
}

impl Png {
    /// The 8 signature bytes, as a fresh array.
    pub fn signature() -> (r: [u8; 8])
        ensures
            r@ == spec_signature(),
    {
        let r = [137u8, 80u8, 78u8, 71u8, 13u8, 10u8, 26u8, 10u8];
        proof {
            assert(r@ =~= spec_signature());
        }
        r
    }

    /// Builds a container from an explicit chunk sequence.
    pub fn from_chunks(chunks: Vec<Chunk>) -> (r: Png)
        ensures
            r@ == chunk_views(chunks@),
    {
        Png { chunks }
    }

    /// The chunks in stored order.
    pub fn chunks(&self) -> (r: &[Chunk])
        ensures
            chunk_views(r@) == self@,
    {
        self.chunks.as_slice()
    }

    /// Appends a chunk at the end of the sequence, with no validation
    /// against the chunks already present.
    pub fn append_chunk(&mut self, chunk: Chunk)
        ensures
            final(self)@ == old(self)@.push(chunk@),
    {
        self.chunks.push(chunk);
        proof {
            assert(self@ =~= old(self)@.push(chunk@));
        }
    }

    /// The first chunk, in stored order, whose type code equals
    /// `type_code`, compared byte for byte, case-sensitively.
    pub fn chunk_by_type(&self, type_code: &str) -> (r: Option<&Chunk>)
        ensures
            match r {
                Some(c) => exists|i: int|
                    #![auto]
                    0 <= i < self@.len() && self@[i] == c@ && c@.chunk_type
                        == type_code.spec_bytes() && no_match_before(
                        self@,
                        type_code.spec_bytes(),
                        i,
                    ),
                None => no_match_before(self@, type_code.spec_bytes(), self@.len() as int),
            },
    {
        let code = type_code.as_bytes();
        let n = self.chunks.len();
        let mut i: usize = 0;
        while i < n
            invariant
                n == self.chunks.len(),
                i <= n,
                code@ == type_code.spec_bytes(),
                no_match_before(self@, type_code.spec_bytes(), i as int),
            decreases n - i,
        {
            let c = &self.chunks[i];
            let cb = c.chunk_type().bytes();
            if code.len() == 4 && cb[0] == code[0] && cb[1] == code[1] && cb[2] == code[2]
                && cb[3] == code[3] {
                proof {
                    assert(cb@ =~= code@);
                    assert(self@[i as int] == c@);
                }
                return Some(c);
            }
            proof {
                assert(self@[i as int] == c@);
                if c@.chunk_type == code@ {
                    assert(cb@.len() == 4 && code@.len() == 4);
                    assert(cb@[0] == code@[0] && cb@[1] == code@[1] && cb@[2] == code@[2]
                        && cb@[3] == code@[3]);
                    assert(false);
                }
            }
            i += 1;
        }
        None
    }

    /// Removes and returns the first chunk whose type code equals
    /// `type_code`; fails, leaving the sequence unchanged, if none matches.
    pub fn remove_chunk(&mut self, type_code: &str) -> (r: Result<Chunk, PngMeError>)
        ensures
            match r {
                Ok(c) => exists|i: int|
                    #![auto]
                    0 <= i < old(self)@.len() && old(self)@[i] == c@ && c@.chunk_type
                        == type_code.spec_bytes() && no_match_before(
                        old(self)@,
                        type_code.spec_bytes(),
                        i,
                    ) && final(self)@ == old(self)@.remove(i),
                Err(e) => e == PngMeError::ChunkNotFound && final(self)@ == old(self)@
                    && no_match_before(
                    old(self)@,
                    type_code.spec_bytes(),
                    old(self)@.len() as int,
                ),
            },
    {
        let code = type_code.as_bytes();
        let n = self.chunks.len();
        let mut i: usize = 0;
        while i < n
            invariant
                self.chunks@ == old(self).chunks@,
                n == self.chunks.len(),
                i <= n,
                code@ == type_code.spec_bytes(),
                no_match_before(self@, type_code.spec_bytes(), i as int),
            decreases n - i,
        {
            let c = &self.chunks[i];
            let cb = c.chunk_type().bytes();
            if code.len() == 4 && cb[0] == code[0] && cb[1] == code[1] && cb[2] == code[2]
                && cb[3] == code[3] {
                proof {
                    assert(cb@ =~= code@);
                    assert(self@[i as int] == c@);
                }
                let removed = self.chunks.remove(i);
                proof {
                    assert(self@ =~= old(self)@.remove(i as int));
                }
                return Ok(removed);
            }
            proof {
                assert(self@[i as int] == c@);
                if c@.chunk_type == code@ {
                    assert(cb@.len() == 4 && code@.len() == 4);
                    assert(cb@[0] == code@[0] && cb@[1] == code@[1] && cb@[2] == code@[2]
                        && cb@[3] == code@[3]);
                    assert(false);
                }
            }
            i += 1;
        }
        Err(PngMeError::ChunkNotFound)
    }

    /// Serializes the stream: the signature, then each chunk in order.
    pub fn as_bytes(&self) -> (r: Vec<u8>)
        ensures
            r@ == spec_png_bytes(self@),
    {
        let mut out: Vec<u8> = Vec::new();
        out.push(137);
        out.push(80);
        out.push(78);
        out.push(71);
        out.push(13);
        out.push(10);
        out.push(26);
        out.push(10);
        proof {
            assert(out@ =~= spec_signature());
            assert(self@.take(0) =~= Seq::<ChunkView>::empty());
        }
        let n = self.chunks.len();
        let mut i: usize = 0;
        while i < n
            invariant
                n == self.chunks.len(),
                i <= n,
                out@ == spec_signature() + spec_chunks_bytes(self@.take(i as int)),
            decreases n - i,
        {
            let mut cb = self.chunks[i].as_bytes();
            out.append(&mut cb);
            proof {
                assert(self@[i as int] == self.chunks@[i as int]@);
                assert(self@.take(i as int).push(self@[i as int]) =~= self@.take(i as int + 1));
                lemma_chunks_bytes_push(self@.take(i as int), self@[i as int]);
                assert(out@ =~= spec_signature() + spec_chunks_bytes(self@.take(i as int + 1)));
            }
            i += 1;
        }
        proof {
            assert(self@.take(n as int) =~= self@);
        }
        out
    }

    /// Decodes a full buffer: demands the signature, then decodes chunks
    /// until the buffer is exhausted; any chunk's failure aborts the whole
    /// decode.
    pub fn decode(bytes: &[u8]) -> (r: Result<Png, PngMeError>)
        ensures
            match r {
                Ok(p) => spec_png_decode(bytes@) == Ok::<Seq<ChunkView>, PngMeError>(p@),
                Err(e) => spec_png_decode(bytes@) == Err::<Seq<ChunkView>, PngMeError>(e),
            },
    {
        if bytes.len() < 8 {
            return Err(PngMeError::InvalidHeader);
        }
        if !(bytes[0] == 137 && bytes[1] == 80 && bytes[2] == 78 && bytes[3] == 71 && bytes[4]
            == 13 && bytes[5] == 10 && bytes[6] == 26 && bytes[7] == 10) {
            proof {
                if bytes@.subrange(0, 8) == spec_signature() {
                    assert(forall|k: int|
                        0 <= k < 8 ==> bytes@[k] == #[trigger] spec_signature()[k]);
                    assert(false);
                }
            }
            return Err(PngMeError::InvalidHeader);
        }
        proof {
            assert(bytes@.subrange(0, 8) =~= spec_signature());
        }
        let mut chunks: Vec<Chunk> = Vec::new();
        let mut cursor: usize = 8;
        proof {
            assert(chunk_views(chunks@) =~= Seq::<ChunkView>::empty());
            match spec_decode_chunks(bytes@.skip(8)) {
                Ok(rest) => {
                    assert(chunk_views(chunks@) + rest =~= rest);
                },
                Err(_) => {},
            }
        }
        while cursor < bytes.len()
            invariant
                8 <= cursor <= bytes@.len(),
                spec_png_decode(bytes@) == (match spec_decode_chunks(bytes@.skip(cursor as int)) {
                    Ok(rest) => Ok::<Seq<ChunkView>, PngMeError>(chunk_views(chunks@) + rest),
                    Err(e) => Err::<Seq<ChunkView>, PngMeError>(e),
                }),
            decreases bytes@.len() - cursor,
        {
            let ghost tail = bytes@.skip(cursor as int);
            let remaining = bytes.len() - cursor;
            if remaining < 12 {
                return Err(PngMeError::InvalidChunkLength);
            }
            let length = u32_from_be_at(bytes, cursor);
            proof {
                assert(tail.subrange(0, 4) =~= bytes@.subrange(cursor as int, cursor as int + 4));
            }
            if (length as u64) > (remaining as u64) - 12 {
                return Err(PngMeError::InvalidChunkLength);
            }
            let span = 12 + length as usize;
            let chunk_slice = slice_subrange(bytes, cursor, cursor + span);
            proof {
                assert(tail.take(span as int) =~= bytes@.subrange(
                    cursor as int,
                    cursor as int + span as int,
                ));
                assert(tail.skip(span as int) =~= bytes@.skip(cursor as int + span as int));
            }
            let ghost acc = chunk_views(chunks@);
            match Chunk::decode(chunk_slice) {
                Ok(c) => {
                    chunks.push(c);
                    cursor = cursor + span;
                    proof {
                        assert(chunk_views(chunks@) =~= acc.push(c@));
                        match spec_decode_chunks(bytes@.skip(cursor as int)) {
                            Ok(rest) => {
                                assert(acc + (seq![c@] + rest) =~= acc.push(c@) + rest);
                            },
                            Err(_) => {},
                        }
                    }
                },
                Err(e) => {
                    return Err(e);
                },
            }
        }
        proof {
            assert(bytes@.skip(cursor as int).len() == 0);
            assert(spec_decode_chunks(bytes@.skip(cursor as int)) == Ok::<
                Seq<ChunkView>,
                PngMeError,
            >(Seq::empty()));
        }
        let p = Png { chunks };
        proof {
            assert(chunk_views(chunks@) + Seq::<ChunkView>::empty() =~= p@);
        }
        Ok(p)
    }
}

impl PartialEq for Png {
    /// Streams are equal exactly when their chunk sequences are.
    fn eq(&self, other: &Png) -> (r: bool) {
        if self.chunks.len() != other.chunks.len() {
            proof {
                assert(self@.len() != other@.len());
            }
            return false;
        }
        let n = self.chunks.len();
        let mut i: usize = 0;
        while i < n
            invariant
                n == self.chunks.len(),
                n == other.chunks.len(),
                i <= n,
                forall|j: int| 0 <= j < i ==> self@[j] == other@[j],
            decreases n - i,
        {
            if !(self.chunks[i] == other.chunks[i]) {
                proof {
                    assert(self@[i as int] != other@[i as int]);
                }
                return false;
            }
            i += 1;
        }
        proof {
            assert(self@ =~= other@);
        }
        true
    }
}

impl vstd::std_specs::cmp::PartialEqSpecImpl for Png {
    open spec fn obeys_eq_spec() -> bool {
        true
    }

    open spec fn eq_spec(&self, other: &Png) -> bool {
        self@ == other@
    }
}

/// Appending one view to a sequence appends its bytes to the serialization.
pub proof fn lemma_chunks_bytes_push(views: Seq<ChunkView>, v: ChunkView)
    ensures
        spec_chunks_bytes(views.push(v)) == spec_chunks_bytes(views) + spec_chunk_bytes(v),
    decreases views.len(),
{
    reveal_with_fuel(spec_chunks_bytes, 3);
    if views.len() == 0 {
        assert(views.push(v)[0] == v);
        assert(views.push(v).drop_first() =~= Seq::<ChunkView>::empty());
        assert(spec_chunks_bytes(views.push(v)) =~= spec_chunks_bytes(views) + spec_chunk_bytes(
            v,
        ));
    } else {
        assert(views.push(v)[0] == views[0]);
        assert(views.push(v).drop_first() =~= views.drop_first().push(v));
        lemma_chunks_bytes_push(views.drop_first(), v);
        assert(spec_chunks_bytes(views.push(v)) =~= spec_chunks_bytes(views) + spec_chunk_bytes(
            v,
        ));
    }
}

/// Round trip below the signature: decoding the concatenated bytes of valid
/// chunk views yields exactly those views.
/// One decode step: a valid chunk's bytes at the front of a buffer decode
/// to that chunk, and the rest of the buffer decodes on its own.
#[verifier::rlimit(100)]
#[verifier::spinoff_prover]
proof fn lemma_decode_chunks_step(v: ChunkView, tail: Seq<u8>)
    requires
        chunk_view_valid(v),
    ensures
        spec_decode_chunks(spec_chunk_bytes(v) + tail) == (match spec_decode_chunks(tail) {
            Ok(rest) => Ok::<Seq<ChunkView>, PngMeError>(seq![v] + rest),
            Err(e) => Err::<Seq<ChunkView>, PngMeError>(e),
        }),
{
    let cb = spec_chunk_bytes(v);
    let bytes = cb + tail;
    lemma_chunk_round_trip(v);
    lemma_u32_be_bytes_round_trip(v.data.len() as u32);
    let span = cb.len() as int;
    assert(bytes.subrange(0, 4) =~= cb.subrange(0, 4));
    assert(cb.subrange(0, 4) =~= crate::be32::spec_u32_to_be_bytes(v.data.len() as u32));
    assert(12 + spec_u32_from_be_bytes(bytes.subrange(0, 4)) == span);
    assert(bytes.len() >= span);
    assert(bytes.take(span) =~= cb);
    assert(bytes.skip(span) =~= tail);
}

pub proof fn lemma_decode_chunks_round_trip(views: Seq<ChunkView>)
    requires
        forall|i: int| 0 <= i < views.len() ==> chunk_view_valid(#[trigger] views[i]),
    ensures
        spec_decode_chunks(spec_chunks_bytes(views)) == Ok::<Seq<ChunkView>, PngMeError>(views),
    decreases views.len(),
{
    if views.len() == 0 {
        assert(spec_chunks_bytes(views) =~= Seq::<u8>::empty());
        assert(views =~= Seq::<ChunkView>::empty());
        assert(spec_decode_chunks(Seq::<u8>::empty()) == Ok::<Seq<ChunkView>, PngMeError>(
            Seq::empty(),
        ));
    } else {
        let v = views[0];
        let rest = views.drop_first();
        assert(spec_chunks_bytes(views) == spec_chunk_bytes(v) + spec_chunks_bytes(rest));
        lemma_decode_chunks_step(v, spec_chunks_bytes(rest));
        assert(forall|i: int| 0 <= i < rest.len() ==> chunk_view_valid(#[trigger] rest[i]));
        lemma_decode_chunks_round_trip(rest);
        assert(spec_decode_chunks(spec_chunks_bytes(views)) == Ok::<Seq<ChunkView>, PngMeError>(
            seq![v] + rest,
        ));
        assert(seq![v] + rest =~= views);
    }
}

/// Removal then lookup: after removing the only chunk of a type, no chunk
/// of that type remains anywhere, so a lookup for it finds nothing. When
/// the sequence holds several chunks of the type, removal takes only the
/// first and later ones still match.
pub proof fn lemma_remove_only_match(views: Seq<ChunkView>, ty: Seq<u8>, i: int)
    requires
        0 <= i < views.len(),
        views[i].chunk_type == ty,
        forall|j: int| 0 <= j < views.len() && j != i ==> (#[trigger] views[j]).chunk_type != ty,
    ensures
        no_match_before(views.remove(i), ty, views.remove(i).len() as int),
{
    let out = views.remove(i);
    assert forall|j: int| 0 <= j < out.len() implies (#[trigger] out[j]).chunk_type != ty by {
        if j < i {
            assert(out[j] == views[j]);
        } else {
            assert(out[j] == views[j + 1]);
        }
    }
}

/// Every chunk view a successful decode yields is a valid chunk: decoding
/// enforces the letter alphabet, the reserved bit and the length bound, so
/// a decoded stream meets the round-trip lemma's premise.
pub proof fn lemma_decoded_views_valid(bytes: Seq<u8>)
    requires
        spec_png_decode(bytes) is Ok,
    ensures
        forall|i: int|
            0 <= i < spec_png_decode(bytes)->Ok_0.len() ==> chunk_view_valid(
                #[trigger] spec_png_decode(bytes)->Ok_0[i],
            ),
{
    lemma_decode_chunks_views_valid(bytes.skip(8));
}

proof fn lemma_decode_chunks_views_valid(bytes: Seq<u8>)
    requires
        spec_decode_chunks(bytes) is Ok,
    ensures
        forall|i: int|
            0 <= i < spec_decode_chunks(bytes)->Ok_0.len() ==> chunk_view_valid(
                #[trigger] spec_decode_chunks(bytes)->Ok_0[i],
            ),
    decreases bytes.len(),
{
    if bytes.len() == 0 {
    } else {
        let span = 12 + spec_u32_from_be_bytes(bytes.subrange(0, 4));
        let v = spec_chunk_decode(bytes.take(span))->Ok_0;
        let head = bytes.take(span);
        assert(v.chunk_type == head.subrange(4, 8));
        assert(v.data.len() <= u32::MAX);
        assert(chunk_view_valid(v));
        lemma_decode_chunks_views_valid(bytes.skip(span));
        let rest = spec_decode_chunks(bytes.skip(span))->Ok_0;
        assert(forall|i: int|
            0 <= i < rest.len() ==> (seq![v] + rest)[i + 1] == #[trigger] rest[i]);
    }
}

/// Round trip: decoding the serialized bytes of a stream of valid chunks
/// yields exactly that stream, order preserved.
pub proof fn lemma_png_round_trip(views: Seq<ChunkView>)
    requires
        forall|i: int| 0 <= i < views.len() ==> chunk_view_valid(#[trigger] views[i]),
    ensures
        spec_png_decode(spec_png_bytes(views)) == Ok::<Seq<ChunkView>, PngMeError>(views),
{
    let bytes = spec_png_bytes(views);
    assert(bytes.subrange(0, 8) =~= spec_signature());
    assert(bytes.skip(8) =~= spec_chunks_bytes(views));
    lemma_decode_chunks_round_trip(views);
}

} // verus!
