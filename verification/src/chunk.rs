use vstd::prelude::*;
use vstd::slice::{slice_subrange, slice_to_vec};
use vstd::utf8::{decode_utf8, encode_utf8, valid_utf8};

use crate::be32::{
    lemma_u32_be_bytes_round_trip, push_u32_be, spec_u32_from_be_bytes, spec_u32_to_be_bytes,
    u32_from_be_at,
};
use crate::chunk_type::{all_letter_bytes, is_upper_byte, ChunkType};
use crate::crc32::{crc32, crc32_of};
use crate::error::PngMeError;
use crate::text::utf8_to_string;

verus! {

/// The mathematical content of a chunk: its type code bytes and its payload.
/// Length and CRC are derived from these two.
#[verifier::ext_equal]
pub struct ChunkView {
    pub chunk_type: Seq<u8>,
    pub data: Seq<u8>,
}

/// The shape every constructed chunk has: a 4-byte letter type code and a
/// payload whose length fits the 32-bit length field.
pub open spec fn chunk_view_wf(v: ChunkView) -> bool {
    v.chunk_type.len() == 4 && all_letter_bytes(v.chunk_type) && v.data.len() <= u32::MAX
}

/// A well-formed chunk whose type code is also a valid chunk type
/// (reserved bit valid), as the decoder demands.
pub open spec fn chunk_view_valid(v: ChunkView) -> bool {
    chunk_view_wf(v) && is_upper_byte(v.chunk_type[2])
}

/// The serialized form of a chunk: 4-byte big-endian length, 4 type bytes,
/// the payload, and the 4-byte big-endian CRC of type and payload.
pub open spec fn spec_chunk_bytes(v: ChunkView) -> Seq<u8>
    recommends
        chunk_view_wf(v),
{
    spec_u32_to_be_bytes(v.data.len() as u32) + v.chunk_type + v.data + spec_u32_to_be_bytes(
        crc32_of(v.chunk_type + v.data),
    )
}

/// What decoding a buffer that should hold exactly one chunk yields, with
/// the checks in the decoder's order: framing, then chunk-type validity,
/// then exact length, then CRC.
pub open spec fn spec_chunk_decode(bytes: Seq<u8>) -> Result<ChunkView, PngMeError> {
    if bytes.len() < 12 {
        Err(PngMeError::InvalidChunkLength)
    } else {
        let length = spec_u32_from_be_bytes(bytes.subrange(0, 4));
        let ty = bytes.subrange(4, 8);
        if !(all_letter_bytes(ty) && is_upper_byte(ty[2])) {
            Err(PngMeError::InvalidChunkType)
        } else if bytes.len() != 12 + length {
            Err(PngMeError::InvalidChunkLength)
        } else {
            let data = bytes.subrange(8, 8 + length);
            let stored = spec_u32_from_be_bytes(bytes.subrange(8 + length, 12 + length));
            if stored != crc32_of(ty + data) {
                Err(PngMeError::InvalidCRC)
            } else {
                Ok(ChunkView { chunk_type: ty, data })
            }
        }
    }
}

/// One length-prefixed, type-tagged, CRC-checked record of a PNG stream.
#[derive(Debug)]
pub struct Chunk {
    chunk_type: ChunkType,
    data: Vec<u8>,
    length: u32,
    crc: u32,
}

impl View for Chunk {
    type V = ChunkView;

    closed spec fn view(&self) -> ChunkView {
        ChunkView { chunk_type: self.chunk_type@, data: self.data@ }
    }
}

impl Chunk {
    /// The stored length and CRC always agree with the type and payload.
    #[verifier::type_invariant]
    spec fn chunk_wf(self) -> bool {
        chunk_view_wf(self@) && self.length == self.data@.len() && self.crc == crc32_of(
            self.chunk_type@ + self.data@,
        )
    }

    /// Builds a chunk from a type code and payload; the length and CRC are
    /// computed, so construction always succeeds.
    pub fn new(chunk_type: ChunkType, data: Vec<u8>) -> (r: Chunk)
        requires
            data@.len() <= u32::MAX,
        ensures
            r@ == (ChunkView { chunk_type: chunk_type@, data: data@ }),
    {
        proof {
            use_type_invariant(&chunk_type);
        }
        let length = data.len() as u32;
        let tb = chunk_type.bytes();
        let mut buf: Vec<u8> = Vec::new();
        buf.push(tb[0]);
        buf.push(tb[1]);
        buf.push(tb[2]);
        buf.push(tb[3]);
        let mut payload = slice_to_vec(data.as_slice());
        buf.append(&mut payload);
        proof {
            assert(buf@ =~= chunk_type@ + data@);
        }
        let crc = crc32(buf.as_slice());
        let r = Chunk { chunk_type, data, length, crc };
        proof {
            assert(r@ =~= (ChunkView { chunk_type: chunk_type@, data: r.data@ }));
        }
        r
    }

    /// The payload length, as stored in the 32-bit length field.
    pub fn length(&self) -> (r: u32)
        ensures
            r == self@.data.len(),
    {
        proof {
            use_type_invariant(self);
        }
        self.length
    }

    /// The chunk's type code.
    pub fn chunk_type(&self) -> (r: &ChunkType)
        ensures
            r@ == self@.chunk_type,
    {
        &self.chunk_type
    }

    /// The payload bytes.
    pub fn data(&self) -> (r: &[u8])
        ensures
            r@ == self@.data,
    {
        self.data.as_slice()
    }

    /// The stored CRC, always the CRC-32 of the type and payload bytes.
    pub fn crc(&self) -> (r: u32)
        ensures
            r == crc32_of(self@.chunk_type + self@.data),
    {
        proof {
            use_type_invariant(self);
        }
        self.crc
    }

    /// The payload interpreted as UTF-8 text.
    pub fn data_as_string(&self) -> (r: Result<String, PngMeError>)
        ensures
            match r {
                Ok(s) => valid_utf8(self@.data) && encode_utf8(s@) == self@.data && s@
                    == decode_utf8(self@.data),
                Err(e) => !valid_utf8(self@.data) && e == PngMeError::Utf8DecodeError,
            },
    {
        match utf8_to_string(self.data.as_slice()) {
            Some(s) => {
                proof {
                    vstd::utf8::encode_utf8_decode_utf8(s@);
                }
                Ok(s)
            },
            None => Err(PngMeError::Utf8DecodeError),
        }
    }

    /// Serializes the chunk back to its length, type, payload, CRC layout.
    pub fn as_bytes(&self) -> (r: Vec<u8>)
        ensures
            r@ == spec_chunk_bytes(self@),
    {
        proof {
            use_type_invariant(self);
        }
        let mut out: Vec<u8> = Vec::new();
        push_u32_be(&mut out, self.length);
        let tb = self.chunk_type.bytes();
        out.push(tb[0]);
        out.push(tb[1]);
        out.push(tb[2]);
        out.push(tb[3]);
        let mut payload = slice_to_vec(self.data.as_slice());
        out.append(&mut payload);
        push_u32_be(&mut out, self.crc);
        proof {
            assert(out@ =~= spec_chunk_bytes(self@));
        }
        out
    }

    /// Decodes a buffer holding exactly one chunk; every way the buffer can
    /// be rejected is reflected in `spec_chunk_decode`.
    pub fn decode(bytes: &[u8]) -> (r: Result<Chunk, PngMeError>)
        ensures
            match r {
                Ok(c) => spec_chunk_decode(bytes@) == Ok::<ChunkView, PngMeError>(c@),
                Err(e) => spec_chunk_decode(bytes@) == Err::<ChunkView, PngMeError>(e),
            },
    {
        if bytes.len() < 12 {
            return Err(PngMeError::InvalidChunkLength);
        }
        let length = u32_from_be_at(bytes, 0);
        let ty_arr = [bytes[4], bytes[5], bytes[6], bytes[7]];
        proof {
            assert(ty_arr@ =~= bytes@.subrange(4, 8));
        }
        let chunk_type = match ChunkType::from_bytes(ty_arr) {
            Ok(t) => t,
            Err(_) => {
                return Err(PngMeError::InvalidChunkType);
            },
        };
        if !chunk_type.is_valid() {
            return Err(PngMeError::InvalidChunkType);
        }
        if bytes.len() - 12 != length as usize {
            return Err(PngMeError::InvalidChunkLength);
        }
        let data: Vec<u8> = slice_to_vec(slice_subrange(bytes, 8, bytes.len() - 4));
        let stored = u32_from_be_at(bytes, bytes.len() - 4);
        let computed = crc32(slice_subrange(bytes, 4, bytes.len() - 4));
        proof {
            assert(bytes@.subrange(4, bytes@.len() - 4) =~= bytes@.subrange(4, 8)
                + bytes@.subrange(8, bytes@.len() - 4));
        }
        if stored != computed {
            return Err(PngMeError::InvalidCRC);
        }
        let c = Chunk { chunk_type, data, length, crc: stored };
        proof {
            assert(c@ =~= spec_chunk_decode(bytes@)->Ok_0);
        }
        Ok(c)
    }
}

impl PartialEq for Chunk {
    /// Chunks are equal exactly when their type codes and payloads are.
    fn eq(&self, other: &Chunk) -> (r: bool) {
        let a = self.chunk_type.bytes();
        let b = other.chunk_type.bytes();
        let r = a[0] == b[0] && a[1] == b[1] && a[2] == b[2] && a[3] == b[3] && self.data
            == other.data;
        proof {
            if r {
                assert(self.chunk_type@ =~= other.chunk_type@);
                assert(self.data@ =~= other.data@);
                assert(self@ =~= other@);
            } else {
                assert(self@ != other@);
            }
        }
        r
    }
}

impl vstd::std_specs::cmp::PartialEqSpecImpl for Chunk {
    open spec fn obeys_eq_spec() -> bool {
        true
    }

    open spec fn eq_spec(&self, other: &Chunk) -> bool {
        self@ == other@
    }
}

/// Round trip: decoding the serialized bytes of any valid chunk yields
/// exactly that chunk.
pub proof fn lemma_chunk_round_trip(v: ChunkView)
    requires
        chunk_view_valid(v),
    ensures
        spec_chunk_bytes(v).len() == 12 + v.data.len(),
        spec_chunk_decode(spec_chunk_bytes(v)) == Ok::<ChunkView, PngMeError>(v),
{
    let bytes = spec_chunk_bytes(v);
    let n = v.data.len() as int;
    lemma_u32_be_bytes_round_trip(v.data.len() as u32);
    lemma_u32_be_bytes_round_trip(crc32_of(v.chunk_type + v.data));
    assert(bytes.len() == 12 + n);
    assert(bytes.subrange(0, 4) =~= spec_u32_to_be_bytes(v.data.len() as u32));
    assert(bytes.subrange(4, 8) =~= v.chunk_type);
    assert(bytes.subrange(8, 8 + n) =~= v.data);
    assert(bytes.subrange(8 + n, 12 + n) =~= spec_u32_to_be_bytes(
        crc32_of(v.chunk_type + v.data),
    ));
    assert(spec_chunk_decode(bytes)->Ok_0 =~= v);
}

/// CRC sensitivity: take a valid chunk's serialized bytes and alter its type
/// or payload bytes (keeping the frame, the letter alphabet and the reserved
/// bit, which the decoder checks first). Whenever the CRC of the altered type
/// and payload differs from the stored one, decoding fails with `InvalidCRC`.
pub proof fn lemma_chunk_corruption_detected(v: ChunkView, ty: Seq<u8>, data: Seq<u8>)
    requires
        chunk_view_valid(v),
        ty.len() == 4,
        all_letter_bytes(ty),
        is_upper_byte(ty[2]),
        data.len() == v.data.len(),
        crc32_of(ty + data) != crc32_of(v.chunk_type + v.data),
    ensures
        spec_chunk_decode(
            spec_u32_to_be_bytes(v.data.len() as u32) + ty + data + spec_u32_to_be_bytes(
                crc32_of(v.chunk_type + v.data),
            ),
        ) == Err::<ChunkView, PngMeError>(PngMeError::InvalidCRC),
{
    let bytes = spec_u32_to_be_bytes(v.data.len() as u32) + ty + data + spec_u32_to_be_bytes(
        crc32_of(v.chunk_type + v.data),
    );
    let n = v.data.len() as int;
    lemma_u32_be_bytes_round_trip(v.data.len() as u32);
    lemma_u32_be_bytes_round_trip(crc32_of(v.chunk_type + v.data));
    assert(bytes.len() == 12 + n);
    assert(bytes.subrange(0, 4) =~= spec_u32_to_be_bytes(v.data.len() as u32));
    assert(bytes.subrange(4, 8) =~= ty);
    assert(bytes.subrange(8, 8 + n) =~= data);
    assert(bytes.subrange(8 + n, 12 + n) =~= spec_u32_to_be_bytes(
        crc32_of(v.chunk_type + v.data),
    ));
}

} // verus!
