use vstd::prelude::*;
use vstd::string::StringSliceAdditionalSpecFns;
use vstd::utf8::{
    decode_utf8, encode_utf8, is_leading_byte_width_1, partial_valid_utf8,
    partial_valid_utf8_extend_ascii_block, valid_utf8,
};

use crate::error::PngMeError;
use crate::text::utf8_to_string;

verus! {

broadcast use vstd::array::group_array_axioms;

/// True of an ASCII uppercase letter byte.
pub open spec fn is_upper_byte(b: u8) -> bool {
    65 <= b && b <= 90
}

/// True of an ASCII lowercase letter byte.
pub open spec fn is_lower_byte(b: u8) -> bool {
    97 <= b && b <= 122
}

/// True of the bytes permitted in a chunk-type code: ASCII letters.
pub open spec fn is_letter_byte(b: u8) -> bool {
    is_upper_byte(b) || is_lower_byte(b)
}

/// True when every byte of `s` is an ASCII letter.
pub open spec fn all_letter_bytes(s: Seq<u8>) -> bool {
    forall|i: int| 0 <= i < s.len() ==> is_letter_byte(#[trigger] s[i])
}

/// A 4-byte PNG chunk-type code. Each byte is an ASCII letter, and the
/// case of each byte encodes one property bit of the chunk.
#[derive(Debug, Clone, Copy, PartialEq, Eq, Structural)]
pub struct ChunkType {
    b0: u8,
    b1: u8,
    b2: u8,
    b3: u8,
}

impl View for ChunkType {
    type V = Seq<u8>;

    closed spec fn view(&self) -> Seq<u8> {
        seq![self.b0, self.b1, self.b2, self.b3]
    }
}

impl ChunkType {
    /// Construction only ever yields codes made of ASCII letters.
    #[verifier::type_invariant]
    pub open spec fn type_wf(self) -> bool {
        self@.len() == 4 && all_letter_bytes(self@)
    }

    /// Builds a chunk-type code from 4 raw bytes; rejects any byte
    /// outside the ASCII letter alphabet.
    pub fn from_bytes(bytes: [u8; 4]) -> (r: Result<ChunkType, PngMeError>)
        ensures
            match r {
                Ok(t) => all_letter_bytes(bytes@) && t@ == bytes@,
                Err(e) => !all_letter_bytes(bytes@) && e == PngMeError::InvalidBytes,
            },
    {
        if Self::is_valid_byte(bytes[0]) && Self::is_valid_byte(bytes[1])
            && Self::is_valid_byte(bytes[2]) && Self::is_valid_byte(bytes[3]) {
            let t = ChunkType { b0: bytes[0], b1: bytes[1], b2: bytes[2], b3: bytes[3] };
            proof {
                assert(t@ =~= bytes@);
            }
            Ok(t)
        } else {
            Err(PngMeError::InvalidBytes)
        }
    }

    /// The 4 raw bytes of the code, as a fresh array.
    pub fn bytes(&self) -> (r: [u8; 4])
        ensures
            r@ == self@,
    {
        let r = [self.b0, self.b1, self.b2, self.b3];
        proof {
            assert(r@ =~= self@);
        }
        r
    }

    /// Byte 0 uppercase: the chunk is critical; lowercase: ancillary.
    pub fn is_critical(&self) -> (r: bool)
        ensures
            r == is_upper_byte(self@[0]),
    {
        65 <= self.b0 && self.b0 <= 90
    }

    /// Byte 1 uppercase: the chunk type is public; lowercase: private.
    pub fn is_public(&self) -> (r: bool)
        ensures
            r == is_upper_byte(self@[1]),
    {
        65 <= self.b1 && self.b1 <= 90
    }

    /// Byte 2 uppercase: the reserved bit is valid, as PNG requires
    /// of every conforming chunk type.
    pub fn is_reserved_bit_valid(&self) -> (r: bool)
        ensures
            r == is_upper_byte(self@[2]),
    {
        65 <= self.b2 && self.b2 <= 90
    }

    /// Byte 3 lowercase: the chunk is safe to copy; uppercase: unsafe.
    pub fn is_safe_to_copy(&self) -> (r: bool)
        ensures
            r == is_lower_byte(self@[3]),
    {
        97 <= self.b3 && self.b3 <= 122
    }

    /// A code is valid when its reserved bit is valid and all 4 bytes are
    /// ASCII letters; construction already guarantees the latter.
    pub fn is_valid(&self) -> (r: bool)
        ensures
            r == (is_upper_byte(self@[2]) && all_letter_bytes(self@)),
    {
        proof {
            use_type_invariant(self);
        }
        self.is_reserved_bit_valid()
    }

    /// True of a byte the chunk-type alphabet permits: an ASCII letter.
    pub fn is_valid_byte(byte: u8) -> (r: bool)
        ensures
            r == is_letter_byte(byte),
    {
        (65 <= byte && byte <= 90) || (97 <= byte && byte <= 122)
    }

    /// True of a byte sequence that could be a chunk-type code: exactly 4
    /// bytes, all ASCII letters.
    pub fn is_valid_byte_array(arr: &[u8]) -> (r: bool)
        ensures
            r == (arr@.len() == 4 && all_letter_bytes(arr@)),
    {
        if arr.len() != 4 {
            return false;
        }
        let r = Self::is_valid_byte(arr[0]) && Self::is_valid_byte(arr[1]) && Self::is_valid_byte(
            arr[2],
        ) && Self::is_valid_byte(arr[3]);
        proof {
            if r {
                assert(forall|i: int| 0 <= i < 4 ==> is_letter_byte(#[trigger] arr@[i]));
            }
        }
        r
    }

    /// Builds a chunk-type code from a string; rejects one whose byte length
    /// is not 4, then any byte outside the letter alphabet.
    pub fn from_string(s: &str) -> (r: Result<ChunkType, PngMeError>)
        ensures
            match r {
                Ok(t) => s.spec_bytes().len() == 4 && all_letter_bytes(s.spec_bytes()) && t@
                    == s.spec_bytes(),
                Err(e) => if s.spec_bytes().len() != 4 {
                    e == PngMeError::InvalidChunkLength
                } else {
                    !all_letter_bytes(s.spec_bytes()) && e == PngMeError::InvalidBytes
                },
            },
    {
        if s.len() != 4 {
            return Err(PngMeError::InvalidChunkLength);
        }
        let b = s.as_bytes();
        let arr = [b[0], b[1], b[2], b[3]];
        proof {
            assert(arr@ =~= s.spec_bytes());
        }
        ChunkType::from_bytes(arr)
    }

    /// The 4-character string form of the code, one ASCII character per byte.
    pub fn to_text(&self) -> (r: String)
        ensures
            encode_utf8(r@) == self@,
            r@ == decode_utf8(self@),
    {
        proof {
            use_type_invariant(self);
        }
        let mut bytes: Vec<u8> = Vec::new();
        bytes.push(self.b0);
        bytes.push(self.b1);
        bytes.push(self.b2);
        bytes.push(self.b3);
        proof {
            assert(bytes@ =~= self@);
            assert(valid_utf8(self@)) by {
                assert(forall|i: int|
                    0 <= i < self@.len() ==> is_leading_byte_width_1(#[trigger] self@[i]));
                assert(self@.subrange(0, 0) =~= Seq::<u8>::empty());
                assert(partial_valid_utf8(self@, 0));
                partial_valid_utf8_extend_ascii_block(self@, 0, 4);
                assert(self@.subrange(0, 4) =~= self@);
            }
        }
        match utf8_to_string(bytes.as_slice()) {
            Some(s) => {
                proof {
                    vstd::utf8::encode_utf8_decode_utf8(s@);
                }
                s
            },
            None => {
                proof {
                    assert(false);
                }
                vstd::pervasive::unreached()
            },
        }
    }
}

} // verus!
