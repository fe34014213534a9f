use vstd::prelude::*;

verus! {

/// Every failure the library reports, one variant per rejected condition.
#[derive(Debug, Clone, Copy, PartialEq, Eq, Structural)]
pub enum PngMeError {
    /// A chunk-type code string was not exactly 4 bytes long, or a chunk's
    /// declared length did not fit the buffer handed to the decoder.
    InvalidChunkLength,
    /// A chunk-type byte fell outside the ASCII letter alphabet.
    InvalidBytes,
    /// A decoded chunk's type was not a valid chunk type.
    InvalidChunkType,
    /// A decoded chunk's stored CRC did not match the one recomputed
    /// over its type and data bytes.
    InvalidCRC,
    /// A buffer did not begin with the 8-byte PNG signature.
    InvalidHeader,
    /// Removal named a type code absent from the chunk sequence.
    ChunkNotFound,
    /// A chunk payload was requested as text but is not valid UTF-8.
    Utf8DecodeError,
}

/// The human-readable description of each failure.
pub open spec fn spec_message(e: PngMeError) -> Seq<char> {
    match e {
        PngMeError::InvalidChunkLength => "invalid chunk length"@,
        PngMeError::InvalidBytes => "chunk type byte outside the ASCII letter alphabet"@,
        PngMeError::InvalidChunkType => "invalid chunk type"@,
        PngMeError::InvalidCRC => "CRC mismatch"@,
        PngMeError::InvalidHeader => "invalid PNG file header"@,
        PngMeError::ChunkNotFound => "no chunk of the given type exists"@,
        PngMeError::Utf8DecodeError => "chunk data is not valid UTF-8"@,
    }
}

impl PngMeError {
    /// The failure's description, for callers that present errors as text.
    pub fn message(&self) -> (r: String)
        ensures
            r@ == spec_message(*self),
    {
        match self {
            PngMeError::InvalidChunkLength => "invalid chunk length".to_owned(),
            PngMeError::InvalidBytes => "chunk type byte outside the ASCII letter alphabet"
                .to_owned(),
            PngMeError::InvalidChunkType => "invalid chunk type".to_owned(),
            PngMeError::InvalidCRC => "CRC mismatch".to_owned(),
            PngMeError::InvalidHeader => "invalid PNG file header".to_owned(),
            PngMeError::ChunkNotFound => "no chunk of the given type exists".to_owned(),
            PngMeError::Utf8DecodeError => "chunk data is not valid UTF-8".to_owned(),
        }
    }
}

} // verus!
