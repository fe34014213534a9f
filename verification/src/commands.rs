use vstd::prelude::*;
use vstd::slice::slice_to_vec;
use vstd::string::StringSliceAdditionalSpecFns;

use crate::chunk::{Chunk, ChunkView};
use crate::chunk_type::{all_letter_bytes, ChunkType};
use crate::error::PngMeError;
use crate::png::{no_match_before, spec_png_bytes, spec_png_decode, Png};

verus! {

/// Decodes a PNG stream, appends one chunk carrying `message` under the
/// 4-character `chunk_type` code, and re-serializes the whole stream.
/// The stream is decoded first, so a malformed stream's error wins over a
/// malformed type code's.
pub fn encode(png_bytes: &[u8], chunk_type: &str, message: &str) -> (r: Result<
    Vec<u8>,
    PngMeError,
>)
    requires
        message.spec_bytes().len() <= u32::MAX,
    ensures
        match r {
            Ok(out) => match spec_png_decode(png_bytes@) {
                Ok(views) => chunk_type.spec_bytes().len() == 4 && all_letter_bytes(
                    chunk_type.spec_bytes(),
                ) && out@ == spec_png_bytes(
                    views.push(
                        ChunkView {
                            chunk_type: chunk_type.spec_bytes(),
                            data: message.spec_bytes(),
                        },
                    ),
                ),
                Err(_) => false,
            },
            Err(e) => match spec_png_decode(png_bytes@) {
                Err(pe) => e == pe,
                Ok(_) => if chunk_type.spec_bytes().len() != 4 {
                    e == PngMeError::InvalidChunkLength
                } else {
                    !all_letter_bytes(chunk_type.spec_bytes()) && e == PngMeError::InvalidBytes
                },
            },
        },
{
    let mut png = match Png::decode(png_bytes) {
        Ok(p) => p,
        Err(e) => {
            return Err(e);
        },
    };
    let ct = match ChunkType::from_string(chunk_type) {
        Ok(t) => t,
        Err(e) => {
            return Err(e);
        },
    };
    let data: Vec<u8> = slice_to_vec(message.as_bytes());
    let chunk = Chunk::new(ct, data);
    png.append_chunk(chunk);
    Ok(png.as_bytes())
}

/// Decodes a PNG stream, removes the first chunk whose type code equals
/// `chunk_type`, and re-serializes the remaining stream.
#[verifier::rlimit(50)]
pub fn remove(png_bytes: &[u8], chunk_type: &str) -> (r: Result<Vec<u8>, PngMeError>)
    ensures
        match r {
            Ok(out) => match spec_png_decode(png_bytes@) {
                Ok(views) => exists|i: int|
                    #![trigger views.remove(i)]
                    0 <= i < views.len() && views[i].chunk_type == chunk_type.spec_bytes()
                        && no_match_before(views, chunk_type.spec_bytes(), i) && out@
                        == spec_png_bytes(views.remove(i)),
                Err(_) => false,
            },
            Err(e) => match spec_png_decode(png_bytes@) {
                Err(pe) => e == pe,
                Ok(views) => e == PngMeError::ChunkNotFound && no_match_before(
                    views,
                    chunk_type.spec_bytes(),
                    views.len() as int,
                ),
            },
        },
{
    let mut png = match Png::decode(png_bytes) {
        Ok(p) => p,
        Err(e) => {
            return Err(e);
        },
    };
    let ghost views = png@;
    match png.remove_chunk(chunk_type) {
        Ok(c) => {
            let out = png.as_bytes();
            proof {
                let i = choose|i: int|
                    #![auto]
                    0 <= i < views.len() && views[i] == c@ && c@.chunk_type
                        == chunk_type.spec_bytes() && no_match_before(
                        views,
                        chunk_type.spec_bytes(),
                        i,
                    ) && png@ == views.remove(i);
                let vs = spec_png_decode(png_bytes@)->Ok_0;
                assert(spec_png_decode(png_bytes@) == Ok::<Seq<ChunkView>, PngMeError>(views));
                assert(vs == views);
                assert(0 <= i < vs.len() && vs[i].chunk_type == chunk_type.spec_bytes()
                    && no_match_before(vs, chunk_type.spec_bytes(), i) && out@
                    == spec_png_bytes(vs.remove(i)));
                assert(match spec_png_decode(png_bytes@) {
                    Ok(vs) => exists|j: int|
                        #![trigger vs.remove(j)]
                        0 <= j < vs.len() && vs[j].chunk_type == chunk_type.spec_bytes()
                            && no_match_before(vs, chunk_type.spec_bytes(), j) && out@
                            == spec_png_bytes(vs.remove(j)),
                    Err(_) => false,
                });
            }
            Ok(out)
        },
        Err(e) => Err(e),
    }
}

} // verus!
