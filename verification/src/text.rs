use vstd::prelude::*;

verus! {

/// Relies on std::str::from_utf8: it returns `Ok` exactly on the byte
/// sequences that are valid UTF-8, and the resulting string views those
/// same bytes; and on str::to_owned, which copies the string.
#[verifier::external_body]
pub(crate) fn utf8_to_string(bytes: &[u8]) -> (r: Option<String>)
    ensures
        match r {
            Some(s) => vstd::utf8::valid_utf8(bytes@) && vstd::utf8::encode_utf8(s@) == bytes@,
            None => !vstd::utf8::valid_utf8(bytes@),
        },
{
    match std::str::from_utf8(bytes) {
        Ok(s) => Some(s.to_owned()),
        Err(_) => None,
    }
}

} // verus!
