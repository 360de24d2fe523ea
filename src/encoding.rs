use vstd::prelude::*;
use vstd::utf8::{decode_utf8, encode_utf8, valid_utf8};

verus! {

/// Relies on `String::from_utf8`: it succeeds exactly on valid UTF-8 and the
/// resulting string holds the given bytes unchanged.
#[verifier::external_body]
pub(crate) fn string_from_utf8(bytes: Vec<u8>) -> (r: Option<String>)
    ensures
        r is Some <==> valid_utf8(bytes@),
        r is Some ==> encode_utf8(r->Some_0@) == bytes@,
{
    String::from_utf8(bytes).ok()
}

/// Decodes UTF-8 bytes into text; `None` when they are not valid UTF-8.
pub(crate) fn decode_text(bytes: Vec<u8>) -> (r: Option<String>)
    ensures
        r is Some <==> valid_utf8(bytes@),
        r is Some ==> r->Some_0@ == decode_utf8(bytes@),
{
    let r = string_from_utf8(bytes);
    proof {
        if r is Some {
            vstd::utf8::encode_utf8_decode_utf8(r->Some_0@);
        }
    }
    r
}

} // verus!
