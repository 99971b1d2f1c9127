//! Decoding bytes into strings.
use vstd::prelude::*;
use vstd::utf8::*;

verus! {

/// The string that `vec_u8_to_string` makes of `bytes`: their UTF-8 decoding
/// when they are valid UTF-8, else the empty string.
pub open spec fn string_of_bytes(bytes: Seq<u8>) -> Seq<char> {
    if valid_utf8(bytes) {
        decode_utf8(bytes)
    } else {
        seq![]
    }
}

/// What `String::from_utf8_lossy` makes of `bytes`: their decoding, with each
/// invalid sequence replaced by U+FFFD.
pub uninterp spec fn utf8_lossy(bytes: Seq<u8>) -> Seq<char>;

/// `std::str::from_utf8`: the documentation says it succeeds exactly when the
/// bytes are valid UTF-8, and then gives the string slice made of those bytes.
#[verifier::external_body]
fn str_from_utf8(v: &[u8]) -> (r: Option<&str>)
    ensures
        r is Some <==> valid_utf8(v@),
        r matches Some(s) ==> encode_utf8(s@) == v@,
{
    std::str::from_utf8(v).ok()
}

/// `String::from_utf8_lossy`: its result is named by `utf8_lossy`; the
/// documentation says that valid UTF-8 comes back decoded unchanged.
#[verifier::external_body]
pub(crate) fn string_from_utf8_lossy(v: &[u8]) -> (r: String)
    ensures
        r@ == utf8_lossy(v@),
        valid_utf8(v@) ==> r@ == decode_utf8(v@),
{
    String::from_utf8_lossy(v).into_owned()
}

/// Decodes `vc` as UTF-8; bytes that are not valid UTF-8 give the empty string.
pub fn vec_u8_to_string(vc: &Vec<u8>) -> (s: String)
    ensures
        s@ == string_of_bytes(vc@),
{
    broadcast use group_utf8_lib;

    match str_from_utf8(vc.as_slice()) {
        Some(v) => {
            assert(decode_utf8(encode_utf8(v@)) == v@);
            v.to_owned()
        },
        None => String::new(),
    }
}

/// Law: the bytes of a string decode back to that string.
pub proof fn lemma_vec_u8_to_string_roundtrip(s: Seq<char>)
    ensures
        string_of_bytes(encode_utf8(s)) == s,
{
    broadcast use group_utf8_lib;
}

} // verus!
