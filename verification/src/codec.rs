//! Base64 for scripts: text in, text out.

use vstd::prelude::*;
use vstd::string::StringSliceAdditionalSpecFns;
use vstd::utf8::{decode_utf8, valid_utf8};

verus! {

/// The standard base64 encoding of `data`, with padding.
pub uninterp spec fn base64_encoded(data: Seq<u8>) -> Seq<char>;

/// The bytes that `text` encodes in standard base64, where it encodes any.
pub uninterp spec fn base64_decoded(text: Seq<char>) -> Option<Seq<u8>>;

/// `base64::Engine::encode` of the standard engine: the encoding of the
/// bytes of `data`. The engine gives up where four thirds of the length do
/// not fit in `usize`; no text in memory is that long.
#[verifier::external_body]
fn encode(data: &str) -> (r: String)
    ensures
        r@ == base64_encoded(data.spec_bytes()),
{
    base64::Engine::encode(&base64::prelude::BASE64_STANDARD, data)
}

/// `base64::Engine::decode` of the standard engine: the bytes that `text`
/// encodes, or `None` where it is no base64.
#[verifier::external_body]
fn decode(text: &str) -> (r: Option<Vec<u8>>)
    ensures
        match r {
            Some(bytes) => base64_decoded(text@) == Some(bytes@),
            None => base64_decoded(text@) is None,
        },
{
    base64::Engine::decode(&base64::prelude::BASE64_STANDARD, text).ok()
}

/// `String::from_utf8`: the text that `bytes` are the UTF-8 of, or `None`
/// where they are not UTF-8.
#[verifier::external_body]
fn utf8_text(bytes: Vec<u8>) -> (r: Option<String>)
    ensures
        r is Some <==> valid_utf8(bytes@),
        r matches Some(text) ==> text@ == decode_utf8(bytes@),
{
    String::from_utf8(bytes).ok()
}

/// The text that decoded bytes stand for: the text they are the UTF-8 of,
/// and the empty text where nothing was decoded or the bytes are no UTF-8.
pub open spec fn text_of_decoded(decoded: Option<Seq<u8>>) -> Seq<char> {
    match decoded {
        Some(bytes) => if valid_utf8(bytes) {
            decode_utf8(bytes)
        } else {
            Seq::empty()
        },
        None => Seq::empty(),
    }
}

/// Computes [`text_of_decoded`].
pub fn text_or_empty(decoded: Option<Vec<u8>>) -> (r: String)
    ensures
        r@ == text_of_decoded(
            match decoded {
                Some(bytes) => Some(bytes@),
                None => None,
            },
        ),
{
    match decoded {
        Some(bytes) => match utf8_text(bytes) {
            Some(text) => text,
            None => String::new(),
        },
        None => String::new(),
    }
}

/// The base64 encoding of the bytes of `data`.
pub fn to_base64(data: &str) -> (r: String)
    ensures
        r@ == base64_encoded(data.spec_bytes()),
{
    encode(data)
}

/// The text that `data` encodes in base64. What is no base64, or encodes
/// no text, gives the empty text.
pub fn from_base64(data: &str) -> (r: String)
    ensures
        r@ == text_of_decoded(base64_decoded(data@)),
{
    text_or_empty(decode(data))
}

} // verus!
