//! PNG bytes as `data:` URIs.
use base64::Engine;
use vstd::prelude::*;

verus! {

/// What the `base64` crate's standard engine (RFC 4648 alphabet, with
/// padding) encodes `bytes` to.
pub uninterp spec fn base64_standard(bytes: Seq<u8>) -> Seq<char>;

/// Encodes bytes with `base64::engine::general_purpose::STANDARD`.
/// The contract names the result; the encoding itself is not restated.
/// The crate panics when the encoded length overflows `usize`, which no
/// slice of at most `isize::MAX` bytes reaches.
#[verifier::external_body]
fn encode_base64(bytes: &[u8]) -> (r: String)
    requires
        bytes@.len() <= isize::MAX,
    ensures
        r@ == base64_standard(bytes@),
{
    base64::engine::general_purpose::STANDARD.encode(bytes)
}

/// The prefix of a PNG data URI.
pub open spec fn png_uri_prefix() -> Seq<char> {
    "data:image/png;base64,"@
}

/// The data URI of a PNG image.
pub open spec fn png_uri_spec(bytes: Seq<u8>) -> Seq<char> {
    png_uri_prefix() + base64_standard(bytes)
}

/// The `data:image/png;base64,...` URI of PNG bytes.
pub fn png_data_uri(bytes: &Vec<u8>) -> (r: String)
    requires
        bytes@.len() <= isize::MAX,
    ensures
        r@ == png_uri_spec(bytes@),
{
    let encoded = encode_base64(bytes.as_slice());
    let mut r = "data:image/png;base64,".to_owned();
    r.append(encoded.as_str());
    r
}

} // verus!
