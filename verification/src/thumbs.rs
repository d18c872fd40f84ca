//! Thumbnails for the panel: PNG bytes as a `data:` URL.
use base64::engine::general_purpose::STANDARD as BASE64;
use base64::Engine;
use vstd::prelude::*;
use vstd::string::*;

verus! {

/// The standard, padded base64 encoding of `bytes`, as `base64`'s `STANDARD`
/// engine computes it.
pub uninterp spec fn base64_standard(bytes: Seq<u8>) -> Seq<char>;

/// `base64::engine::general_purpose::STANDARD.encode(bytes)`: the padded
/// standard base64 text of `bytes`, four characters per started group of
/// three bytes. The characters themselves are left to the name
/// `base64_standard`. The crate panics when that length overflows `usize`,
/// which the `requires` excludes.
#[verifier::external_body]
fn encode_base64(bytes: &[u8]) -> (r: String)
    requires
        4 * ((bytes@.len() + 2) / 3) <= usize::MAX,
    ensures
        r@ == base64_standard(bytes@),
        r@.len() == 4 * ((bytes@.len() + 2) / 3),
{
    BASE64.encode(bytes)
}

/// The `data:` URL of a PNG image.
pub open spec fn png_data_url_text(png: Seq<u8>) -> Seq<char> {
    "data:image/png;base64,"@ + base64_standard(png)
}

/// Encodes PNG bytes as a `data:image/png;base64,` URL for the panel.
pub fn png_data_url(png: &[u8]) -> (r: String)
    requires
        4 * ((png@.len() + 2) / 3) <= usize::MAX,
    ensures
        r@ == png_data_url_text(png@),
{
    let mut url: String = "data:image/png;base64,".to_owned();
    let encoded = encode_base64(png);
    url.append(encoded.as_str());
    url
}

} // verus!
