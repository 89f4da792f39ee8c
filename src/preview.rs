//! Frame previews: the size a preview is scaled to, and its data URL.
use vstd::prelude::*;
use base64::Engine;

verus! {

/// Widest preview, in pixels.
pub const PREVIEW_MAX_WIDTH: u32 = 800;

/// Standard base64 (RFC 4648 alphabet, `=` padding) of some bytes.
pub uninterp spec fn base64_standard(bytes: Seq<u8>) -> Seq<char>;

/// Relies on base64's `general_purpose::STANDARD.encode`: the standard
/// alphabet with padding, four characters for each started group of three
/// bytes. It panics when that length overflows `usize`.
#[verifier::external_body]
fn encode_base64(bytes: &Vec<u8>) -> (r: String)
    requires
        bytes@.len() / 3 * 4 + 4 <= usize::MAX,
    ensures
        r@ == base64_standard(bytes@),
        r@.len() == 4 * ((bytes@.len() + 2) / 3),
{
    base64::engine::general_purpose::STANDARD.encode(bytes)
}

/// Size of the preview of a `width` by `height` frame: frames wider than
/// `PREVIEW_MAX_WIDTH` are scaled down to that width, the height in
/// proportion (rounded down); narrower ones keep their size.
pub fn preview_size(width: u32, height: u32) -> (r: (u32, u32))
    ensures
        width <= PREVIEW_MAX_WIDTH ==> r == (width, height),
        width > PREVIEW_MAX_WIDTH ==> r.0 == PREVIEW_MAX_WIDTH && r.1 == height as int
            * PREVIEW_MAX_WIDTH / width as int,
{
    if width <= PREVIEW_MAX_WIDTH {
        (width, height)
    } else {
        let h = height as u64;
        assert(h * 800 <= 0xFFFF_FFFF * 800) by (nonlinear_arith)
            requires
                h <= 0xFFFF_FFFF,
        ;
        let scaled = h * (PREVIEW_MAX_WIDTH as u64) / (width as u64);
        proof {
            assert(scaled <= height) by (nonlinear_arith)
                requires
                    scaled == height as int * 800 / width as int,
                    width > 800,
            ;
        }
        (PREVIEW_MAX_WIDTH, scaled as u32)
    }
}

/// A `data:` URL that carries a JPEG image in base64.
pub fn preview_data_url(jpeg: &Vec<u8>) -> (r: String)
    requires
        jpeg@.len() / 3 * 4 + 4 <= usize::MAX,
    ensures
        r@ == "data:image/jpeg;base64,"@ + base64_standard(jpeg@),
{
    let encoded = encode_base64(jpeg);
    "data:image/jpeg;base64,".to_owned().concat(encoded.as_str())
}

} // verus!
