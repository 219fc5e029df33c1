//! Placeholder preview pages: a white A4-proportioned raster with a light
//! gray border, one per page of an existing document, each carried as a
//! PNG `data:` URL.

use vstd::prelude::*;

use crate::dataurl::{base64_chars, base64_encode, data_url};
use crate::loader::PageData;

verus! {

/// Width in pixels of a placeholder page.
pub const PLACEHOLDER_W: u32 = 595;

/// Height in pixels of a placeholder page.
pub const PLACEHOLDER_H: u32 = 842;

/// Channel `i` of the row-major RGBA placeholder raster: alpha is opaque,
/// border pixels are light gray (200), interior pixels white (255).
pub open spec fn placeholder_channel(w: u32, h: u32, i: int) -> u8 {
    let p = i / 4;
    let x = p % (w as int);
    let y = p / (w as int);
    let c = i % 4;
    if c == 3 {
        255
    } else if x == 0 || y == 0 || x == w - 1 || y == h - 1 {
        200
    } else {
        255
    }
}

/// The whole placeholder raster.
pub open spec fn spec_placeholder_rgba(w: u32, h: u32) -> Seq<u8> {
    Seq::new((w as nat) * (h as nat) * 4, |i: int| placeholder_channel(w, h, i))
}

/// Builds the RGBA raster of one placeholder page.
pub fn placeholder_rgba(w: u32, h: u32) -> (v: Vec<u8>)
    requires
        w > 0,
        h > 0,
        w as int * h as int * 4 <= usize::MAX,
    ensures
        v@ == spec_placeholder_rgba(w, h),
{
    proof {
        assert(w as int * h as int * 4 <= usize::MAX) by (nonlinear_arith)
            requires
                w as int * h as int * 4 <= usize::MAX,
        ;
    }
    let total: usize = (w as usize) * (h as usize) * 4;
    let mut out: Vec<u8> = Vec::new();
    let mut i: usize = 0;
    while i < total
        invariant
            0 <= i <= total,
            total == w as int * h as int * 4,
            w > 0,
            h > 0,
            out@.len() == i,
            forall|k: int| 0 <= k < i ==> out@[k] == placeholder_channel(w, h, k),
        decreases total - i,
    {
        let p: usize = i / 4;
        let x: usize = p % (w as usize);
        let y: usize = p / (w as usize);
        let c: usize = i % 4;
        let b: u8 = if c == 3 {
            255
        } else if x == 0 || y == 0 || x == (w as usize) - 1 || y == (h as usize) - 1 {
            200
        } else {
            255
        };
        assert(b == placeholder_channel(w, h, i as int));
        out.push(b);
        i = i + 1;
    }
    proof {
        assert(out@ =~= spec_placeholder_rgba(w, h));
    }
    out
}

/// What the PNG encoder produces for an RGBA raster of the given
/// dimensions: a function of the dimensions and pixels alone.
pub uninterp spec fn png_encoded(w: u32, h: u32, rgba: Seq<u8>) -> Seq<u8>;

/// Relies on `image::RgbaImage::from_raw` and `DynamicImage::write_to`
/// with the PNG format: the encoded bytes depend on the dimensions and the
/// raster alone, named `png_encoded`.  With the exact buffer length,
/// `from_raw` accepts the raster, and PNG-encoding a nonzero-dimension
/// RGBA image into an in-memory cursor does not fail, so the result is
/// `Some` whenever both dimensions are nonzero.  (The length is required
/// exactly: the encoder asserts on an oversized buffer.)
#[verifier::external_body]
fn encode_png(width: u32, height: u32, rgba: &[u8]) -> (r: Option<Vec<u8>>)
    requires
        rgba@.len() == 4 * width * height,
    ensures
        width > 0 && height > 0 ==> r is Some,
        match r {
            Some(v) => v@ == png_encoded(width, height, rgba@),
            None => true,
        },
{
    let img = match image::RgbaImage::from_raw(width, height, rgba.to_vec()) {
        Some(i) => i,
        None => return None,
    };
    let mut buf: Vec<u8> = Vec::new();
    let dyn_img = image::DynamicImage::ImageRgba8(img);
    match dyn_img.write_to(&mut std::io::Cursor::new(&mut buf), image::ImageFormat::Png) {
        Ok(()) => Some(buf),
        Err(_) => None,
    }
}

/// The `data:` URL payload every placeholder page carries.
pub open spec fn spec_placeholder_data_url() -> Seq<char> {
    "data:"@ + "image/png"@ + ";base64,"@ + base64_chars(
        png_encoded(PLACEHOLDER_W, PLACEHOLDER_H, spec_placeholder_rgba(PLACEHOLDER_W, PLACEHOLDER_H)),
    )
}

/// One placeholder page.
pub fn placeholder_page(index: usize) -> (r: Option<PageData>)
    ensures
        r is Some,
        r matches Some(p) ==> p.page_number == index && p.width == PLACEHOLDER_W && p.height
            == PLACEHOLDER_H && p.image_data@ == spec_placeholder_data_url(),
{
    let rgba = placeholder_rgba(PLACEHOLDER_W, PLACEHOLDER_H);
    match encode_png(PLACEHOLDER_W, PLACEHOLDER_H, rgba.as_slice()) {
        None => None,
        Some(png) => {
            let b64 = base64_encode(png.as_slice());
            let url = data_url("image/png", b64.as_str());
            Some(
                PageData {
                    page_number: index,
                    image_data: url,
                    width: PLACEHOLDER_W,
                    height: PLACEHOLDER_H,
                },
            )
        },
    }
}

/// One placeholder page per page of the source document, numbered in
/// order.
pub fn placeholder_pages(page_count: usize) -> (r: Option<Vec<PageData>>)
    ensures
        r is Some,
        r matches Some(v) ==> v@.len() == page_count && forall|i: int|
            0 <= i < page_count ==> (#[trigger] v@[i]).page_number == i && v@[i].width
                == PLACEHOLDER_W && v@[i].height == PLACEHOLDER_H && v@[i].image_data@
                == spec_placeholder_data_url(),
{
    let mut out: Vec<PageData> = Vec::new();
    let mut i: usize = 0;
    while i < page_count
        invariant
            0 <= i <= page_count,
            out@.len() == i,
            forall|j: int|
                0 <= j < i ==> (#[trigger] out@[j]).page_number == j && out@[j].width
                    == PLACEHOLDER_W && out@[j].height == PLACEHOLDER_H && out@[j].image_data@
                    == spec_placeholder_data_url(),
        decreases page_count - i,
    {
        match placeholder_page(i) {
            None => {
                return None;
            },
            Some(p) => {
                out.push(p);
            },
        }
        i = i + 1;
    }
    Some(out)
}

} // verus!
