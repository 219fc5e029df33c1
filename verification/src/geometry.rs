//! Page geometry and the pixel-to-physical stroke transform.
//!
//! Physical sizes are kept in *page units* (PU), 1 PU = 1/360 mm, so that one
//! pixel at the assumed 72 DPI is exactly 127 PU (25.4/72 mm = 127/360 mm)
//! with no rounding.  Stroke coordinates arrive in milli-pixels (1/1000 px),
//! and a transformed coordinate is an exact rational number of millimetres,
//! held as an integer numerator and denominator.

use vstd::prelude::*;

verus! {

/// Page units for one pixel at 72 DPI: 25.4/72 mm = 127/360 mm, and 1 PU
/// is 1/360 mm.
pub const PU_PER_PX: u64 = 127;

/// The largest page extent in PU: a `u32` pixel extent times `PU_PER_PX`.
pub const MAX_PAGE_PU: u64 = 127 * 0xFFFF_FFFF;

/// Millimetre denominator scale of a transformed coordinate: 360 PU per mm
/// times 1000 milli-pixels per pixel.
pub const DEN_PER_PX: u64 = 360000;

/// Where a page's resolved physical size came from.
#[derive(Clone, Copy, Debug, PartialEq, Eq, Structural)]
pub enum SizeSource {
    /// The native pixel dimensions of a decodable background image.
    Background,
    /// The declared canvas size, used when no usable background exists.
    Canvas,
}

/// A page's resolved physical size, still in pixels, with its provenance.
/// The physical extent in PU is the pixel extent times `PU_PER_PX`.
#[derive(Clone, Copy, Debug, PartialEq, Eq, Structural)]
pub struct ResolvedSize {
    pub width_px: u32,
    pub height_px: u32,
    pub source: SizeSource,
}

/// The resolved size: background dimensions when a background decoded,
/// otherwise the declared canvas size.
pub open spec fn spec_resolve_page_size(
    canvas_w: u32,
    canvas_h: u32,
    background: Option<(u32, u32)>,
) -> ResolvedSize {
    match background {
        Some((w, h)) => ResolvedSize { width_px: w, height_px: h, source: SizeSource::Background },
        None => ResolvedSize {
            width_px: canvas_w,
            height_px: canvas_h,
            source: SizeSource::Canvas,
        },
    }
}

/// Resolves one page's physical size from its declared canvas size and the
/// dimensions of its decoded background image, if any.
pub fn resolve_page_size(canvas_w: u32, canvas_h: u32, background: Option<(u32, u32)>) -> (r:
    ResolvedSize)
    ensures
        r == spec_resolve_page_size(canvas_w, canvas_h, background),
{
    match background {
        Some((w, h)) => ResolvedSize { width_px: w, height_px: h, source: SizeSource::Background },
        None => ResolvedSize {
            width_px: canvas_w,
            height_px: canvas_h,
            source: SizeSource::Canvas,
        },
    }
}

/// Physical extent in PU of a pixel extent at 72 DPI.
pub fn px_to_pu(px: u32) -> (r: u64)
    ensures
        r == px as int * PU_PER_PX,
        r <= MAX_PAGE_PU,
{
    (px as u64) * PU_PER_PX
}

/// One transformed point.  The physical coordinate in millimetres is
/// `x_num / x_den` (resp. `y_num / y_den`); the denominators are never zero.
#[derive(Clone, Copy, Debug, PartialEq, Eq, Structural)]
pub struct PdfPoint {
    pub x_num: i128,
    pub x_den: u64,
    pub y_num: i128,
    pub y_den: u64,
}

/// The scale-and-flip transform of one canvas point, exactly:
/// `out_x = x * (w_pu/360) / cw` and `out_y = (ch - y) * (h_pu/360) / ch`
/// millimetres, written as integer fractions over milli-pixel inputs.
pub open spec fn spec_transform(
    x_mp: i64,
    y_mp: i64,
    canvas_w: u32,
    canvas_h: u32,
    width_pu: u64,
    height_pu: u64,
) -> PdfPoint {
    PdfPoint {
        x_num: (x_mp * width_pu) as i128,
        x_den: (DEN_PER_PX * canvas_w) as u64,
        y_num: ((canvas_h * 1000 - y_mp) * height_pu) as i128,
        y_den: (DEN_PER_PX * canvas_h) as u64,
    }
}

/// Transforms one stroke point from canvas pixel space (top-left origin,
/// milli-pixels) to the page's physical space (bottom-left origin,
/// millimetres as exact fractions).
pub fn transform_point(
    x_mp: i64,
    y_mp: i64,
    canvas_w: u32,
    canvas_h: u32,
    width_pu: u64,
    height_pu: u64,
) -> (p: PdfPoint)
    requires
        canvas_w > 0,
        canvas_h > 0,
        width_pu <= MAX_PAGE_PU,
        height_pu <= MAX_PAGE_PU,
    ensures
        p == spec_transform(x_mp, y_mp, canvas_w, canvas_h, width_pu, height_pu),
        p.x_den > 0,
        p.y_den > 0,
{
    proof {
        assert((x_mp as int) * (width_pu as int) <= i64::MAX * MAX_PAGE_PU && (x_mp as int) * (
        width_pu as int) >= i64::MIN * MAX_PAGE_PU) by (nonlinear_arith)
            requires
                0 <= width_pu <= MAX_PAGE_PU,
                i64::MIN <= x_mp <= i64::MAX,
        ;
    }
    let x_num: i128 = (x_mp as i128) * (width_pu as i128);
    let x_den: u64 = DEN_PER_PX * (canvas_w as u64);
    let flipped: i128 = (canvas_h as i128) * 1000 - (y_mp as i128);
    proof {
        assert((flipped as int) * (height_pu as int) <= (0xFFFF_FFFF * 1000 - i64::MIN)
            * MAX_PAGE_PU && (flipped as int) * (height_pu as int) >= i64::MIN * MAX_PAGE_PU)
            by (nonlinear_arith)
            requires
                0 <= height_pu <= MAX_PAGE_PU,
                i64::MIN <= flipped as int <= 0xFFFF_FFFF * 1000 - i64::MIN,
        ;
    }
    let y_num: i128 = flipped * (height_pu as i128);
    let y_den: u64 = DEN_PER_PX * (canvas_h as u64);
    PdfPoint { x_num, x_den, y_num, y_den }
}

/// Transforms every point of a stroke, in order; the output has exactly one
/// point per input point.
pub fn map_stroke_points(
    points: &Vec<(i64, i64)>,
    canvas_w: u32,
    canvas_h: u32,
    width_pu: u64,
    height_pu: u64,
) -> (out: Vec<PdfPoint>)
    requires
        canvas_w > 0,
        canvas_h > 0,
        width_pu <= MAX_PAGE_PU,
        height_pu <= MAX_PAGE_PU,
    ensures
        out@.len() == points@.len(),
        forall|i: int|
            0 <= i < points@.len() ==> out@[i] == spec_transform(
                points@[i].0,
                points@[i].1,
                canvas_w,
                canvas_h,
                width_pu,
                height_pu,
            ),
{
    let n: usize = points.len();
    let mut out: Vec<PdfPoint> = Vec::new();
    let mut i: usize = 0;
    while i < n
        invariant
            0 <= i <= n,
            n == points@.len(),
            canvas_w > 0,
            canvas_h > 0,
            width_pu <= MAX_PAGE_PU,
            height_pu <= MAX_PAGE_PU,
            out@.len() == i,
            forall|j: int|
                0 <= j < i ==> out@[j] == spec_transform(
                    points@[j].0,
                    points@[j].1,
                    canvas_w,
                    canvas_h,
                    width_pu,
                    height_pu,
                ),
        decreases n - i,
    {
        let (x, y) = points[i];
        out.push(transform_point(x, y, canvas_w, canvas_h, width_pu, height_pu));
        i = i + 1;
    }
    out
}

} // verus!
