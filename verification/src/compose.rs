//! The document assembler: resolves each page's physical geometry, decodes
//! and carries its background raster, maps every drawable stroke into
//! physical space, and emits the whole document description in input page
//! order.  Per-item anomalies (undecodable background, malformed color,
//! degenerate stroke) degrade; only an empty page list is an error.

use vstd::prelude::*;

use crate::color::{parse_color, spec_parse_color};
use crate::geometry::{
    map_stroke_points, px_to_pu, resolve_page_size, spec_resolve_page_size, spec_transform,
    PdfPoint, ResolvedSize, SizeSource, MAX_PAGE_PU, PU_PER_PX,
};
use crate::model::{PageDrawings, PageModel, RequestModel, SaveRequest, StrokeModel};

verus! {

/// What the image decoder makes of a byte string: `None` where the bytes
/// are not a decodable image, otherwise the native pixel dimensions and the
/// 8-bit RGB raster (alpha stripped), all functions of the bytes alone.
pub uninterp spec fn decoded_image(bytes: Seq<u8>) -> Option<(u32, u32, Seq<u8>)>;

/// Relies on `image::load_from_memory`, `DynamicImage::dimensions` and
/// `DynamicImage::to_rgb8`: whether the bytes decode, the image's native
/// dimensions and its RGB8 raster depend on the bytes alone (named
/// `decoded_image`), and the raster holds three bytes per pixel.
#[verifier::external_body]
fn decode_image(bytes: &[u8]) -> (r: Option<(u32, u32, Vec<u8>)>)
    ensures
        match r {
            Some(t) => decoded_image(bytes@) == Some((t.0, t.1, t.2@)) && t.2@.len() == 3 * (
            t.0 as int) * (t.1 as int),
            None => decoded_image(bytes@) is None,
        },
{
    match image::load_from_memory(bytes) {
        Ok(img) => {
            let (w, h) = image::GenericImageView::dimensions(&img);
            Some((w, h, img.to_rgb8().into_raw()))
        },
        Err(_) => None,
    }
}

/// A page's usable background: absent bytes and undecodable bytes are both
/// "no background".
pub open spec fn spec_background(bytes: Seq<u8>) -> Option<(u32, u32, Seq<u8>)> {
    if bytes.len() == 0 {
        None
    } else {
        decoded_image(bytes)
    }
}

/// The native dimensions of a page's usable background, if any.
pub open spec fn spec_bg_dims(bytes: Seq<u8>) -> Option<(u32, u32)> {
    match spec_background(bytes) {
        Some(t) => Some((t.0, t.1)),
        None => None,
    }
}

/// A decoded background raster placed at the page origin, filling the page.
pub struct BackgroundImage {
    pub width_px: u32,
    pub height_px: u32,
    /// RGB8 raster, three bytes per pixel, row-major.
    pub rgb: Vec<u8>,
}

pub struct BackgroundImageModel {
    pub width_px: u32,
    pub height_px: u32,
    pub rgb: Seq<u8>,
}

impl View for BackgroundImage {
    type V = BackgroundImageModel;

    open spec fn view(&self) -> BackgroundImageModel {
        BackgroundImageModel {
            width_px: self.width_px,
            height_px: self.height_px,
            rgb: self.rgb@,
        }
    }
}

/// One emitted open polyline: an outline-only stroke in physical space.
pub struct Polyline {
    pub color: (u8, u8, u8),
    /// Line thickness in milli-pixels, applied directly as physical units.
    pub width: u64,
    pub points: Vec<PdfPoint>,
}

pub struct PolylineModel {
    pub color: (u8, u8, u8),
    pub width: u64,
    pub points: Seq<PdfPoint>,
}

impl View for Polyline {
    type V = PolylineModel;

    open spec fn view(&self) -> PolylineModel {
        PolylineModel { color: self.color, width: self.width, points: self.points@ }
    }
}

/// One composed page: its physical extent in PU, where that extent came
/// from, its background raster if one decoded, and its polylines in stroke
/// order.
pub struct RenderedPage {
    pub width_pu: u64,
    pub height_pu: u64,
    pub source: SizeSource,
    pub background: Option<BackgroundImage>,
    pub polylines: Vec<Polyline>,
}

pub struct RenderedPageModel {
    pub width_pu: u64,
    pub height_pu: u64,
    pub source: SizeSource,
    pub background: Option<BackgroundImageModel>,
    pub polylines: Seq<PolylineModel>,
}

impl View for RenderedPage {
    type V = RenderedPageModel;

    open spec fn view(&self) -> RenderedPageModel {
        RenderedPageModel {
            width_pu: self.width_pu,
            height_pu: self.height_pu,
            source: self.source,
            background: match self.background {
                Some(b) => Some(b@),
                None => None,
            },
            polylines: self.polylines@.map_values(|p: Polyline| p@),
        }
    }
}

/// The composed document: one rendered page per input page, in input order.
pub struct RenderedDocument {
    pub pages: Vec<RenderedPage>,
}

impl View for RenderedDocument {
    type V = Seq<RenderedPageModel>;

    open spec fn view(&self) -> Seq<RenderedPageModel> {
        self.pages@.map_values(|p: RenderedPage| p@)
    }
}

/// The compositor's only fatal condition.
#[derive(Clone, Copy, Debug, PartialEq, Eq, Structural)]
pub enum ComposeError {
    /// The request had no pages; zero pages is never a valid document.
    NoPages,
}

impl ComposeError {
    pub fn message(&self) -> (r: String)
        ensures
            r@ == "No pages to save"@,
    {
        String::from_str("No pages to save")
    }
}

/// The polyline of one drawable stroke: every point transformed, in order.
pub open spec fn spec_render_stroke(
    s: StrokeModel,
    canvas_w: u32,
    canvas_h: u32,
    width_pu: u64,
    height_pu: u64,
) -> PolylineModel {
    PolylineModel {
        color: spec_parse_color(s.color),
        width: s.width,
        points: Seq::new(
            s.points.len(),
            |i: int|
                spec_transform(
                    s.points[i].0,
                    s.points[i].1,
                    canvas_w,
                    canvas_h,
                    width_pu,
                    height_pu,
                ),
        ),
    }
}

/// The polylines of a stroke list: drawable strokes (two or more points)
/// each emit one polyline, in stroke order; the rest are skipped.
pub open spec fn spec_polylines(
    strokes: Seq<StrokeModel>,
    canvas_w: u32,
    canvas_h: u32,
    width_pu: u64,
    height_pu: u64,
) -> Seq<PolylineModel>
    decreases strokes.len(),
{
    if strokes.len() == 0 {
        Seq::empty()
    } else {
        let rest = spec_polylines(strokes.drop_last(), canvas_w, canvas_h, width_pu, height_pu);
        if strokes.last().points.len() >= 2 {
            rest.push(spec_render_stroke(strokes.last(), canvas_w, canvas_h, width_pu, height_pu))
        } else {
            rest
        }
    }
}

/// One whole composed page.
pub open spec fn spec_render_page(page: PageModel, bg: Seq<u8>) -> RenderedPageModel {
    let rs = spec_resolve_page_size(page.width, page.height, spec_bg_dims(bg));
    let w_pu = (rs.width_px * PU_PER_PX) as u64;
    let h_pu = (rs.height_px * PU_PER_PX) as u64;
    RenderedPageModel {
        width_pu: w_pu,
        height_pu: h_pu,
        source: rs.source,
        background: match spec_background(bg) {
            Some(t) => Some(BackgroundImageModel { width_px: t.0, height_px: t.1, rgb: t.2 }),
            None => None,
        },
        polylines: spec_polylines(page.strokes, page.width, page.height, w_pu, h_pu),
    }
}

/// The background slot for page `i`: a missing tail means "absent".
pub open spec fn spec_bg_at(bgs: Seq<Seq<u8>>, i: int) -> Seq<u8> {
    if 0 <= i < bgs.len() {
        bgs[i]
    } else {
        Seq::empty()
    }
}

/// The whole composition: `None` for an empty request, otherwise one
/// rendered page per input page, in input order.
pub open spec fn spec_compose(req: RequestModel) -> Option<Seq<RenderedPageModel>> {
    if req.pages.len() == 0 {
        None
    } else {
        Some(
            Seq::new(
                req.pages.len(),
                |i: int| spec_render_page(req.pages[i], spec_bg_at(req.background_images, i)),
            ),
        )
    }
}

/// Composes one page: resolves its size, decodes its background, and maps
/// its drawable strokes.
fn render_page(page: &PageDrawings, bg: &Vec<u8>) -> (rp: RenderedPage)
    requires
        page.width > 0,
        page.height > 0,
    ensures
        rp@ == spec_render_page(page@, bg@),
{
    let decoded: Option<(u32, u32, Vec<u8>)> = if bg.len() == 0 {
        None
    } else {
        decode_image(bg.as_slice())
    };
    let dims: Option<(u32, u32)> = match &decoded {
        Some(t) => Some((t.0, t.1)),
        None => None,
    };
    assert(dims == spec_bg_dims(bg@));
    let rs: ResolvedSize = resolve_page_size(page.width, page.height, dims);
    let width_pu: u64 = px_to_pu(rs.width_px);
    let height_pu: u64 = px_to_pu(rs.height_px);
    let background: Option<BackgroundImage> = match decoded {
        Some(t) => Some(BackgroundImage { width_px: t.0, height_px: t.1, rgb: t.2 }),
        None => None,
    };
    let mut polylines: Vec<Polyline> = Vec::new();
    let m: usize = page.strokes.len();
    let mut k: usize = 0;
    proof {
        assert(page@.strokes.take(0) =~= Seq::<StrokeModel>::empty());
    }
    while k < m
        invariant
            0 <= k <= m,
            m == page.strokes@.len(),
            page.width > 0,
            page.height > 0,
            width_pu <= MAX_PAGE_PU,
            height_pu <= MAX_PAGE_PU,
            page@.strokes.len() == m,
            forall|j: int| 0 <= j < m ==> page@.strokes[j] == page.strokes@[j]@,
            polylines@.map_values(|p: Polyline| p@) == spec_polylines(
                page@.strokes.take(k as int),
                page.width,
                page.height,
                width_pu,
                height_pu,
            ),
        decreases m - k,
    {
        let ghost prefix = page@.strokes.take(k as int);
        let ghost prefix1 = page@.strokes.take(k as int + 1);
        proof {
            assert(prefix1.drop_last() =~= prefix);
            assert(prefix1.last() == page@.strokes[k as int]);
        }
        let stroke = &page.strokes[k];
        if stroke.points.len() >= 2 {
            let pts = map_stroke_points(&stroke.points, page.width, page.height, width_pu,
                height_pu);
            let color = parse_color(stroke.color.as_slice());
            let ghost old_map = polylines@.map_values(|p: Polyline| p@);
            let line = Polyline { color, width: stroke.width, points: pts };
            proof {
                assert(pts@ =~= spec_render_stroke(
                    page@.strokes[k as int],
                    page.width,
                    page.height,
                    width_pu,
                    height_pu,
                ).points);
                assert(line@ == spec_render_stroke(
                    page@.strokes[k as int],
                    page.width,
                    page.height,
                    width_pu,
                    height_pu,
                ));
            }
            polylines.push(line);
            proof {
                assert(polylines@.map_values(|p: Polyline| p@) =~= old_map.push(line@));
            }
        }
        k = k + 1;
    }
    proof {
        assert(page@.strokes.take(m as int) =~= page@.strokes);
    }
    let rp = RenderedPage { width_pu, height_pu, source: rs.source, background, polylines };
    proof {
        assert(rp@.polylines == spec_render_page(page@, bg@).polylines);
    }
    rp
}

/// Composes the whole document.  Fails if and only if the request has no
/// pages; every other per-item anomaly degrades exactly as
/// `spec_render_page` states.
pub fn compose_document(req: &SaveRequest) -> (r: Result<RenderedDocument, ComposeError>)
    requires
        forall|i: int|
            0 <= i < req@.pages.len() ==> (#[trigger] req@.pages[i]).width > 0
                && req@.pages[i].height > 0,
    ensures
        r is Err <==> req@.pages.len() == 0,
        r matches Err(e) ==> e == ComposeError::NoPages,
        r matches Ok(doc) ==> Some(doc@) == spec_compose(req@),
{
    let n: usize = req.pages.len();
    if n == 0 {
        return Err(ComposeError::NoPages);
    }
    let empty: Vec<u8> = Vec::new();
    let mut pages_out: Vec<RenderedPage> = Vec::new();
    let mut i: usize = 0;
    while i < n
        invariant
            0 <= i <= n,
            n == req.pages@.len(),
            n == req@.pages.len(),
            empty@ == Seq::<u8>::empty(),
            forall|j: int|
                0 <= j < n ==> (#[trigger] req@.pages[j]).width > 0 && req@.pages[j].height > 0,
            forall|j: int| 0 <= j < n ==> req@.pages[j] == req.pages@[j]@,
            req@.background_images.len() == req.background_images@.len(),
            forall|j: int|
                0 <= j < req@.background_images.len() ==> req@.background_images[j]
                    == req.background_images@[j]@,
            pages_out@.len() == i,
            forall|j: int|
                0 <= j < i ==> pages_out@[j]@ == spec_render_page(
                    req@.pages[j],
                    spec_bg_at(req@.background_images, j),
                ),
        decreases n - i,
    {
        let page = &req.pages[i];
        let bg: &Vec<u8> = if i < req.background_images.len() {
            &req.background_images[i]
        } else {
            &empty
        };
        assert(bg@ == spec_bg_at(req@.background_images, i as int));
        proof {
            assert(req@.pages[i as int] == req.pages@[i as int]@);
            assert(page@.width > 0 && page@.height > 0);
        }
        let rp = render_page(page, bg);
        pages_out.push(rp);
        i = i + 1;
    }
    let doc = RenderedDocument { pages: pages_out };
    proof {
        assert(doc@ =~= spec_compose(req@).unwrap());
    }
    Ok(doc)
}

/// Law: for a nonempty request the composed document has exactly one page
/// per input page, and input page `i` stands at output position `i` — page
/// count and order always round-trip.
pub proof fn lemma_page_order_preserved(req: RequestModel)
    requires
        req.pages.len() > 0,
    ensures
        spec_compose(req) is Some,
        spec_compose(req).unwrap().len() == req.pages.len(),
        forall|i: int|
            0 <= i < req.pages.len() ==> spec_compose(req).unwrap()[i] == spec_render_page(
                req.pages[i],
                spec_bg_at(req.background_images, i),
            ),
{
}

/// Law: a page's resolved physical size is its background image's native
/// pixel dimensions, at 127 PU per pixel, when a usable background exists,
/// and the declared canvas size otherwise — applied independently per page.
pub proof fn lemma_resolved_size(page: PageModel, bg: Seq<u8>)
    ensures
        spec_background(bg) matches Some(t) ==> spec_render_page(page, bg).width_pu == t.0
            * PU_PER_PX && spec_render_page(page, bg).height_pu == t.1 * PU_PER_PX
            && spec_render_page(page, bg).source == SizeSource::Background,
        spec_background(bg) is None ==> spec_render_page(page, bg).width_pu == page.width
            * PU_PER_PX && spec_render_page(page, bg).height_pu == page.height * PU_PER_PX
            && spec_render_page(page, bg).source == SizeSource::Canvas,
{
}

/// Law: a drawable stroke's polyline has exactly one point per input point,
/// in input order, each the documented scale-and-flip transform.
pub proof fn lemma_stroke_points_mapped(
    s: StrokeModel,
    canvas_w: u32,
    canvas_h: u32,
    width_pu: u64,
    height_pu: u64,
)
    ensures
        spec_render_stroke(s, canvas_w, canvas_h, width_pu, height_pu).points.len()
            == s.points.len(),
        forall|i: int|
            0 <= i < s.points.len() ==> spec_render_stroke(
                s,
                canvas_w,
                canvas_h,
                width_pu,
                height_pu,
            ).points[i] == spec_transform(
                s.points[i].0,
                s.points[i].1,
                canvas_w,
                canvas_h,
                width_pu,
                height_pu,
            ),
{
}

/// Law: a stroke with fewer than two points adds nothing to the output.
pub proof fn lemma_degenerate_stroke_skipped(
    strokes: Seq<StrokeModel>,
    s: StrokeModel,
    canvas_w: u32,
    canvas_h: u32,
    width_pu: u64,
    height_pu: u64,
)
    requires
        s.points.len() < 2,
    ensures
        spec_polylines(strokes.push(s), canvas_w, canvas_h, width_pu, height_pu) == spec_polylines(
            strokes,
            canvas_w,
            canvas_h,
            width_pu,
            height_pu,
        ),
{
    assert(strokes.push(s).drop_last() =~= strokes);
}

/// Law: a drawable stroke appends exactly its own polyline after those of
/// the strokes before it, preserving relative order.
pub proof fn lemma_drawable_stroke_emitted(
    strokes: Seq<StrokeModel>,
    s: StrokeModel,
    canvas_w: u32,
    canvas_h: u32,
    width_pu: u64,
    height_pu: u64,
)
    requires
        s.points.len() >= 2,
    ensures
        spec_polylines(strokes.push(s), canvas_w, canvas_h, width_pu, height_pu) == spec_polylines(
            strokes,
            canvas_w,
            canvas_h,
            width_pu,
            height_pu,
        ).push(spec_render_stroke(s, canvas_w, canvas_h, width_pu, height_pu)),
{
    assert(strokes.push(s).drop_last() =~= strokes);
}

} // verus!
