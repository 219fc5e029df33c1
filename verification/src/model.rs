//! The compositor's input data model: strokes, pages and the save request.
//!
//! All values are constructed by the caller and are immutable inputs to the
//! compositor.  Coordinates are exact integers: stroke points and widths in
//! milli-pixels (1/1000 px), pressure samples in milli-units.

use vstd::prelude::*;

verus! {

/// One freehand ink stroke, captured in canvas pixel space.
pub struct DrawingStroke {
    /// Points in drawing order, as (x, y) in milli-pixels, top-left origin.
    pub points: Vec<(i64, i64)>,
    /// Color byte string, `#rrggbb` or `rgb(r, g, b)`; parsed best-effort.
    pub color: Vec<u8>,
    /// Line width in milli-pixels, applied directly as physical thickness.
    pub width: u64,
    /// Pressure samples in milli-units; carried through, never rendered.
    pub pressure: Vec<i64>,
}

pub struct StrokeModel {
    pub points: Seq<(i64, i64)>,
    pub color: Seq<u8>,
    pub width: u64,
    pub pressure: Seq<i64>,
}

impl View for DrawingStroke {
    type V = StrokeModel;

    open spec fn view(&self) -> StrokeModel {
        StrokeModel {
            points: self.points@,
            color: self.color@,
            width: self.width,
            pressure: self.pressure@,
        }
    }
}

/// One page of the request: its strokes and its declared canvas size in
/// pixels.  The canvas defines the coordinate space the strokes were
/// captured in; it must be positive.  `page_number` is carried for
/// ordering/debugging only — output order is array order.
pub struct PageDrawings {
    pub page_number: usize,
    pub strokes: Vec<DrawingStroke>,
    pub width: u32,
    pub height: u32,
}

pub struct PageModel {
    pub page_number: usize,
    pub strokes: Seq<StrokeModel>,
    pub width: u32,
    pub height: u32,
}

impl View for PageDrawings {
    type V = PageModel;

    open spec fn view(&self) -> PageModel {
        PageModel {
            page_number: self.page_number,
            strokes: self.strokes@.map_values(|s: DrawingStroke| s@),
            width: self.width,
            height: self.height,
        }
    }
}

/// A whole save request: pages in output order and, aligned by index, the
/// raw bytes of each page's optional background image (empty = absent; a
/// shorter list is treated as all-absent for the missing tail).
pub struct SaveRequest {
    /// Originating source path; metadata only, never consumed here.
    pub original_path: Option<String>,
    pub pages: Vec<PageDrawings>,
    pub background_images: Vec<Vec<u8>>,
}

pub struct RequestModel {
    pub original_path: Option<Seq<char>>,
    pub pages: Seq<PageModel>,
    pub background_images: Seq<Seq<u8>>,
}

impl View for SaveRequest {
    type V = RequestModel;

    open spec fn view(&self) -> RequestModel {
        RequestModel {
            original_path: match self.original_path {
                Some(p) => Some(p@),
                None => None,
            },
            pages: self.pages@.map_values(|p: PageDrawings| p@),
            background_images: self.background_images@.map_values(|b: Vec<u8>| b@),
        }
    }
}

} // verus!
