use mojiq::compose::{compose_document, ComposeError, RenderedDocument};
use mojiq::geometry::SizeSource;
use mojiq::model::{DrawingStroke, PageDrawings, SaveRequest};
use printpdf::{Color, Line, Mm, PdfDocument, Point, Rgb};

fn png_bytes(w: u32, h: u32) -> Vec<u8> {
    let img = image::RgbaImage::from_pixel(w, h, image::Rgba([10, 20, 30, 255]));
    let mut buf: Vec<u8> = Vec::new();
    image::DynamicImage::ImageRgba8(img)
        .write_to(&mut std::io::Cursor::new(&mut buf), image::ImageFormat::Png)
        .unwrap();
    buf
}

fn page(strokes: Vec<DrawingStroke>, w: u32, h: u32) -> PageDrawings {
    PageDrawings { page_number: 0, strokes, width: w, height: h }
}

fn stroke(points: Vec<(i64, i64)>) -> DrawingStroke {
    DrawingStroke { points, color: b"#ff0000".to_vec(), width: 2000, pressure: vec![500] }
}

#[test]
fn size_from_background_image() {
    let req = SaveRequest {
        original_path: None,
        pages: vec![page(vec![], 100, 50)],
        background_images: vec![png_bytes(10, 7)],
    };
    let doc = compose_document(&req).unwrap();
    assert_eq!(doc.pages.len(), 1);
    assert_eq!(doc.pages[0].width_pu, 10 * 127);
    assert_eq!(doc.pages[0].height_pu, 7 * 127);
    assert!(matches!(doc.pages[0].source, SizeSource::Background));
    let bg = doc.pages[0].background.as_ref().unwrap();
    assert_eq!(bg.width_px, 10);
    assert_eq!(bg.height_px, 7);
    assert_eq!(bg.rgb.len(), 3 * 10 * 7);
    assert_eq!(&bg.rgb[0..3], &[10, 20, 30]);
}

#[test]
fn size_falls_back_to_canvas() {
    let req = SaveRequest {
        original_path: None,
        pages: vec![page(vec![], 100, 50)],
        background_images: vec![],
    };
    let doc = compose_document(&req).unwrap();
    assert_eq!(doc.pages[0].width_pu, 100 * 127);
    assert_eq!(doc.pages[0].height_pu, 50 * 127);
    assert!(matches!(doc.pages[0].source, SizeSource::Canvas));
    assert!(doc.pages[0].background.is_none());
}

#[test]
fn empty_background_bytes_fall_back() {
    let req = SaveRequest {
        original_path: None,
        pages: vec![page(vec![], 100, 50)],
        background_images: vec![vec![]],
    };
    let doc = compose_document(&req).unwrap();
    assert!(matches!(doc.pages[0].source, SizeSource::Canvas));
    assert!(doc.pages[0].background.is_none());
}

#[test]
fn stroke_points_transformed_exactly() {
    // Canvas 100x200 px, no background: page is 12700 x 25400 PU.
    // Point (10.0, 20.0) px = (10000, 20000) milli-px:
    //   x = 10000 * 12700 / (360000 * 100) mm
    //   y = (200000 - 20000) * 25400 / (360000 * 200) mm
    let s = stroke(vec![(10000, 20000), (0, 0), (100000, 200000)]);
    let req = SaveRequest {
        original_path: None,
        pages: vec![page(vec![s], 100, 200)],
        background_images: vec![],
    };
    let doc = compose_document(&req).unwrap();
    let line = &doc.pages[0].polylines[0];
    assert_eq!(line.color, (255, 0, 0));
    assert_eq!(line.width, 2000);
    assert_eq!(line.points.len(), 3);
    let p0 = line.points[0];
    assert_eq!(p0.x_num, 10000i128 * 12700);
    assert_eq!(p0.x_den, 360000 * 100);
    assert_eq!(p0.y_num, (200000i128 - 20000) * 25400);
    assert_eq!(p0.y_den, 360000 * 200);
    // The corner point (0, 0) maps to the top-left: x = 0, y = full height.
    let p1 = line.points[1];
    assert_eq!(p1.x_num, 0);
    assert_eq!(p1.y_num, 200000i128 * 25400);
    // The far corner maps to the bottom-right: y = 0.
    let p2 = line.points[2];
    assert_eq!(p2.x_num, 100000i128 * 12700);
    assert_eq!(p2.y_num, 0);
}

#[test]
fn degenerate_strokes_skipped_without_error() {
    let s0 = stroke(vec![]);
    let s1 = stroke(vec![(1000, 1000)]);
    let s2 = stroke(vec![(0, 0), (1000, 1000)]);
    let s3 = stroke(vec![(2000, 2000)]);
    let req = SaveRequest {
        original_path: None,
        pages: vec![page(vec![s0, s1, s2, s3], 100, 100)],
        background_images: vec![],
    };
    let doc = compose_document(&req).unwrap();
    assert_eq!(doc.pages[0].polylines.len(), 1);
    assert_eq!(doc.pages[0].polylines[0].points.len(), 2);
}

#[test]
fn empty_page_list_is_fatal() {
    let req = SaveRequest { original_path: None, pages: vec![], background_images: vec![] };
    let err = match compose_document(&req) {
        Err(e) => e,
        Ok(_) => panic!("an empty page list must not compose"),
    };
    assert_eq!(err, ComposeError::NoPages);
    assert_eq!(err.message(), "No pages to save");
}

#[test]
fn malformed_background_degrades_one_page_only() {
    let req = SaveRequest {
        original_path: None,
        pages: vec![page(vec![], 30, 40), page(vec![], 30, 40), page(vec![], 30, 40)],
        background_images: vec![
            png_bytes(10, 7),
            b"this is not an image".to_vec(),
            png_bytes(4, 5),
        ],
    };
    let doc = compose_document(&req).unwrap();
    assert_eq!(doc.pages.len(), 3);
    assert_eq!(doc.pages[0].width_pu, 10 * 127);
    assert!(matches!(doc.pages[0].source, SizeSource::Background));
    assert_eq!(doc.pages[1].width_pu, 30 * 127);
    assert_eq!(doc.pages[1].height_pu, 40 * 127);
    assert!(matches!(doc.pages[1].source, SizeSource::Canvas));
    assert!(doc.pages[1].background.is_none());
    assert_eq!(doc.pages[2].width_pu, 4 * 127);
    assert!(matches!(doc.pages[2].source, SizeSource::Background));
}

#[test]
fn shorter_background_list_treated_as_absent_tail() {
    let req = SaveRequest {
        original_path: None,
        pages: vec![page(vec![], 30, 40), page(vec![], 50, 60)],
        background_images: vec![png_bytes(10, 7)],
    };
    let doc = compose_document(&req).unwrap();
    assert_eq!(doc.pages[0].width_pu, 10 * 127);
    assert_eq!(doc.pages[1].width_pu, 50 * 127);
    assert!(matches!(doc.pages[1].source, SizeSource::Canvas));
}

fn pdf_bytes_of(doc: &RenderedDocument) -> Vec<u8> {
    let pu_mm = |pu: u64| Mm(pu as f32 / 360.0);
    let first = &doc.pages[0];
    let (pdf, page1, layer1) =
        PdfDocument::new("MojiQ Document", pu_mm(first.width_pu), pu_mm(first.height_pu), "Layer 1");
    let mut layer = pdf.get_page(page1).get_layer(layer1);
    for (idx, rp) in doc.pages.iter().enumerate() {
        if idx > 0 {
            let (p, l) = pdf.add_page(
                pu_mm(rp.width_pu),
                pu_mm(rp.height_pu),
                format!("Page {}", idx + 1),
            );
            layer = pdf.get_page(p).get_layer(l);
        }
        for line in &rp.polylines {
            layer.set_outline_color(Color::Rgb(Rgb::new(
                line.color.0 as f32 / 255.0,
                line.color.1 as f32 / 255.0,
                line.color.2 as f32 / 255.0,
                None,
            )));
            layer.set_outline_thickness(line.width as f32 / 1000.0);
            let points: Vec<(Point, bool)> = line
                .points
                .iter()
                .map(|q| {
                    (
                        Point::new(
                            Mm((q.x_num as f64 / q.x_den as f64) as f32),
                            Mm((q.y_num as f64 / q.y_den as f64) as f32),
                        ),
                        false,
                    )
                })
                .collect();
            layer.add_line(Line { points, is_closed: false });
        }
    }
    pdf.save_to_bytes().unwrap()
}

#[test]
fn page_count_and_order_round_trip() {
    let s = stroke(vec![(0, 0), (5000, 5000)]);
    let req = SaveRequest {
        original_path: None,
        pages: vec![page(vec![s], 100, 100), page(vec![], 200, 100), page(vec![], 50, 80)],
        background_images: vec![],
    };
    let doc = compose_document(&req).unwrap();
    assert_eq!(doc.pages.len(), 3);
    let bytes = pdf_bytes_of(&doc);
    let reloaded = lopdf::Document::load_mem(&bytes).unwrap();
    let pages = reloaded.get_pages();
    assert_eq!(pages.len(), 3);
    // The 1-indexed physical pages are exactly 1..=3, in order.
    let numbers: Vec<u32> = pages.keys().copied().collect();
    assert_eq!(numbers, vec![1, 2, 3]);
}
