use base64::Engine;
use mojiq::dataurl::{data_url, decode_data_url};
use mojiq::loader::{
    classify_extension, entry_passes_filter, file_extension, file_metadata,
    finalize_loaded_pages, finalize_metadata, image_data_url, image_document, image_page,
    pdf_document, sort_folder_entries, sort_pages_by_number, unsupported_message, FileKind,
    FolderEntry, LoadError, PageData,
};
use mojiq::preview::placeholder_pages;
use mojiq::proofread::is_path_allowed;
use mojiq::viewer::viewer_query_params;

#[test]
fn decode_data_url_payload() {
    assert_eq!(decode_data_url(b"data:image/png;base64,AQID"), Some(vec![1, 2, 3]));
}

#[test]
fn decode_data_url_without_comma() {
    assert_eq!(decode_data_url(b"no comma here"), None);
}

#[test]
fn decode_data_url_bad_base64() {
    assert_eq!(decode_data_url(b"data:image/png;base64,@@@@"), None);
}

#[test]
fn data_url_assembles() {
    assert_eq!(data_url("image/png", "YWJj"), "data:image/png;base64,YWJj");
}

#[test]
fn image_data_url_encodes_bytes() {
    // "abc" is YWJj in base64; an unchanged pass-through would fail here.
    assert_eq!(image_data_url(FileKind::Png, b"abc"), "data:image/png;base64,YWJj");
}

#[test]
fn classify_known_extensions() {
    assert_eq!(classify_extension(b"jpg"), Some(FileKind::Jpeg));
    assert_eq!(classify_extension(b"JPEG"), Some(FileKind::Jpeg));
    assert_eq!(classify_extension(b"png"), Some(FileKind::Png));
    assert_eq!(classify_extension(b"PDF"), Some(FileKind::Pdf));
    assert_eq!(classify_extension(b"txt"), None);
    assert_eq!(classify_extension(b""), None);
}

#[test]
fn extension_extraction() {
    assert_eq!(file_extension(b"dir/file.tar.gz"), Some(b"gz".to_vec()));
    assert_eq!(file_extension(b"C:\\docs\\scan.PNG"), Some(b"PNG".to_vec()));
    assert_eq!(file_extension(b"dir.d/file"), None);
    assert_eq!(file_extension(b".gitignore"), None);
    assert_eq!(file_extension(b"archive."), Some(b"".to_vec()));
}

#[test]
fn page_record_carries_data_url() {
    let p = image_page(4, FileKind::Jpeg, b"abc", 640, 480);
    assert_eq!(p.page_number, 4);
    assert_eq!(p.width, 640);
    assert_eq!(p.height, 480);
    assert_eq!(p.image_data, "data:image/jpeg;base64,YWJj");
}

#[test]
fn pdf_document_record() {
    let d = pdf_document("a.pdf".to_string(), "/x/a.pdf".to_string(), b"abc");
    assert_eq!(d.file_type, "pdf");
    assert_eq!(d.file_name, "a.pdf");
    assert_eq!(d.file_path, "/x/a.pdf");
    assert!(d.pages.is_empty());
    assert_eq!(d.pdf_data.as_deref(), Some("YWJj"));
}

#[test]
fn image_document_record() {
    let d = image_document(
        "png".to_string(),
        "a.png".to_string(),
        "/x/a.png".to_string(),
        FileKind::Png,
        b"abc",
        12,
        34,
    );
    assert_eq!(d.file_type, "png");
    assert!(d.pdf_data.is_none());
    assert_eq!(d.pages.len(), 1);
    assert_eq!(d.pages[0].page_number, 0);
    assert_eq!(d.pages[0].width, 12);
    assert_eq!(d.pages[0].height, 34);
    assert_eq!(d.pages[0].image_data, "data:image/png;base64,YWJj");
}

#[test]
fn metadata_record() {
    let m = file_metadata("/x/a.jpg".to_string(), FileKind::Jpeg, 10, 20, 777);
    assert_eq!(m.mime_type, "image/jpeg");
    assert_eq!(m.width, 10);
    assert_eq!(m.height, 20);
    assert_eq!(m.modified_at, 777);
}

fn page_n(n: usize) -> PageData {
    PageData { page_number: n, image_data: format!("u{}", n), width: 1, height: 1 }
}

#[test]
fn pages_sort_by_number() {
    let sorted = sort_pages_by_number(vec![page_n(2), page_n(0), page_n(1)]);
    let nums: Vec<usize> = sorted.iter().map(|p| p.page_number).collect();
    assert_eq!(nums, vec![0, 1, 2]);
}

#[test]
fn finalize_pages_sorts_and_labels() {
    let d = finalize_loaded_pages("n".to_string(), "p".to_string(), vec![page_n(1), page_n(0)])
        .unwrap();
    assert_eq!(d.file_type, "images");
    assert!(d.pdf_data.is_none());
    assert_eq!(d.pages[0].page_number, 0);
    assert_eq!(d.pages[1].page_number, 1);
}

#[test]
fn finalize_pages_empty_is_error() {
    let e = finalize_loaded_pages("n".to_string(), "p".to_string(), vec![]).unwrap_err();
    assert_eq!(e, LoadError::NoSupportedImages);
    assert_eq!(e.message(), "No supported image files found");
    assert_eq!(LoadError::NoFilesProvided.message(), "No files provided");
    assert_eq!(unsupported_message("txt"), "Unsupported file type: txt");
}

#[test]
fn finalize_metadata_empty_is_error() {
    assert_eq!(finalize_metadata(vec![]).unwrap_err(), LoadError::NoSupportedImages);
    let m = file_metadata("p".to_string(), FileKind::Png, 1, 2, 3);
    assert_eq!(finalize_metadata(vec![m]).unwrap().len(), 1);
}

fn entry(name: &str, is_dir: bool) -> FolderEntry {
    FolderEntry { name: name.to_string(), path: format!("/x/{}", name), is_dir }
}

#[test]
fn folder_entries_sort_dirs_first_then_name() {
    let sorted = sort_folder_entries(vec![
        entry("b.json", false),
        entry("zeta", true),
        entry("a.json", false),
        entry("alpha", true),
    ]);
    let names: Vec<&str> = sorted.iter().map(|e| e.name.as_str()).collect();
    assert_eq!(names, vec!["alpha", "zeta", "a.json", "b.json"]);
}

#[test]
fn extension_filter_on_files_only() {
    let filter = b"JSON".to_vec();
    assert!(entry_passes_filter(true, b"/x/any", Some(&filter)));
    assert!(entry_passes_filter(false, b"/x/a.json", Some(&filter)));
    assert!(!entry_passes_filter(false, b"/x/a.txt", Some(&filter)));
    assert!(!entry_passes_filter(false, b"/x/noext", Some(&filter)));
    assert!(entry_passes_filter(false, b"/x/a.txt", None));
}

#[test]
fn path_confinement() {
    assert!(is_path_allowed("G:\\Base\\sub/file.json", "g:/base"));
    assert!(is_path_allowed("g:/base", "G:\\BASE"));
    assert!(!is_path_allowed("D:\\other\\file.json", "G:\\Base"));
    assert!(!is_path_allowed("G:", "G:\\Base"));
}

#[test]
fn path_confinement_folds_unicode_case() {
    assert!(is_path_allowed("G:\\ПРОВЕРКА\\файл.json", "g:\\проверка"));
    assert!(is_path_allowed("G:\\Épreuves\\x.json", "g:\\épreuves"));
    assert!(!is_path_allowed("G:\\Другое\\файл.json", "g:\\проверка"));
}

#[test]
fn viewer_params_percent_encode() {
    assert_eq!(
        viewer_query_params("a b", "c/d", true),
        "file=a%20b&basePath=c%2Fd&darkMode=true"
    );
    assert_eq!(viewer_query_params("x", "y", false), "file=x&basePath=y&darkMode=false");
}

#[test]
fn placeholder_pages_render() {
    let pages = placeholder_pages(2).unwrap();
    assert_eq!(pages.len(), 2);
    assert_eq!(pages[0].page_number, 0);
    assert_eq!(pages[1].page_number, 1);
    assert_eq!(pages[0].width, 595);
    assert_eq!(pages[0].height, 842);
    let url = &pages[0].image_data;
    let prefix = "data:image/png;base64,";
    assert!(url.starts_with(prefix));
    let png = base64::engine::general_purpose::STANDARD
        .decode(&url[prefix.len()..])
        .unwrap();
    let img = image::load_from_memory(&png).unwrap().to_rgba8();
    assert_eq!(img.dimensions(), (595, 842));
    // Border pixels are light gray, interior pixels white, all opaque.
    assert_eq!(img.get_pixel(0, 0).0, [200, 200, 200, 255]);
    assert_eq!(img.get_pixel(594, 841).0, [200, 200, 200, 255]);
    assert_eq!(img.get_pixel(100, 0).0, [200, 200, 200, 255]);
    assert_eq!(img.get_pixel(300, 400).0, [255, 255, 255, 255]);
}
