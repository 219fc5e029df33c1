//! Document-loading support: classifying files by extension, assembling
//! page records and loaded-document records with `data:` URLs, ordering
//! pages and folder listings, and the loader's error conditions.  All file
//! and image I/O stays with the caller; these functions take plain values.

use vstd::prelude::*;

use crate::bytes::{
    bytes_eq, bytes_le, bytes_le_exec, find_last_byte, find_last_byte_index, lower,
    to_ascii_lower, lemma_bytes_le_total,
};
use crate::dataurl::{base64_chars, base64_encode, data_url};
use vstd::slice::slice_subrange;
use vstd::string::StringExecFns;
use vstd::multiset::Multiset;
use vstd::utf8::encode_utf8;

verus! {

/// One page of a loaded document, as handed to the front end: the page's
/// raster as a `data:` URL and its pixel dimensions.
#[derive(Debug)]
pub struct PageData {
    pub page_number: usize,
    pub image_data: String,
    pub width: u32,
    pub height: u32,
}

pub struct PageDataModel {
    pub page_number: usize,
    pub image_data: Seq<char>,
    pub width: u32,
    pub height: u32,
}

impl View for PageData {
    type V = PageDataModel;

    open spec fn view(&self) -> PageDataModel {
        PageDataModel {
            page_number: self.page_number,
            image_data: self.image_data@,
            width: self.width,
            height: self.height,
        }
    }
}

/// A loaded document: either one PDF blob or a list of image pages.
#[derive(Debug)]
pub struct LoadedDocument {
    pub file_type: String,
    pub file_name: String,
    pub file_path: String,
    pub pages: Vec<PageData>,
    pub pdf_data: Option<String>,
}

/// Metadata of one linked image file, without its pixel data.
#[derive(Debug)]
pub struct FileMetadata {
    pub file_path: String,
    pub mime_type: String,
    pub width: u32,
    pub height: u32,
    pub modified_at: u64,
}

/// One entry of a folder listing.
#[derive(Debug)]
pub struct FolderEntry {
    pub name: String,
    pub path: String,
    pub is_dir: bool,
}

/// The loader's error conditions.
#[derive(Clone, Copy, Debug, PartialEq, Eq, Structural)]
pub enum LoadError {
    /// An empty path list was given.
    NoFilesProvided,
    /// No given file was a supported image.
    NoSupportedImages,
}

impl LoadError {
    pub fn message(&self) -> (r: String)
        ensures
            self is NoFilesProvided ==> r@ == "No files provided"@,
            self is NoSupportedImages ==> r@ == "No supported image files found"@,
    {
        match self {
            LoadError::NoFilesProvided => String::from_str("No files provided"),
            LoadError::NoSupportedImages => String::from_str("No supported image files found"),
        }
    }
}

/// The message for a file whose extension no loader accepts.
pub fn unsupported_message(extension: &str) -> (r: String)
    ensures
        r@ == "Unsupported file type: "@ + extension@,
{
    let mut out: String = String::from_str("Unsupported file type: ");
    out.append(extension);
    out
}

/// The file kinds the loaders recognise.
#[derive(Clone, Copy, Debug, PartialEq, Eq, Structural)]
pub enum FileKind {
    Pdf,
    Jpeg,
    Png,
}

pub open spec fn is_jpg(s: Seq<u8>) -> bool {
    s.len() == 3 && s[0] == 106 && s[1] == 112 && s[2] == 103
}

pub open spec fn is_jpeg(s: Seq<u8>) -> bool {
    s.len() == 4 && s[0] == 106 && s[1] == 112 && s[2] == 101 && s[3] == 103
}

pub open spec fn is_png(s: Seq<u8>) -> bool {
    s.len() == 3 && s[0] == 112 && s[1] == 110 && s[2] == 103
}

pub open spec fn is_pdf(s: Seq<u8>) -> bool {
    s.len() == 3 && s[0] == 112 && s[1] == 100 && s[2] == 102
}

/// The kind a (lower-cased) extension names.
pub open spec fn spec_classify(s: Seq<u8>) -> Option<FileKind> {
    if is_jpg(s) || is_jpeg(s) {
        Some(FileKind::Jpeg)
    } else if is_png(s) {
        Some(FileKind::Png)
    } else if is_pdf(s) {
        Some(FileKind::Pdf)
    } else {
        None
    }
}

/// Classifies a file extension, case-insensitively for ASCII letters.
pub fn classify_extension(extension: &[u8]) -> (r: Option<FileKind>)
    ensures
        r == spec_classify(lower(extension@)),
{
    let low = to_ascii_lower(extension);
    let s = low.as_slice();
    let n: usize = s.len();
    if n == 3 && s[0] == 106 && s[1] == 112 && s[2] == 103 {
        Some(FileKind::Jpeg)
    } else if n == 4 && s[0] == 106 && s[1] == 112 && s[2] == 101 && s[3] == 103 {
        Some(FileKind::Jpeg)
    } else if n == 3 && s[0] == 112 && s[1] == 110 && s[2] == 103 {
        Some(FileKind::Png)
    } else if n == 3 && s[0] == 112 && s[1] == 100 && s[2] == 102 {
        Some(FileKind::Pdf)
    } else {
        None
    }
}

/// The media type of an image kind; a PDF has none here.
pub open spec fn spec_image_mime(kind: FileKind) -> Seq<char> {
    match kind {
        FileKind::Jpeg => "image/jpeg"@,
        FileKind::Png => "image/png"@,
        FileKind::Pdf => Seq::empty(),
    }
}

/// The media-type string of an image kind.
pub fn image_mime(kind: FileKind) -> (r: String)
    ensures
        r@ == spec_image_mime(kind),
{
    match kind {
        FileKind::Jpeg => String::from_str("image/jpeg"),
        FileKind::Png => String::from_str("image/png"),
        FileKind::Pdf => String::new(),
    }
}

/// The `data:` URL of an image file's raw bytes.
pub fn image_data_url(kind: FileKind, file_bytes: &[u8]) -> (r: String)
    ensures
        r@ == "data:"@ + spec_image_mime(kind) + ";base64,"@ + base64_chars(file_bytes@),
{
    let mime = image_mime(kind);
    let b64 = base64_encode(file_bytes);
    data_url(mime.as_str(), b64.as_str())
}

/// One image page of a loaded document.
pub fn image_page(index: usize, kind: FileKind, file_bytes: &[u8], width: u32, height: u32) -> (p:
    PageData)
    ensures
        p.page_number == index,
        p.width == width,
        p.height == height,
        p.image_data@ == "data:"@ + spec_image_mime(kind) + ";base64,"@ + base64_chars(
            file_bytes@,
        ),
{
    PageData {
        page_number: index,
        image_data: image_data_url(kind, file_bytes),
        width,
        height,
    }
}

/// A loaded single-PDF document: the PDF bytes base64-encoded for the
/// front end, no pages of its own.
pub fn pdf_document(file_name: String, file_path: String, pdf_bytes: &[u8]) -> (d: LoadedDocument)
    ensures
        d.file_type@ == "pdf"@,
        d.file_name@ == file_name@,
        d.file_path@ == file_path@,
        d.pages@.len() == 0,
        d.pdf_data matches Some(s) && s@ == base64_chars(pdf_bytes@),
{
    LoadedDocument {
        file_type: String::from_str("pdf"),
        file_name,
        file_path,
        pages: Vec::new(),
        pdf_data: Some(base64_encode(pdf_bytes)),
    }
}

/// A loaded single-image document: one page carrying the image as a
/// `data:` URL.
pub fn image_document(
    file_type: String,
    file_name: String,
    file_path: String,
    kind: FileKind,
    file_bytes: &[u8],
    width: u32,
    height: u32,
) -> (d: LoadedDocument)
    ensures
        d.file_type@ == file_type@,
        d.file_name@ == file_name@,
        d.file_path@ == file_path@,
        d.pdf_data is None,
        d.pages@.len() == 1,
        d.pages@[0]@.page_number == 0,
        d.pages@[0]@.width == width,
        d.pages@[0]@.height == height,
        d.pages@[0]@.image_data == "data:"@ + spec_image_mime(kind) + ";base64,"@ + base64_chars(
            file_bytes@,
        ),
{
    let page = image_page(0, kind, file_bytes, width, height);
    let mut pages: Vec<PageData> = Vec::new();
    pages.push(page);
    LoadedDocument { file_type, file_name, file_path, pages, pdf_data: None }
}

/// Metadata of one linked image file.
pub fn file_metadata(
    file_path: String,
    kind: FileKind,
    width: u32,
    height: u32,
    modified_at: u64,
) -> (m: FileMetadata)
    ensures
        m.file_path@ == file_path@,
        m.mime_type@ == spec_image_mime(kind),
        m.width == width,
        m.height == height,
        m.modified_at == modified_at,
{
    FileMetadata { file_path, mime_type: image_mime(kind), width, height, modified_at }
}

/// The extension of a path: what follows the last `.` of the last `/`- or
/// `\`-separated component, unless that dot leads the component.
pub open spec fn spec_file_extension(s: Seq<u8>) -> Option<Seq<u8>> {
    let start = match find_last_byte(s, 47) {
        Some(i) => match find_last_byte(s, 92) {
            Some(j) => if i > j {
                i + 1
            } else {
                j + 1
            },
            None => i + 1,
        },
        None => match find_last_byte(s, 92) {
            Some(j) => j + 1,
            None => 0,
        },
    };
    let name = s.skip(start);
    match find_last_byte(name, 46) {
        None => None,
        Some(d) => if d == 0 {
            None
        } else {
            Some(name.skip(d + 1))
        },
    }
}

/// Extracts a path's extension, if it has one.
pub fn file_extension(path: &[u8]) -> (r: Option<Vec<u8>>)
    ensures
        match r {
            Some(e) => spec_file_extension(path@) == Some(e@),
            None => spec_file_extension(path@) is None,
        },
{
    let n: usize = path.len();
    proof {
        crate::bytes::lemma_find_last_byte(path@, 47);
        crate::bytes::lemma_find_last_byte(path@, 92);
    }
    let slash = find_last_byte_index(path, 47);
    let back = find_last_byte_index(path, 92);
    let start: usize = match (slash, back) {
        (Some(i), Some(j)) => if i > j {
            i + 1
        } else {
            j + 1
        },
        (Some(i), None) => i + 1,
        (None, Some(j)) => j + 1,
        (None, None) => 0,
    };
    let name: &[u8] = slice_subrange(path, start, n);
    proof {
        assert(name@ =~= path@.skip(start as int));
    }
    match find_last_byte_index(name, 46) {
        None => None,
        Some(d) => {
            proof {
                crate::bytes::lemma_find_last_byte(name@, 46);
            }
            if d == 0 {
                None
            } else {
                let ext: &[u8] = slice_subrange(name, d + 1, name.len());
                proof {
                    assert(ext@ =~= name@.skip(d as int + 1));
                }
                let mut out: Vec<u8> = Vec::new();
                let mut i: usize = 0;
                let en: usize = ext.len();
                while i < en
                    invariant
                        0 <= i <= en,
                        en == ext@.len(),
                        out@.len() == i,
                        forall|k: int| 0 <= k < i ==> out@[k] == ext@[k],
                    decreases en - i,
                {
                    out.push(ext[i]);
                    i = i + 1;
                }
                proof {
                    assert(out@ =~= ext@);
                }
                Some(out)
            }
        },
    }
}

/// Whether a folder entry survives an extension filter: directories always
/// do; a file does when its (lower-cased) extension equals the (lower-
/// cased) filter, a missing extension counting as empty.
pub open spec fn spec_passes_filter(
    is_dir: bool,
    path: Seq<u8>,
    filter: Option<Seq<u8>>,
) -> bool {
    match filter {
        None => true,
        Some(f) => if is_dir {
            true
        } else {
            let e = match spec_file_extension(path) {
                Some(e) => e,
                None => Seq::empty(),
            };
            lower(e) == lower(f)
        },
    }
}

/// Applies the extension filter of a folder listing to one entry.
pub fn entry_passes_filter(is_dir: bool, path: &[u8], filter: Option<&Vec<u8>>) -> (r: bool)
    ensures
        r == spec_passes_filter(
            is_dir,
            path@,
            match filter {
                Some(f) => Some(f@),
                None => None,
            },
        ),
{
    match filter {
        None => true,
        Some(f) => {
            if is_dir {
                true
            } else {
                let ext: Vec<u8> = match file_extension(path) {
                    Some(e) => e,
                    None => Vec::new(),
                };
                let le = to_ascii_lower(ext.as_slice());
                let lf = to_ascii_lower(f.as_slice());
                bytes_eq(le.as_slice(), lf.as_slice())
            }
        },
    }
}

/// Pages ordered by their page number.
pub open spec fn pages_sorted(s: Seq<PageData>) -> bool {
    forall|a: int, b: int|
        0 <= a < b < s.len() ==> (#[trigger] s[a]).page_number <= (#[trigger] s[b]).page_number
}

/// Index of the first page with the smallest page number.
pub open spec fn min_page_index(s: Seq<PageData>) -> int
    decreases s.len(),
{
    if s.len() <= 1 {
        0
    } else {
        let m = min_page_index(s.drop_last());
        if s[m].page_number <= s.last().page_number {
            m
        } else {
            s.len() - 1
        }
    }
}

/// `min_page_index` names exactly the first index attaining the minimum.
proof fn lemma_min_page_index(s: Seq<PageData>)
    requires
        s.len() > 0,
    ensures
        0 <= min_page_index(s) < s.len(),
        forall|j: int|
            0 <= j < s.len() ==> s[min_page_index(s)].page_number <= (
            #[trigger] s[j]).page_number,
        forall|j: int|
            0 <= j < min_page_index(s) ==> (#[trigger] s[j]).page_number > s[min_page_index(
                s,
            )].page_number,
    decreases s.len(),
{
    if s.len() > 1 {
        lemma_min_page_index(s.drop_last());
        assert(forall|j: int| 0 <= j < s.len() - 1 ==> s.drop_last()[j] == s[j]);
    }
}

/// The stable ascending order by page number: always the first remaining
/// page with the smallest number next, so pages with equal numbers keep
/// their relative order.
pub open spec fn spec_sort_pages(s: Seq<PageData>) -> Seq<PageData>
    decreases s.len(),
    via spec_sort_pages_decreases
{
    if s.len() == 0 {
        Seq::empty()
    } else {
        seq![s[min_page_index(s)]] + spec_sort_pages(s.remove(min_page_index(s)))
    }
}

#[via_fn]
proof fn spec_sort_pages_decreases(s: Seq<PageData>) {
    if s.len() > 0 {
        lemma_min_page_index(s);
    }
}

/// Sorts pages by page number, stably: the result is exactly
/// `spec_sort_pages`, which always takes the first remaining minimum.
pub fn sort_pages_by_number(pages: Vec<PageData>) -> (r: Vec<PageData>)
    ensures
        r@ == spec_sort_pages(pages@),
        r@.to_multiset() == pages@.to_multiset(),
        pages_sorted(r@),
{
    broadcast use vstd::seq_lib::group_to_multiset_ensures;

    let mut rest = pages;
    let mut out: Vec<PageData> = Vec::new();
    proof {
        assert(out@ + spec_sort_pages(rest@) =~= spec_sort_pages(pages@));
    }
    while rest.len() > 0
        invariant
            out@ + spec_sort_pages(rest@) == spec_sort_pages(pages@),
            out@.to_multiset().add(rest@.to_multiset()) =~= pages@.to_multiset(),
            pages_sorted(out@),
            forall|a: int, b: int|
                0 <= a < out@.len() && 0 <= b < rest@.len() ==> (#[trigger] out@[a]).page_number
                    <= (#[trigger] rest@[b]).page_number,
        decreases rest@.len(),
    {
        let mut m: usize = 0;
        let mut k: usize = 1;
        while k < rest.len()
            invariant
                0 <= m < k <= rest@.len(),
                forall|j: int|
                    0 <= j < k ==> rest@[m as int].page_number <= (#[trigger] rest@[j]).page_number,
                forall|j: int|
                    0 <= j < m ==> (#[trigger] rest@[j]).page_number > rest@[m as int].page_number,
            decreases rest@.len() - k,
        {
            if rest[k].page_number < rest[m].page_number {
                m = k;
            }
            k = k + 1;
        }
        let ghost old_out = out@;
        let ghost old_rest = rest@;
        proof {
            lemma_min_page_index(old_rest);
            let mi = min_page_index(old_rest);
            if (m as int) < mi {
                assert(old_rest[m as int].page_number > old_rest[mi].page_number);
                assert(old_rest[m as int].page_number <= old_rest[mi].page_number);
            }
            if mi < m as int {
                assert(old_rest[mi].page_number > old_rest[m as int].page_number);
                assert(old_rest[mi].page_number <= old_rest[m as int].page_number);
            }
            assert(m as int == mi);
        }
        let x = rest.remove(m);
        out.push(x);
        proof {
            broadcast use vstd::seq_lib::group_to_multiset_ensures;

            assert(spec_sort_pages(old_rest) == seq![old_rest[m as int]] + spec_sort_pages(
                old_rest.remove(m as int),
            ));
            assert(out@ =~= old_out + seq![old_rest[m as int]]);
            assert(out@ + spec_sort_pages(rest@) =~= old_out + spec_sort_pages(old_rest));
            assert(old_rest.contains(old_rest[m as int]));
            assert(rest@ == old_rest.remove(m as int));
            assert(out@ == old_out.push(old_rest[m as int]));
            assert(old_rest.remove(m as int).to_multiset() =~= old_rest.to_multiset().remove(
                old_rest[m as int],
            ));
            assert(old_out.push(old_rest[m as int]).to_multiset() =~= old_out.to_multiset().insert(
                old_rest[m as int],
            ));
            assert(out@.to_multiset().add(rest@.to_multiset()) =~= old_out.to_multiset().add(
                old_rest.to_multiset(),
            ));
            assert(forall|b: int|
                0 <= b < rest@.len() ==> #[trigger] rest@[b] == if b < m {
                    old_rest[b]
                } else {
                    old_rest[b + 1]
                });
        }
    }
    proof {
        assert(rest@.to_multiset() =~= Multiset::empty());
        assert(out@.to_multiset() =~= pages@.to_multiset());
        assert(out@ + spec_sort_pages(rest@) =~= out@);
    }
    out
}

/// A loaded multi-image document, its pages ordered by page number; an
/// empty page list is the `NoSupportedImages` error.
pub fn finalize_loaded_pages(file_name: String, file_path: String, pages: Vec<PageData>) -> (r:
    Result<LoadedDocument, LoadError>)
    ensures
        r is Err <==> pages@.len() == 0,
        r matches Err(e) ==> e == LoadError::NoSupportedImages,
        r matches Ok(d) ==> d.file_type@ == "images"@ && d.file_name@ == file_name@
            && d.file_path@ == file_path@ && d.pdf_data is None && d.pages@.to_multiset()
            == pages@.to_multiset() && pages_sorted(d.pages@),
{
    broadcast use vstd::seq_lib::group_to_multiset_ensures;

    if pages.len() == 0 {
        return Err(LoadError::NoSupportedImages);
    }
    let sorted = sort_pages_by_number(pages);
    Ok(
        LoadedDocument {
            file_type: String::from_str("images"),
            file_name,
            file_path,
            pages: sorted,
            pdf_data: None,
        },
    )
}

/// Folder-listing order: directories first, then byte-wise by name.
pub open spec fn entry_le(a: FolderEntry, b: FolderEntry) -> bool {
    if a.is_dir != b.is_dir {
        a.is_dir
    } else {
        bytes_le(encode_utf8(a.name@), encode_utf8(b.name@))
    }
}

proof fn lemma_entry_le_total(a: FolderEntry, b: FolderEntry)
    ensures
        entry_le(a, b) || entry_le(b, a),
{
    if a.is_dir == b.is_dir {
        lemma_bytes_le_total(encode_utf8(a.name@), encode_utf8(b.name@));
    }
}

proof fn lemma_entry_le_trans(a: FolderEntry, b: FolderEntry, c: FolderEntry)
    requires
        entry_le(a, b),
        entry_le(b, c),
    ensures
        entry_le(a, c),
{
    if a.is_dir == b.is_dir && b.is_dir == c.is_dir {
        crate::bytes::lemma_bytes_le_trans(
            encode_utf8(a.name@),
            encode_utf8(b.name@),
            encode_utf8(c.name@),
        );
    }
}

fn entry_le_exec(a: &FolderEntry, b: &FolderEntry) -> (r: bool)
    ensures
        r == entry_le(*a, *b),
{
    if a.is_dir != b.is_dir {
        a.is_dir
    } else {
        bytes_le_exec(a.name.as_str().as_bytes(), b.name.as_str().as_bytes())
    }
}

/// Folder entries ordered directories-first, then by name.
pub open spec fn entries_sorted(s: Seq<FolderEntry>) -> bool {
    forall|a: int, b: int| 0 <= a < b < s.len() ==> entry_le(#[trigger] s[a], #[trigger] s[b])
}

/// Index of the first entry that sorts before (or with) every other.
pub open spec fn min_entry_index(s: Seq<FolderEntry>) -> int
    decreases s.len(),
{
    if s.len() <= 1 {
        0
    } else {
        let m = min_entry_index(s.drop_last());
        if entry_le(s[m], s.last()) {
            m
        } else {
            s.len() - 1
        }
    }
}

/// `min_entry_index` names exactly the first index that sorts before every
/// other: it is below all entries, and strictly below everything earlier.
proof fn lemma_min_entry_index(s: Seq<FolderEntry>)
    requires
        s.len() > 0,
    ensures
        0 <= min_entry_index(s) < s.len(),
        forall|j: int| 0 <= j < s.len() ==> entry_le(s[min_entry_index(s)], #[trigger] s[j]),
        forall|j: int| 0 <= j < min_entry_index(s) ==> !entry_le(#[trigger] s[j], s[min_entry_index(s)]),
    decreases s.len(),
{
    if s.len() == 1 {
        lemma_entry_le_total(s[0], s[0]);
    } else {
        lemma_min_entry_index(s.drop_last());
        let head = s.drop_last();
        assert(forall|j: int| 0 <= j < s.len() - 1 ==> head[j] == s[j]);
        let m = min_entry_index(head);
        let last = s.len() - 1;
        lemma_entry_le_total(s[m], s[last]);
        if entry_le(s[m], s[last]) {
        } else {
            assert forall|j: int| 0 <= j < s.len() implies entry_le(s[last], #[trigger] s[j]) by {
                if j < last {
                    lemma_entry_le_trans(s[last], s[m], s[j]);
                } else {
                    lemma_entry_le_total(s[last], s[last]);
                }
            }
            assert forall|j: int| 0 <= j < last implies !entry_le(#[trigger] s[j], s[last]) by {
                if entry_le(s[j], s[last]) {
                    lemma_entry_le_trans(s[m], s[j], s[last]);
                }
            }
        }
    }
}

/// The stable listing order: always the first remaining entry that sorts
/// before every other next, so entries with equal keys keep their
/// relative order.
pub open spec fn spec_sort_entries(s: Seq<FolderEntry>) -> Seq<FolderEntry>
    decreases s.len(),
    via spec_sort_entries_decreases
{
    if s.len() == 0 {
        Seq::empty()
    } else {
        seq![s[min_entry_index(s)]] + spec_sort_entries(s.remove(min_entry_index(s)))
    }
}

#[via_fn]
proof fn spec_sort_entries_decreases(s: Seq<FolderEntry>) {
    if s.len() > 0 {
        lemma_min_entry_index(s);
    }
}

/// Sorts a folder listing stably: directories first, then byte-wise by
/// name; the result is exactly `spec_sort_entries`, which always takes
/// the first remaining minimum.
pub fn sort_folder_entries(entries: Vec<FolderEntry>) -> (r: Vec<FolderEntry>)
    ensures
        r@ == spec_sort_entries(entries@),
        r@.to_multiset() == entries@.to_multiset(),
        entries_sorted(r@),
{
    broadcast use vstd::seq_lib::group_to_multiset_ensures;

    let mut rest = entries;
    let mut out: Vec<FolderEntry> = Vec::new();
    proof {
        assert(out@ + spec_sort_entries(rest@) =~= spec_sort_entries(entries@));
    }
    while rest.len() > 0
        invariant
            out@ + spec_sort_entries(rest@) == spec_sort_entries(entries@),
            out@.to_multiset().add(rest@.to_multiset()) =~= entries@.to_multiset(),
            entries_sorted(out@),
            forall|a: int, b: int|
                0 <= a < out@.len() && 0 <= b < rest@.len() ==> entry_le(
                    #[trigger] out@[a],
                    #[trigger] rest@[b],
                ),
        decreases rest@.len(),
    {
        let mut m: usize = 0;
        let mut k: usize = 1;
        proof {
            lemma_entry_le_total(rest@[0], rest@[0]);
        }
        while k < rest.len()
            invariant
                0 <= m < k <= rest@.len(),
                forall|j: int| 0 <= j < k ==> entry_le(rest@[m as int], #[trigger] rest@[j]),
                forall|j: int| 0 <= j < m ==> !entry_le(#[trigger] rest@[j], rest@[m as int]),
            decreases rest@.len() - k,
        {
            if !entry_le_exec(&rest[m], &rest[k]) {
                proof {
                    lemma_entry_le_total(rest@[m as int], rest@[k as int]);
                    assert forall|j: int| 0 <= j < k + 1 implies entry_le(
                        rest@[k as int],
                        #[trigger] rest@[j],
                    ) by {
                        if j < k {
                            lemma_entry_le_trans(rest@[k as int], rest@[m as int], rest@[j]);
                        } else {
                            lemma_entry_le_total(rest@[k as int], rest@[k as int]);
                        }
                    }
                    assert forall|j: int| 0 <= j < k implies !entry_le(
                        #[trigger] rest@[j],
                        rest@[k as int],
                    ) by {
                        if entry_le(rest@[j], rest@[k as int]) {
                            lemma_entry_le_trans(rest@[m as int], rest@[j], rest@[k as int]);
                        }
                    }
                }
                m = k;
            }
            k = k + 1;
        }
        let ghost old_out = out@;
        let ghost old_rest = rest@;
        proof {
            lemma_min_entry_index(old_rest);
            let mi = min_entry_index(old_rest);
            if (m as int) < mi {
                assert(!entry_le(old_rest[m as int], old_rest[mi]));
                assert(entry_le(old_rest[m as int], old_rest[mi]));
            }
            if mi < m as int {
                assert(!entry_le(old_rest[mi], old_rest[m as int]));
                assert(entry_le(old_rest[mi], old_rest[m as int]));
            }
            assert(m as int == mi);
        }
        let x = rest.remove(m);
        out.push(x);
        proof {
            broadcast use vstd::seq_lib::group_to_multiset_ensures;

            assert(spec_sort_entries(old_rest) == seq![old_rest[m as int]] + spec_sort_entries(
                old_rest.remove(m as int),
            ));
            assert(out@ =~= old_out + seq![old_rest[m as int]]);
            assert(out@ + spec_sort_entries(rest@) =~= old_out + spec_sort_entries(old_rest));
            assert(old_rest.contains(old_rest[m as int]));
            assert(rest@ == old_rest.remove(m as int));
            assert(out@ == old_out.push(old_rest[m as int]));
            assert(old_rest.remove(m as int).to_multiset() =~= old_rest.to_multiset().remove(
                old_rest[m as int],
            ));
            assert(old_out.push(old_rest[m as int]).to_multiset() =~= old_out.to_multiset().insert(
                old_rest[m as int],
            ));
            assert(out@.to_multiset().add(rest@.to_multiset()) =~= old_out.to_multiset().add(
                old_rest.to_multiset(),
            ));
            assert(forall|b: int|
                0 <= b < rest@.len() ==> #[trigger] rest@[b] == if b < m {
                    old_rest[b]
                } else {
                    old_rest[b + 1]
                });
        }
    }
    proof {
        assert(rest@.to_multiset() =~= Multiset::empty());
        assert(out@.to_multiset() =~= entries@.to_multiset());
        assert(out@ + spec_sort_entries(rest@) =~= out@);
    }
    out
}

/// The up-front check of a multi-file request: an empty path list is the
/// `NoFilesProvided` error.
pub fn check_paths_provided(path_count: usize) -> (r: Result<(), LoadError>)
    ensures
        r is Err <==> path_count == 0,
        r matches Err(e) ==> e == LoadError::NoFilesProvided,
{
    if path_count == 0 {
        Err(LoadError::NoFilesProvided)
    } else {
        Ok(())
    }
}

/// The metadata list of a multi-file request; an empty list is the
/// `NoSupportedImages` error.
pub fn finalize_metadata(list: Vec<FileMetadata>) -> (r: Result<Vec<FileMetadata>, LoadError>)
    ensures
        r is Err <==> list@.len() == 0,
        r matches Err(e) ==> e == LoadError::NoSupportedImages,
        r matches Ok(v) ==> v == list,
{
    if list.len() == 0 {
        Err(LoadError::NoSupportedImages)
    } else {
        Ok(list)
    }
}

} // verus!
