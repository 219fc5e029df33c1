//! Query-string assembly for the proofreading viewer window.

use vstd::prelude::*;

verus! {

/// What percent-encoding produces for a string: a function of the input
/// alone.
pub uninterp spec fn url_encoded(s: Seq<char>) -> Seq<char>;

/// Relies on `urlencoding::encode`: the percent-encoded form depends on
/// the input string alone, named `url_encoded`.
#[verifier::external_body]
pub fn url_encode(s: &str) -> (r: String)
    ensures
        r@ == url_encoded(s@),
{
    urlencoding::encode(s).into_owned()
}

/// The viewer window's query string: the encoded file path, the encoded
/// base path, and the dark-mode flag.
pub fn viewer_query_params(file_path: &str, base_path: &str, dark_mode: bool) -> (r: String)
    ensures
        r@ == "file="@ + url_encoded(file_path@) + "&basePath="@ + url_encoded(base_path@)
            + "&darkMode="@ + (if dark_mode {
            "true"@
        } else {
            "false"@
        }),
{
    let mut out: String = String::from_str("file=");
    let ef = url_encode(file_path);
    out.append(ef.as_str());
    out.append("&basePath=");
    let eb = url_encode(base_path);
    out.append(eb.as_str());
    out.append("&darkMode=");
    if dark_mode {
        out.append("true");
    } else {
        out.append("false");
    }
    out
}

} // verus!
