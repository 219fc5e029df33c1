//! Proofreading-check data records and the base-path confinement check
//! applied before any proofreading file or directory is touched.

use vstd::prelude::*;

use vstd::string::StringSliceAdditionalSpecFns;
use vstd::utf8::encode_utf8;

verus! {

/// One proofreading finding.
pub struct ProofreadingCheckItem {
    pub picked: Option<bool>,
    pub category: Option<String>,
    pub page: Option<String>,
    pub excerpt: Option<String>,
    pub content: Option<String>,
    pub check_kind: Option<String>,
}

/// One category of findings.
pub struct ProofreadingCheckCategory {
    pub items: Vec<ProofreadingCheckItem>,
}

/// All findings, by category.
pub struct ProofreadingChecks {
    pub variation: Option<ProofreadingCheckCategory>,
    pub simple: Option<ProofreadingCheckCategory>,
}

/// The root record of a proofreading-check file.
pub struct ProofreadingCheckData {
    pub title: Option<String>,
    pub work: Option<String>,
    pub checks: Option<ProofreadingChecks>,
}

/// What Unicode lower-casing produces for a string: a function of the
/// characters alone.
pub uninterp spec fn lower_of(s: Seq<char>) -> Seq<char>;

/// Relies on `str::to_lowercase`: the result depends on the characters
/// alone, named `lower_of`.
#[verifier::external_body]
fn lowercase(s: &str) -> (r: String)
    ensures
        r@ == lower_of(s@),
{
    s.to_lowercase()
}

/// The separator fold applied after lower-casing: forward slashes become
/// backslashes, byte for byte.
pub open spec fn fold_separators(s: Seq<u8>) -> Seq<u8> {
    s.map_values(|b: u8| if b == 47 { 92u8 } else { b })
}

/// Whether `path` lies under `base`: after lower-casing both and folding
/// `/` to `\`, the base's bytes are a prefix of the path's.
pub open spec fn spec_path_allowed(path: Seq<char>, base: Seq<char>) -> bool {
    let np = fold_separators(encode_utf8(lower_of(path)));
    let nb = fold_separators(encode_utf8(lower_of(base)));
    np.len() >= nb.len() && np.subrange(0, nb.len() as int) == nb
}

fn fold_separator_byte(b: u8) -> (r: u8)
    ensures
        r == (if b == 47 {
            92u8
        } else {
            b
        }),
{
    if b == 47 {
        92
    } else {
        b
    }
}

/// Confines a proofreading path to its base directory, case-insensitively
/// and separator-insensitively.
pub fn is_path_allowed(path: &str, base: &str) -> (r: bool)
    ensures
        r == spec_path_allowed(path@, base@),
{
    let lp = lowercase(path);
    let lb = lowercase(base);
    let pb: &[u8] = lp.as_str().as_bytes();
    let bb: &[u8] = lb.as_str().as_bytes();
    proof {
        assert(pb@ == encode_utf8(lower_of(path@)));
        assert(bb@ == encode_utf8(lower_of(base@)));
    }
    let n: usize = bb.len();
    if pb.len() < n {
        return false;
    }
    let mut i: usize = 0;
    while i < n
        invariant
            0 <= i <= n,
            n == bb@.len(),
            n <= pb@.len(),
            pb@ == encode_utf8(lower_of(path@)),
            bb@ == encode_utf8(lower_of(base@)),
            forall|k: int|
                0 <= k < i ==> fold_separators(pb@)[k] == fold_separators(bb@)[k],
        decreases n - i,
    {
        if fold_separator_byte(pb[i]) != fold_separator_byte(bb[i]) {
            proof {
                assert(fold_separators(pb@).subrange(0, n as int)[i as int] != fold_separators(
                    bb@,
                )[i as int]);
            }
            return false;
        }
        i = i + 1;
    }
    proof {
        assert(fold_separators(pb@).subrange(0, n as int) =~= fold_separators(bb@));
    }
    true
}

} // verus!
