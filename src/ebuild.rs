//! Ebuild discovery: which files of a repository tree are package definition
//! files, and which version each one defines.
use vstd::prelude::*;
use crate::records::{rows_of, lemma_rows_of_push, EbuildLocation, EbuildRow};
use crate::text::{chars_of, ends_with, has_suffix, text_opt};

verus! {

/// The pattern whose first group is the version in a definition file's name:
/// what follows the last hyphen that a digit follows, up to the extension.
pub const EBUILD_VERSION_PATTERN: &'static str = ".*-(\\d.*).ebuild";

/// A file found in a repository tree: the category and package directories it
/// lies in, its own name, and its full path.
#[derive(Clone, Debug, PartialEq, Eq)]
pub struct EbuildFile {
    pub category: String,
    pub package: String,
    pub file_name: String,
    pub path: String,
}

pub struct EbuildFileRow {
    pub category: Seq<char>,
    pub package: Seq<char>,
    pub file_name: Seq<char>,
    pub path: Seq<char>,
}

impl View for EbuildFile {
    type V = EbuildFileRow;

    open spec fn view(&self) -> EbuildFileRow {
        EbuildFileRow {
            category: self.category@,
            package: self.package@,
            file_name: self.file_name@,
            path: self.path@,
        }
    }
}

/// What the `regex` crate gives as the text of group 1 of the first match of
/// `pattern` in `text`; `None` where the pattern does not compile, nothing
/// matches, or the group takes no part in the match.
pub uninterp spec fn regex_group_one(pattern: Seq<char>, text: Seq<char>) -> Option<Seq<char>>;

/// Relies on `regex::Regex::new` and `regex::Regex::captures`: compiles the
/// pattern and returns the text of group 1 of its first match in `text`, which
/// depends on the pattern and the text alone.
#[verifier::external_body]
fn first_group(pattern: &str, text: &str) -> (r: Option<String>)
    ensures
        match r {
            Some(g) => regex_group_one(pattern@, text@) == Some(g@),
            None => regex_group_one(pattern@, text@) is None,
        },
{
    match regex::Regex::new(pattern) {
        Ok(re) => match re.captures(text) {
            Some(caps) => caps.get(1).map(|m| m.as_str().to_string()),
            None => None,
        },
        Err(_) => None,
    }
}

/// The extension of a definition file.
pub open spec fn ebuild_extension() -> Seq<char> {
    seq!['.', 'e', 'b', 'u', 'i', 'l', 'd']
}

/// The row that a file contributes, given the version captured from its name: a
/// file with the definition extension and a captured version gives one; any
/// other gives none.
pub open spec fn ebuild_row(file: EbuildFileRow, capture: Option<Seq<char>>) -> Option<EbuildRow> {
    if ends_with(file.file_name, ebuild_extension()) && capture is Some {
        Some(
            EbuildRow {
                category: file.category,
                name: file.package,
                version: capture->Some_0,
                path: file.path,
            },
        )
    } else {
        None
    }
}

/// The row that a file contributes, with the version that the pattern captures.
pub open spec fn ebuild_row_of(file: EbuildFileRow) -> Option<EbuildRow> {
    ebuild_row(file, regex_group_one(EBUILD_VERSION_PATTERN@, file.file_name))
}

pub open spec fn ebuild_rows(files: Seq<EbuildFileRow>) -> Seq<EbuildRow>
    decreases files.len(),
{
    if files.len() == 0 {
        Seq::empty()
    } else {
        let p = ebuild_rows(files.drop_last());
        match ebuild_row_of(files.last()) {
            Some(r) => p.push(r),
            None => p,
        }
    }
}

fn extension() -> (r: Vec<char>)
    ensures
        r@ == ebuild_extension(),
{
    let r = vec!['.', 'e', 'b', 'u', 'i', 'l', 'd'];
    assert(r@ == ebuild_extension());
    r
}

/// Whether a file name has the definition extension.
pub fn is_ebuild_name(file_name: &str) -> (r: bool)
    ensures
        r == ends_with(file_name@, ebuild_extension()),
{
    let v = chars_of(file_name);
    has_suffix(&v, &extension())
}

/// The row that a file contributes, given the version captured from its name.
pub fn ebuild_row_from_capture(file: &EbuildFile, capture: Option<String>) -> (r: Option<
    EbuildLocation,
>)
    ensures
        match r {
            Some(x) => ebuild_row(file@, text_opt(capture)) == Some(x@),
            None => ebuild_row(file@, text_opt(capture)) is None,
        },
{
    if !is_ebuild_name(file.file_name.as_str()) {
        return None;
    }
    match capture {
        Some(version) => Some(
            EbuildLocation {
                category: file.category.clone(),
                name: file.package.clone(),
                version,
                path: file.path.clone(),
            },
        ),
        None => None,
    }
}

/// The row that a file contributes: files without the definition extension, and
/// names from which the pattern captures no version, give none.
pub fn ebuild_location(file: &EbuildFile) -> (r: Option<EbuildLocation>)
    ensures
        match r {
            Some(x) => ebuild_row_of(file@) == Some(x@),
            None => ebuild_row_of(file@) is None,
        },
{
    if !is_ebuild_name(file.file_name.as_str()) {
        return None;
    }
    let capture = first_group(EBUILD_VERSION_PATTERN, file.file_name.as_str());
    ebuild_row_from_capture(file, capture)
}

/// The rows that a list of files contributes, in order.
pub fn ebuild_locations(files: &Vec<EbuildFile>) -> (r: Vec<EbuildLocation>)
    ensures
        rows_of(r@) == ebuild_rows(rows_of(files@)),
{
    let mut out: Vec<EbuildLocation> = Vec::new();
    let mut i: usize = 0;
    while i < files.len()
        invariant
            0 <= i <= files.len(),
            rows_of(out@) == ebuild_rows(rows_of(files@).take(i as int)),
        decreases files.len() - i,
    {
        proof {
            assert(rows_of(files@).take(i + 1).drop_last() =~= rows_of(files@).take(i as int));
        }
        match ebuild_location(&files[i]) {
            Some(loc) => {
                proof {
                    lemma_rows_of_push(out@, loc);
                }
                out.push(loc);
            },
            None => {},
        }
        i = i + 1;
    }
    assert(rows_of(files@).take(files@.len() as int) =~= rows_of(files@));
    out
}

/// Whether a directory walk enters an entry: plain files and hidden entries (a
/// name that starts with a dot) are passed over.
pub fn descends_into(name: &str, is_file: bool) -> (r: bool)
    ensures
        r == (!is_file && !(name@.len() > 0 && name@[0] == '.')),
{
    if is_file {
        return false;
    }
    let v = chars_of(name);
    !(v.len() > 0 && v[0] == '.')
}

} // verus!
