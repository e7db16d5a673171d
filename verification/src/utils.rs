//! File names: what kind of file a path names, and the name of a file
//! without its directory and extension.

use vstd::prelude::*;
use crate::text::{
    chars_eq_ignoring_ascii_case, chars_of, eq_ignoring_ascii_case, lemma_split_nonempty, split,
    split_chars, string_of,
};

verus! {

/// The extension that `std::path::Path::extension` finds in `path`, read as a
/// path of the platform the library is built for: the part of the file name
/// after its last dot, and nothing where the path has no file name, or the
/// file name has no dot, or only one at its start.
pub uninterp spec fn path_extension(path: Seq<char>) -> Option<Seq<char>>;

/// Calls `Path::extension`. The contract gives the result its name,
/// [`path_extension`], and claims no more of it.
#[verifier::external_body]
fn extension_of(path: &str) -> (extension: Option<String>)
    ensures
        extension is Some == path_extension(path@) is Some,
        extension is Some ==> extension->0@ == path_extension(path@)->0,
{
    std::path::Path::new(path).extension().and_then(|e| e.to_str()).map(|e| e.to_string())
}

/// Reads `std::path::MAIN_SEPARATOR`, the character that separates the
/// components of a path on the platform the library is built for. Nothing is
/// claimed of it.
#[verifier::external_body]
fn main_separator() -> char {
    std::path::MAIN_SEPARATOR
}

/// Whether `extension` is there and equal to `wanted` without regard to ASCII
/// case.
pub open spec fn extension_is(extension: Option<Seq<char>>, wanted: Seq<char>) -> bool {
    extension matches Some(found) && eq_ignoring_ascii_case(found, wanted)
}

/// Whether `extension` is there and equal to `wanted` without regard to ASCII
/// case.
pub fn has_extension(extension: &Option<String>, wanted: &str) -> (fits: bool)
    ensures
        fits == extension_is(
            match extension {
                Some(found) => Some(found@),
                None => None,
            },
            wanted@,
        ),
{
    match extension {
        None => false,
        Some(found) => {
            let found = chars_of(found.as_str());
            let wanted = chars_of(wanted);
            chars_eq_ignoring_ascii_case(&found, &wanted)
        },
    }
}

/// Whether the extension of `path` is `wanted`, without regard to ASCII case.
pub fn path_has_extension(path: &str, wanted: &str) -> (fits: bool)
    ensures
        fits == extension_is(path_extension(path@), wanted@),
{
    let extension = extension_of(path);
    has_extension(&extension, wanted)
}

/// Whether `path` names a KML file: its extension is `kml` in any case.
pub fn is_kml_file(path: &str) -> (fits: bool)
    ensures
        fits == extension_is(path_extension(path@), "kml"@),
{
    path_has_extension(path, "kml")
}

/// Whether `path` names an Excel workbook: its extension is `xlsx` in any
/// case.
pub fn is_excel_file(path: &str) -> (fits: bool)
    ensures
        fits == extension_is(path_extension(path@), "xlsx"@),
{
    path_has_extension(path, "xlsx")
}

/// The name of a file without directory and extension: of the pieces of
/// `file` between separators the last, and of that the part before its first
/// dot.
pub open spec fn stem(file: Seq<char>, separator: char) -> Seq<char> {
    split(split(file, separator).last(), '.').first()
}

/// The name of `file` without directory and extension, on a platform whose
/// paths are separated by `separator`.
pub fn file_name_with(file: &str, separator: char) -> (name: String)
    ensures
        name@ == stem(file@, separator),
{
    let file = chars_of(file);
    let components = split_chars(&file, separator);
    proof {
        lemma_split_nonempty(file@, separator);
    }
    let last = &components[components.len() - 1];
    let parts = split_chars(last, '.');
    proof {
        lemma_split_nonempty(last@, '.');
    }
    string_of(&parts[0])
}

/// The separator of path components that the library goes by on this
/// platform: a backslash where that is the platform's own, a slash on every
/// other.
pub fn platform_separator() -> (separator: char)
    ensures
        separator == '/' || separator == '\\',
{
    if main_separator() == '\\' {
        '\\'
    } else {
        '/'
    }
}

/// The name of `file` without directory and extension, on the platform the
/// library is built for: [`stem`] for a backslash where that separates the
/// platform's paths, for a slash elsewhere.
pub fn file_name(file: &str) -> (name: String)
    ensures
        name@ == stem(file@, '/') || name@ == stem(file@, '\\'),
{
    file_name_with(file, platform_separator())
}

} // verus!
