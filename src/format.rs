//! Output formats, and the input format that a file name indicates.
use vstd::prelude::*;

verus! {

/// The report formats.
#[derive(Debug, Clone, Copy, PartialEq, Eq, Structural)]
pub enum OutputFormat {
    /// An HTML report.
    Html,
}

/// What `std::path::Path::extension` gives for a path text.
pub uninterp spec fn extension_of(p: Seq<char>) -> Option<Seq<char>>;

/// What `str::to_lowercase` returns for a text.
pub uninterp spec fn lower_of(s: Seq<char>) -> Seq<char>;

/// Relies on `std::path::Path::extension`: the part of the file name after
/// its last dot, if there is one; it depends on the path text alone.
#[verifier::external_body]
fn file_extension(path: &str) -> (r: Option<String>)
    ensures
        match r {
            Some(e) => extension_of(path@) == Some(e@),
            None => extension_of(path@) is None,
        },
{
    std::path::Path::new(path).extension().and_then(|e| e.to_str()).map(|e| e.to_string())
}

/// Relies on `str::to_lowercase`: its result depends on the characters alone.
#[verifier::external_body]
fn lowercase(s: &str) -> (r: String)
    ensures
        r@ == lower_of(s@),
{
    s.to_lowercase()
}

/// The document format that a lower-case extension names.
pub open spec fn format_of_extension(e: Seq<char>) -> Option<Seq<char>> {
    if e == "json"@ {
        Some("json"@)
    } else if e == "yaml"@ || e == "yml"@ {
        Some("yaml"@)
    } else {
        None
    }
}

/// The document format that a lower-case extension names: `json` for
/// `json`, `yaml` for `yaml` and `yml`.
pub fn format_for_extension(ext_lower: &str) -> (r: Option<&'static str>)
    ensures
        match r {
            Some(f) => format_of_extension(ext_lower@) == Some(f@),
            None => format_of_extension(ext_lower@) is None,
        },
{
    let e = String::from_str(ext_lower);
    if e == String::from_str("json") {
        Some("json")
    } else if e == String::from_str("yaml") || e == String::from_str("yml") {
        Some("yaml")
    } else {
        None
    }
}

/// The document format of a file, from its extension in any letter case.
pub fn detect_format(path: &str) -> (r: Result<&'static str, String>)
    ensures
        match extension_of(path@) {
            None => r matches Err(m) && m@ == "Unable to determine file format for: "@ + path@,
            Some(e) => match format_of_extension(lower_of(e)) {
                Some(f) => r matches Ok(g) && g@ == f,
                None => r matches Err(m) && m@ == "Unsupported file format '"@ + e
                    + "'. Supported formats: json, yaml, yml"@,
            },
        },
{
    let extension = match file_extension(path) {
        Some(e) => e,
        None => {
            return Err(crate::text::cat("Unable to determine file format for: ", path));
        },
    };
    let lower = lowercase(extension.as_str());
    match format_for_extension(lower.as_str()) {
        Some(f) => Ok(f),
        None => Err(
            crate::text::cat3(
                "Unsupported file format '",
                extension.as_str(),
                "'. Supported formats: json, yaml, yml",
            ),
        ),
    }
}

} // verus!
