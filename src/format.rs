//! Command-line arguments and the document formats that file names call for.
use vstd::prelude::*;
use crate::search::{lower_of, lowercase};
use crate::text::str_eq;

verus! {

/// The default name of the output document.
pub const DEFAULT_OUTFILE: &'static str = "apisnip.out.yaml";

/// The arguments of a run: the input document and where the output goes.
pub struct Args {
    pub input: String,
    pub outfile: String,
}

impl Args {
    /// Arguments for `input`, writing to `outfile` or, when none is given, to the default name.
    pub fn new(input: String, outfile: Option<String>) -> (r: Args)
        ensures
            r.input@ == input@,
            r.outfile@ == match outfile {
                Some(o) => o@,
                None => DEFAULT_OUTFILE@,
            },
    {
        let outfile = match outfile {
            Some(o) => o,
            None => DEFAULT_OUTFILE.to_owned(),
        };
        Args { input, outfile }
    }
}

/// A document format.
#[derive(PartialEq, Eq, Structural, Clone, Copy, Debug)]
pub enum FileFormat {
    Json,
    Yaml,
}

/// A name for what `Path::extension` finds in a path: the part of the file name after its
/// last dot, if there is one.
pub uninterp spec fn extension_of(path: Seq<char>) -> Option<Seq<char>>;

/// Relies on `std::path::Path::extension`, read back as UTF-8.
#[verifier::external_body]
fn path_extension(path: &str) -> (r: Option<String>)
    ensures
        match r {
            Some(e) => extension_of(path@) == Some(e@),
            None => extension_of(path@) is None,
        },
{
    std::path::Path::new(path).extension().and_then(|e| e.to_str()).map(|e| e.to_string())
}

/// The format a file name calls for, by its extension in any case: `json`, or `yaml`/`yml`.
pub open spec fn format_of(path: Seq<char>) -> Option<FileFormat> {
    match extension_of(path) {
        Some(e) => if lower_of(e) == "json"@ {
            Some(FileFormat::Json)
        } else if lower_of(e) == "yaml"@ || lower_of(e) == "yml"@ {
            Some(FileFormat::Yaml)
        } else {
            None
        },
        None => None,
    }
}

/// The format a file name calls for; `None` for any other extension, or none.
pub fn detect_format(path: &str) -> (r: Option<FileFormat>)
    ensures
        r == format_of(path@),
{
    match path_extension(path) {
        Some(ext) => {
            let lower = lowercase(ext.as_str());
            format_of_extension(lower.as_str())
        },
        None => None,
    }
}

/// Classifies an extension that is already known (see `format_of`).
pub fn format_of_extension(lowered: &str) -> (r: Option<FileFormat>)
    ensures
        r == (if lowered@ == "json"@ {
            Some(FileFormat::Json)
        } else if lowered@ == "yaml"@ || lowered@ == "yml"@ {
            Some(FileFormat::Yaml)
        } else {
            None
        }),
{
    if str_eq(lowered, "json") {
        Some(FileFormat::Json)
    } else if str_eq(lowered, "yaml") || str_eq(lowered, "yml") {
        Some(FileFormat::Yaml)
    } else {
        None
    }
}

} // verus!
