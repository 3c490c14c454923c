//! Where the document comes from.
use std::path::PathBuf;
use vstd::prelude::*;

verus! {

/// A file, or standard input.
#[derive(Debug, Clone)]
pub enum Source {
    File(PathBuf),
    Stdin,
}

/// The last component `Path::file_name` finds in a path, as `OsStr::to_string_lossy` reads it;
/// empty when there is none.
pub uninterp spec fn file_name_of(path: PathBuf) -> Seq<char>;

/// `Path::file_name`, as lossy Unicode, empty when there is none; the text is named, not
/// stated.
#[verifier::external_body]
fn file_name_text(path: &PathBuf) -> (r: String)
    ensures
        r@ == file_name_of(*path),
{
    path.file_name().map(|n| n.to_string_lossy().into_owned()).unwrap_or_default()
}

impl Source {
    /// The name the status bar shows: the file's name, or `stdin`.
    pub fn name(&self) -> (r: String)
        ensures
            self is Stdin ==> r@ == "stdin"@,
            self matches Source::File(p) ==> r@ == file_name_of(*p),
    {
        match self {
            Source::File(path) => file_name_text(path),
            Source::Stdin => "stdin".to_string(),
        }
    }
}

} // verus!
