//! The command line's settings.
use std::path::PathBuf;
use vstd::prelude::*;

verus! {

/// What the command line asks for.
#[derive(Debug, Clone)]
pub struct Cli {
    /// Markdown file or folder to read, `-` for stdin, `docs` for the bundled documentation,
    /// or `themes` to list the themes.
    pub path: Option<PathBuf>,
    /// Print styled text to stdout instead of opening the viewer.
    pub print: bool,
    /// Cap the content width in columns.
    pub width: Option<usize>,
    /// Theme by name or path to a theme file, or `auto` to follow the terminal background.
    pub theme: Option<String>,
    /// Read this config file instead of the one in the config folder.
    pub config: Option<PathBuf>,
    /// Download remote images.
    pub remote_images: bool,
    /// Print the man page.
    pub man: bool,
}

} // verus!
