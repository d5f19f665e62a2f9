use vstd::prelude::*;

verus! {

/// Content that changed since the last scan: a file to read, or the text
/// itself, with the extension that says what kind of text it is.
#[derive(Debug, Clone)]
pub struct ChangedContent {
    /// File path to the changed file
    pub file: Option<String>,
    /// Contents of the changed file
    pub content: Option<String>,
    /// File extension
    pub extension: String,
}

/// Asks for the sources to be found by looking through a directory.
#[derive(Debug, Clone)]
pub struct DetectSources {
    /// Base path to start scanning from
    pub base: String,
}

/// A set of files, named by a pattern below a directory.
#[derive(Debug, Clone)]
pub struct GlobEntry {
    /// Base path of the glob
    pub base: String,
    /// Glob pattern
    pub pattern: String,
}

/// Where a scanner looks for content.
#[derive(Debug, Clone)]
pub struct ScannerOptions {
    /// Automatically detect sources in the base path
    pub detect_sources: Option<DetectSources>,
    /// Glob sources
    pub sources: Option<Vec<GlobEntry>>,
}

} // verus!
