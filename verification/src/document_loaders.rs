//! Document-loader configuration: which files a loader reads and how
//! names are matched. The file reading itself is an outside concern;
//! the name matching lives here, behind the glob crate.

use vstd::prelude::*;

verus! {

/// What glob pattern matching decides for a pattern and a file name:
/// `None` when the pattern does not compile, otherwise the match
/// verdict. The outcome depends on the two strings alone.
pub uninterp spec fn glob_verdict(pattern: Seq<char>, name: Seq<char>) -> Option<bool>;

/// Relies on glob's `Pattern::new` and `Pattern::matches`: the pattern
/// is compiled and matched against the name; a pattern that does not
/// compile yields `None`. Both are functions of their arguments alone.
#[verifier::external_body]
fn glob_match(pattern: &str, name: &str) -> (r: Option<bool>)
    ensures
        r == glob_verdict(pattern@, name@),
{
    match glob::Pattern::new(pattern) {
        Ok(p) => Some(p.matches(name)),
        Err(_) => None,
    }
}

/// Configuration for loading every matching text file under a
/// directory.
#[derive(Debug)]
pub struct DirectoryLoader {
    /// The directory to read.
    pub path: String,
    /// An optional glob pattern file names must match.
    pub glob_pattern: Option<String>,
    /// Whether subdirectories are descended into.
    pub recursive: bool,
}

impl DirectoryLoader {
    /// Creates a loader over `path`, not recursive, matching every
    /// file.
    pub fn new(path: String) -> (r: Self)
        ensures
            r.path == path,
            r.glob_pattern is None,
            r.recursive == false,
    {
        DirectoryLoader { path, glob_pattern: None, recursive: false }
    }

    /// Sets the glob pattern file names must match.
    pub fn with_glob_pattern(self, pattern: String) -> (r: Self)
        ensures
            r.path == self.path,
            r.glob_pattern == Some(pattern),
            r.recursive == self.recursive,
    {
        DirectoryLoader { glob_pattern: Some(pattern), ..self }
    }

    /// Enables or disables recursive traversal.
    pub fn with_recursive(self, recursive: bool) -> (r: Self)
        ensures
            r.path == self.path,
            r.glob_pattern == self.glob_pattern,
            r.recursive == recursive,
    {
        DirectoryLoader { recursive, ..self }
    }

    /// Whether a file name passes this loader's pattern: no pattern
    /// matches everything, and so does a pattern that does not
    /// compile.
    pub fn matches_pattern(&self, file_name: &str) -> (r: bool)
        ensures
            r == match self.glob_pattern {
                Some(p) => match glob_verdict(p@, file_name@) {
                    Some(b) => b,
                    None => true,
                },
                None => true,
            },
    {
        match &self.glob_pattern {
            Some(p) => {
                match glob_match(p.as_str(), file_name) {
                    Some(b) => b,
                    None => true,
                }
            },
            None => true,
        }
    }
}

/// Configuration for loading one text file.
#[derive(Debug)]
pub struct TextLoader {
    /// The file to read.
    pub file_path: String,
    /// The text encoding to read it with.
    pub encoding: String,
}

impl TextLoader {
    /// Creates a loader over `file_path` with the UTF-8 encoding.
    pub fn new(file_path: String) -> (r: Self)
        ensures
            r.file_path == file_path,
            r.encoding@ == "utf-8"@,
    {
        TextLoader { file_path, encoding: "utf-8".to_owned() }
    }

    /// Replaces the encoding.
    pub fn with_encoding(self, encoding: String) -> (r: Self)
        ensures
            r.file_path == self.file_path,
            r.encoding == encoding,
    {
        TextLoader { encoding, ..self }
    }
}

} // verus!
