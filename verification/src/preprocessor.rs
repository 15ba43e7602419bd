//! The preprocessor handle the host pipeline talks to: it names the engine
//! and rewrites one chapter's text at a time.

use vstd::prelude::*;

verus! {

/// A preprocessor that expands the author directives of every chapter.
#[derive(Default)]
pub struct GithubAuthorsPreprocessor;

impl GithubAuthorsPreprocessor {
    pub fn new() -> GithubAuthorsPreprocessor {
        GithubAuthorsPreprocessor
    }

    /// The name the host pipeline knows this preprocessor by.
    pub fn name(&self) -> (r: &'static str)
        ensures
            r@ == "github-author"@,
    {
        "github-author"
    }
}

} // verus!
