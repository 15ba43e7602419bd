//! An mdbook-style author-directive engine: scans a chapter's text for
//! `{{#author ..}}` / `{{#authors ..}}` directives, removes them from the
//! text, and collects the referenced author identities in document order.
//!
//! The directive grammar, the scanner and the rewriter are specified over
//! `Seq<char>` views and verified; the surrounding plugin glue (command-line
//! handling, the mdbook protocol, template rendering) lives outside the
//! library.

pub mod laws;
pub mod preprocessor;
pub mod rewriter;
pub mod scanner;
pub mod text;

pub use preprocessor::GithubAuthorsPreprocessor;
pub use rewriter::GithubAuthor;
