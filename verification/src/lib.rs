//! Building EPUB 3 e-books from a folder of Markdown sources.
//!
//! The library covers the whole pipeline apart from I/O: typographic
//! normalization of the Markdown text, rendering to XHTML, assembly of the
//! EPUB document model (package manifest, spine, navigation), and the
//! packaging of the finished tree into the ZIP-based container format.
//! Reading the source folder and writing the results to disk belong to the
//! binary around the library.

pub mod archive;
pub mod chars;
pub mod doc;
pub mod names;
pub mod pages;
pub mod preprocess;
pub mod types;
