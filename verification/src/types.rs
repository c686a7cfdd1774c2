//! The data the build works on: the book's metadata and the pages.

use vstd::prelude::*;

verus! {

/// The metadata of a book: what `book.yaml` supplies (`name`, `author`,
/// `title`, and the optional start-page fields), together with what the
/// build itself fills in (the generated `id` and the discovered `fonts` and
/// `images`).
#[derive(Debug)]
pub struct EpubInfo {
    /// The unique identifier of this build, generated once per run.
    pub id: Option<String>,
    /// The base name of the output folder and archive.
    pub name: String,
    /// The author, as it appears in the package metadata.
    pub author: String,
    /// The book title, as it appears in the package metadata.
    pub title: String,
    /// The name of the page to relabel as the start page, if any.
    pub start: Option<String>,
    /// The title the start page takes; "Title page" when absent or empty.
    pub start_title: Option<String>,
    /// The discovered font file names, once the source folder was scanned.
    pub fonts: Option<Vec<String>>,
    /// The discovered image file names, once the source folder was scanned.
    pub images: Option<Vec<String>>,
}

/// One page of the book.
#[derive(Debug, Clone)]
pub struct Page {
    /// The stem of the source file, used for start-page matching.
    pub name: String,
    /// The slug of `name`: the on-disk XHTML file name and manifest id.
    pub file: String,
    /// The title from the first `##` heading; empty when there is none.
    pub title: String,
    /// The rendered XHTML body fragment.
    pub body: String,
}

/// One Markdown source file, read into memory.
pub struct SourceFile {
    /// The path the file was read from.
    pub path: String,
    /// The raw Markdown text.
    pub content: String,
}

/// The mathematical view of an optional string.
pub open spec fn opt_text(o: Option<String>) -> Option<Seq<char>> {
    match o {
        Some(s) => Some(s@),
        None => None,
    }
}

/// The mathematical view of a list of strings.
pub open spec fn texts_of(v: Vec<String>) -> Seq<Seq<char>> {
    v@.map_values(|s: String| s@)
}

/// The mathematical view of an optional list of strings.
pub open spec fn opt_texts(o: Option<Vec<String>>) -> Option<Seq<Seq<char>>> {
    match o {
        Some(v) => Some(texts_of(v)),
        None => None,
    }
}

/// What `EpubInfo` says, as mathematical values.
pub struct InfoView {
    pub id: Option<Seq<char>>,
    pub name: Seq<char>,
    pub author: Seq<char>,
    pub title: Seq<char>,
    pub start: Option<Seq<char>>,
    pub start_title: Option<Seq<char>>,
    pub fonts: Option<Seq<Seq<char>>>,
    pub images: Option<Seq<Seq<char>>>,
}

impl View for EpubInfo {
    type V = InfoView;

    open spec fn view(&self) -> InfoView {
        InfoView {
            id: opt_text(self.id),
            name: self.name@,
            author: self.author@,
            title: self.title@,
            start: opt_text(self.start),
            start_title: opt_text(self.start_title),
            fonts: opt_texts(self.fonts),
            images: opt_texts(self.images),
        }
    }
}

/// What a `Page` says, as mathematical values.
pub struct PageView {
    pub name: Seq<char>,
    pub file: Seq<char>,
    pub title: Seq<char>,
    pub body: Seq<char>,
}

impl View for Page {
    type V = PageView;

    open spec fn view(&self) -> PageView {
        PageView { name: self.name@, file: self.file@, title: self.title@, body: self.body@ }
    }
}

/// What a `SourceFile` says, as mathematical values.
pub struct SourceView {
    pub path: Seq<char>,
    pub content: Seq<char>,
}

impl View for SourceFile {
    type V = SourceView;

    open spec fn view(&self) -> SourceView {
        SourceView { path: self.path@, content: self.content@ }
    }
}

} // verus!
