//! The structural documents of the package: the per-page XHTML shells, the
//! navigation document, the OPF package document, the NCX navigation map,
//! the container pointer and the Apple display-options file — each produced
//! as text whose exact content is stated.
//!
//! Author-supplied titles and the author name are XML-escaped before they
//! stand in a document; the rendered page bodies are HTML already and pass
//! through as they are.

use vstd::prelude::*;

use crate::chars::{
    blank_text, chars_string, dec_chars, dec_str, extend_chars, is_blank, lemma_skip_skip,
    replace_all, replace_all_text, str_chars,
};
use crate::preprocess::{join_pieces, join_texts};
use crate::types::{EpubInfo, InfoView, Page, PageView};

verus! {

// ---------------------------------------------------------------------------
// Small helpers.
// ---------------------------------------------------------------------------

/// Appends the text of a literal to the buffer.
fn push_lit(out: &mut Vec<char>, lit: &str)
    ensures
        final(out)@ == old(out)@ + lit@,
{
    let v = str_chars(lit);
    extend_chars(out, &v);
}

/// The text of an optional field; empty when absent.
pub open spec fn opt_or_empty(o: Option<Seq<char>>) -> Seq<char> {
    match o {
        Some(s) => s,
        None => Seq::empty(),
    }
}

/// Appends the text of an optional field, or nothing.
fn push_opt(out: &mut Vec<char>, o: &Option<String>)
    ensures
        final(out)@ == old(out)@ + opt_or_empty(crate::types::opt_text(*o)),
{
    match o {
        Some(s) => {
            let v = str_chars(s.as_str());
            extend_chars(out, &v);
        },
        None => {
            assert(old(out)@ + Seq::<char>::empty() =~= old(out)@);
        },
    }
}

// ---------------------------------------------------------------------------
// XML escaping of metadata text.
// ---------------------------------------------------------------------------

/// The text with `&`, `<` and `>` written as XML character references, fit
/// to stand inside an XML element.
pub open spec fn esc_text(s: Seq<char>) -> Seq<char> {
    replace_all_text(
        replace_all_text(replace_all_text(s, "&"@, "&amp;"@), "<"@, "&lt;"@),
        ">"@,
        "&gt;"@,
    )
}

/// Escapes `&`, `<` and `>` for XML.
fn esc_chars(v: &Vec<char>) -> (r: Vec<char>)
    ensures
        r@ == esc_text(v@),
{
    proof {
        reveal_strlit("&");
        reveal_strlit("<");
        reveal_strlit(">");
    }
    let amp = str_chars("&");
    let amp_ref = str_chars("&amp;");
    let lt = str_chars("<");
    let lt_ref = str_chars("&lt;");
    let gt = str_chars(">");
    let gt_ref = str_chars("&gt;");
    let a = replace_all(v, &amp, &amp_ref);
    let b = replace_all(&a, &lt, &lt_ref);
    replace_all(&b, &gt, &gt_ref)
}

/// Escapes a string field for XML.
fn esc_string(s: &String) -> (r: Vec<char>)
    ensures
        r@ == esc_text(s@),
{
    let v = str_chars(s.as_str());
    esc_chars(&v)
}

// ---------------------------------------------------------------------------
// The container pointer and the Apple display options.
// ---------------------------------------------------------------------------

/// The text of `META-INF/container.xml`: a fixed pointer at `OPS/epb.opf`.
pub open spec fn container_xml_text() -> Seq<char> {
    r#"<?xml version="1.0" encoding="UTF-8"?>
<container version="1.0" xmlns="urn:oasis:names:tc:opendocument:xmlns:container">
  <rootfiles>
    <rootfile full-path="OPS/epb.opf" media-type="application/oebps-package+xml" />
  </rootfiles>
</container>
"#@
}

/// The content of `META-INF/container.xml`, pointing at the package
/// document.
pub fn create_container_xml_content() -> (r: String)
    ensures
        r@ == container_xml_text(),
{
    String::from_str(
        r#"<?xml version="1.0" encoding="UTF-8"?>
<container version="1.0" xmlns="urn:oasis:names:tc:opendocument:xmlns:container">
  <rootfiles>
    <rootfile full-path="OPS/epb.opf" media-type="application/oebps-package+xml" />
  </rootfiles>
</container>
"#,
    )
}

/// The text of the Apple display-options file, which turns on the embedded
/// fonts on that platform.
pub open spec fn apple_xml_text() -> Seq<char> {
    r#"<?xml version="1.0" encoding="UTF-8"?>
    <display_options>
        <platform name="*">
            <option name="specified-fonts">true</option>
        </platform>
    </display_options>
    "#@
}

/// The content of `META-INF/com.apple.ibooks.display-options.xml`.
pub fn create_apple_xml_meta() -> (r: String)
    ensures
        r@ == apple_xml_text(),
{
    String::from_str(
        r#"<?xml version="1.0" encoding="UTF-8"?>
    <display_options>
        <platform name="*">
            <option name="specified-fonts">true</option>
        </platform>
    </display_options>
    "#,
    )
}

// ---------------------------------------------------------------------------
// The per-page XHTML document.
// ---------------------------------------------------------------------------

/// The title a page document shows: the page's own title when it is not
/// blank, else the book title.
pub open spec fn page_doc_title(info: InfoView, p: PageView) -> Seq<char> {
    if !blank_text(p.title) {
        p.title
    } else {
        info.title
    }
}

/// Law: a page document shows the page's own title exactly when that title
/// is not blank, and falls back to the book title otherwise; the chosen
/// title stands escaped in the document's `<title>` element and the page
/// body stands in its `<body>`, between the fixed frame parts of
/// `page_xhtml_text`.
pub proof fn lemma_page_doc_title_choice(info: InfoView, p: PageView)
    ensures
        !blank_text(p.title) ==> page_doc_title(info, p) == p.title,
        blank_text(p.title) ==> page_doc_title(info, p) == info.title,
{
}

/// The text of one page's XHTML document: a minimal shell around the body,
/// with the page or book title, the book id in a meta tag, and the shared
/// stylesheet.
pub open spec fn page_xhtml_text(info: InfoView, p: PageView) -> Seq<char> {
    "<!DOCTYPE html>\n<html xmlns=\"http://www.w3.org/1999/xhtml\">\n<head>\n    <title>"@
        + esc_text(page_doc_title(info, p)) + "</title>\n    <meta name=\"EPB-UUID\" content=\""@
        + opt_or_empty(info.id)
        + "\" />\n    <meta charset=\"UTF-8\" />\n    <link rel=\"stylesheet\" href=\"../css/book.css\" type=\"text/css\" />\n</head>\n<body>\n    "@
        + p.body + "\n</body>\n</html>\n"@
}

/// The XHTML document of one page.
pub fn create_page_xhtml_content(epub_info: &EpubInfo, page: &Page) -> (r: String)
    ensures
        r@ == page_xhtml_text(epub_info@, page@),
{
    let mut out: Vec<char> = Vec::new();
    push_lit(
        &mut out,
        "<!DOCTYPE html>\n<html xmlns=\"http://www.w3.org/1999/xhtml\">\n<head>\n    <title>",
    );
    let title_chars = str_chars(page.title.as_str());
    if !is_blank(&title_chars) {
        let e = esc_chars(&title_chars);
        extend_chars(&mut out, &e);
    } else {
        let e = esc_string(&epub_info.title);
        extend_chars(&mut out, &e);
    }
    push_lit(&mut out, "</title>\n    <meta name=\"EPB-UUID\" content=\"");
    push_opt(&mut out, &epub_info.id);
    push_lit(
        &mut out,
        "\" />\n    <meta charset=\"UTF-8\" />\n    <link rel=\"stylesheet\" href=\"../css/book.css\" type=\"text/css\" />\n</head>\n<body>\n    ",
    );
    let body = str_chars(page.body.as_str());
    extend_chars(&mut out, &body);
    push_lit(&mut out, "\n</body>\n</html>\n");
    assert(out@ =~= page_xhtml_text(epub_info@, page@));
    chars_string(&out)
}

/// The XHTML documents of the pages, one per page, in page order.
pub fn create_xhtml_files(epub_info: &EpubInfo, pages: &Vec<Page>) -> (r: Vec<String>)
    ensures
        r@.len() == pages@.len(),
        forall|i: int|
            0 <= i < r@.len() ==> #[trigger] r@[i]@ == page_xhtml_text(epub_info@, pages@[i]@),
{
    let mut r: Vec<String> = Vec::new();
    let mut i: usize = 0;
    while i < pages.len()
        invariant
            i <= pages@.len(),
            r@.len() == i,
            forall|k: int|
                0 <= k < i ==> #[trigger] r@[k]@ == page_xhtml_text(epub_info@, pages@[k]@),
        decreases pages@.len() - i,
    {
        let doc = create_page_xhtml_content(epub_info, &pages[i]);
        r.push(doc);
        i = i + 1;
    }
    r
}

// ---------------------------------------------------------------------------
// The navigation document (toc.xhtml).
// ---------------------------------------------------------------------------

/// The navigation line of one page: its entry, linking to
/// `content/<file>.xhtml`, when its title is not blank; nothing otherwise.
pub open spec fn toc_item_text(p: PageView) -> Seq<char> {
    if blank_text(p.title) {
        Seq::empty()
    } else {
        "        <li><a href=\"content/"@ + p.file + ".xhtml\">"@ + esc_text(p.title)
            + "</a></li>\n"@
    }
}

/// The navigation entries: one line for every page whose title is not
/// blank, in page order; pages with a blank title are left out.
pub open spec fn toc_items_text(ps: Seq<PageView>) -> Seq<char>
    decreases ps.len(),
{
    if ps.len() == 0 {
        Seq::empty()
    } else {
        toc_item_text(ps[0]) + toc_items_text(ps.skip(1))
    }
}

proof fn lemma_toc_items_snoc(ps: Seq<PageView>, p: PageView)
    ensures
        toc_items_text(ps.push(p)) == toc_items_text(ps) + toc_item_text(p),
    decreases ps.len(),
{
    assert(ps.push(p).len() == ps.len() + 1);
    if ps.len() == 0 {
        assert(ps.push(p)[0] == p);
        assert(ps.push(p).skip(1) =~= Seq::<PageView>::empty());
        assert(toc_items_text(Seq::<PageView>::empty()) == Seq::<char>::empty());
        assert(toc_items_text(ps.push(p)) == toc_item_text(p) + Seq::<char>::empty());
        assert(toc_item_text(p) + Seq::<char>::empty() =~= toc_item_text(p));
        assert(toc_items_text(ps) == Seq::<char>::empty());
        assert(Seq::<char>::empty() + toc_item_text(p) =~= toc_item_text(p));
    } else {
        assert(ps.push(p)[0] == ps[0]);
        assert(ps.push(p).skip(1) =~= ps.skip(1).push(p));
        lemma_toc_items_snoc(ps.skip(1), p);
        assert(toc_items_text(ps.push(p)) == toc_item_text(ps[0]) + toc_items_text(
            ps.skip(1).push(p),
        ));
        assert(toc_items_text(ps) == toc_item_text(ps[0]) + toc_items_text(ps.skip(1)));
        assert(toc_item_text(ps[0]) + (toc_items_text(ps.skip(1)) + toc_item_text(p)) =~= (
        toc_item_text(ps[0]) + toc_items_text(ps.skip(1))) + toc_item_text(p));
    }
}

/// Law: the navigation document lists exactly the titled pages, in their
/// order: the entries of a page list equal the entries of just its titled
/// pages, since a page with a blank title contributes nothing.
pub proof fn lemma_toc_lists_exactly_titled_pages(ps: Seq<PageView>)
    ensures
        toc_items_text(ps) == toc_items_text(
            ps.filter(|p: PageView| !blank_text(p.title)),
        ),
    decreases ps.len(),
{
    reveal(Seq::filter);
    let f = |p: PageView| !blank_text(p.title);
    if ps.len() == 0 {
    } else {
        let butlast = ps.drop_last();
        let p = ps.last();
        assert(ps =~= butlast.push(p));
        lemma_toc_lists_exactly_titled_pages(butlast);
        lemma_toc_items_snoc(butlast, p);
        if f(p) {
            lemma_toc_items_snoc(butlast.filter(f), p);
        } else {
            assert(toc_item_text(p) == Seq::<char>::empty());
            assert(toc_items_text(butlast) + Seq::<char>::empty() =~= toc_items_text(butlast));
        }
    }
}

/// The text of `toc.xhtml`: a fixed head carrying the book id, the entries
/// of the titled pages, and a fixed tail.
pub open spec fn toc_xhtml_text(info: InfoView, ps: Seq<PageView>) -> Seq<char> {
    "<?xml version=\"1.0\" encoding=\"UTF-8\"?>\n<html xml:lang=\"en\" xmlns:epub=\"http://www.idpf.org/2007/ops\" xmlns=\"http://www.w3.org/1999/xhtml\">\n<head>\n    <meta charset=\"UTF-8\" />\n    <title>Table of Contents</title>\n    <link rel=\"stylesheet\" href=\"css/book.css\" type=\"text/css\" />\n    <meta name=\"EPB-UUID\" content=\""@
        + opt_or_empty(info.id)
        + "\" />\n</head>\n<body>\n    <nav id=\"toc\" role=\"doc-toc\" epub:type=\"toc\">\n    <ol class=\"s2\">\n"@
        + toc_items_text(ps) + "    </ol>\n    </nav>\n</body>\n</html>\n"@
}

/// The navigation document: lists every page with a non-blank title, in
/// page order; pages with a blank title are omitted.
pub fn create_toc_xhtml(epub_info: &EpubInfo, pages: &Vec<Page>) -> (r: String)
    ensures
        r@ == toc_xhtml_text(epub_info@, pages@.map_values(|p: Page| p@)),
{
    let ghost ps = pages@.map_values(|p: Page| p@);
    let mut out: Vec<char> = Vec::new();
    push_lit(
        &mut out,
        "<?xml version=\"1.0\" encoding=\"UTF-8\"?>\n<html xml:lang=\"en\" xmlns:epub=\"http://www.idpf.org/2007/ops\" xmlns=\"http://www.w3.org/1999/xhtml\">\n<head>\n    <meta charset=\"UTF-8\" />\n    <title>Table of Contents</title>\n    <link rel=\"stylesheet\" href=\"css/book.css\" type=\"text/css\" />\n    <meta name=\"EPB-UUID\" content=\"",
    );
    push_opt(&mut out, &epub_info.id);
    push_lit(
        &mut out,
        "\" />\n</head>\n<body>\n    <nav id=\"toc\" role=\"doc-toc\" epub:type=\"toc\">\n    <ol class=\"s2\">\n",
    );
    let ghost head = out@;
    let mut i: usize = 0;
    assert(ps.skip(0) =~= ps);
    while i < pages.len()
        invariant
            i <= ps.len(),
            ps == pages@.map_values(|p: Page| p@),
            ps.len() == pages@.len(),
            head + toc_items_text(ps) == out@ + toc_items_text(ps.skip(i as int)),
        decreases ps.len() - i,
    {
        assert(ps.skip(i as int)[0] == ps[i as int]);
        assert(ps[i as int] == pages@[i as int]@);
        let ghost old_out = out@;
        let page = &pages[i];
        let title_chars = str_chars(page.title.as_str());
        if !is_blank(&title_chars) {
            push_lit(&mut out, "        <li><a href=\"content/");
            let file = str_chars(page.file.as_str());
            extend_chars(&mut out, &file);
            push_lit(&mut out, ".xhtml\">");
            let e = esc_chars(&title_chars);
            extend_chars(&mut out, &e);
            push_lit(&mut out, "</a></li>\n");
            proof {
                lemma_skip_skip(ps, i as int, 1);
                assert(out@ =~= old_out + ("        <li><a href=\"content/"@ + ps[i as int].file
                    + ".xhtml\">"@ + esc_text(ps[i as int].title) + "</a></li>\n"@));
                assert(out@ + toc_items_text(ps.skip(i + 1)) =~= old_out + (("        <li><a href=\"content/"@
                    + ps[i as int].file + ".xhtml\">"@ + esc_text(ps[i as int].title)
                    + "</a></li>\n"@) + toc_items_text(ps.skip(i as int).skip(1))));
            }
        } else {
            proof {
                lemma_skip_skip(ps, i as int, 1);
                assert(out@ + toc_items_text(ps.skip(i + 1)) =~= old_out + (Seq::<char>::empty()
                    + toc_items_text(ps.skip(i as int).skip(1))));
            }
        }
        i = i + 1;
    }
    proof {
        assert(ps.skip(ps.len() as int) =~= Seq::<PageView>::empty());
        assert(toc_items_text(Seq::<PageView>::empty()) == Seq::<char>::empty());
        assert(out@ + Seq::<char>::empty() =~= out@);
    }
    push_lit(&mut out, "    </ol>\n    </nav>\n</body>\n</html>\n");
    assert(out@ =~= toc_xhtml_text(epub_info@, ps));
    chars_string(&out)
}


// ---------------------------------------------------------------------------
// The package document (epb.opf).
// ---------------------------------------------------------------------------

/// The position of the first `.` in the text, or its length if there is
/// none.
pub open spec fn first_dot(s: Seq<char>) -> nat
    decreases s.len(),
{
    if s.len() == 0 {
        0
    } else if s[0] == '.' {
        0
    } else {
        1 + first_dot(s.skip(1))
    }
}

/// The manifest entries of the pages, ids `item-<n>` counting up from `n`.
pub open spec fn opf_manifest_items(ps: Seq<PageView>, n: nat) -> Seq<Seq<char>>
    decreases ps.len(),
{
    if ps.len() == 0 {
        Seq::empty()
    } else {
        seq![
            "<item id=\"item-"@ + dec_str(n) + "\" href=\"content/"@ + ps[0].file
                + ".xhtml\" media-type=\"application/xhtml+xml\" />"@,
        ] + opf_manifest_items(ps.skip(1), n + 1)
    }
}

/// The spine entries of the pages, in the same order and under the same
/// ids as the manifest.
pub open spec fn opf_spine_items(ps: Seq<PageView>, n: nat) -> Seq<Seq<char>>
    decreases ps.len(),
{
    if ps.len() == 0 {
        Seq::empty()
    } else {
        seq!["<itemref idref=\"item-"@ + dec_str(n) + "\" />"@] + opf_spine_items(
            ps.skip(1),
            n + 1,
        )
    }
}

proof fn lemma_manifest_items_len(ps: Seq<PageView>, n: nat)
    ensures
        opf_manifest_items(ps, n).len() == ps.len(),
        opf_spine_items(ps, n).len() == ps.len(),
    decreases ps.len(),
{
    if ps.len() > 0 {
        lemma_manifest_items_len(ps.skip(1), n + 1);
    }
}

/// Law: the package manifest and spine list the pages one to one and in
/// their given order — there are as many entries as pages, and the entries
/// of page `i` carry the number `n + i` and that page's file slug. With the
/// pages sorted by source file name, the reading order is the lexicographic
/// order of the sources, not the order of the titles.
pub proof fn lemma_manifest_follows_page_order(ps: Seq<PageView>, n: nat, i: int)
    requires
        0 <= i < ps.len(),
    ensures
        opf_manifest_items(ps, n).len() == ps.len(),
        opf_spine_items(ps, n).len() == ps.len(),
        opf_manifest_items(ps, n)[i] == "<item id=\"item-"@ + dec_str((n + i) as nat)
            + "\" href=\"content/"@ + ps[i].file
            + ".xhtml\" media-type=\"application/xhtml+xml\" />"@,
        opf_spine_items(ps, n)[i] == "<itemref idref=\"item-"@ + dec_str((n + i) as nat)
            + "\" />"@,
    decreases i,
{
    lemma_manifest_items_len(ps, n);
    lemma_manifest_items_len(ps.skip(1), n + 1);
    if i == 0 {
    } else {
        lemma_manifest_follows_page_order(ps.skip(1), n + 1, i - 1);
        assert(opf_manifest_items(ps, n)[i] == opf_manifest_items(ps.skip(1), n + 1)[i - 1]);
        assert(opf_spine_items(ps, n)[i] == opf_spine_items(ps.skip(1), n + 1)[i - 1]);
        assert(ps.skip(1)[i - 1] == ps[i]);
    }
}

/// Law: with one page per source file, in the order of the sources, the
/// manifest and spine follow the sources: the entries of page `i` carry the
/// number `i + 1` and the slug of source `i`'s file stem. With the sources
/// sorted by file name — as the build hands them in — the reading order is
/// the lexicographic order of the source file names, whatever the titles
/// say.
pub proof fn lemma_spine_follows_sources(
    sources: Seq<crate::types::SourceView>,
    ps: Seq<PageView>,
    i: int,
)
    requires
        ps.len() == sources.len(),
        forall|k: int|
            0 <= k < ps.len() ==> #[trigger] ps[k] == crate::pages::page_of(
                sources[k].path,
                sources[k].content,
            ),
        0 <= i < ps.len(),
    ensures
        ps[i].name == crate::names::file_stem_text(sources[i].path),
        ps[i].file == crate::names::slug_of(crate::names::file_stem_text(sources[i].path)),
        opf_manifest_items(ps, 1).len() == ps.len(),
        opf_spine_items(ps, 1).len() == ps.len(),
        opf_manifest_items(ps, 1)[i] == "<item id=\"item-"@ + dec_str((1 + i) as nat)
            + "\" href=\"content/"@ + crate::names::slug_of(
            crate::names::file_stem_text(sources[i].path),
        ) + ".xhtml\" media-type=\"application/xhtml+xml\" />"@,
        opf_spine_items(ps, 1)[i] == "<itemref idref=\"item-"@ + dec_str((1 + i) as nat)
            + "\" />"@,
{
    lemma_manifest_follows_page_order(ps, 1, i);
}

/// The manifest entries of the declared fonts, ids `font<n>` counting up
/// from `n`, each declared with the OpenType media type.
pub open spec fn opf_font_items(fs: Seq<Seq<char>>, n: nat) -> Seq<Seq<char>>
    decreases fs.len(),
{
    if fs.len() == 0 {
        Seq::empty()
    } else {
        seq![
            "<item href=\"fonts/"@ + fs[0] + "\" id=\"font"@ + dec_str(n)
                + "\" media-type=\"application/x-font-otf\"/>"@,
        ] + opf_font_items(fs.skip(1), n + 1)
    }
}

/// The manifest entries of the declared images, each under the id of its
/// name up to the first dot, declared with the JPEG media type whatever the
/// actual format.
pub open spec fn opf_image_items(imgs: Seq<Seq<char>>) -> Seq<Seq<char>>
    decreases imgs.len(),
{
    if imgs.len() == 0 {
        Seq::empty()
    } else {
        seq![
            "<item id=\""@ + imgs[0].take(first_dot(imgs[0]) as int) + "\" href=\"images/"@
                + imgs[0] + "\" media-type=\"image/jpeg\"/>"@,
        ] + opf_image_items(imgs.skip(1))
    }
}

/// The font manifest block: the font entries joined with line feeds; empty
/// when no fonts were declared.
pub open spec fn opf_fonts_text(info: InfoView) -> Seq<char> {
    match info.fonts {
        Some(fs) => join_texts(opf_font_items(fs, 1), seq!['\n']),
        None => Seq::empty(),
    }
}

/// The image manifest block: the image entries joined with line feeds;
/// empty when no images were declared.
pub open spec fn opf_images_text(info: InfoView) -> Seq<char> {
    match info.images {
        Some(imgs) => join_texts(opf_image_items(imgs), seq!['\n']),
        None => Seq::empty(),
    }
}

/// The text of `epb.opf`: the package metadata (the book id, the escaped
/// title and author, the fixed language "en", the modification timestamp),
/// a manifest holding the navigation document, the page entries `item-1..N`
/// in page order, the NCX, the stylesheet, and the font and image entries,
/// and a spine referencing `item-1..N` in the same order.
pub open spec fn opf_text(info: InfoView, ps: Seq<PageView>, modified: Seq<char>) -> Seq<char> {
    "<?xml version=\"1.0\" encoding=\"UTF-8\"?>\n<package xmlns=\"http://www.idpf.org/2007/opf\" version=\"3.0\" unique-identifier=\"BookID\">\n  <metadata xmlns:dc=\"http://purl.org/dc/elements/1.1/\">\n    <dc:identifier id=\"BookID\">"@
        + opt_or_empty(info.id) + "</dc:identifier>\n    <dc:title>"@ + esc_text(info.title)
        + "</dc:title>\n    <dc:creator>"@ + esc_text(info.author)
        + "</dc:creator>\n    <dc:language>en</dc:language>\n    <meta property=\"dcterms:modified\">"@
        + modified
        + "</meta>\n  </metadata>\n  <manifest>\n    <item id=\"toc\" href=\"toc.xhtml\" media-type=\"application/xhtml+xml\" properties=\"nav\"/>\n    "@
        + join_texts(opf_manifest_items(ps, 1), seq!['\n'])
        + "\n    <item id=\"ncx\" href=\"epb.ncx\" media-type=\"application/x-dtbncx+xml\"/>\n    <item id=\"stylesheet\" href=\"css/book.css\" media-type=\"text/css\"/>\n    "@
        + opf_fonts_text(info) + "\n    "@ + opf_images_text(info)
        + "\n  </manifest>\n  <spine toc=\"ncx\">\n    "@ + join_texts(
        opf_spine_items(ps, 1),
        seq!['\n'],
    ) + "\n  </spine>\n</package>\n"@
}

/// The manifest entry of one page under the given one-based number.
fn opf_manifest_item(page: &Page, n: usize) -> (r: Vec<char>)
    requires
        n >= 1,
    ensures
        r@ == "<item id=\"item-"@ + dec_str(n as nat) + "\" href=\"content/"@ + page@.file
            + ".xhtml\" media-type=\"application/xhtml+xml\" />"@,
{
    let mut item: Vec<char> = Vec::new();
    push_lit(&mut item, "<item id=\"item-");
    let num = dec_chars(n);
    extend_chars(&mut item, &num);
    push_lit(&mut item, "\" href=\"content/");
    let file = str_chars(page.file.as_str());
    extend_chars(&mut item, &file);
    push_lit(&mut item, ".xhtml\" media-type=\"application/xhtml+xml\" />");
    assert(item@ =~= "<item id=\"item-"@ + dec_str(n as nat) + "\" href=\"content/"@ + page@.file
        + ".xhtml\" media-type=\"application/xhtml+xml\" />"@);
    item
}

/// The manifest entries of the pages, as separate lines to be joined.
fn opf_manifest_lines(pages: &Vec<Page>) -> (r: Vec<Vec<char>>)
    ensures
        r@.map_values(|x: Vec<char>| x@) == opf_manifest_items(
            pages@.map_values(|p: Page| p@),
            1,
        ),
{
    let ghost ps = pages@.map_values(|p: Page| p@);
    let mut items: Vec<Vec<char>> = Vec::new();
    let mut k: usize = 0;
    assert(ps.skip(0) =~= ps);
    assert(items@.map_values(|x: Vec<char>| x@) =~= Seq::<Seq<char>>::empty());
    while k < pages.len()
        invariant
            k <= ps.len(),
            ps == pages@.map_values(|p: Page| p@),
            ps.len() == pages@.len(),
            opf_manifest_items(ps, 1) == items@.map_values(|x: Vec<char>| x@)
                + opf_manifest_items(ps.skip(k as int), (k + 1) as nat),
        decreases ps.len() - k,
    {
        assert(ps.skip(k as int)[0] == ps[k as int]);
        assert(ps[k as int] == pages@[k as int]@);
        let ghost old_items = items@.map_values(|x: Vec<char>| x@);
        let item = opf_manifest_item(&pages[k], k + 1);
        items.push(item);
        proof {
            lemma_skip_skip(ps, k as int, 1);
            assert(items@.map_values(|x: Vec<char>| x@) =~= old_items.push(
                "<item id=\"item-"@ + dec_str((k + 1) as nat) + "\" href=\"content/"@
                    + ps[k as int].file + ".xhtml\" media-type=\"application/xhtml+xml\" />"@,
            ));
            assert(old_items + (seq![
                "<item id=\"item-"@ + dec_str((k + 1) as nat) + "\" href=\"content/"@
                    + ps[k as int].file + ".xhtml\" media-type=\"application/xhtml+xml\" />"@,
            ] + opf_manifest_items(ps.skip(k + 1), (k + 2) as nat)) =~= old_items.push(
                "<item id=\"item-"@ + dec_str((k + 1) as nat) + "\" href=\"content/"@
                    + ps[k as int].file + ".xhtml\" media-type=\"application/xhtml+xml\" />"@,
            ) + opf_manifest_items(ps.skip(k + 1), (k + 2) as nat));
        }
        k = k + 1;
    }
    assert(ps.skip(ps.len() as int) =~= Seq::<PageView>::empty());
    assert(items@.map_values(|x: Vec<char>| x@) + Seq::<Seq<char>>::empty() =~= items@.map_values(
        |x: Vec<char>| x@,
    ));
    items
}

/// The spine entries of the pages, as separate lines to be joined.
fn opf_spine_lines(pages: &Vec<Page>) -> (r: Vec<Vec<char>>)
    ensures
        r@.map_values(|x: Vec<char>| x@) == opf_spine_items(pages@.map_values(|p: Page| p@), 1),
{
    let ghost ps = pages@.map_values(|p: Page| p@);
    let mut items: Vec<Vec<char>> = Vec::new();
    let mut k: usize = 0;
    assert(ps.skip(0) =~= ps);
    assert(items@.map_values(|x: Vec<char>| x@) =~= Seq::<Seq<char>>::empty());
    while k < pages.len()
        invariant
            k <= ps.len(),
            ps == pages@.map_values(|p: Page| p@),
            ps.len() == pages@.len(),
            opf_spine_items(ps, 1) == items@.map_values(|x: Vec<char>| x@) + opf_spine_items(
                ps.skip(k as int),
                (k + 1) as nat,
            ),
        decreases ps.len() - k,
    {
        assert(ps.skip(k as int)[0] == ps[k as int]);
        let ghost old_items = items@.map_values(|x: Vec<char>| x@);
        let mut item: Vec<char> = Vec::new();
        push_lit(&mut item, "<itemref idref=\"item-");
        let num = dec_chars(k + 1);
        extend_chars(&mut item, &num);
        push_lit(&mut item, "\" />");
        assert(item@ =~= "<itemref idref=\"item-"@ + dec_str((k + 1) as nat) + "\" />"@);
        items.push(item);
        proof {
            lemma_skip_skip(ps, k as int, 1);
            assert(items@.map_values(|x: Vec<char>| x@) =~= old_items.push(item@));
            assert(old_items + (seq![item@] + opf_spine_items(ps.skip(k + 1), (k + 2) as nat))
                =~= old_items.push(item@) + opf_spine_items(ps.skip(k + 1), (k + 2) as nat));
        }
        k = k + 1;
    }
    assert(ps.skip(ps.len() as int) =~= Seq::<PageView>::empty());
    assert(items@.map_values(|x: Vec<char>| x@) + Seq::<Seq<char>>::empty() =~= items@.map_values(
        |x: Vec<char>| x@,
    ));
    items
}

/// The font manifest block.
fn opf_fonts_block(epub_info: &EpubInfo) -> (r: Vec<char>)
    ensures
        r@ == opf_fonts_text(epub_info@),
{
    match &epub_info.fonts {
        None => Vec::new(),
        Some(fonts) => {
            let ghost fs = fonts@.map_values(|s: String| s@);
            let mut items: Vec<Vec<char>> = Vec::new();
            let mut k: usize = 0;
            assert(fs.skip(0) =~= fs);
            assert(items@.map_values(|x: Vec<char>| x@) =~= Seq::<Seq<char>>::empty());
            while k < fonts.len()
                invariant
                    k <= fs.len(),
                    fs == fonts@.map_values(|s: String| s@),
                    fs.len() == fonts@.len(),
                    opf_font_items(fs, 1) == items@.map_values(|x: Vec<char>| x@)
                        + opf_font_items(fs.skip(k as int), (k + 1) as nat),
                decreases fs.len() - k,
            {
                assert(fs.skip(k as int)[0] == fs[k as int]);
                assert(fs[k as int] == fonts@[k as int]@);
                let ghost old_items = items@.map_values(|x: Vec<char>| x@);
                let mut item: Vec<char> = Vec::new();
                push_lit(&mut item, "<item href=\"fonts/");
                let name = str_chars(fonts[k].as_str());
                extend_chars(&mut item, &name);
                push_lit(&mut item, "\" id=\"font");
                let num = dec_chars(k + 1);
                extend_chars(&mut item, &num);
                push_lit(&mut item, "\" media-type=\"application/x-font-otf\"/>");
                assert(item@ =~= "<item href=\"fonts/"@ + fs[k as int] + "\" id=\"font"@ + dec_str(
                    (k + 1) as nat,
                ) + "\" media-type=\"application/x-font-otf\"/>"@);
                items.push(item);
                proof {
                    lemma_skip_skip(fs, k as int, 1);
                    assert(items@.map_values(|x: Vec<char>| x@) =~= old_items.push(item@));
                    assert(old_items + (seq![item@] + opf_font_items(fs.skip(k + 1), (k + 2) as nat))
                        =~= old_items.push(item@) + opf_font_items(fs.skip(k + 1), (k + 2) as nat));
                }
                k = k + 1;
            }
            assert(fs.skip(fs.len() as int) =~= Seq::<Seq<char>>::empty());
            assert(items@.map_values(|x: Vec<char>| x@) + Seq::<Seq<char>>::empty()
                =~= items@.map_values(|x: Vec<char>| x@));
            join_pieces(&items, '\n')
        },
    }
}

/// The image manifest block.
fn opf_images_block(epub_info: &EpubInfo) -> (r: Vec<char>)
    ensures
        r@ == opf_images_text(epub_info@),
{
    match &epub_info.images {
        None => Vec::new(),
        Some(images) => {
            let ghost imgs = images@.map_values(|s: String| s@);
            let mut items: Vec<Vec<char>> = Vec::new();
            let mut k: usize = 0;
            assert(imgs.skip(0) =~= imgs);
            assert(items@.map_values(|x: Vec<char>| x@) =~= Seq::<Seq<char>>::empty());
            while k < images.len()
                invariant
                    k <= imgs.len(),
                    imgs == images@.map_values(|s: String| s@),
                    imgs.len() == images@.len(),
                    opf_image_items(imgs) == items@.map_values(|x: Vec<char>| x@)
                        + opf_image_items(imgs.skip(k as int)),
                decreases imgs.len() - k,
            {
                assert(imgs.skip(k as int)[0] == imgs[k as int]);
                assert(imgs[k as int] == images@[k as int]@);
                let ghost old_items = items@.map_values(|x: Vec<char>| x@);
                let name = str_chars(images[k].as_str());
                // the id: the name up to its first dot
                let mut d: usize = 0;
                assert(name@.skip(0) =~= name@);
                while d < name.len() && name[d] != '.'
                    invariant
                        d <= name@.len(),
                        first_dot(name@) == d + first_dot(name@.skip(d as int)),
                    decreases name@.len() - d,
                {
                    assert(name@.skip(d as int)[0] == name@[d as int]);
                    proof {
                        lemma_skip_skip(name@, d as int, 1);
                    }
                    d = d + 1;
                }
                proof {
                    if d < name.len() {
                        assert(name@.skip(d as int)[0] == name@[d as int]);
                    }
                    assert(first_dot(name@.skip(d as int)) == 0);
                }
                let id = crate::chars::subrange_chars(&name, 0, d);
                assert(id@ =~= name@.take(first_dot(name@) as int));
                let mut item: Vec<char> = Vec::new();
                push_lit(&mut item, "<item id=\"");
                extend_chars(&mut item, &id);
                push_lit(&mut item, "\" href=\"images/");
                extend_chars(&mut item, &name);
                push_lit(&mut item, "\" media-type=\"image/jpeg\"/>");
                assert(item@ =~= "<item id=\""@ + imgs[k as int].take(first_dot(
                    imgs[k as int],
                ) as int) + "\" href=\"images/"@ + imgs[k as int] + "\" media-type=\"image/jpeg\"/>"@);
                items.push(item);
                proof {
                    lemma_skip_skip(imgs, k as int, 1);
                    assert(items@.map_values(|x: Vec<char>| x@) =~= old_items.push(item@));
                    assert(old_items + (seq![item@] + opf_image_items(imgs.skip(k + 1)))
                        =~= old_items.push(item@) + opf_image_items(imgs.skip(k + 1)));
                }
                k = k + 1;
            }
            assert(imgs.skip(imgs.len() as int) =~= Seq::<Seq<char>>::empty());
            assert(items@.map_values(|x: Vec<char>| x@) + Seq::<Seq<char>>::empty()
                =~= items@.map_values(|x: Vec<char>| x@));
            join_pieces(&items, '\n')
        },
    }
}

/// The package document, for a given modification timestamp: metadata,
/// manifest and spine, with the page entries `item-1..N` in page order.
pub fn create_content_opf_content(epub_info: &EpubInfo, pages: &Vec<Page>, modified: &str) -> (r:
    String)
    ensures
        r@ == opf_text(epub_info@, pages@.map_values(|p: Page| p@), modified@),
{
    let manifest_lines = opf_manifest_lines(pages);
    let manifest = join_pieces(&manifest_lines, '\n');
    let spine_lines = opf_spine_lines(pages);
    let spine = join_pieces(&spine_lines, '\n');
    let fonts = opf_fonts_block(epub_info);
    let images = opf_images_block(epub_info);
    let mut out: Vec<char> = Vec::new();
    push_lit(
        &mut out,
        "<?xml version=\"1.0\" encoding=\"UTF-8\"?>\n<package xmlns=\"http://www.idpf.org/2007/opf\" version=\"3.0\" unique-identifier=\"BookID\">\n  <metadata xmlns:dc=\"http://purl.org/dc/elements/1.1/\">\n    <dc:identifier id=\"BookID\">",
    );
    push_opt(&mut out, &epub_info.id);
    push_lit(&mut out, "</dc:identifier>\n    <dc:title>");
    let title = esc_string(&epub_info.title);
    extend_chars(&mut out, &title);
    push_lit(&mut out, "</dc:title>\n    <dc:creator>");
    let author = esc_string(&epub_info.author);
    extend_chars(&mut out, &author);
    push_lit(
        &mut out,
        "</dc:creator>\n    <dc:language>en</dc:language>\n    <meta property=\"dcterms:modified\">",
    );
    let m = str_chars(modified);
    extend_chars(&mut out, &m);
    push_lit(
        &mut out,
        "</meta>\n  </metadata>\n  <manifest>\n    <item id=\"toc\" href=\"toc.xhtml\" media-type=\"application/xhtml+xml\" properties=\"nav\"/>\n    ",
    );
    extend_chars(&mut out, &manifest);
    push_lit(
        &mut out,
        "\n    <item id=\"ncx\" href=\"epb.ncx\" media-type=\"application/x-dtbncx+xml\"/>\n    <item id=\"stylesheet\" href=\"css/book.css\" media-type=\"text/css\"/>\n    ",
    );
    extend_chars(&mut out, &fonts);
    push_lit(&mut out, "\n    ");
    extend_chars(&mut out, &images);
    push_lit(&mut out, "\n  </manifest>\n  <spine toc=\"ncx\">\n    ");
    extend_chars(&mut out, &spine);
    push_lit(&mut out, "\n  </spine>\n</package>\n");
    assert(out@ =~= opf_text(epub_info@, pages@.map_values(|p: Page| p@), modified@));
    chars_string(&out)
}

// ---------------------------------------------------------------------------
// The navigation map (epb.ncx).
// ---------------------------------------------------------------------------

/// The navigation points: one per page with a non-blank title. `idx` numbers
/// every page (the `navPoint` id), `play` only the titled ones (the dense
/// `playOrder`).
pub open spec fn ncx_nav_points(ps: Seq<PageView>, idx: nat, play: nat) -> Seq<char>
    decreases ps.len(),
{
    if ps.len() == 0 {
        Seq::empty()
    } else if blank_text(ps[0].title) {
        ncx_nav_points(ps.skip(1), idx + 1, play)
    } else {
        "<navPoint id=\"navpoint-"@ + dec_str(idx) + "\" playOrder=\""@ + dec_str(play)
            + "\">\n                        <navLabel>\n                            <text>"@
            + esc_text(ps[0].title)
            + "</text>\n                        </navLabel>\n                        <content src=\"content/"@
            + ps[0].file + ".xhtml\"/>\n                    </navPoint>\n"@ + ncx_nav_points(
            ps.skip(1),
            idx + 1,
            play + 1,
        )
    }
}

/// The text of `epb.ncx`: a fixed head with the book id, the escaped title
/// and author, and one navigation point per titled page, with `playOrder`
/// counting densely over the titled pages only.
pub open spec fn ncx_text(info: InfoView, ps: Seq<PageView>) -> Seq<char> {
    "<?xml version=\"1.0\" encoding=\"UTF-8\"?>\n<ncx xmlns=\"http://www.daisy.org/z3986/2005/ncx/\" version=\"2005-1\">\n  <head>\n    <meta name=\"dtb:uid\" content=\""@
        + opt_or_empty(info.id)
        + "\" />\n    <meta name=\"dtb:depth\" content=\"1\" />\n    <meta name=\"dtb:totalPageCount\" content=\"0\" />\n    <meta name=\"dtb:maxPageNumber\" content=\"0\" />\n  </head>\n  <docTitle>\n    <text>"@
        + esc_text(info.title) + "</text>\n  </docTitle>\n  <docAuthor>\n    <text>"@ + esc_text(
        info.author,
    ) + "</text>\n  </docAuthor>\n  <navMap>\n    "@ + ncx_nav_points(ps, 1, 1)
        + "\n  </navMap>\n</ncx>\n"@
}

/// The navigation map: one `navPoint` per page with a non-blank title, its
/// id from the page's position among all pages, its `playOrder` counting
/// densely over the titled pages alone.
#[verifier::rlimit(30)]
pub fn create_toc_ncx_content(epub_info: &EpubInfo, pages: &Vec<Page>) -> (r: String)
    ensures
        r@ == ncx_text(epub_info@, pages@.map_values(|p: Page| p@)),
{
    let ghost ps = pages@.map_values(|p: Page| p@);
    let mut nav: Vec<char> = Vec::new();
    let mut k: usize = 0;
    // the number of titled pages seen so far; the next playOrder is one more
    let mut titled: usize = 0;
    assert(ps.skip(0) =~= ps);
    while k < pages.len()
        invariant
            k <= ps.len(),
            titled <= k,
            ps == pages@.map_values(|p: Page| p@),
            ps.len() == pages@.len(),
            ncx_nav_points(ps, 1, 1) == nav@ + ncx_nav_points(
                ps.skip(k as int),
                (k + 1) as nat,
                (titled + 1) as nat,
            ),
        decreases ps.len() - k,
    {
        assert(ps.skip(k as int)[0] == ps[k as int]);
        assert(ps[k as int] == pages@[k as int]@);
        let ghost old_nav = nav@;
        let page = &pages[k];
        let title_chars = str_chars(page.title.as_str());
        if !is_blank(&title_chars) {
            push_lit(&mut nav, "<navPoint id=\"navpoint-");
            let num = dec_chars(k + 1);
            extend_chars(&mut nav, &num);
            push_lit(&mut nav, "\" playOrder=\"");
            let pnum = dec_chars(titled + 1);
            extend_chars(&mut nav, &pnum);
            push_lit(
                &mut nav,
                "\">\n                        <navLabel>\n                            <text>",
            );
            let e = esc_chars(&title_chars);
            extend_chars(&mut nav, &e);
            push_lit(
                &mut nav,
                "</text>\n                        </navLabel>\n                        <content src=\"content/",
            );
            let file = str_chars(page.file.as_str());
            extend_chars(&mut nav, &file);
            push_lit(&mut nav, ".xhtml\"/>\n                    </navPoint>\n");
            proof {
                lemma_skip_skip(ps, k as int, 1);
                assert(nav@ + ncx_nav_points(ps.skip(k + 1), (k + 2) as nat, (titled + 2) as nat)
                    =~= old_nav + ("<navPoint id=\"navpoint-"@ + dec_str((k + 1) as nat)
                    + "\" playOrder=\""@ + dec_str((titled + 1) as nat)
                    + "\">\n                        <navLabel>\n                            <text>"@
                    + esc_text(ps[k as int].title)
                    + "</text>\n                        </navLabel>\n                        <content src=\"content/"@
                    + ps[k as int].file + ".xhtml\"/>\n                    </navPoint>\n"@
                    + ncx_nav_points(ps.skip(k as int).skip(1), (k + 2) as nat, (titled
                    + 2) as nat)));
            }
            titled = titled + 1;
        } else {
            proof {
                lemma_skip_skip(ps, k as int, 1);
            }
        }
        k = k + 1;
    }
    assert(ps.skip(ps.len() as int) =~= Seq::<PageView>::empty());
    assert(nav@ + Seq::<char>::empty() =~= nav@);
    let mut out: Vec<char> = Vec::new();
    push_lit(
        &mut out,
        "<?xml version=\"1.0\" encoding=\"UTF-8\"?>\n<ncx xmlns=\"http://www.daisy.org/z3986/2005/ncx/\" version=\"2005-1\">\n  <head>\n    <meta name=\"dtb:uid\" content=\"",
    );
    push_opt(&mut out, &epub_info.id);
    push_lit(
        &mut out,
        "\" />\n    <meta name=\"dtb:depth\" content=\"1\" />\n    <meta name=\"dtb:totalPageCount\" content=\"0\" />\n    <meta name=\"dtb:maxPageNumber\" content=\"0\" />\n  </head>\n  <docTitle>\n    <text>",
    );
    let title = esc_string(&epub_info.title);
    extend_chars(&mut out, &title);
    push_lit(&mut out, "</text>\n  </docTitle>\n  <docAuthor>\n    <text>");
    let author = esc_string(&epub_info.author);
    extend_chars(&mut out, &author);
    push_lit(&mut out, "</text>\n  </docAuthor>\n  <navMap>\n    ");
    extend_chars(&mut out, &nav);
    push_lit(&mut out, "\n  </navMap>\n</ncx>\n");
    assert(out@ =~= ncx_text(epub_info@, ps));
    chars_string(&out)
}

// ---------------------------------------------------------------------------
// The generated identifier and the modification timestamp.
// ---------------------------------------------------------------------------

/// Relies on `uuid::Uuid::new_v4` and its hyphenated form: a fresh random
/// identifier, written as the 36-character string of five hyphen-separated
/// hexadecimal groups. Nothing beyond its length holds of every outcome.
#[verifier::external_body]
pub fn fresh_book_id() -> (r: String)
    ensures
        r@.len() == 36,
{
    uuid::Uuid::new_v4().hyphenated().to_string()
}

/// Relies on `chrono::Utc::now` and its formatter: the current UTC time,
/// written as `YYYY-MM-DDTHH:MM:SSZ`. The result depends on the clock, so
/// nothing is promised of it.
#[verifier::external_body]
pub fn now_timestamp() -> String {
    chrono::Utc::now().format("%Y-%m-%dT%H:%M:%SZ").to_string()
}

/// Whether a text is the package document of the given book and pages for
/// some modification timestamp.
pub open spec fn is_opf_for(r: Seq<char>, info: InfoView, ps: Seq<PageView>) -> bool {
    exists|ts: Seq<char>| r == #[trigger] opf_text(info, ps, ts)
}

/// The package document, stamped with the current UTC time: there is a
/// timestamp text for which the result is exactly the package document.
pub fn create_content_opf(epub_info: &EpubInfo, pages: &Vec<Page>) -> (r: String)
    ensures
        is_opf_for(r@, epub_info@, pages@.map_values(|p: Page| p@)),
{
    let modified = now_timestamp();
    let r = create_content_opf_content(epub_info, pages, modified.as_str());
    proof {
        let ts = modified@;
        assert(r@ == opf_text(epub_info@, pages@.map_values(|p: Page| p@), ts));
    }
    r
}

} // verus!
