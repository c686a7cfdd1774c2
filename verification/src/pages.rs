//! From source files to pages: choosing and ordering the Markdown files,
//! rendering each into a page, relabeling the start page, and picking out
//! the asset files of the source folder.

use vstd::prelude::*;
use vstd::multiset::Multiset;

use crate::chars::{
    blank_text, chars_eq, is_blank, lemma_lex_total, lemma_lex_trans, lex_le, lex_leq, pat_at,
    str_chars, trim_chars, trim_text,
};
use crate::names::{extract_title, extract_title_text, file_stem_text, get_file_name,
    sanitize_name, slug_of};
use crate::preprocess::{preprocess_markdown, preprocess_text};
use crate::types::{EpubInfo, InfoView, Page, PageView, SourceFile};

verus! {

// ---------------------------------------------------------------------------
// Rendering one page.
// ---------------------------------------------------------------------------

/// What `pulldown_cmark` renders a piece of Markdown into: the XHTML body
/// fragment. The result depends on the Markdown text alone.
pub uninterp spec fn html_of(md: Seq<char>) -> Seq<char>;

/// Relies on `pulldown_cmark::Parser::new_ext` and
/// `pulldown_cmark::html::push_html`: parses the text as Markdown, with
/// every syntax extension enabled, and writes it out as HTML. The result
/// depends on the text alone.
#[verifier::external_body]
fn render_markdown(md: &str) -> (r: String)
    ensures
        r@ == html_of(md@),
{
    let parser = pulldown_cmark::Parser::new_ext(md, pulldown_cmark::Options::all());
    let mut out = String::new();
    pulldown_cmark::html::push_html(&mut out, parser);
    out
}

/// The page a source file becomes: named by the stem of the path, filed
/// under the slug of that name, with the title of the first `##` heading of
/// the normalized text and the rendered body of that text.
pub open spec fn page_of(source: Seq<char>, raw: Seq<char>) -> PageView {
    let pre = preprocess_text(raw);
    PageView {
        name: file_stem_text(source),
        file: slug_of(file_stem_text(source)),
        title: extract_title_text(pre),
        body: html_of(pre),
    }
}

/// Renders one source file into a page: normalizes the raw text, renders it
/// as Markdown, takes the title from the first `##` heading, and names the
/// page after the stem of the source path.
pub fn render_markdown_to_page(source: &str, raw_content: &str) -> (p: Page)
    ensures
        p@ == page_of(source@, raw_content@),
{
    let markdown_content = preprocess_markdown(raw_content);
    let body = render_markdown(markdown_content.as_str());
    let title = extract_title(markdown_content.as_str());
    let name = get_file_name(source);
    let file = sanitize_name(name.as_str());
    Page { name, file, title, body }
}

/// Renders every source file into a page, in the order given.
pub fn build_pages(sources: &Vec<SourceFile>) -> (r: Vec<Page>)
    ensures
        r@.len() == sources@.len(),
        forall|i: int|
            0 <= i < r@.len() ==> #[trigger] r@[i]@ == page_of(
                sources@[i].path@,
                sources@[i].content@,
            ),
{
    let mut r: Vec<Page> = Vec::new();
    let mut i: usize = 0;
    while i < sources.len()
        invariant
            i <= sources@.len(),
            r@.len() == i,
            forall|k: int|
                0 <= k < i ==> #[trigger] r@[k]@ == page_of(
                    sources@[k].path@,
                    sources@[k].content@,
                ),
        decreases sources@.len() - i,
    {
        let s = &sources[i];
        let p = render_markdown_to_page(s.path.as_str(), s.content.as_str());
        r.push(p);
        i = i + 1;
    }
    r
}

// ---------------------------------------------------------------------------
// Choosing and ordering the Markdown files.
// ---------------------------------------------------------------------------

/// Whether a file name names a Markdown source: it carries the `.md`
/// extension and does not begin with an underscore.
pub open spec fn is_md_name(s: Seq<char>) -> bool {
    s.len() >= 4 && s.skip(s.len() - 3) == ".md"@ && s[0] != '_'
}

/// Compares two strings in the lexicographic order by character.
fn str_le(a: &String, b: &String) -> (r: bool)
    ensures
        r == lex_leq(a@, b@),
{
    let va = str_chars(a.as_str());
    let vb = str_chars(b.as_str());
    lex_le(&va, &vb)
}

/// Whether the name names a Markdown source.
fn is_md_file(name: &String) -> (r: bool)
    ensures
        r == is_md_name(name@),
{
    proof {
        reveal_strlit(".md");
    }
    let v = str_chars(name.as_str());
    let pat = str_chars(".md");
    if v.len() < 4 {
        return false;
    }
    if v[0] == '_' {
        return false;
    }
    let r = pat_at(&v, v.len() - 3, &pat);
    assert(v@.subrange(v@.len() - 3, v@.len() as int) =~= v@.skip(v@.len() - 3));
    r
}

/// The Markdown sources among the given file names, in the lexicographic
/// order of their names: exactly the names with the `.md` extension that do
/// not begin with an underscore, each kept as often as it occurs.
pub fn select_markdown_files(names: &Vec<String>) -> (r: Vec<String>)
    ensures
        forall|i: int, j: int|
            0 <= i < j < r@.len() ==> lex_leq(#[trigger] r@[i]@, #[trigger] r@[j]@),
        r@.map_values(|s: String| s@).to_multiset() == names@.map_values(|s: String| s@).filter(
            |t: Seq<char>| is_md_name(t),
        ).to_multiset(),
{
    // keep the Markdown names
    let mut kept: Vec<String> = Vec::new();
    let mut i: usize = 0;
    proof {
        reveal(Seq::filter);
        assert(names@.take(0).map_values(|s: String| s@) =~= Seq::<Seq<char>>::empty());
        assert(kept@.map_values(|s: String| s@) =~= Seq::<Seq<char>>::empty());
    }
    while i < names.len()
        invariant
            i <= names@.len(),
            kept@.map_values(|s: String| s@) == names@.take(i as int).map_values(
                |s: String| s@,
            ).filter(|t: Seq<char>| is_md_name(t)),
        decreases names@.len() - i,
    {
        let ghost prefix = names@.take(i as int).map_values(|s: String| s@);
        let ghost longer = names@.take(i + 1).map_values(|s: String| s@);
        proof {
            reveal(Seq::filter);
            assert(longer =~= prefix.push(names@[i as int]@));
            assert(longer.drop_last() =~= prefix);
        }
        if is_md_file(&names[i]) {
            kept.push(names[i].clone());
            proof {
                assert(kept@.map_values(|s: String| s@) =~= prefix.filter(
                    |t: Seq<char>| is_md_name(t),
                ).push(names@[i as int]@));
            }
        }
        i = i + 1;
    }
    assert(names@.take(names@.len() as int) =~= names@);
    // sort them by name
    let mut out: Vec<String> = Vec::new();
    let mut k: usize = 0;
    proof {
        assert(kept@.take(0).map_values(|s: String| s@) =~= Seq::<Seq<char>>::empty());
        assert(out@.map_values(|s: String| s@) =~= Seq::<Seq<char>>::empty());
    }
    while k < kept.len()
        invariant
            k <= kept@.len(),
            forall|a: int, b: int|
                0 <= a < b < out@.len() ==> lex_leq(#[trigger] out@[a]@, #[trigger] out@[b]@),
            out@.map_values(|s: String| s@).to_multiset() == kept@.take(k as int).map_values(
                |s: String| s@,
            ).to_multiset(),
        decreases kept@.len() - k,
    {
        let x = kept[k].clone();
        // find the first place whose entry does not come before `x`
        let mut p: usize = 0;
        while p < out.len() && str_le(&out[p], &x)
            invariant
                p <= out@.len(),
                forall|a: int| 0 <= a < p ==> lex_leq(#[trigger] out@[a]@, x@),
            decreases out@.len() - p,
        {
            p = p + 1;
        }
        proof {
            if p < out@.len() {
                lemma_lex_total(out@[p as int]@, x@);
            }
        }
        // rebuild with `x` in place
        let mut next: Vec<String> = Vec::new();
        let mut a: usize = 0;
        while a < p
            invariant
                a <= p <= out@.len(),
                next@ == out@.take(a as int),
            decreases p - a,
        {
            next.push(out[a].clone());
            assert(next@ =~= out@.take(a + 1 as int));
            a = a + 1;
        }
        next.push(x);
        let mut b: usize = p;
        while b < out.len()
            invariant
                p <= b <= out@.len(),
                next@ == out@.take(p as int).push(kept@[k as int]) + out@.subrange(
                    p as int,
                    b as int,
                ),
            decreases out@.len() - b,
        {
            next.push(out[b].clone());
            assert(next@ =~= out@.take(p as int).push(kept@[k as int]) + out@.subrange(
                p as int,
                b + 1 as int,
            ));
            b = b + 1;
        }
        proof {
            let old_texts = out@.map_values(|s: String| s@);
            let new_texts = next@.map_values(|s: String| s@);
            let xt = kept@[k as int]@;
            // the new row is the old one with `x` standing at `p`
            assert(next@ =~= out@.take(p as int) + seq![kept@[k as int]] + out@.skip(p as int));
            assert(new_texts =~= old_texts.take(p as int) + seq![xt] + old_texts.skip(p as int));
            // order: everything before `p` comes up to `x`, everything from
            // `p` on comes after it
            assert forall|a2: int, b2: int|
                0 <= a2 < b2 < new_texts.len() implies lex_leq(
                #[trigger] next@[a2]@,
                #[trigger] next@[b2]@,
            ) by {
                if a2 < p && b2 < p {
                    assert(next@[a2]@ == out@[a2]@);
                    assert(next@[b2]@ == out@[b2]@);
                } else if a2 < p && b2 == p {
                    assert(next@[a2]@ == out@[a2]@);
                    assert(lex_leq(out@[a2]@, xt));
                } else if a2 < p && b2 > p {
                    assert(next@[a2]@ == out@[a2]@);
                    assert(next@[b2]@ == out@[b2 - 1]@);
                    if p < out@.len() {
                        if a2 < p - 1 {
                            assert(lex_leq(out@[a2]@, out@[p - 1]@));
                        }
                        if b2 - 1 > p {
                            assert(lex_leq(out@[p as int]@, out@[b2 - 1]@));
                        }
                        assert(lex_leq(out@[a2]@, xt));
                        assert(lex_leq(xt, out@[p as int]@));
                        if b2 - 1 == p {
                            lemma_lex_trans(out@[a2]@, xt, out@[p as int]@);
                        } else {
                            lemma_lex_trans(xt, out@[p as int]@, out@[b2 - 1]@);
                            lemma_lex_trans(out@[a2]@, xt, out@[b2 - 1]@);
                        }
                    }
                } else if a2 == p && b2 > p {
                    assert(next@[b2]@ == out@[b2 - 1]@);
                    assert(lex_leq(xt, out@[p as int]@));
                    if b2 - 1 > p {
                        assert(lex_leq(out@[p as int]@, out@[b2 - 1]@));
                        lemma_lex_trans(xt, out@[p as int]@, out@[b2 - 1]@);
                    }
                } else {
                    assert(a2 > p);
                    assert(next@[a2]@ == out@[a2 - 1]@);
                    assert(next@[b2]@ == out@[b2 - 1]@);
                }
            }
            // contents: one more copy of `x`, nothing else changed
            crate::chars::lemma_skip_skip(out@, 0, p as int);
            vstd::seq_lib::lemma_multiset_commutative(
                old_texts.take(p as int) + seq![xt],
                old_texts.skip(p as int),
            );
            vstd::seq_lib::lemma_multiset_commutative(old_texts.take(p as int), seq![xt]);
            vstd::seq_lib::lemma_multiset_commutative(
                old_texts.take(p as int),
                old_texts.skip(p as int),
            );
            assert(old_texts.take(p as int) + old_texts.skip(p as int) =~= old_texts);
            broadcast use vstd::seq_lib::group_to_multiset_ensures;

            assert(seq![xt].to_multiset() =~= Multiset::<Seq<char>>::empty().insert(xt)) by {
                assert(seq![xt] =~= Seq::<Seq<char>>::empty().push(xt));
                assert(Seq::<Seq<char>>::empty().to_multiset() =~= Multiset::<Seq<char>>::empty());
            }
            assert(new_texts.to_multiset() =~= old_texts.to_multiset().insert(xt));
            assert(kept@.take(k + 1).map_values(|s: String| s@) =~= kept@.take(k as int).map_values(
                |s: String| s@,
            ).push(xt));
        }
        out = next;
        k = k + 1;
    }
    assert(kept@.take(kept@.len() as int) =~= kept@);
    out
}

// ---------------------------------------------------------------------------
// Relabeling the start page.
// ---------------------------------------------------------------------------

/// The title the start page takes: the configured start title when present
/// and non-empty, else "Title page".
pub open spec fn start_title_of(info: InfoView) -> Seq<char> {
    match info.start_title {
        Some(t) => if t.len() > 0 {
            t
        } else {
            "Title page"@
        },
        None => "Title page"@,
    }
}

/// The page as the start-page rule leaves it: when a start page is
/// configured and the page's trimmed name equals it, the page takes the
/// start title; otherwise it stands unchanged.
pub open spec fn relabeled(info: InfoView, p: PageView) -> PageView {
    match info.start {
        Some(start) => if trim_text(p.name) == start {
            PageView { title: start_title_of(info), ..p }
        } else {
            p
        },
        None => p,
    }
}

/// Applies the start-page rule: the page whose trimmed name equals the
/// configured start page takes the start title (or "Title page"); every
/// page keeps its position.
pub fn rearrange_start_page(epub_info: &EpubInfo, pages: &Vec<Page>) -> (r: Vec<Page>)
    ensures
        r@.len() == pages@.len(),
        forall|i: int|
            0 <= i < r@.len() ==> #[trigger] r@[i]@ == relabeled(epub_info@, pages@[i]@),
{
    let mut r: Vec<Page> = Vec::new();
    let mut i: usize = 0;
    while i < pages.len()
        invariant
            i <= pages@.len(),
            r@.len() == i,
            forall|k: int|
                0 <= k < i ==> #[trigger] r@[k]@ == relabeled(epub_info@, pages@[k]@),
        decreases pages@.len() - i,
    {
        let page = &pages[i];
        let relabel = match &epub_info.start {
            Some(start_page) => {
                let name_chars = str_chars(page.name.as_str());
                let trimmed = trim_chars(&name_chars);
                let start_chars = str_chars(start_page.as_str());
                chars_eq(&trimmed, &start_chars)
            },
            None => false,
        };
        if relabel {
            let title = match &epub_info.start_title {
                Some(t) => {
                    if !t.as_str().is_empty() {
                        t.clone()
                    } else {
                        proof {
                            reveal_strlit("Title page");
                        }
                        String::from_str("Title page")
                    }
                },
                None => String::from_str("Title page"),
            };
            assert(title@ == start_title_of(epub_info@));
            r.push(
                Page {
                    name: page.name.clone(),
                    file: page.file.clone(),
                    title,
                    body: page.body.clone(),
                },
            );
        } else {
            r.push(
                Page {
                    name: page.name.clone(),
                    file: page.file.clone(),
                    title: page.title.clone(),
                    body: page.body.clone(),
                },
            );
        }
        i = i + 1;
    }
    r
}

// ---------------------------------------------------------------------------
// Slug collisions.
// ---------------------------------------------------------------------------

/// Finds two pages whose names collapse to the same slug, if any: such a
/// pair would fight over one `content/<file>.xhtml` entry, so a build should
/// refuse it. Returns the shared slug, or nothing when all slugs differ.
pub fn find_duplicate_slug(pages: &Vec<Page>) -> (r: Option<String>)
    ensures
        match r {
            Some(s) => exists|i: int, j: int|
                0 <= i < j < pages@.len() && #[trigger] pages@[i]@.file == #[trigger] pages@[j]@.file
                    && pages@[i]@.file == s@,
            None => forall|i: int, j: int|
                0 <= i < j < pages@.len() ==> #[trigger] pages@[i]@.file != #[trigger] pages@[j]@.file,
        },
{
    let n = pages.len();
    let mut i: usize = 0;
    while i < n
        invariant
            i <= n,
            n == pages@.len(),
            forall|a: int, b: int|
                0 <= a < b < pages@.len() && a < i ==> #[trigger] pages@[a]@.file
                    != #[trigger] pages@[b]@.file,
        decreases n - i,
    {
        let fi = str_chars(pages[i].file.as_str());
        let mut j: usize = i + 1;
        while j < n
            invariant
                i < j <= n,
                n == pages@.len(),
                i < n,
                fi@ == pages@[i as int]@.file,
                forall|b: int| i < b < j ==> #[trigger] pages@[b]@.file != pages@[i as int]@.file,
            decreases n - j,
        {
            let fj = str_chars(pages[j].file.as_str());
            if chars_eq(&fi, &fj) {
                assert(pages@[i as int]@.file == pages@[j as int]@.file);
                let dup = pages[i].file.clone();
                assert(dup@ == pages@[i as int]@.file);
                return Some(dup);
            }
            j = j + 1;
        }
        i = i + 1;
    }
    None
}

// ---------------------------------------------------------------------------
// Picking out asset files.
// ---------------------------------------------------------------------------

/// Whether the name carries the given extension: it ends with a dot and the
/// extension, with at least one character before the dot.
pub open spec fn has_dot_ext(s: Seq<char>, ext: Seq<char>) -> bool {
    s.len() > ext.len() + 1 && s.skip(s.len() - ext.len() - 1) == seq!['.'] + ext
}

/// Whether the name's extension makes it a font file.
pub open spec fn is_font_name(s: Seq<char>) -> bool {
    has_dot_ext(s, "ttf"@) || has_dot_ext(s, "otf"@)
}

/// Whether the name's extension makes it an image file.
pub open spec fn is_image_name(s: Seq<char>) -> bool {
    has_dot_ext(s, "jpg"@) || has_dot_ext(s, "png"@)
}

/// Whether `name` ends with `.` followed by the text of `ext`.
fn ext_matches(name: &String, ext: &str) -> (r: bool)
    ensures
        r == has_dot_ext(name@, ext@),
{
    let v = str_chars(name.as_str());
    let e = str_chars(ext);
    let mut pat: Vec<char> = Vec::new();
    pat.push('.');
    crate::chars::extend_chars(&mut pat, &e);
    assert(pat@ =~= seq!['.'] + ext@);
    if v.len() <= pat.len() {
        return false;
    }
    let r = pat_at(&v, v.len() - pat.len(), &pat);
    assert(v@.subrange(v@.len() - pat@.len(), v@.len() as int) =~= v@.skip(v@.len() - pat@.len()));
    r
}

/// The font files among the given names, in the order given: exactly the
/// names with a `.ttf` or `.otf` extension.
pub fn check_font_files(names: &Vec<String>) -> (r: Vec<String>)
    ensures
        r@.map_values(|s: String| s@) == names@.map_values(|s: String| s@).filter(
            |t: Seq<char>| is_font_name(t),
        ),
{
    proof {
        reveal_strlit("ttf");
        reveal_strlit("otf");
    }
    let mut r: Vec<String> = Vec::new();
    let mut i: usize = 0;
    proof {
        reveal(Seq::filter);
        assert(names@.take(0).map_values(|s: String| s@) =~= Seq::<Seq<char>>::empty());
        assert(r@.map_values(|s: String| s@) =~= Seq::<Seq<char>>::empty());
    }
    while i < names.len()
        invariant
            i <= names@.len(),
            r@.map_values(|s: String| s@) == names@.take(i as int).map_values(
                |s: String| s@,
            ).filter(|t: Seq<char>| is_font_name(t)),
        decreases names@.len() - i,
    {
        let ghost prefix = names@.take(i as int).map_values(|s: String| s@);
        let ghost longer = names@.take(i + 1).map_values(|s: String| s@);
        proof {
            reveal(Seq::filter);
            assert(longer =~= prefix.push(names@[i as int]@));
            assert(longer.drop_last() =~= prefix);
        }
        if ext_matches(&names[i], "ttf") || ext_matches(&names[i], "otf") {
            r.push(names[i].clone());
            proof {
                assert(r@.map_values(|s: String| s@) =~= prefix.filter(
                    |t: Seq<char>| is_font_name(t),
                ).push(names@[i as int]@));
            }
        }
        i = i + 1;
    }
    assert(names@.take(names@.len() as int) =~= names@);
    r
}

/// The image files among the given names, in the order given: exactly the
/// names with a `.jpg` or `.png` extension.
pub fn check_image_files(names: &Vec<String>) -> (r: Vec<String>)
    ensures
        r@.map_values(|s: String| s@) == names@.map_values(|s: String| s@).filter(
            |t: Seq<char>| is_image_name(t),
        ),
{
    proof {
        reveal_strlit("jpg");
        reveal_strlit("png");
    }
    let mut r: Vec<String> = Vec::new();
    let mut i: usize = 0;
    proof {
        reveal(Seq::filter);
        assert(names@.take(0).map_values(|s: String| s@) =~= Seq::<Seq<char>>::empty());
        assert(r@.map_values(|s: String| s@) =~= Seq::<Seq<char>>::empty());
    }
    while i < names.len()
        invariant
            i <= names@.len(),
            r@.map_values(|s: String| s@) == names@.take(i as int).map_values(
                |s: String| s@,
            ).filter(|t: Seq<char>| is_image_name(t)),
        decreases names@.len() - i,
    {
        let ghost prefix = names@.take(i as int).map_values(|s: String| s@);
        let ghost longer = names@.take(i + 1).map_values(|s: String| s@);
        proof {
            reveal(Seq::filter);
            assert(longer =~= prefix.push(names@[i as int]@));
            assert(longer.drop_last() =~= prefix);
        }
        if ext_matches(&names[i], "jpg") || ext_matches(&names[i], "png") {
            r.push(names[i].clone());
            proof {
                assert(r@.map_values(|s: String| s@) =~= prefix.filter(
                    |t: Seq<char>| is_image_name(t),
                ).push(names@[i as int]@));
            }
        }
        i = i + 1;
    }
    assert(names@.take(names@.len() as int) =~= names@);
    r
}

/// The package folder an asset file is copied into, by its extension:
/// `css` to the stylesheet folder, `png` and `jpg` to the images, `ttf` and
/// `otf` to the fonts, `js` to the scripts; anything else is not copied.
pub open spec fn asset_subdir_text(s: Seq<char>) -> Option<Seq<char>> {
    if has_dot_ext(s, "css"@) {
        Some("css"@)
    } else if is_image_name(s) {
        Some("images"@)
    } else if is_font_name(s) {
        Some("fonts"@)
    } else if has_dot_ext(s, "js"@) {
        Some("js"@)
    } else {
        None
    }
}

/// Names the package folder an asset file belongs in, by its extension, or
/// nothing for a file that is not copied.
pub fn asset_subdir(name: &String) -> (r: Option<String>)
    ensures
        match r {
            Some(d) => asset_subdir_text(name@) == Some(d@),
            None => asset_subdir_text(name@) is None,
        },
{
    proof {
        reveal_strlit("css");
        reveal_strlit("jpg");
        reveal_strlit("png");
        reveal_strlit("ttf");
        reveal_strlit("otf");
        reveal_strlit("js");
        reveal_strlit("images");
        reveal_strlit("fonts");
    }
    if ext_matches(name, "css") {
        Some(String::from_str("css"))
    } else if ext_matches(name, "jpg") || ext_matches(name, "png") {
        Some(String::from_str("images"))
    } else if ext_matches(name, "ttf") || ext_matches(name, "otf") {
        Some(String::from_str("fonts"))
    } else if ext_matches(name, "js") {
        Some(String::from_str("js"))
    } else {
        None
    }
}

} // verus!
