use mdepub::pages::{
    check_font_files, check_image_files, asset_subdir, build_pages, find_duplicate_slug,
    rearrange_start_page, render_markdown_to_page, select_markdown_files,
};
use mdepub::types::{EpubInfo, Page, SourceFile};

fn info(start: Option<&str>, start_title: Option<&str>) -> EpubInfo {
    EpubInfo {
        id: Some(String::from("0000")),
        name: String::from("mybook"),
        author: String::from("A"),
        title: String::from("T"),
        start: start.map(String::from),
        start_title: start_title.map(String::from),
        fonts: None,
        images: None,
    }
}

fn strings(v: &[&str]) -> Vec<String> {
    v.iter().map(|s| String::from(*s)).collect()
}

#[test]
fn markdown_selection_is_sorted() {
    let names = strings(&["b.md", "a.md", "_draft.md", "c.md", "notes.txt", ".md"]);
    let picked = select_markdown_files(&names);
    assert_eq!(picked, strings(&["a.md", "b.md", "c.md"]));
}

#[test]
fn markdown_selection_keeps_duplicates() {
    let names = strings(&["x.md", "x.md"]);
    let picked = select_markdown_files(&names);
    assert_eq!(picked, strings(&["x.md", "x.md"]));
}

#[test]
fn render_builds_the_page() {
    let p = render_markdown_to_page("dir/01 Intro.md", "## Intro\nHello");
    assert_eq!(p.name, "01 Intro");
    assert_eq!(p.file, "01-intro");
    assert_eq!(p.title, "Intro");
    assert!(p.body.contains("Hello"));
    // the renderer produced markup, not the raw text back
    assert_ne!(p.body, "## Intro\nHello");
    assert!(p.body.contains("<"));
}

#[test]
fn start_page_takes_default_title() {
    let sources = vec![
        SourceFile { path: String::from("a.md"), content: String::from("## A\nx") },
        SourceFile { path: String::from("b.md"), content: String::from("## B\ny") },
        SourceFile { path: String::from("c.md"), content: String::from("## C\nz") },
    ];
    let pages = build_pages(&sources);
    let out = rearrange_start_page(&info(Some("b"), None), &pages);
    assert_eq!(out.len(), 3);
    assert_eq!(out[0].title, "A");
    assert_eq!(out[1].title, "Title page");
    assert_eq!(out[1].name, "b");
    assert_eq!(out[2].title, "C");
}

#[test]
fn start_page_takes_configured_title() {
    let sources = vec![
        SourceFile { path: String::from("b.md"), content: String::from("## B\ny") },
    ];
    let pages = build_pages(&sources);
    let out = rearrange_start_page(&info(Some("b"), Some("Cover")), &pages);
    assert_eq!(out[0].title, "Cover");
    // an empty configured title falls back to the default
    let out2 = rearrange_start_page(&info(Some("b"), Some("")), &pages);
    assert_eq!(out2[0].title, "Title page");
}

#[test]
fn duplicate_slugs_are_found() {
    let mk = |name: &str| Page {
        name: String::from(name),
        file: mdepub::names::sanitize_name(name),
        title: String::new(),
        body: String::new(),
    };
    let distinct = vec![mk("a"), mk("b")];
    assert!(find_duplicate_slug(&distinct).is_none());
    let clashing = vec![mk("My Page"), mk("my page")];
    assert_eq!(find_duplicate_slug(&clashing), Some(String::from("my-page")));
}

#[test]
fn font_and_image_scan() {
    let names = strings(&["a.ttf", "b.otf", "c.jpg", "d.png", "e.css", "f.js", "g.md", ".ttf"]);
    assert_eq!(check_font_files(&names), strings(&["a.ttf", "b.otf"]));
    assert_eq!(check_image_files(&names), strings(&["c.jpg", "d.png"]));
}

#[test]
fn asset_routing() {
    assert_eq!(asset_subdir(&String::from("style.css")), Some(String::from("css")));
    assert_eq!(asset_subdir(&String::from("cover.jpg")), Some(String::from("images")));
    assert_eq!(asset_subdir(&String::from("pic.png")), Some(String::from("images")));
    assert_eq!(asset_subdir(&String::from("font.ttf")), Some(String::from("fonts")));
    assert_eq!(asset_subdir(&String::from("font.otf")), Some(String::from("fonts")));
    assert_eq!(asset_subdir(&String::from("app.js")), Some(String::from("js")));
    assert_eq!(asset_subdir(&String::from("chapter.md")), None);
}
