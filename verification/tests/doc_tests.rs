use mdepub::doc::{
    create_apple_xml_meta, create_container_xml_content, create_content_opf,
    create_content_opf_content, create_page_xhtml_content, create_toc_ncx_content,
    create_toc_xhtml, create_xhtml_files, fresh_book_id, now_timestamp,
};
use mdepub::types::{EpubInfo, Page};

fn info() -> EpubInfo {
    EpubInfo {
        id: Some(String::from("uuid-1234")),
        name: String::from("mybook"),
        author: String::from("A"),
        title: String::from("T"),
        start: None,
        start_title: None,
        fonts: None,
        images: None,
    }
}

fn page(name: &str, title: &str, body: &str) -> Page {
    Page {
        name: String::from(name),
        file: mdepub::names::sanitize_name(name),
        title: String::from(title),
        body: String::from(body),
    }
}

#[test]
fn container_points_at_the_package() {
    let c = create_container_xml_content();
    assert!(c.contains("full-path=\"OPS/epb.opf\""));
    assert!(c.starts_with("<?xml"));
}

#[test]
fn apple_meta_enables_fonts() {
    assert!(create_apple_xml_meta().contains("<option name=\"specified-fonts\">true</option>"));
}

#[test]
fn page_document_uses_page_title() {
    let p = page("ch1", "One", "<p>hello</p>");
    let doc = create_page_xhtml_content(&info(), &p);
    assert!(doc.contains("<title>One</title>"));
    assert!(doc.contains("<p>hello</p>"));
    assert!(doc.contains("content=\"uuid-1234\""));
}

#[test]
fn page_document_falls_back_to_book_title() {
    let p = page("ch2", "  ", "<p>x</p>");
    let doc = create_page_xhtml_content(&info(), &p);
    assert!(doc.contains("<title>T</title>"));
}

#[test]
fn page_document_escapes_the_title() {
    let p = page("ch1", "Tom & Jerry <3", "<p>x</p>");
    let doc = create_page_xhtml_content(&info(), &p);
    assert!(doc.contains("<title>Tom &amp; Jerry &lt;3</title>"));
}

#[test]
fn toc_lists_only_titled_pages() {
    let pages = vec![page("a", "A", ""), page("b", "", ""), page("c", "C", "")];
    let toc = create_toc_xhtml(&info(), &pages);
    assert!(toc.contains("<li><a href=\"content/a.xhtml\">A</a></li>"));
    assert!(toc.contains("<li><a href=\"content/c.xhtml\">C</a></li>"));
    assert!(!toc.contains("content/b.xhtml"));
}

#[test]
fn opf_orders_by_file_name_not_title() {
    // pages already stand in file-name order with out-of-order titles
    let pages = vec![page("a", "B", ""), page("b", "A", ""), page("c", "C", "")];
    let opf = create_content_opf_content(&info(), &pages, "2024-01-01T00:00:00Z");
    let ia = opf.find("href=\"content/a.xhtml\"").unwrap();
    let ib = opf.find("href=\"content/b.xhtml\"").unwrap();
    let ic = opf.find("href=\"content/c.xhtml\"").unwrap();
    assert!(ia < ib && ib < ic);
    assert!(opf.contains("<item id=\"item-1\" href=\"content/a.xhtml\""));
    assert!(opf.contains("<item id=\"item-2\" href=\"content/b.xhtml\""));
    assert!(opf.contains("<item id=\"item-3\" href=\"content/c.xhtml\""));
    let s1 = opf.find("<itemref idref=\"item-1\" />").unwrap();
    let s2 = opf.find("<itemref idref=\"item-2\" />").unwrap();
    let s3 = opf.find("<itemref idref=\"item-3\" />").unwrap();
    assert!(s1 < s2 && s2 < s3);
    assert!(opf.contains("<dc:title>T</dc:title>"));
    assert!(opf.contains("<dc:creator>A</dc:creator>"));
    assert!(opf.contains("<meta property=\"dcterms:modified\">2024-01-01T00:00:00Z</meta>"));
    assert!(opf.contains("<dc:language>en</dc:language>"));
}

#[test]
fn opf_declares_fonts_and_images() {
    let mut i = info();
    i.fonts = Some(vec![String::from("serif.otf")]);
    i.images = Some(vec![String::from("cover.jpg")]);
    let opf = create_content_opf_content(&i, &vec![], "2024-01-01T00:00:00Z");
    assert!(opf.contains(
        "<item href=\"fonts/serif.otf\" id=\"font1\" media-type=\"application/x-font-otf\"/>"
    ));
    assert!(opf.contains(
        "<item id=\"cover\" href=\"images/cover.jpg\" media-type=\"image/jpeg\"/>"
    ));
}

#[test]
fn ncx_numbers_titled_pages_densely() {
    let pages = vec![page("a", "A", ""), page("b", "", ""), page("c", "C", "")];
    let ncx = create_toc_ncx_content(&info(), &pages);
    // navpoint ids follow the page position; playOrder counts titled pages
    assert!(ncx.contains("<navPoint id=\"navpoint-1\" playOrder=\"1\">"));
    assert!(ncx.contains("<navPoint id=\"navpoint-3\" playOrder=\"2\">"));
    assert!(!ncx.contains("navpoint-2"));
    assert!(ncx.contains("<text>T</text>"));
    assert!(ncx.contains("<text>A</text>"));
}

#[test]
fn book_id_shape() {
    let id = fresh_book_id();
    assert_eq!(id.chars().count(), 36);
    assert_eq!(id.chars().filter(|c| *c == '-').count(), 4);
}

#[test]
fn timestamp_shape() {
    let ts = now_timestamp();
    assert!(ts.len() >= 20);
    assert!(ts.contains('T'));
    assert!(ts.ends_with('Z'));
}

#[test]
fn one_document_per_page() {
    let pages = vec![page("a", "A", "<p>1</p>"), page("b", "", "<p>2</p>")];
    let docs = create_xhtml_files(&info(), &pages);
    assert_eq!(docs.len(), 2);
    assert!(docs[0].contains("<title>A</title>"));
    assert!(docs[0].contains("<p>1</p>"));
    assert!(docs[1].contains("<title>T</title>"));
    assert!(docs[1].contains("<p>2</p>"));
}

#[test]
fn stamped_opf_carries_the_metadata() {
    let opf = create_content_opf(&info(), &vec![page("a", "A", "")]);
    assert!(opf.contains("<dc:title>T</dc:title>"));
    assert!(opf.contains("<item id=\"item-1\" href=\"content/a.xhtml\""));
    assert!(opf.contains("<meta property=\"dcterms:modified\">"));
}
