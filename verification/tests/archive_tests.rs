use std::io::{Cursor, Read};

use mdepub::archive::{compress_epub, plan_epub_entries, plan_epub_entries_at, AssetFile, EpubEntry};
use mdepub::pages::{build_pages, rearrange_start_page};
use mdepub::types::{EpubInfo, SourceFile};

fn info() -> EpubInfo {
    EpubInfo {
        id: Some(String::from("uuid-1234")),
        name: String::from("mybook"),
        author: String::from("A"),
        title: String::from("T"),
        start: None,
        start_title: None,
        fonts: None,
        images: None,
    }
}

fn read_entry(archive: &mut zip::ZipArchive<Cursor<Vec<u8>>>, name: &str) -> String {
    let mut file = archive.by_name(name).expect(name);
    let mut out = String::new();
    file.read_to_string(&mut out).unwrap();
    out
}

#[test]
fn mimetype_first_stored_rest_deflated() {
    let sources = vec![SourceFile {
        path: String::from("01.md"),
        content: String::from("## One\nhello"),
    }];
    let pages = build_pages(&sources);
    let entries = plan_epub_entries(&info(), &pages, &Vec::new());
    let bytes = compress_epub(&entries).expect("packaging");
    let mut archive = zip::ZipArchive::new(Cursor::new(bytes)).unwrap();
    {
        let mut first = archive.by_index(0).unwrap();
        assert_eq!(first.name(), "mimetype");
        assert_eq!(first.compression(), zip::CompressionMethod::Stored);
        let mut content = String::new();
        first.read_to_string(&mut content).unwrap();
        assert_eq!(content, "application/epub+zip");
    }
    for i in 1..archive.len() {
        let entry = archive.by_index(i).unwrap();
        assert_eq!(entry.compression(), zip::CompressionMethod::Deflated, "{}", entry.name());
    }
}

#[test]
fn duplicate_entry_names_refuse_to_package() {
    let entry = |path: &str| EpubEntry {
        path: String::from(path),
        data: vec![1, 2, 3],
        stored: false,
    };
    assert!(compress_epub(&vec![entry("a"), entry("a")]).is_none());
    assert!(compress_epub(&vec![entry("a"), entry("b")]).is_some());
}

#[test]
fn assets_and_apple_meta_are_packaged() {
    let mut i = info();
    i.fonts = Some(vec![String::from("serif.otf")]);
    let assets = vec![
        AssetFile { name: String::from("book.css"), data: b"body{}".to_vec() },
        AssetFile { name: String::from("serif.otf"), data: vec![0, 1, 2] },
        AssetFile { name: String::from("notes.txt"), data: vec![9] },
    ];
    let entries = plan_epub_entries(&i, &Vec::new(), &assets);
    let bytes = compress_epub(&entries).expect("packaging");
    let mut archive = zip::ZipArchive::new(Cursor::new(bytes)).unwrap();
    assert_eq!(read_entry(&mut archive, "OPS/css/book.css"), "body{}");
    assert!(archive.by_name("OPS/fonts/serif.otf").is_ok());
    assert!(archive.by_name("META-INF/com.apple.ibooks.display-options.xml").is_ok());
    // a file of an unknown extension is not packaged
    let names: Vec<String> = (0..archive.len())
        .map(|k| archive.by_index(k).unwrap().name().to_string())
        .collect();
    assert!(!names.iter().any(|n| n.contains("notes.txt")));
}

#[test]
fn end_to_end_book() {
    let sources = vec![
        SourceFile { path: String::from("01-intro.md"), content: String::from("## Intro\nHello") },
        SourceFile { path: String::from("02-end.md"), content: String::from("The end.") },
    ];
    let pages = build_pages(&sources);
    let pages = rearrange_start_page(&info(), &pages);
    let entries = plan_epub_entries(&info(), &pages, &Vec::new());
    let bytes = compress_epub(&entries).expect("packaging");
    let mut archive = zip::ZipArchive::new(Cursor::new(bytes)).unwrap();

    let intro = read_entry(&mut archive, "OPS/content/01-intro.xhtml");
    assert!(intro.contains("<title>Intro</title>"));
    assert!(intro.contains("Hello"));

    // the page without a heading falls back to the book title
    let end = read_entry(&mut archive, "OPS/content/02-end.xhtml");
    assert!(end.contains("<title>T</title>"));

    // the navigation lists only the titled page
    let toc = read_entry(&mut archive, "OPS/toc.xhtml");
    assert!(toc.contains("content/01-intro.xhtml"));
    assert!(!toc.contains("content/02-end.xhtml"));

    // the structural files are in place
    assert!(archive.by_name("META-INF/container.xml").is_ok());
    assert!(archive.by_name("OPS/epb.opf").is_ok());
    assert!(archive.by_name("OPS/epb.ncx").is_ok());
}

#[test]
fn plan_is_deterministic_for_a_fixed_timestamp() {
    let sources = vec![SourceFile {
        path: String::from("01.md"),
        content: String::from("## One\nhello"),
    }];
    let pages = build_pages(&sources);
    let a = plan_epub_entries_at(&info(), &pages, &Vec::new(), "2024-01-01T00:00:00Z");
    let b = plan_epub_entries_at(&info(), &pages, &Vec::new(), "2024-01-01T00:00:00Z");
    assert_eq!(a.len(), b.len());
    for (x, y) in a.iter().zip(b.iter()) {
        assert_eq!(x.path, y.path);
        assert_eq!(x.data, y.data);
        assert_eq!(x.stored, y.stored);
    }
    assert_eq!(a[0].path, "mimetype");
    assert!(a[0].stored);
    assert_eq!(a[0].data, b"application/epub+zip".to_vec());
    assert!(a.iter().skip(1).all(|e| !e.stored));
}
