use mdepub::names::{extract_title, get_file_name, sanitize_name};

#[test]
fn sanitize_example() {
    assert_eq!(sanitize_name("My Book: Chapter One!"), "my-book-chapter-one");
}

#[test]
fn sanitize_collapses_and_trims() {
    assert_eq!(sanitize_name("a--b"), "a-b");
    assert_eq!(sanitize_name("a   b"), "a-b");
    assert_eq!(sanitize_name("name..."), "name");
    assert_eq!(sanitize_name("UPPER"), "upper");
    assert_eq!(sanitize_name(""), "");
}

#[test]
fn sanitize_idempotent_samples() {
    for input in ["My Book: Chapter One!", "Weird -- Name!!", "01 intro", "---", "ok", "Été Fou"] {
        let once = sanitize_name(input);
        assert_eq!(sanitize_name(&once), once);
    }
}

#[test]
fn sanitize_lowercases_beyond_ascii() {
    assert_eq!(sanitize_name("Été Fou"), "été-fou");
    assert_eq!(sanitize_name("ÄRGER raus!"), "ärger-raus");
}

#[test]
fn title_from_first_heading() {
    assert_eq!(extract_title("# Book\n## Chapter One\ntext"), "Chapter One");
    assert_eq!(extract_title("no headings here"), "");
}

#[test]
fn title_strips_hashes_and_leading_space() {
    assert_eq!(extract_title("### Deep\n## Later"), "Deep");
    assert_eq!(extract_title("##NoSpace"), "NoSpace");
    assert_eq!(extract_title("text\n##   padded  "), "padded  ");
}

#[test]
fn file_name_stem() {
    assert_eq!(get_file_name("src/chapters/01-intro.md"), "01-intro");
    assert_eq!(get_file_name("plain"), "plain");
    assert_eq!(get_file_name("a/b/c.tar.gz"), "c.tar");
    assert_eq!(get_file_name(".hidden"), ".hidden");
    assert_eq!(get_file_name(""), "");
}
