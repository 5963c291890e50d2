use wikify::canon::base_name;
use wikify::canon::html_ext;
use wikify::canon::link_to_filename;
use wikify::canon::md_ext;

fn canon(target: &str) -> String {
    String::from_utf8(link_to_filename(target.as_bytes(), b"html")).unwrap()
}

#[test]
fn canon_hello_world() {
    assert_eq!(canon("Hello World"), "./hello_world.html");
}

#[test]
fn canon_apostrophe_removed() {
    // lowercase first, then drop the apostrophe, then join on whitespace
    assert_eq!(canon("Some's Title"), "./somes_title.html");
}

#[test]
fn canon_single_word() {
    assert_eq!(canon("Missing"), "./missing.html");
}

#[test]
fn canon_whitespace_runs_become_one_underscore() {
    assert_eq!(canon("a  \t b"), "./a_b.html");
    assert_eq!(canon("  padded  words  "), "./padded_words.html");
}

#[test]
fn canon_empty_target() {
    assert_eq!(canon(""), "./.html");
}

#[test]
fn canon_keeps_other_punctuation() {
    assert_eq!(canon("C++ FAQ"), "./c++_faq.html");
}

#[test]
fn canon_shape_no_upper_no_space_no_apostrophe() {
    for target in ["Hello World", "O'Neil's PAGE", "  A  'B'  C  ", "x"] {
        let path = canon(target);
        assert!(path.starts_with("./"));
        assert!(path.ends_with(".html"));
        let middle = &path[2..path.len() - ".html".len()];
        assert!(!middle.chars().any(|c| c.is_ascii_uppercase()));
        assert!(!middle.contains('\''));
        assert!(!middle.chars().any(|c| c.is_ascii_whitespace()));
    }
}

#[test]
fn canon_idempotent_modulo_wrapping() {
    for target in ["Hello World", "Some's Title", "  A  'B'  C  ", "x", ""] {
        let once = canon(target);
        let stripped = once.strip_prefix("./").unwrap().strip_suffix(".html").unwrap();
        assert_eq!(canon(stripped), once);
    }
}

#[test]
fn base_name_uses_given_extension() {
    let base = String::from_utf8(base_name(b"Missing", b"md")).unwrap();
    assert_eq!(base, "missing.md");
}

#[test]
fn extension_constants() {
    assert_eq!(md_ext(), b"md".to_vec());
    assert_eq!(html_ext(), b"html".to_vec());
}
