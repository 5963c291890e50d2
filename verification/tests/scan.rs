use wikify::wikilinks::WikiLink;
use wikify::wikilinks::scan_wiki_link;

fn scan(s: &str) -> Option<(String, String, usize)> {
    scan_wiki_link(s.as_bytes()).map(|(node, len): (WikiLink, usize)| {
        (
            String::from_utf8(node.disp).unwrap(),
            String::from_utf8(node.file).unwrap(),
            len,
        )
    })
}

#[test]
fn scan_plain_link() {
    let (disp, file, len) = scan("[[Hello World]] and more").unwrap();
    assert_eq!(disp, "Hello World");
    assert_eq!(file, "Hello World");
    // the first `]]` starts at byte 13, so 15 bytes are consumed
    assert_eq!(len, 15);
}

#[test]
fn scan_split_on_pipe() {
    let (disp, file, len) = scan("[[The Page|Some's Title]]").unwrap();
    assert_eq!(disp, "The Page");
    assert_eq!(file, "Some's Title");
    assert_eq!(len, 25);
}

#[test]
fn scan_empty_display() {
    let (disp, file, _) = scan("[[|x]]").unwrap();
    assert_eq!(disp, "");
    assert_eq!(file, "x");
}

#[test]
fn scan_empty_inner() {
    let (disp, file, len) = scan("[[]]").unwrap();
    assert_eq!(disp, "");
    assert_eq!(file, "");
    assert_eq!(len, 4);
}

#[test]
fn scan_trims_both_sides() {
    let (disp, file, _) = scan("[[  a b  |  c d  ]]").unwrap();
    assert_eq!(disp, "a b");
    assert_eq!(file, "c d");
}

#[test]
fn scan_splits_on_first_pipe_only() {
    let (disp, file, _) = scan("[[a|b|c]]").unwrap();
    assert_eq!(disp, "a");
    assert_eq!(file, "b|c");
}

#[test]
fn scan_first_close_wins() {
    // nested `[[` is not special: the first `]]` closes
    let (disp, file, len) = scan("[[a[[b]]c]]").unwrap();
    assert_eq!(disp, "a[[b");
    assert_eq!(file, "a[[b");
    assert_eq!(len, 8);
}

#[test]
fn scan_unterminated_is_no_match() {
    assert!(scan("[[no close").is_none());
    assert!(scan("[[ ]").is_none());
}

#[test]
fn scan_needs_double_open() {
    assert!(scan("[x]]").is_none());
    assert!(scan("plain text").is_none());
    assert!(scan("[").is_none());
    assert!(scan("").is_none());
}

#[test]
fn scan_consumed_length_is_close_index_plus_two() {
    for (s, close_idx) in [("[[a]]", 3), ("[[a|b]] tail", 5), ("[[]]]]", 2)] {
        let (_, _, len) = scan(s).unwrap();
        assert_eq!(len, close_idx + 2);
        assert_eq!(&s[close_idx..close_idx + 2], "]]");
    }
}
