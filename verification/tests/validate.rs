use wikify::validate_links::Diagnostic;
use wikify::validate_links::FileSet;
use wikify::validate_links::LinkRef;
use wikify::validate_links::render_diag;
use wikify::validate_links::validate;

fn file_set(names: &[&str]) -> FileSet {
    FileSet { names: names.iter().map(|n| n.as_bytes().to_vec()).collect() }
}

fn wiki(target: &str) -> LinkRef {
    LinkRef::Wiki { disp: target.as_bytes().to_vec(), target: target.as_bytes().to_vec() }
}

fn local(url: &str) -> LinkRef {
    LinkRef::Local { url: url.as_bytes().to_vec() }
}

fn messages(refs: &Vec<LinkRef>, files: &FileSet) -> Vec<String> {
    validate(refs, files)
        .iter()
        .map(|d| String::from_utf8(render_diag(d)).unwrap())
        .collect()
}

#[test]
fn missing_wiki_target_is_reported() {
    let files = file_set(&["other.md"]);
    let msgs = messages(&vec![wiki("Missing")], &files);
    assert_eq!(msgs.len(), 1);
    assert_eq!(
        msgs[0],
        "'[[Missing|Missing]]' is not a valid wiki link: 'missing.md' cannot be resolved"
    );
    assert!(msgs[0].contains("missing.md"));
}

#[test]
fn present_wiki_target_is_silent() {
    let files = file_set(&["missing.md", "other.md"]);
    assert!(messages(&vec![wiki("Missing")], &files).is_empty());
}

#[test]
fn wiki_target_resolves_through_canonicalisation() {
    // the listing holds source files; the target matches after slugging
    let files = file_set(&["hello_world.md"]);
    assert!(messages(&vec![wiki("Hello World")], &files).is_empty());
    assert_eq!(messages(&vec![wiki("Hello Worlds")], &files).len(), 1);
}

#[test]
fn local_link_checked_against_listing() {
    let with = file_set(&["image.png"]);
    let without = file_set(&["other.png"]);
    assert!(messages(&vec![local("image.png")], &with).is_empty());
    let msgs = messages(&vec![local("image.png")], &without);
    assert_eq!(msgs.len(), 1);
    assert_eq!(msgs[0], "linked resource 'image.png' does not exist");
}

#[test]
fn local_link_into_subdirectory_is_not_followed() {
    let files = file_set(&[]);
    assert!(messages(&vec![local("sub/image.png")], &files).is_empty());
    assert!(messages(&vec![local("https://example.test/x")], &files).is_empty());
}

#[test]
fn diagnostics_come_in_document_order() {
    let files = file_set(&["here.md"]);
    let refs = vec![wiki("gone"), wiki("here"), local("nope.png"), wiki("also gone")];
    let msgs = messages(&refs, &files);
    assert_eq!(msgs.len(), 3);
    assert!(msgs[0].contains("gone.md"));
    assert!(msgs[1].contains("nope.png"));
    assert!(msgs[2].contains("also_gone.md"));
}

#[test]
fn silent_exactly_when_everything_resolves() {
    let files = file_set(&["a.md", "b.png"]);
    let good = vec![wiki("A"), local("b.png"), local("c/d.png")];
    assert!(validate(&good, &files).is_empty());
    let bad = vec![wiki("A"), local("b.png"), local("missing.png")];
    assert_eq!(validate(&bad, &files).len(), 1);
}

#[test]
fn wiki_diagnostic_keeps_display_and_target() {
    let files = file_set(&[]);
    let refs = vec![LinkRef::Wiki {
        disp: b"Shown".to_vec(),
        target: b"The Target".to_vec(),
    }];
    let diags = validate(&refs, &files);
    assert_eq!(diags.len(), 1);
    match &diags[0] {
        Diagnostic::MissingWiki { disp, target, resolved } => {
            assert_eq!(disp, &b"Shown".to_vec());
            assert_eq!(target, &b"The Target".to_vec());
            assert_eq!(resolved, &b"the_target.md".to_vec());
        }
        Diagnostic::MissingLocal { .. } => panic!("wrong diagnostic kind"),
    }
    assert_eq!(
        String::from_utf8(render_diag(&diags[0])).unwrap(),
        "'[[Shown|The Target]]' is not a valid wiki link: 'the_target.md' cannot be resolved"
    );
}
