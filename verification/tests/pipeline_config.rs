use wikify::pipeline::PipelineConfig;
use wikify::validate_links::FileSet;
use wikify::validate_links::LinkRef;
use wikify::wikilinks::scan_wiki_link;

fn config(filter_unsafe: bool, files: Option<Vec<&str>>) -> PipelineConfig {
    PipelineConfig {
        filter_unsafe,
        files: files.map(|names| FileSet {
            names: names.iter().map(|n| n.as_bytes().to_vec()).collect(),
        }),
        output_extension: b"html".to_vec(),
    }
}

#[test]
fn href_uses_configured_extension() {
    let cfg = PipelineConfig {
        filter_unsafe: false,
        files: None,
        output_extension: b"xhtml".to_vec(),
    };
    let (link, _) = scan_wiki_link(b"[[Hello World]]").unwrap();
    assert_eq!(cfg.href_for(&link), b"./hello_world.xhtml".to_vec());
}

#[test]
fn run_filter_respects_the_flag() {
    let blocks = vec!["A", "%", "B", "%", "C"];
    let markers: Vec<bool> = blocks.iter().map(|b| *b == "%").collect();
    let on = config(true, None);
    let off = config(false, None);
    assert_eq!(on.run_filter(blocks.clone(), &markers), vec!["B"]);
    assert_eq!(off.run_filter(blocks, &markers), vec!["A", "B", "C"]);
}

#[test]
fn validator_disabled_without_file_set() {
    let cfg = config(false, None);
    let refs = vec![LinkRef::Local { url: b"missing.png".to_vec() }];
    assert!(cfg.run_validator(&refs).is_empty());
}

#[test]
fn validator_enabled_with_file_set() {
    let cfg = config(false, Some(vec!["there.md"]));
    let refs = vec![
        LinkRef::Wiki { disp: b"There".to_vec(), target: b"There".to_vec() },
        LinkRef::Wiki { disp: b"Gone".to_vec(), target: b"Gone".to_vec() },
    ];
    assert_eq!(cfg.run_validator(&refs).len(), 1);
}
