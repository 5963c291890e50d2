use wikify::input::find_input_dir;

#[test]
fn resolved_directory_passes_through() {
    let r = find_input_dir(b"docs", Ok(b"/srv/docs".to_vec()));
    assert_eq!(r, Ok(b"/srv/docs".to_vec()));
}

#[test]
fn failed_probe_becomes_fatal_message() {
    let r = find_input_dir(b"nope", Err(b"No such file or directory".to_vec()));
    let msg = String::from_utf8(r.unwrap_err()).unwrap();
    assert_eq!(msg, "'nope' is not a valid input directory: No such file or directory");
}
