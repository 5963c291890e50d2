use wikify::safe::FilterUnsafe;
use wikify::safe::filter_by_mask;
use wikify::safe::is_marker_line;

#[test]
fn marker_line_is_a_run_of_percent() {
    assert!(is_marker_line(b"%", 0));
    assert!(is_marker_line(b"%%%", 0));
    assert!(is_marker_line(b"%%%%%%%", 0));
}

#[test]
fn marker_line_surrounding_whitespace_is_ignored() {
    assert!(is_marker_line(b"  %%%  ", 2));
    assert!(is_marker_line(b"%%%\n", 0));
}

#[test]
fn marker_line_indent_three_accepted_four_rejected() {
    assert!(is_marker_line(b"   %%%", 3));
    assert!(!is_marker_line(b"    %%%", 4));
}

#[test]
fn marker_line_needs_content() {
    assert!(!is_marker_line(b"", 0));
    assert!(!is_marker_line(b"   ", 0));
}

#[test]
fn marker_line_rejects_other_bytes() {
    assert!(!is_marker_line(b"%a%", 0));
    assert!(!is_marker_line(b"%% %%", 0));
    assert!(!is_marker_line(b"text", 0));
}

#[test]
fn keep_mask_enabled_hides_outside_regions() {
    // A %%% B %%% C : only B is inside a marker-delimited region
    let markers = vec![false, true, false, true, false];
    let keep = FilterUnsafe { enabled: true }.keep_mask(&markers);
    assert_eq!(keep, vec![false, false, true, false, false]);
}

#[test]
fn keep_mask_disabled_erases_markers_only() {
    let markers = vec![false, true, false, true, false];
    let keep = FilterUnsafe { enabled: false }.keep_mask(&markers);
    assert_eq!(keep, vec![true, false, true, false, true]);
}

#[test]
fn keep_mask_trailing_region_is_emitted() {
    // an odd number of markers leaves the document in a visible region
    let markers = vec![false, true, false, false];
    let keep = FilterUnsafe { enabled: true }.keep_mask(&markers);
    assert_eq!(keep, vec![false, false, true, true]);
}

#[test]
fn keep_mask_no_markers_enabled_hides_everything() {
    let markers = vec![false, false, false];
    let keep = FilterUnsafe { enabled: true }.keep_mask(&markers);
    assert_eq!(keep, vec![false, false, false]);
}

#[test]
fn filter_by_mask_keeps_order() {
    let xs = vec!["a".to_string(), "b".to_string(), "c".to_string(), "d".to_string()];
    let keep = vec![true, false, true, true];
    let kept = filter_by_mask(xs, &keep);
    assert_eq!(kept, vec!["a".to_string(), "c".to_string(), "d".to_string()]);
}

#[test]
fn filter_pass_end_to_end_over_blocks() {
    let blocks = vec!["A".to_string(), "%".to_string(), "B".to_string(), "%".to_string(),
        "C".to_string()];
    let markers: Vec<bool> = blocks.iter().map(|b| b == "%").collect();
    let on = FilterUnsafe { enabled: true }.keep_mask(&markers);
    let off = FilterUnsafe { enabled: false }.keep_mask(&markers);
    assert_eq!(filter_by_mask(blocks.clone(), &on), vec!["B".to_string()]);
    assert_eq!(
        filter_by_mask(blocks, &off),
        vec!["A".to_string(), "B".to_string(), "C".to_string()]
    );
}
