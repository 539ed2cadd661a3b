use atomic_repository::conflict_markers::{first_conflict_marker_line, render_name_conflict};

#[test]
fn detects_numbered_start_marker_at_line_start() {
    let content = b"const shared = 1;\n>>>>>>> 1\nconst a = 2;\n======= 1 [C2YTBAHQ]\nconst b = 3;\n<<<<<<< 1\n";
    assert_eq!(first_conflict_marker_line(content), Some(2));
}

#[test]
fn ignores_separator_or_content_that_only_appears_mid_line() {
    let content = b"let divider = \"=======\";\nfn eq() { a ======= b }\n";
    assert_eq!(first_conflict_marker_line(content), None);
}

#[test]
fn clean_content_has_no_marker() {
    assert_eq!(first_conflict_marker_line(b"fn main() {}\n"), None);
}

#[test]
fn binary_content_carries_no_marker() {
    assert_eq!(first_conflict_marker_line(&[0xff, 0xfe, 0x00, 0x01]), None);
}

#[test]
fn markers_count_only_in_text() {
    assert_eq!(first_conflict_marker_line(b">>>>>>> 1\n"), Some(1));
    assert_eq!(first_conflict_marker_line(b">>>>>>> 1\n\xff"), None);
    assert_eq!(first_conflict_marker_line(b""), None);
    assert_eq!(first_conflict_marker_line(b" >>>>>>> 1\n"), None);
}

#[test]
fn a_rendered_name_conflict_is_flagged() {
    let rendered = render_name_conflict("same.txt", &vec![b"left\n".to_vec(), b"right\n".to_vec()]);
    assert!(first_conflict_marker_line(&rendered).is_some());
    let text = String::from_utf8(rendered).unwrap();
    assert!(text.contains("left\n"));
    assert!(text.contains("right\n"));
}
