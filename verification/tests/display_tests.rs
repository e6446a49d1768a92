use runmat_runtime::display::{canonical_dims, display_output, format_display_text, DisplayInput};
use runmat_runtime::value::CharArray;

fn chars(s: &str) -> Vec<char> {
    s.chars().collect()
}

fn tensor(shape: Vec<usize>, fields: &[&str]) -> DisplayInput {
    DisplayInput::Tensor(shape, fields.iter().map(|f| chars(f)).collect())
}

fn row(s: &str) -> CharArray {
    let data = chars(s);
    let cols = data.len();
    CharArray { data, rows: 1, cols }
}

#[test]
fn display_scalar_text_matches_observed() {
    assert_eq!(format_display_text(&DisplayInput::Scalar(chars("42"))), Some("    42\n\n".to_string()));
}

#[test]
fn display_vector_text_matches_observed() {
    assert_eq!(
        format_display_text(&tensor(vec![1, 3], &["1", "2", "3"])),
        Some("     1     2     3\n\n".to_string())
    );
}

#[test]
fn display_char_text_matches_observed() {
    assert_eq!(format_display_text(&DisplayInput::CharArray(row("hi"))), Some("hi\n".to_string()));
}

#[test]
fn display_scalar_console_capture_matches_observed() {
    let out = display_output(&DisplayInput::Scalar(chars("42")), 0).ok().expect("display");
    assert_eq!(out, Some("    42\n\n".to_string()));
}

#[test]
fn display_vector_console_capture_matches_observed() {
    let out = display_output(&tensor(vec![1, 3], &["1", "2", "3"]), 0).ok().expect("display");
    assert_eq!(out, Some("     1     2     3\n\n".to_string()));
}

#[test]
fn display_char_console_capture_matches_observed() {
    let out = display_output(&DisplayInput::CharArray(row("hi")), 0).ok().expect("display");
    assert_eq!(out, Some("hi\n".to_string()));
}

#[test]
fn display_rejects_second_argument_unresolved_choice() {
    let err = display_output(&DisplayInput::Scalar(chars("1")), 1).err().expect("error");
    assert!(err.message.contains("two-argument form"));
}

#[test]
fn display_emits_no_name_header_unresolved_choice() {
    let text = format_display_text(&DisplayInput::Scalar(chars("42"))).expect("text");
    assert!(!text.contains('='));
}

#[test]
fn display_int_delegates_to_disp_unresolved_choice() {
    assert_eq!(format_display_text(&DisplayInput::Other), None);
    assert_eq!(display_output(&DisplayInput::Other, 0).ok(), Some(None));
}

#[test]
fn display_accepts_gpu_tensor() {
    // A gathered 1x2 double takes the grid layout.
    assert_eq!(format_display_text(&tensor(vec![1, 2], &["1", "2"])), Some("     1     2\n\n".to_string()));
}

#[test]
fn one_element_tensor_takes_scalar_path() {
    assert_eq!(format_display_text(&tensor(vec![1, 1], &["7"])), Some("     7\n\n".to_string()));
}

#[test]
fn empty_and_nd_tensors_are_delegated() {
    assert_eq!(format_display_text(&tensor(vec![0, 0], &[])), None);
    assert_eq!(format_display_text(&tensor(vec![1, 1, 2], &["1", "2"])), None);
}

#[test]
fn canonical_dims_pads_short_shapes() {
    assert_eq!(canonical_dims(&[]), vec![1, 1]);
    assert_eq!(canonical_dims(&[4]), vec![1, 4]);
    assert_eq!(canonical_dims(&[2, 3]), vec![2, 3]);
}

#[test]
fn wide_field_widens_every_column() {
    let text = format_display_text(&tensor(vec![2, 1], &["1", "123456"])).expect("text");
    assert!(text.ends_with("\n\n"));
    assert!(text.contains("123456"));
}
