use runmat_runtime::strncmpi::{strncmpi, PrefixArg};
use runmat_runtime::text_utils::{TextCollection, TextElement};
use runmat_runtime::value::Value;

fn scalar(s: &str) -> Option<TextCollection> {
    Some(TextCollection { elements: vec![TextElement::Text(s.to_string())], shape: vec![1, 1] })
}

fn collection(items: &[Option<&str>], shape: Vec<usize>) -> Option<TextCollection> {
    let elements = items
        .iter()
        .map(|i| match i {
            Some(t) => TextElement::Text(t.to_string()),
            None => TextElement::Missing,
        })
        .collect();
    Some(TextCollection { elements, shape })
}

fn run(a: Option<TextCollection>, b: Option<TextCollection>, n: PrefixArg) -> Value {
    strncmpi(&a, &b, &n).ok().expect("strncmpi")
}

fn run_err(a: Option<TextCollection>, b: Option<TextCollection>, n: PrefixArg) -> String {
    strncmpi(&a, &b, &n).err().expect("error").message
}

fn as_bool(v: Value) -> bool {
    match v {
        Value::Bool(b) => b,
        _ => panic!("expected logical scalar"),
    }
}

fn as_logical(v: Value) -> (Vec<u8>, Vec<usize>) {
    match v {
        Value::LogicalArray(a) => (a.data, a.shape),
        _ => panic!("expected logical array"),
    }
}

#[test]
fn observed_match_first_three_characters_ignoring_case_true() {
    assert!(as_bool(run(scalar("Hello"), scalar("help"), PrefixArg::Int(3))));
}

#[test]
fn observed_prefix_equal_first_two_characters_true() {
    assert!(as_bool(run(scalar("abc"), scalar("abd"), PrefixArg::Int(2))));
}

#[test]
fn observed_no_match_first_character_false() {
    assert!(!as_bool(run(scalar("abc"), scalar("xyz"), PrefixArg::Int(1))));
}

#[test]
fn unresolved_choice_mismatch_within_prefix_false() {
    assert!(!as_bool(run(scalar("RunMat"), scalar("runway"), PrefixArg::Int(4))));
}

#[test]
fn unresolved_choice_shorter_string_within_prefix_false() {
    assert!(!as_bool(run(scalar("cat"), scalar("CATER"), PrefixArg::Int(4))));
}

#[test]
fn unresolved_choice_both_exhausted_before_limit_true() {
    assert!(as_bool(run(scalar("cat"), scalar("CAT"), PrefixArg::Int(10))));
}

#[test]
fn unresolved_choice_zero_length_always_true() {
    assert!(as_bool(run(scalar("alpha"), scalar("omega"), PrefixArg::Float(Some(0)))));
}

#[test]
fn unresolved_choice_prefix_length_bool_true_compares_first_character() {
    assert!(as_bool(run(scalar("Alpha"), scalar("array"), PrefixArg::Bool(true))));
}

#[test]
fn unresolved_choice_prefix_length_bool_false_treated_as_zero() {
    assert!(as_bool(run(scalar("alpha"), scalar("omega"), PrefixArg::Bool(false))));
}

#[test]
fn unresolved_choice_prefix_length_logical_array_scalar() {
    assert!(!as_bool(run(scalar("Beta"), scalar("theta"), PrefixArg::Bool(true))));
}

#[test]
fn unresolved_choice_prefix_length_tensor_scalar_double() {
    assert!(as_bool(run(scalar("GAMMA"), scalar("gamut"), PrefixArg::Float(Some(2)))));
}

#[test]
fn unresolved_choice_char_array_rows_casefold() {
    let rows = collection(&[Some("CAT  "), Some("camel"), Some("Cow  ")], vec![3, 1]);
    let (data, shape) = as_logical(run(rows, scalar("ca"), PrefixArg::Int(2)));
    assert_eq!(data, vec![1, 1, 0]);
    assert_eq!(shape, vec![3, 1]);
}

#[test]
fn unresolved_choice_cell_arrays_broadcast_casefold() {
    let left = collection(&[Some("Red"), Some("GREEN"), Some("blue")], vec![1, 3]);
    let right = collection(&[Some("rose"), Some("gray"), Some("BLACK")], vec![1, 3]);
    let (data, shape) = as_logical(run(left, right, PrefixArg::Int(2)));
    assert_eq!(data, vec![0, 1, 1]);
    assert_eq!(shape, vec![1, 3]);
}

#[test]
fn unresolved_choice_string_array_broadcast_scalar_casefold() {
    let strings = collection(&[Some("North"), Some("south"), Some("east")], vec![1, 3]);
    let (data, shape) = as_logical(run(strings, scalar("NO"), PrefixArg::Int(2)));
    assert_eq!(data, vec![1, 0, 0]);
    assert_eq!(shape, vec![1, 3]);
}

#[test]
fn unresolved_choice_missing_string_false_when_prefix_positive() {
    let strings = collection(&[None, Some("Value")], vec![1, 2]);
    let (data, shape) = as_logical(run(strings, scalar("VAL"), PrefixArg::Int(3)));
    assert_eq!(data, vec![0, 1]);
    assert_eq!(shape, vec![1, 2]);
}

#[test]
fn unresolved_choice_missing_zero_length_true() {
    let strings = collection(&[None], vec![1, 1]);
    assert!(as_bool(run(strings, scalar("anything"), PrefixArg::Int(0))));
}

#[test]
fn unresolved_choice_size_mismatch_error() {
    let left = collection(&[Some("a"), Some("b")], vec![2, 1]);
    let right = collection(&[Some("a"), Some("b"), Some("c")], vec![3, 1]);
    let err = run_err(left, right, PrefixArg::Int(1));
    assert!(err.contains("strncmpi: input sizes are not broadcast-compatible"));
}

#[test]
fn unresolved_choice_invalid_length_type_errors() {
    let err = run_err(scalar("abc"), scalar("abc"), PrefixArg::Other);
    assert!(err.contains("prefix length"));
}

#[test]
fn unresolved_choice_negative_length_errors() {
    let err = run_err(scalar("abc"), scalar("abc"), PrefixArg::Float(None));
    assert!(err.to_ascii_lowercase().contains("nonnegative"));
    let err = run_err(scalar("abc"), scalar("abc"), PrefixArg::Int(-1));
    assert!(err.to_ascii_lowercase().contains("nonnegative"));
}

#[test]
fn unresolved_choice_invalid_argument_type_errors() {
    let err = run_err(None, scalar("a"), PrefixArg::Int(1));
    assert!(err.contains("strncmpi: text inputs must be string/char/cell/string-array values"));
}

#[test]
fn prefix_length_is_checked_before_text_arguments() {
    let err = run_err(None, None, PrefixArg::Other);
    assert!(err.contains("prefix length"));
}

#[test]
fn prefix_comparison_is_symmetric_on_concrete_texts() {
    for (a, b, n) in [("Hello", "HELP", 3i64), ("abc", "ab", 3), ("x", "Y", 1)] {
        let l = as_bool(run(scalar(a), scalar(b), PrefixArg::Int(n)));
        let r = as_bool(run(scalar(b), scalar(a), PrefixArg::Int(n)));
        assert_eq!(l, r);
    }
}

#[test]
fn empty_broadcast_shape_gives_empty_logical_array() {
    let empty = collection(&[], vec![0, 1]);
    let (data, shape) = as_logical(run(empty, scalar("a"), PrefixArg::Int(1)));
    assert!(data.is_empty());
    assert_eq!(shape, vec![0, 1]);
}
