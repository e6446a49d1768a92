use runmat_runtime::dec2bin::{dec2bin, IntegerInput, NumberClass, WidthArg};
use runmat_runtime::value::CharArray;

fn run(input: IntegerInput, widths: Vec<WidthArg>) -> CharArray {
    dec2bin(&input, &widths).ok().expect("dec2bin")
}

fn run_err(input: IntegerInput, widths: Vec<WidthArg>) -> Option<String> {
    dec2bin(&input, &widths).err().expect("error").identifier
}

fn text(ca: &CharArray) -> String {
    ca.data.iter().collect()
}

fn rows(ca: &CharArray) -> Vec<String> {
    ca.data.chunks(ca.cols.max(1)).map(|c| c.iter().collect()).collect()
}

fn whole(v: u64) -> IntegerInput {
    IntegerInput::Scalar(NumberClass::Whole(v))
}

#[test]
fn observed_scalar_five_is_101() {
    let ca = run(whole(5), vec![]);
    assert_eq!((ca.rows, ca.cols), (1, 3));
    assert_eq!(text(&ca), "101");
}

#[test]
fn observed_padded_width_eight_zero_pads() {
    let ca = run(whole(5), vec![WidthArg::Scalar(Some(8))]);
    assert_eq!((ca.rows, ca.cols), (1, 8));
    assert_eq!(text(&ca), "00000101");
}

#[test]
fn observed_zero_is_single_zero_digit() {
    let ca = run(whole(0), vec![]);
    assert_eq!((ca.rows, ca.cols), (1, 1));
    assert_eq!(text(&ca), "0");
}

#[test]
fn observed_width_below_natural_does_not_truncate() {
    let ca = run(whole(5), vec![WidthArg::Scalar(Some(2))]);
    assert_eq!((ca.rows, ca.cols), (1, 3));
    assert_eq!(text(&ca), "101");
}

#[test]
fn unresolved_choice_vector_rows_share_common_width() {
    let ca = run(IntegerInput::Array(vec![NumberClass::Whole(5), NumberClass::Whole(3)]), vec![]);
    assert_eq!((ca.rows, ca.cols), (2, 3));
    assert_eq!(rows(&ca), vec!["101".to_string(), "011".to_string()]);
}

#[test]
fn unresolved_choice_vector_with_width_pads_every_row() {
    let ca = run(
        IntegerInput::Array(vec![NumberClass::Whole(1), NumberClass::Whole(2)]),
        vec![WidthArg::Scalar(Some(4))],
    );
    assert_eq!((ca.rows, ca.cols), (2, 4));
    assert_eq!(rows(&ca), vec!["0001".to_string(), "0010".to_string()]);
}

#[test]
fn unresolved_choice_negative_input_errors() {
    assert_eq!(run_err(IntegerInput::Scalar(NumberClass::Negative), vec![]).as_deref(), Some("RunMat:dec2bin:InvalidInput"));
}

#[test]
fn unresolved_choice_nonfinite_input_errors() {
    let err = dec2bin(&IntegerInput::Scalar(NumberClass::NotFinite), &vec![]).err().expect("error");
    assert_eq!(err.identifier.as_deref(), Some("RunMat:dec2bin:InvalidInput"));
    assert_eq!(err.message, "dec2bin: input must be finite");
}

#[test]
fn dec2bin_unresolved_choice_empty_input_returns_empty_char() {
    let ca = run(IntegerInput::Array(vec![]), vec![]);
    assert_eq!((ca.rows, ca.cols), (0, 0));
    assert!(ca.data.is_empty());
}

#[test]
fn unresolved_choice_integer_and_logical_inputs_convert() {
    assert_eq!(text(&run(whole(6), vec![])), "110");
    let ca = run(IntegerInput::Bool(true), vec![]);
    assert_eq!((ca.rows, ca.cols), (1, 1));
    assert_eq!(text(&ca), "1");
}

#[test]
fn unresolved_choice_invalid_width_arguments_error() {
    let cases = vec![
        vec![WidthArg::Scalar(None)],
        vec![WidthArg::Other],
        vec![WidthArg::Scalar(Some(4)), WidthArg::Scalar(Some(4))],
    ];
    for widths in cases {
        assert_eq!(run_err(whole(5), widths).as_deref(), Some("RunMat:dec2bin:InvalidWidth"));
    }
}

#[test]
fn dec2bin_unresolved_choice_non_numeric_input_errors() {
    let err = dec2bin(&IntegerInput::Other("String(\"hello\")".to_string()), &vec![]).err().expect("error");
    assert_eq!(err.identifier.as_deref(), Some("RunMat:dec2bin:InvalidInput"));
}

#[test]
fn width_is_checked_before_values() {
    let err = dec2bin(&IntegerInput::Scalar(NumberClass::Negative), &vec![WidthArg::Other]).err().expect("error");
    assert_eq!(err.identifier.as_deref(), Some("RunMat:dec2bin:InvalidWidth"));
}

#[test]
fn first_bad_element_reports_its_own_message() {
    let input = IntegerInput::Array(vec![NumberClass::Whole(1), NumberClass::TooLarge, NumberClass::Negative]);
    let err = dec2bin(&input, &vec![]).err().expect("error");
    assert_eq!(err.message, "dec2bin: input exceeds the largest exactly representable integer (2^53)");
}

#[test]
fn binary_rows_denote_their_values() {
    let ca = run(IntegerInput::Array((0..20).map(NumberClass::Whole).collect()), vec![]);
    for (i, r) in rows(&ca).iter().enumerate() {
        assert_eq!(u64::from_str_radix(r, 2).unwrap(), i as u64);
    }
}

#[test]
fn largest_exact_integer_has_fifty_four_digits() {
    let ca = run(whole(1u64 << 53), vec![]);
    assert_eq!(ca.cols, 54);
}
