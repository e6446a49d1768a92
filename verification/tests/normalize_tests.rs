use runmat_runtime::normalize::{default_dimension, normalize_lines, parse_arguments, ArgumentError, Method, NormalizeArg, ScalarInfo};
use runmat_runtime::value::{CharArray, Value};

fn text(s: &str) -> NormalizeArg {
    let data: Vec<char> = s.chars().collect();
    let cols = data.len();
    NormalizeArg { value: Value::CharArray(CharArray { data, rows: 1, cols }), number: None }
}

fn number(x: usize) -> NormalizeArg {
    NormalizeArg { value: Value::Num, number: Some(ScalarInfo { positive: x > 0, finite: true, whole: if x >= 1 { Some(x) } else { None } }) }
}

fn interval() -> NormalizeArg {
    NormalizeArg { value: Value::Tensor(vec![1, 2]), number: None }
}

fn parsed(rest: Vec<NormalizeArg>) -> (Option<usize>, Method) {
    match parse_arguments(&rest) {
        Ok(r) => r,
        Err(_) => panic!("expected the arguments to parse"),
    }
}

fn failure(rest: Vec<NormalizeArg>) -> (Option<String>, String) {
    match parse_arguments(&rest) {
        Err(ArgumentError::Failed(e)) => (e.identifier, e.message),
        _ => panic!("expected a normalize error"),
    }
}

#[test]
fn observed_zscore_vector() {
    assert!(matches!(parsed(vec![]), (None, Method::ZScore)));
    assert_eq!(default_dimension(&[1, 3]), 2);
}

#[test]
fn observed_range_vector() {
    assert!(matches!(parsed(vec![text("range")]), (None, Method::RangeUnit)));
}

#[test]
fn unresolved_choice_matrix_default_is_columnwise() {
    assert_eq!(default_dimension(&[2, 2]), 1);
}

#[test]
fn unresolved_choice_explicit_dim_rowwise() {
    assert!(matches!(parsed(vec![number(2)]), (Some(2), Method::ZScore)));
}

#[test]
fn unresolved_choice_explicit_zscore_matches_default() {
    assert!(matches!(parsed(vec![text("zscore")]), (None, Method::ZScore)));
}

#[test]
fn unresolved_choice_range_custom_interval() {
    assert!(matches!(parsed(vec![text("range"), interval()]), (None, Method::RangeGiven)));
}

#[test]
fn unresolved_choice_center_subtracts_mean() {
    assert!(matches!(parsed(vec![text("center")]), (None, Method::CenterMean)));
}

#[test]
fn unresolved_choice_scale_divides_by_std() {
    assert!(matches!(parsed(vec![text("scale")]), (None, Method::ScaleStd)));
}

#[test]
fn unresolved_choice_norm_default_two() {
    assert!(matches!(parsed(vec![text("norm")]), (None, Method::Norm2)));
}

#[test]
fn unsupported_medianiqr_is_rejected() {
    let (id, _) = failure(vec![text("medianiqr")]);
    assert_eq!(id.as_deref(), Some("RunMat:normalize:Unsupported"));
}

#[test]
fn unsupported_zscore_robust_is_rejected() {
    let (id, _) = failure(vec![text("zscore"), text("robust")]);
    assert_eq!(id.as_deref(), Some("RunMat:normalize:Unsupported"));
}

#[test]
fn unknown_method_is_invalid_argument() {
    let (id, msg) = failure(vec![text("bogus")]);
    assert_eq!(id.as_deref(), Some("RunMat:normalize:InvalidArgument"));
    assert_eq!(msg, "normalize: invalid argument: unknown method 'bogus'");
}

#[test]
fn too_many_arguments_are_refused() {
    let (_, msg) = failure(vec![number(1), text("range"), interval(), text("extra")]);
    assert_eq!(msg, "normalize: invalid argument: too many arguments");
}

#[test]
fn non_text_method_is_reported_by_position() {
    match parse_arguments(&[number(1), NormalizeArg { value: Value::Struct, number: None }]) {
        Err(ArgumentError::MethodNotText(i)) => assert_eq!(i, 1),
        _ => panic!("expected the method position"),
    }
}

#[test]
fn zero_dimension_is_refused() {
    let (_, msg) = failure(vec![number(0)]);
    assert_eq!(msg, "normalize: invalid argument: operating dimension must be a positive integer");
}

#[test]
fn method_names_ignore_case_and_blanks() {
    assert!(matches!(parsed(vec![text("  Range ")]), (None, Method::RangeUnit)));
}

#[test]
fn lines_run_along_the_dimension() {
    // A 2x3 matrix stored column-major: columns along dim 1, rows along dim 2.
    assert_eq!(normalize_lines(&[2, 3], 1), vec![vec![0, 1], vec![2, 3], vec![4, 5]]);
    assert_eq!(normalize_lines(&[2, 3], 2), vec![vec![0, 2, 4], vec![1, 3, 5]]);
    assert_eq!(normalize_lines(&[2, 3], 3), (0..6).map(|i| vec![i]).collect::<Vec<_>>());
}

#[test]
fn default_dimension_skips_leading_singletons() {
    assert_eq!(default_dimension(&[1, 1, 4]), 3);
    assert_eq!(default_dimension(&[1, 1]), 1);
    assert_eq!(default_dimension(&[]), 1);
}
