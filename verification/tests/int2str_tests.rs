use runmat_runtime::int2str::{format_rounded_matrix, matrix_extent, Int2strInput};
use runmat_runtime::value::CharArray;

fn texts(items: &[&str]) -> Vec<Vec<char>> {
    items.iter().map(|s| s.chars().collect()).collect()
}

fn rows_of(ca: &CharArray) -> Vec<String> {
    ca.data.chunks(ca.cols.max(1)).map(|c| c.iter().collect()).collect()
}

#[test]
fn observed_vector_elements_joined_with_two_spaces() {
    let (rows, cols) = matrix_extent(&Int2strInput::Array(vec![1, 3])).ok().expect("extent");
    let ca = format_rounded_matrix(&texts(&["1", "4", "6"]), rows, cols);
    assert_eq!((ca.rows, ca.cols), (1, 7));
    assert_eq!(ca.data.iter().collect::<String>(), "1  4  6");
}

#[test]
fn observed_matrix_rows_mirror_input_rows() {
    // Column-major texts of the rounded matrix [1 3; 4 4].
    let (rows, cols) = matrix_extent(&Int2strInput::Array(vec![2, 2])).ok().expect("extent");
    let ca = format_rounded_matrix(&texts(&["1", "4", "3", "4"]), rows, cols);
    assert_eq!((ca.rows, ca.cols), (2, 4));
    assert_eq!(rows_of(&ca), vec!["1  3".to_string(), "4  4".to_string()]);
}

#[test]
fn unresolved_choice_columns_right_aligned_two_space_separator() {
    let ca = format_rounded_matrix(&texts(&["5", "42", "123", "7"]), 2, 2);
    assert_eq!((ca.rows, ca.cols), (2, 7));
    assert_eq!(rows_of(&ca), vec![" 5  123".to_string(), "42    7".to_string()]);
}

#[test]
fn unresolved_choice_nonfinite_values_keep_word_spellings() {
    let ca = format_rounded_matrix(&texts(&["NaN", "Inf", "-Inf"]), 1, 3);
    assert_eq!(ca.rows, 1);
    assert_eq!(ca.data.iter().collect::<String>(), "NaN  Inf  -Inf");
}

#[test]
fn int2str_unresolved_choice_empty_input_returns_empty_char() {
    let (rows, cols) = matrix_extent(&Int2strInput::Array(vec![0, 0])).ok().expect("extent");
    let ca = format_rounded_matrix(&Vec::new(), rows, cols);
    assert_eq!((ca.rows, ca.cols), (0, 0));
    assert!(ca.data.is_empty());
}

#[test]
fn int2str_unresolved_choice_non_numeric_input_errors() {
    let err = matrix_extent(&Int2strInput::Other("String(\"hello\")".to_string())).err().expect("error");
    assert_eq!(err.identifier.as_deref(), Some("RunMat:int2str:InvalidInput"));
}

#[test]
fn scalar_extent_is_one_by_one() {
    assert_eq!(matrix_extent(&Int2strInput::Scalar).ok(), Some((1, 1)));
    let ca = format_rounded_matrix(&texts(&["-3"]), 1, 1);
    assert_eq!((ca.rows, ca.cols), (1, 2));
    assert_eq!(ca.data.iter().collect::<String>(), "-3");
}

#[test]
fn int2str_three_dimensional_input_is_rejected() {
    let err = matrix_extent(&Int2strInput::Array(vec![2, 2, 2])).err().expect("error");
    assert_eq!(err.message, "int2str: input must be scalar, vector, or 2-D matrix");
}

#[test]
fn column_vector_extent_keeps_rows() {
    assert_eq!(matrix_extent(&Int2strInput::Array(vec![3])).ok(), Some((3, 1)));
    let ca = format_rounded_matrix(&texts(&["1", "22", "333"]), 3, 1);
    assert_eq!(rows_of(&ca), vec!["  1".to_string(), " 22".to_string(), "333".to_string()]);
}
