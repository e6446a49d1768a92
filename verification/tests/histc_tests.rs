use runmat_runtime::histc::{default_dim, evaluate, DimScalar, HistcData, HistcOperand};

fn key(v: f64) -> Option<i64> {
    if v.is_nan() {
        None
    } else {
        Some(v as i64)
    }
}

fn data(values: &[f64], shape: Vec<usize>) -> HistcData {
    HistcData { keys: values.iter().map(|&v| key(v)).collect(), shape }
}

fn array(values: &[f64]) -> HistcOperand {
    let dim = if values.len() == 1 {
        DimScalar::Scalar(if values[0] >= 0.0 && values[0].fract() == 0.0 { Some(values[0] as usize) } else { None })
    } else {
        DimScalar::NotScalar
    };
    HistcOperand { numeric: Some(values.iter().map(|&v| key(v)).collect()), dim }
}

fn counts(x: HistcData, rest: Vec<HistcOperand>) -> (Vec<usize>, Vec<usize>) {
    let eval = evaluate(Ok(x), &rest).ok().expect("histc");
    let c = eval.into_counts_value();
    (c.data, c.shape)
}

#[test]
fn observed_basic_counts_and_last_bin() {
    let (d, shape) = counts(data(&[1.0, 2.0, 2.0, 3.0], vec![1, 4]), vec![array(&[1.0, 2.0, 3.0])]);
    assert_eq!(shape, vec![1, 3]);
    assert_eq!(d, vec![1, 2, 1]);
}

#[test]
fn unresolved_choice_column_input_keeps_orientation() {
    let (d, shape) = counts(data(&[1.0, 2.0, 2.0, 3.0], vec![4, 1]), vec![array(&[1.0, 2.0, 3.0])]);
    assert_eq!(shape, vec![3, 1]);
    assert_eq!(d, vec![1, 2, 1]);
}

#[test]
fn unresolved_choice_below_first_edge_dropped() {
    let (d, _) = counts(data(&[0.0, 1.0, 2.0, 2.0, 3.0], vec![1, 5]), vec![array(&[1.0, 2.0, 3.0])]);
    assert_eq!(d, vec![1, 2, 1]);
}

#[test]
fn unresolved_choice_above_last_edge_dropped() {
    let (d, _) = counts(data(&[1.0, 2.0, 2.0, 3.0, 5.0], vec![1, 5]), vec![array(&[1.0, 2.0, 3.0])]);
    assert_eq!(d, vec![1, 2, 1]);
}

#[test]
fn unresolved_choice_nan_dropped() {
    let (d, _) = counts(data(&[1.0, f64::NAN, 2.0, 2.0, 3.0], vec![1, 5]), vec![array(&[1.0, 2.0, 3.0])]);
    assert_eq!(d, vec![1, 2, 1]);
}

#[test]
fn unresolved_choice_matrix_columnwise_default() {
    let (d, shape) = counts(data(&[1.0, 2.0, 2.0, 3.0], vec![2, 2]), vec![array(&[1.0, 2.0, 3.0])]);
    assert_eq!(shape, vec![3, 2]);
    assert_eq!(d, vec![1, 1, 0, 0, 1, 1]);
}

#[test]
fn unresolved_choice_dim_argument() {
    let (d, shape) = counts(data(&[1.0, 2.0, 2.0, 3.0], vec![2, 2]), vec![array(&[1.0, 2.0, 3.0]), array(&[2.0])]);
    assert_eq!(shape, vec![2, 3]);
    assert_eq!(d, vec![1, 0, 1, 1, 0, 1]);
}

#[test]
fn unresolved_choice_second_output_bin_indices() {
    let eval = evaluate(Ok(data(&[0.0, 1.0, 2.0, 2.0, 3.0], vec![1, 5])), &[array(&[1.0, 2.0, 3.0])]).ok().expect("histc");
    let (c, idx) = eval.into_pair();
    assert_eq!(c.data, vec![1, 2, 1]);
    assert_eq!(idx.data, vec![0, 1, 2, 2, 3]);
    assert_eq!(idx.shape, vec![1, 5]);
}

#[test]
fn unresolved_choice_non_monotonic_edges_error() {
    let err = evaluate(Ok(data(&[1.0, 2.0], vec![1, 2])), &[array(&[3.0, 2.0, 1.0])]).err().expect("error");
    assert_eq!(err.identifier.as_deref(), Some("RunMat:histc:EdgesNotMonotonic"));
}

#[test]
fn missing_edges_errors() {
    let err = evaluate(Ok(data(&[1.0], vec![1, 1])), &[]).err().expect("error");
    assert_eq!(err.identifier.as_deref(), Some("RunMat:histc:InvalidArgument"));
}

#[test]
fn default_dimension_is_first_non_singleton() {
    assert_eq!(default_dim(&[1, 4]), 1);
    assert_eq!(default_dim(&[3, 4]), 0);
    assert_eq!(default_dim(&[1, 1]), 0);
}

#[test]
fn pair_counts_equal_single_output_counts() {
    let x = || Ok(data(&[0.0, 1.0, 2.0, 2.0, 3.0, 5.0], vec![2, 3]));
    let single = evaluate(x(), &[array(&[1.0, 2.0, 3.0])]).ok().expect("histc").into_counts_value();
    let (c, idx) = evaluate(x(), &[array(&[1.0, 2.0, 3.0])]).ok().expect("histc").into_pair();
    assert_eq!(c.data, single.data);
    assert_eq!(c.shape, single.shape);
    assert_eq!(idx.data, vec![0, 1, 2, 2, 3, 0]);
    assert_eq!(idx.shape, vec![2, 3]);
}
