use runmat_runtime::speye::{sparse_identity, speye_dims, SizeArg};

fn identity(value: SizeArg, rest: Vec<SizeArg>) -> (usize, usize, Vec<usize>, Vec<usize>) {
    let (r, c) = speye_dims(&value, &rest).ok().expect("speye");
    let p = sparse_identity(r, c);
    (p.rows, p.cols, p.col_ptrs, p.row_indices)
}

fn error_id(value: SizeArg, rest: Vec<SizeArg>) -> Option<String> {
    speye_dims(&value, &rest).err().expect("error").identifier
}

#[test]
fn observed_square_identity() {
    assert_eq!(identity(SizeArg::Scalar(Some(3)), vec![]), (3, 3, vec![0, 1, 2, 3], vec![0, 1, 2]));
}

#[test]
fn observed_rectangular_identity() {
    assert_eq!(
        identity(SizeArg::Scalar(Some(2)), vec![SizeArg::Scalar(Some(4))]),
        (2, 4, vec![0, 1, 2, 2, 2], vec![0, 1])
    );
}

#[test]
fn observed_size_vector_identity() {
    assert_eq!(identity(SizeArg::Pair(Some(3), Some(3)), vec![]), (3, 3, vec![0, 1, 2, 3], vec![0, 1, 2]));
}

#[test]
fn observed_zero_size_identity() {
    assert_eq!(identity(SizeArg::Scalar(Some(0)), vec![]), (0, 0, vec![0], vec![]));
}

#[test]
fn unresolved_choice_invalid_sizes_error() {
    assert_eq!(error_id(SizeArg::Scalar(None), vec![]).as_deref(), Some("RunMat:speye:InvalidArgument"));
    assert_eq!(error_id(SizeArg::Other, vec![]).as_deref(), Some("RunMat:speye:InvalidArgument"));
}

#[test]
fn speye_too_many_arguments_error() {
    let rest = vec![SizeArg::Scalar(Some(2)), SizeArg::Scalar(Some(2))];
    assert_eq!(error_id(SizeArg::Scalar(Some(2)), rest).as_deref(), Some("RunMat:speye:InvalidArgument"));
}

#[test]
fn invalid_size_error_names_the_argument() {
    let err = speye_dims(&SizeArg::Pair(Some(2), None), &vec![]).err().expect("error");
    assert_eq!(err.message, "speye: n: size must be a non-negative integer");
    let err = speye_dims(&SizeArg::Scalar(None), &vec![SizeArg::Scalar(Some(2))]).err().expect("error");
    assert_eq!(err.message, "speye: m: size must be a non-negative integer");
}

#[test]
fn tall_identity_stops_at_the_diagonal() {
    assert_eq!(identity(SizeArg::Scalar(Some(4)), vec![SizeArg::Scalar(Some(2))]), (4, 2, vec![0, 1, 2], vec![0, 1]));
}
