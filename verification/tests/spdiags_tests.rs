use runmat_runtime::spdiags::{call_form, construct_form, extract_form, nonzero_entries, CscPattern, SpdiagsForm, SpdiagsInput};

fn stored(v: f64) -> bool {
    v.is_nan() || v != 0.0
}

/// `[B, d] = spdiags(A)` for a dense column-major `rows`-by-`cols` matrix.
fn extract_dense(data: &[f64], rows: usize, cols: usize) -> (Vec<f64>, usize, Vec<i64>) {
    let input = SpdiagsInput::Dense(vec![rows, cols], data.iter().map(|&v| stored(v)).collect());
    let (r, c, entries) = nonzero_entries(&input).ok().expect("entries");
    let plan = extract_form(r, c, &entries);
    let mut b = vec![0.0; plan.rows_b * plan.offsets.len()];
    for (slot, src) in plan.slots.iter() {
        b[*slot] = data[*src];
    }
    (b, plan.rows_b, plan.offsets)
}

/// `A = spdiags(B, d, m, n)`: the pattern and the values of its entries.
fn construct(b: &[f64], b_rows: usize, b_cols: usize, d: &[i64], m: usize, n: usize) -> (CscPattern, Vec<f64>) {
    let flags: Vec<bool> = b.iter().map(|&v| stored(v)).collect();
    let (p, srcs) = construct_form(m, n, &d.to_vec(), b_rows, b_cols, &flags).ok().expect("construct");
    let values = srcs.iter().map(|&s| b[s]).collect();
    (p, values)
}

#[test]
fn observed_extract_dense_diagonals() {
    let (b, rows_b, d) = extract_dense(&[1.0, 0.0, 0.0, 2.0, 3.0, 0.0, 0.0, 4.0, 5.0], 3, 3);
    assert_eq!((rows_b, d.len()), (3, 2));
    assert_eq!(b, vec![1.0, 3.0, 5.0, 0.0, 2.0, 4.0]);
}

#[test]
fn observed_construct_single_diagonal() {
    let (p, values) = construct(&[1.0, 2.0, 3.0], 3, 1, &[0], 3, 3);
    assert_eq!((p.rows, p.cols), (3, 3));
    assert_eq!(p.col_ptrs, vec![0, 1, 2, 3]);
    assert_eq!(p.row_indices, vec![0, 1, 2]);
    assert_eq!(values, vec![1.0, 2.0, 3.0]);
}

#[test]
fn summary_derived_second_output_diagonal_indices() {
    let (b, _, d) = extract_dense(&[1.0, 0.0, 0.0, 2.0, 3.0, 0.0, 0.0, 4.0, 5.0], 3, 3);
    assert_eq!(b, vec![1.0, 3.0, 5.0, 0.0, 2.0, 4.0]);
    assert_eq!(d, vec![0, 1]);
}

#[test]
fn summary_derived_extract_from_sparse_input() {
    let pattern = CscPattern { rows: 3, cols: 3, col_ptrs: vec![0, 1, 3, 5], row_indices: vec![0, 0, 1, 1, 2] };
    let values = [1.0, 2.0, 3.0, 4.0, 5.0];
    let input = SpdiagsInput::Sparse(pattern, values.iter().map(|&v| stored(v)).collect());
    let (r, c, entries) = nonzero_entries(&input).ok().expect("entries");
    let plan = extract_form(r, c, &entries);
    let mut b = vec![0.0; plan.rows_b * plan.offsets.len()];
    for (slot, src) in plan.slots.iter() {
        b[*slot] = values[*src];
    }
    assert_eq!(b, vec![1.0, 3.0, 5.0, 0.0, 2.0, 4.0]);
}

#[test]
fn unresolved_choice_subdiagonal_padding() {
    let (b, rows_b, d) = extract_dense(&[0.0, 7.0, 0.0, 0.0, 0.0, 8.0, 0.0, 0.0, 0.0], 3, 3);
    assert_eq!((rows_b, d.len()), (3, 1));
    assert_eq!(b, vec![7.0, 8.0, 0.0]);
    assert_eq!(d, vec![-1]);
}

#[test]
fn unresolved_choice_wide_matrix_round_trip() {
    let (p, values) = construct(&[9.0, 6.0], 2, 1, &[1], 2, 3);
    assert_eq!(p.col_ptrs, vec![0, 0, 1, 2]);
    assert_eq!(p.row_indices, vec![0, 1]);
    assert_eq!(values, vec![9.0, 6.0]);
    let input = SpdiagsInput::Sparse(p, values.iter().map(|&v| stored(v)).collect());
    let (r, c, entries) = nonzero_entries(&input).ok().expect("entries");
    let plan = extract_form(r, c, &entries);
    let mut back = vec![0.0; plan.rows_b * plan.offsets.len()];
    for (slot, src) in plan.slots.iter() {
        back[*slot] = values[*src];
    }
    assert_eq!((plan.rows_b, plan.offsets.len()), (2, 1));
    assert_eq!(back, vec![9.0, 6.0]);
}

#[test]
fn unresolved_choice_other_forms_error() {
    let err = call_form(2).err().expect("error");
    assert_eq!(err.identifier.as_deref(), Some("RunMat:spdiags:InvalidArgument"));
    assert!(matches!(call_form(1).ok(), Some(SpdiagsForm::Extract)));
    assert!(matches!(call_form(4).ok(), Some(SpdiagsForm::Construct)));
}

#[test]
fn construct_size_mismatch_errors() {
    let err = construct_form(3, 3, &vec![0], 2, 1, &vec![true, true]).err().expect("error");
    assert_eq!(err.identifier.as_deref(), Some("RunMat:spdiags:InvalidInput"));
    assert!(err.message.contains("min(m,n)-by-length(d)"));
    assert_eq!(err.message, "spdiags: B must be min(m,n)-by-length(d) (3x1), got 2x1");
}

#[test]
fn repeated_diagonal_takes_the_later_column() {
    let (p, values) = construct(&[1.0, 2.0, 3.0, 4.0], 2, 2, &[0, 0], 2, 2);
    assert_eq!(p.row_indices, vec![0, 1]);
    assert_eq!(values, vec![3.0, 4.0]);
}

#[test]
fn zeros_in_b_are_not_stored() {
    let (p, values) = construct(&[1.0, 0.0, 3.0], 3, 1, &[0], 3, 3);
    assert_eq!(p.col_ptrs, vec![0, 1, 1, 2]);
    assert_eq!(p.row_indices, vec![0, 2]);
    assert_eq!(values, vec![1.0, 3.0]);
}

#[test]
fn round_trip_on_a_tall_matrix() {
    // [1 0; 2 3; 0 4]
    let a = [1.0, 2.0, 0.0, 0.0, 3.0, 4.0];
    let (b, rows_b, d) = extract_dense(&a, 3, 2);
    let (p, values) = construct(&b, rows_b, d.len(), &d, 3, 2);
    assert_eq!(p.col_ptrs, vec![0, 2, 4]);
    assert_eq!(p.row_indices, vec![0, 1, 1, 2]);
    assert_eq!(values, vec![1.0, 2.0, 3.0, 4.0]);
}

#[test]
fn three_dimensional_input_is_rejected() {
    let input = SpdiagsInput::Dense(vec![2, 2, 2], vec![true; 8]);
    match nonzero_entries(&input) {
        Err(runmat_runtime::spdiags::EntriesError::Failed(e)) => {
            assert_eq!(e.message, "spdiags: input must be a 2-D matrix, got 3-D tensor");
        }
        _ => panic!("expected error"),
    }
}
