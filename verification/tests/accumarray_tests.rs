use runmat_runtime::accumarray::{accumarray_plan, resolve_output_length, AccumArgs, AccumPlan, OptionalArg, Subscripts};

fn sub_of(v: f64) -> Option<usize> {
    if v.is_finite() && v.fract() == 0.0 && v >= 1.0 {
        Some(v as usize)
    } else {
        None
    }
}

fn len_of(v: f64) -> Option<usize> {
    if v.is_finite() && v.fract() == 0.0 && v >= 0.0 {
        Some(v as usize)
    } else {
        None
    }
}

fn args(subs: &[f64], subs_rows: usize, vals_len: usize) -> AccumArgs {
    AccumArgs {
        subs: Ok(Subscripts { first_extent: subs_rows, entries: subs.iter().map(|&v| sub_of(v)).collect() }),
        vals_len: Ok(vals_len),
        sz: OptionalArg::Absent,
        fun: OptionalArg::Absent,
        fillval_len: OptionalArg::Absent,
        sparse_option: false,
    }
}

fn sums(plan: &AccumPlan, vals: &[f64], fill: f64) -> Vec<f64> {
    let mut acc = vec![0.0; plan.out_len];
    for (i, &t) in plan.targets.iter().enumerate() {
        acc[t] += if plan.scalar_vals { vals[0] } else { vals[i] };
    }
    (0..plan.out_len).map(|k| if plan.touched[k] { acc[k] } else { fill }).collect()
}

fn ident(e: &runmat_runtime::error::RuntimeError) -> String {
    e.identifier.clone().unwrap_or_default()
}

#[test]
fn observed_sum_by_subscript_matches_export() {
    let plan = accumarray_plan(&args(&[1.0, 2.0, 1.0], 3, 3)).ok().expect("plan");
    assert_eq!(plan.out_len, 2);
    assert_eq!(sums(&plan, &[10.0, 20.0, 30.0], 0.0), vec![40.0, 20.0]);
}

#[test]
fn observed_output_is_double_column() {
    let plan = accumarray_plan(&args(&[2.0, 2.0, 3.0], 3, 3)).ok().expect("plan");
    assert_eq!(plan.out_len, 3);
    assert_eq!(sums(&plan, &[1.0, 1.0, 5.0], 0.0), vec![0.0, 2.0, 5.0]);
}

#[test]
fn unresolved_choice_scalar_vals_broadcast() {
    let plan = accumarray_plan(&args(&[1.0, 1.0, 2.0], 3, 1)).ok().expect("plan");
    assert!(plan.scalar_vals);
    assert_eq!(sums(&plan, &[5.0], 0.0), vec![10.0, 5.0]);
}

#[test]
fn unresolved_choice_sz_extends_output_length() {
    let mut a = args(&[1.0, 2.0, 1.0], 3, 3);
    a.sz = OptionalArg::Given(Ok(vec![len_of(4.0), len_of(1.0)]));
    let plan = accumarray_plan(&a).ok().expect("plan");
    assert_eq!(plan.out_len, 4);
    assert_eq!(sums(&plan, &[10.0, 20.0, 30.0], 0.0), vec![40.0, 20.0, 0.0, 0.0]);
}

#[test]
fn unresolved_choice_fillval_used_for_empty_positions() {
    let mut a = args(&[1.0, 3.0], 2, 2);
    a.sz = OptionalArg::Given(Ok(vec![len_of(4.0), len_of(1.0)]));
    a.fun = OptionalArg::Placeholder;
    a.fillval_len = OptionalArg::Given(Ok(1));
    let plan = accumarray_plan(&a).ok().expect("plan");
    assert_eq!(sums(&plan, &[5.0, 7.0], -1.0), vec![5.0, -1.0, 7.0, -1.0]);
}

#[test]
fn unresolved_choice_single_element_output_is_scalar() {
    let plan = accumarray_plan(&args(&[1.0], 1, 1)).ok().expect("plan");
    assert_eq!(plan.out_len, 1);
    assert_eq!(sums(&plan, &[42.0], 0.0), vec![42.0]);
}

#[test]
fn unresolved_choice_multi_column_subs_rejected() {
    let err = accumarray_plan(&args(&[1.0, 2.0, 1.0, 3.0], 2, 2)).err().expect("error");
    assert_eq!(ident(&err), "RunMat:accumarray:MultiColumnUnsupported");
}

#[test]
fn unresolved_choice_custom_function_handle_rejected() {
    let mut a = args(&[1.0, 2.0, 1.0], 3, 3);
    a.sz = OptionalArg::Placeholder;
    a.fun = OptionalArg::Given(());
    let err = accumarray_plan(&a).err().expect("error");
    assert_eq!(ident(&err), "RunMat:accumarray:CustomFunctionUnsupported");
}

#[test]
fn unresolved_choice_sparse_output_option_rejected() {
    let mut a = args(&[1.0, 2.0, 1.0], 3, 3);
    a.sparse_option = true;
    let err = accumarray_plan(&a).err().expect("error");
    assert_eq!(ident(&err), "RunMat:accumarray:SparseOutputUnsupported");
    assert_eq!(err.message, "accumarray: sparse output (issparse) is not yet supported");
}

#[test]
fn rejects_non_positive_integer_subscripts() {
    let err = accumarray_plan(&args(&[0.0, 1.0], 2, 2)).err().expect("error");
    assert_eq!(ident(&err), "RunMat:accumarray:InvalidSubscripts");
}

#[test]
fn rejects_non_integer_subscripts() {
    let err = accumarray_plan(&args(&[1.5, 2.0], 2, 2)).err().expect("error");
    assert_eq!(ident(&err), "RunMat:accumarray:InvalidSubscripts");
}

#[test]
fn rejects_vals_length_mismatch() {
    let err = accumarray_plan(&args(&[1.0, 2.0, 1.0], 3, 2)).err().expect("error");
    assert_eq!(ident(&err), "RunMat:accumarray:SizeMismatch");
}

#[test]
fn rejects_size_argument_smaller_than_max_subscript() {
    let mut a = args(&[1.0, 5.0], 2, 2);
    a.sz = OptionalArg::Given(Ok(vec![len_of(3.0), len_of(1.0)]));
    let err = accumarray_plan(&a).err().expect("error");
    assert_eq!(ident(&err), "RunMat:accumarray:InvalidSize");
}

#[test]
fn accepts_logical_vals_via_coercion() {
    let plan = accumarray_plan(&args(&[1.0, 2.0, 1.0], 3, 3)).ok().expect("plan");
    assert_eq!(sums(&plan, &[1.0, 0.0, 1.0], 0.0), vec![2.0, 0.0]);
}

#[test]
fn size_argument_rules() {
    assert_eq!(resolve_output_length(&vec![], 3).ok(), Some(3));
    assert_eq!(resolve_output_length(&vec![Some(5), Some(1)], 3).ok(), Some(5));
    assert!(resolve_output_length(&vec![Some(5), Some(2)], 3).is_err());
    assert!(resolve_output_length(&vec![None], 0).is_err());
    assert!(resolve_output_length(&vec![Some(2)], 3).is_err());
}

#[test]
fn conversion_errors_keep_their_message() {
    let mut a = args(&[1.0], 1, 1);
    a.subs = Err("accumarray: expected numeric input".to_string());
    let err = accumarray_plan(&a).err().expect("error");
    assert_eq!(err.message, "accumarray: expected numeric input");
    assert_eq!(ident(&err), "RunMat:accumarray:InvalidInput");
    let mut b = args(&[1.0], 1, 1);
    b.fillval_len = OptionalArg::Given(Ok(2));
    let err = accumarray_plan(&b).err().expect("error");
    assert_eq!(err.message, "accumarray: fillval must be a real scalar");
}

#[test]
fn touched_positions_are_exactly_the_subscripts() {
    let plan = accumarray_plan(&args(&[4.0, 2.0], 2, 2)).ok().expect("plan");
    assert_eq!(plan.targets, vec![3, 1]);
    assert_eq!(plan.touched, vec![false, true, false, true]);
}
