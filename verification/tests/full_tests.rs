use runmat_runtime::full::{densifies, full_descriptor, full_fusion_spec, full_gpu_spec, internal_error};
use runmat_runtime::value::Value;

#[test]
fn observed_dense_input_passes_through() {
    assert!(!densifies(&Value::Tensor(vec![2, 2])));
}

#[test]
fn observed_sparse_matrix_to_dense() {
    assert!(densifies(&Value::SparseTensor(2, 3)));
}

#[test]
fn observed_empty_sparse_to_empty_dense() {
    assert!(densifies(&Value::SparseTensor(0, 0)));
}

#[test]
fn unresolved_choice_other_full_kinds_pass_through() {
    for v in [Value::Num, Value::Bool(true), Value::GpuTensor, Value::String("x".to_string()), Value::Struct] {
        assert!(!densifies(&v));
    }
}

#[test]
fn internal_error_on_dimension_overflow() {
    let e = internal_error("dimension overflow");
    assert_eq!(e.message, "full: dimension overflow");
    assert_eq!(e.identifier.as_deref(), Some("RunMat:full:Internal"));
    assert_eq!(e.builtin.as_deref(), Some("full"));
}

#[test]
fn full_metadata_names_the_builtin() {
    assert_eq!(full_descriptor().signatures[0].label, "B = full(S)");
    assert_eq!(full_descriptor().errors[0].code, "RM.FULL.INTERNAL");
    assert_eq!(full_gpu_spec().name, "full");
    assert_eq!(full_fusion_spec().name, "full");
}
