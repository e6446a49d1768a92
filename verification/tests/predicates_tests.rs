use runmat_runtime::predicates::{folder_query, iscell_value, iscellstr_value, isobject_value, isrow_value, istable_value};
use runmat_runtime::value::{CharArray, StringArray, Value, ValueClass};

fn row(s: &str) -> Value {
    let data: Vec<char> = s.chars().collect();
    let cols = data.len();
    Value::CharArray(CharArray { data, rows: 1, cols })
}

fn cell(classes: &[ValueClass]) -> Value {
    Value::Cell(classes.to_vec())
}

#[test]
fn observed_cell_array_is_true() {
    assert!(iscell_value(&cell(&[ValueClass::Num, ValueClass::CharArray, ValueClass::Tensor])));
}

#[test]
fn iscell_observed_empty_cell_is_true() {
    assert!(iscell_value(&cell(&[])));
}

#[test]
fn observed_non_cell_inputs_are_false() {
    assert!(!iscell_value(&Value::Num));
    assert!(!iscell_value(&row("abc")));
    assert!(!iscell_value(&Value::Struct));
}

#[test]
fn unresolved_choice_struct_array_representation_is_false() {
    assert!(!iscell_value(&cell(&[ValueClass::Struct, ValueClass::Struct])));
}

#[test]
fn observed_cell_of_char_vectors_is_true() {
    assert!(iscellstr_value(&cell(&[ValueClass::CharArray, ValueClass::CharArray])));
}

#[test]
fn observed_mixed_cell_is_false() {
    assert!(!iscellstr_value(&cell(&[ValueClass::CharArray, ValueClass::Num])));
}

#[test]
fn observed_plain_char_vector_is_false() {
    assert!(!iscellstr_value(&row("abc")));
}

#[test]
fn iscellstr_observed_empty_cell_is_true() {
    assert!(iscellstr_value(&cell(&[])));
}

#[test]
fn unresolved_choice_string_scalar_elements_count_as_text() {
    assert!(iscellstr_value(&cell(&[ValueClass::String, ValueClass::CharArray])));
}

#[test]
fn unresolved_choice_string_array_input_is_false() {
    let strings = StringArray { data: vec!["a".to_string(), "b".to_string()], shape: vec![1, 2] };
    assert!(!iscellstr_value(&Value::StringArray(strings)));
}

#[test]
fn unresolved_choice_char_matrix_element_follows_kind() {
    assert!(iscellstr_value(&cell(&[ValueClass::CharArray])));
}

#[test]
fn unresolved_choice_non_char_kinds_inside_cell_are_false() {
    assert!(!iscellstr_value(&cell(&[ValueClass::Cell, ValueClass::CharArray])));
    assert!(!iscellstr_value(&cell(&[ValueClass::Bool])));
}

#[test]
fn observed_object_instance_is_true() {
    assert!(isobject_value(&Value::HandleObject));
}

#[test]
fn observed_numeric_is_false() {
    assert!(!isobject_value(&Value::Num));
}

#[test]
fn observed_char_is_false() {
    assert!(!isobject_value(&row("a")));
}

#[test]
fn isobject_observed_cell_is_false() {
    assert!(!isobject_value(&cell(&[ValueClass::Num])));
}

#[test]
fn unresolved_choice_value_object_is_true() {
    assert!(isobject_value(&Value::Object));
}

#[test]
fn unresolved_choice_fundamental_kinds_are_false() {
    assert!(!isobject_value(&Value::Struct));
    assert!(!isobject_value(&Value::String("hi".to_string())));
    assert!(!isobject_value(&Value::FunctionHandle));
}

#[test]
fn unresolved_choice_gpu_tensor_is_false() {
    assert!(!isobject_value(&Value::GpuTensor));
}

#[test]
fn observed_row_vector_is_true() {
    assert!(isrow_value(&[1, 3]));
}

#[test]
fn observed_column_vector_is_false() {
    assert!(!isrow_value(&[3, 1]));
}

#[test]
fn observed_scalar_is_true() {
    assert!(isrow_value(&[1, 1]));
}

#[test]
fn observed_matrix_is_false() {
    assert!(!isrow_value(&[2, 2]));
}

#[test]
fn unresolved_choice_empty_shapes_follow_size_rule() {
    assert!(isrow_value(&[1, 0]));
    assert!(!isrow_value(&[0, 1]));
    assert!(!isrow_value(&[0, 0]));
}

#[test]
fn unresolved_choice_nd_array_is_false() {
    assert!(!isrow_value(&[1, 3, 1]));
}

#[test]
fn unresolved_choice_gpu_tensor_uses_handle_shape() {
    assert!(isrow_value(&[1, 3]));
    assert!(!isrow_value(&[2, 2]));
}

#[test]
fn observed_numeric_matrix_is_false() {
    assert!(!istable_value(&Value::Tensor(vec![2, 2])));
}

#[test]
fn istable_observed_cell_is_false() {
    assert!(!istable_value(&cell(&[ValueClass::Num, ValueClass::Num])));
}

#[test]
fn unresolved_choice_every_constructible_kind_is_false() {
    for v in [Value::Num, Value::Bool(true), row("abc"), Value::String("text".to_string()), Value::Struct, Value::SparseTensor(2, 2)] {
        assert!(!istable_value(&v));
    }
}

#[test]
fn unresolved_choice_gpu_tensor_is_false_without_gather() {
    assert!(!istable_value(&Value::GpuTensor));
}

#[test]
fn unresolved_choice_non_text_input_is_false() {
    assert!(folder_query(&Value::Num).is_none());
}

#[test]
fn folder_query_keeps_the_path_text() {
    assert_eq!(folder_query(&row("/tmp")), Some("/tmp".chars().collect()));
    assert!(folder_query(&row("")).is_none());
}
