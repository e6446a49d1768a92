use runmat_runtime::append::{append, map_flow, OperandKind, OutputKind};
use runmat_runtime::error::RuntimeError;
use runmat_runtime::value::{CharArray, StringArray, Value};

fn row(s: &str) -> Value {
    let cs: Vec<char> = s.chars().collect();
    Value::CharArray(CharArray::new_row(&cs))
}

fn string(s: &str) -> Value {
    Value::String(s.to_string())
}

fn run(rest: Vec<Value>) -> Result<Value, RuntimeError> {
    append(rest).map(|v| v.expect("result fits"))
}

#[test]
fn observed_two_strings_return_string_scalar() {
    match run(vec![string("a"), string("b")]).ok().expect("append") {
        Value::String(s) => assert_eq!(s, "ab"),
        _ => panic!("expected string"),
    }
}

#[test]
fn observed_three_strings_return_string_scalar() {
    match run(vec![string("x"), string("y"), string("z")]).ok().expect("append") {
        Value::String(s) => assert_eq!(s, "xyz"),
        _ => panic!("expected string"),
    }
}

#[test]
fn observed_two_chars_return_char_row() {
    match run(vec![row("a"), row("b")]).ok().expect("append") {
        Value::CharArray(ca) => {
            assert_eq!(ca.rows, 1);
            assert_eq!(ca.cols, 2);
            assert_eq!(ca.data, vec!['a', 'b']);
        }
        _ => panic!("expected char array"),
    }
}

#[test]
fn unresolved_choice_char_inputs_preserve_trailing_whitespace() {
    match run(vec![row("hi "), row("there")]).ok().expect("append") {
        Value::CharArray(ca) => {
            assert_eq!(ca.rows, 1);
            assert_eq!(ca.cols, 8);
            assert_eq!(ca.data, "hi there".chars().collect::<Vec<char>>());
        }
        _ => panic!("expected char array"),
    }
}

#[test]
fn unresolved_choice_mixed_char_and_string_returns_string() {
    match run(vec![row("run"), string("mat")]).ok().expect("append") {
        Value::String(s) => assert_eq!(s, "runmat"),
        _ => panic!("expected string"),
    }
}

#[test]
fn unresolved_choice_single_string_argument_returns_itself() {
    match run(vec![string("solo")]).ok().expect("append") {
        Value::String(s) => assert_eq!(s, "solo"),
        _ => panic!("expected string"),
    }
}

#[test]
fn unresolved_choice_string_array_concatenates_element_wise() {
    let array = StringArray { data: vec!["core".to_string(), "runtime".to_string()], shape: vec![1, 2] };
    match run(vec![string("runmat-"), Value::StringArray(array)]).ok().expect("append") {
        Value::StringArray(sa) => {
            assert_eq!(sa.shape, vec![1, 2]);
            assert_eq!(sa.data, vec!["runmat-core".to_string(), "runmat-runtime".to_string()]);
        }
        _ => panic!("expected string array"),
    }
}

#[test]
fn unresolved_choice_empty_string_array_returns_empty_array() {
    let empty = StringArray { data: Vec::new(), shape: vec![0, 2] };
    match run(vec![Value::StringArray(empty), string("prefix")]).ok().expect("append") {
        Value::StringArray(sa) => {
            assert_eq!(sa.shape, vec![0, 2]);
            assert!(sa.data.is_empty());
        }
        _ => panic!("expected empty string array"),
    }
}

#[test]
fn unresolved_choice_no_arguments_errors() {
    let err = run(Vec::new()).err().expect("expected error");
    assert_eq!(err.message, "append: not enough input arguments");
    assert_eq!(err.identifier.as_deref(), Some("RunMat:append:NotEnoughInputs"));
}

#[test]
fn append_unresolved_choice_non_text_input_errors() {
    let err = run(vec![Value::Int]).err().expect("expected error");
    assert_eq!(err.message, "append: inputs must be strings or character arrays");
    assert_eq!(err.identifier.as_deref(), Some("RunMat:append:InvalidInput"));
}

#[test]
fn unresolved_choice_mismatched_sizes_error() {
    let left = Value::CharArray(CharArray { data: vec!['A', 'B'], rows: 2, cols: 1 });
    let right = Value::CharArray(CharArray { data: vec!['C', 'D', 'E'], rows: 3, cols: 1 });
    let err = run(vec![left, right]).err().expect("expected broadcast error");
    assert!(err.message.starts_with("append: array sizes are not compatible for broadcasting"));
    assert_eq!(err.identifier.as_deref(), Some("RunMat:append:SizeMismatch"));
}

#[test]
fn append_gpu_operand_still_errors_on_type() {
    let err = run(vec![Value::GpuTensor]).err().expect("expected error");
    assert_eq!(err.message, "append: inputs must be strings or character arrays");
}

#[test]
fn char_rows_broadcast_against_a_string_and_pad() {
    let col = Value::CharArray(CharArray { data: vec!['a', 'b', 'c', 'd'], rows: 2, cols: 2 });
    match run(vec![col, row("!")]).ok().expect("append") {
        Value::CharArray(ca) => {
            assert_eq!((ca.rows, ca.cols), (2, 3));
            assert_eq!(ca.data, "ab!cd!".chars().collect::<Vec<char>>());
        }
        _ => panic!("expected char array"),
    }
}

#[test]
fn output_kind_update_rule() {
    assert!(matches!(OutputKind::Char.update(OperandKind::Char), OutputKind::Char));
    assert!(matches!(OutputKind::Char.update(OperandKind::String), OutputKind::String));
    assert!(matches!(OutputKind::String.update(OperandKind::Char), OutputKind::String));
}

#[test]
fn map_flow_names_append_only_when_unnamed() {
    let e = RuntimeError { message: "m".to_string(), builtin: None, identifier: None, source: None };
    assert_eq!(map_flow(e).builtin.as_deref(), Some("append"));
    let e = RuntimeError { message: "m".to_string(), builtin: Some("other".to_string()), identifier: None, source: None };
    assert_eq!(map_flow(e).builtin.as_deref(), Some("other"));
}
