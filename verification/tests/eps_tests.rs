use runmat_runtime::eps::{eps_for_classname, eps_for_value, eps_request, EpsClass, EpsOperand, EpsRequest, NumericDType, SpacingForm};

#[test]
fn observed_bare_eps_is_double_epsilon() {
    assert_eq!(eps_request(0).ok(), Some(EpsRequest::DoubleAtOne));
}

#[test]
fn observed_eps_single_is_f32_epsilon() {
    assert_eq!(eps_request(1).ok(), Some(EpsRequest::OneArgument));
    assert_eq!(eps_for_classname("single").ok(), Some(EpsClass::Single));
}

#[test]
fn unresolved_choice_eps_double_classname() {
    assert_eq!(eps_for_classname("double").ok(), Some(EpsClass::Double));
}

#[test]
fn unresolved_choice_eps_of_one_equals_epsilon() {
    assert_eq!(eps_for_value(&EpsOperand::Num).ok(), Some(SpacingForm::DoubleScalar));
}

#[test]
fn unresolved_choice_eps_double_array_preserves_shape() {
    assert_eq!(eps_for_value(&EpsOperand::Tensor(NumericDType::F64)).ok(), Some(SpacingForm::DoubleArray));
}

#[test]
fn unresolved_choice_eps_single_array_is_single() {
    assert_eq!(eps_for_value(&EpsOperand::Tensor(NumericDType::F32)).ok(), Some(SpacingForm::SingleArray));
}

#[test]
fn unresolved_choice_eps_complex_uses_magnitude() {
    assert_eq!(eps_for_value(&EpsOperand::Complex).ok(), Some(SpacingForm::ModulusScalar));
}

#[test]
fn unresolved_choice_eps_complex_tensor_is_real() {
    assert_eq!(eps_for_value(&EpsOperand::ComplexTensor).ok(), Some(SpacingForm::ModulusArray));
}

#[test]
fn unresolved_choice_eps_invalid_class_errors() {
    let err = eps_for_classname("int8").err().expect("error");
    assert_eq!(err.identifier.as_deref(), Some("RunMat:eps:InvalidClass"));
    assert_eq!(err.message, "eps: class must be 'double' or 'single': int8");
}

#[test]
fn unresolved_choice_eps_too_many_args_errors() {
    let err = eps_request(2).err().expect("error");
    assert_eq!(err.identifier.as_deref(), Some("RunMat:eps:TooManyInputs"));
}

#[test]
fn unresolved_choice_eps_integer_input_errors() {
    let err = eps_for_value(&EpsOperand::Other("Int(I32(4))".to_string())).err().expect("error");
    assert_eq!(err.identifier.as_deref(), Some("RunMat:eps:InvalidInput"));
    assert_eq!(err.message, "eps: invalid input: expected a single or double value, got Int(I32(4))");
}

#[test]
fn integer_class_tensor_is_rejected_with_its_class() {
    let err = eps_for_value(&EpsOperand::Tensor(NumericDType::U8)).err().expect("error");
    assert_eq!(err.message, "eps: invalid input: input class 'uint8' is not floating-point");
}

#[test]
fn gpu_operand_is_rejected() {
    let err = eps_for_value(&EpsOperand::GpuTensor).err().expect("error");
    assert_eq!(err.message, "eps: invalid input: gpuArray input is not supported");
}
