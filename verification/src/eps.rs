//! `eps`: floating-point spacing. The spacing itself is computed on
//! doubles by the caller; the argument dispatch, class names and metadata
//! are here.

use vstd::prelude::*;
use crate::descriptor::{error_descriptor, param, signature, BuiltinCompletionPolicy, BuiltinDescriptor, BuiltinErrorDescriptor, BuiltinOutputMode, BuiltinParamArity, BuiltinParamType};
use crate::error::{descriptor_error, descriptor_error_with_message, opt_view, RuntimeError};
use crate::text::{chars_equal, str_chars};

verus! {

fn eps_error_too_many_inputs() -> (e: BuiltinErrorDescriptor)
    ensures
        e.code@ == "RM.EPS.TOO_MANY_INPUTS"@,
        e.identifier matches Some(i) && i@ == "RunMat:eps:TooManyInputs"@,
        e.message@ == "eps: too many input arguments"@,
{
    error_descriptor(
        "RM.EPS.TOO_MANY_INPUTS",
        "RunMat:eps:TooManyInputs",
        "More than one positional argument is provided.",
        "eps: too many input arguments",
    )
}

fn eps_error_invalid_class() -> (e: BuiltinErrorDescriptor)
    ensures
        e.code@ == "RM.EPS.INVALID_CLASS"@,
        e.identifier matches Some(i) && i@ == "RunMat:eps:InvalidClass"@,
        e.message@ == "eps: class must be 'double' or 'single'"@,
{
    error_descriptor(
        "RM.EPS.INVALID_CLASS",
        "RunMat:eps:InvalidClass",
        "A class name other than 'double' or 'single' is supplied.",
        "eps: class must be 'double' or 'single'",
    )
}

fn eps_error_invalid_input() -> (e: BuiltinErrorDescriptor)
    ensures
        e.code@ == "RM.EPS.INVALID_INPUT"@,
        e.identifier matches Some(i) && i@ == "RunMat:eps:InvalidInput"@,
        e.message@ == "eps: invalid input"@,
{
    error_descriptor(
        "RM.EPS.INVALID_INPUT",
        "RunMat:eps:InvalidInput",
        "The argument is not a floating-point value or a supported class name.",
        "eps: invalid input",
    )
}

/// Floating-point class whose spacing `eps(classname)` reports.
#[derive(PartialEq, Eq, Structural, Clone, Copy, Debug)]
pub enum EpsClass {
    Single,
    Double,
}

/// What `eps` is asked for, by argument count.
#[derive(PartialEq, Eq, Structural, Clone, Copy, Debug)]
pub enum EpsRequest {
    /// `eps`: the spacing of 1.0 in double precision.
    DoubleAtOne,
    /// `eps(x)` or `eps(classname)`: depends on the one argument.
    OneArgument,
}

/// `eps` takes no argument or one.
pub fn eps_request(arg_count: usize) -> (r: Result<EpsRequest, RuntimeError>)
    ensures
        arg_count == 0 ==> r == Ok::<EpsRequest, RuntimeError>(EpsRequest::DoubleAtOne),
        arg_count == 1 ==> r == Ok::<EpsRequest, RuntimeError>(EpsRequest::OneArgument),
        arg_count > 1 ==> (r matches Err(e) && opt_view(e.identifier) == Some(
            "RunMat:eps:TooManyInputs"@,
        ) && e.message@ == "eps: too many input arguments"@),
{
    if arg_count == 0 {
        Ok(EpsRequest::DoubleAtOne)
    } else if arg_count == 1 {
        Ok(EpsRequest::OneArgument)
    } else {
        let d = eps_error_too_many_inputs();
        Err(descriptor_error(&d, "eps"))
    }
}

/// Class named by `eps(classname)`: exactly `single` or `double`.
pub fn eps_for_classname(classname: &str) -> (r: Result<EpsClass, RuntimeError>)
    ensures
        classname@ == "single"@ ==> r == Ok::<EpsClass, RuntimeError>(EpsClass::Single),
        classname@ == "double"@ ==> r == Ok::<EpsClass, RuntimeError>(EpsClass::Double),
        classname@ != "single"@ && classname@ != "double"@ ==> (r matches Err(e)
            && opt_view(e.identifier) == Some("RunMat:eps:InvalidClass"@) && e.message@
            == "eps: class must be 'double' or 'single': "@ + classname@),
{
    proof {
        reveal_strlit("single");
        reveal_strlit("double");
        assert("single"@[0] != "double"@[0]);
    }
    let name = str_chars(classname);
    let single = str_chars("single");
    let double = str_chars("double");
    if chars_equal(name.as_slice(), single.as_slice()) {
        Ok(EpsClass::Single)
    } else if chars_equal(name.as_slice(), double.as_slice()) {
        Ok(EpsClass::Double)
    } else {
        let d = eps_error_invalid_class();
        let message = String::from_str("eps: class must be 'double' or 'single': ").concat(classname);
        Err(descriptor_error_with_message(&d, message, "eps"))
    }
}

/// Error for an argument that is neither a floating-point value nor a
/// class name, with the reason appended.
pub fn invalid_input(detail: &str) -> (e: RuntimeError)
    ensures
        e.message@ == "eps: invalid input: "@ + detail@,
        opt_view(e.identifier) == Some("RunMat:eps:InvalidInput"@),
{
    let d = eps_error_invalid_input();
    let message = String::from_str("eps: invalid input: ").concat(detail);
    descriptor_error_with_message(&d, message, "eps")
}


/// Element class of a real numeric array.
#[derive(PartialEq, Eq, Structural, Clone, Copy, Debug)]
pub enum NumericDType {
    F64,
    F32,
    U8,
    U16,
    U32,
}

/// The argument of `eps(x)`, as the spacing computation reads it; `Other`
/// carries the debug description of an argument of any other kind.
pub enum EpsOperand {
    /// A real double scalar.
    Num,
    /// A complex double scalar.
    Complex,
    /// A real array of the given element class.
    Tensor(NumericDType),
    /// A complex double array.
    ComplexTensor,
    /// An array resident on an accelerator.
    GpuTensor,
    Other(String),
}

/// How `eps(x)` computes and shapes its result.
#[derive(PartialEq, Eq, Structural, Clone, Copy, Debug)]
pub enum SpacingForm {
    /// Double spacing of the scalar, as a double scalar.
    DoubleScalar,
    /// Double spacing of the modulus of the complex scalar, as a double scalar.
    ModulusScalar,
    /// Double spacing of each element; a one-element result is a scalar.
    DoubleArray,
    /// Single spacing of each element, kept as a single-class array.
    SingleArray,
    /// Double spacing of the modulus of each element; a one-element result
    /// is a scalar.
    ModulusArray,
}

/// The name MATLAB gives an integer element class.
pub open spec fn class_name(d: NumericDType) -> Seq<char> {
    match d {
        NumericDType::F64 => "double"@,
        NumericDType::F32 => "single"@,
        NumericDType::U8 => "uint8"@,
        NumericDType::U16 => "uint16"@,
        NumericDType::U32 => "uint32"@,
    }
}

fn dtype_class_name(d: NumericDType) -> (s: &'static str)
    ensures
        s@ == class_name(d),
{
    match d {
        NumericDType::F64 => "double",
        NumericDType::F32 => "single",
        NumericDType::U8 => "uint8",
        NumericDType::U16 => "uint16",
        NumericDType::U32 => "uint32",
    }
}

/// The spacing computation for `eps(x)`: per argument kind, how the result
/// is computed and shaped, or the error for an argument that is not a
/// floating-point value.
pub fn eps_for_value(operand: &EpsOperand) -> (r: Result<SpacingForm, RuntimeError>)
    ensures
        *operand is Num ==> (r matches Ok(f) && f == SpacingForm::DoubleScalar),
        *operand is Complex ==> (r matches Ok(f) && f == SpacingForm::ModulusScalar),
        *operand is ComplexTensor ==> (r matches Ok(f) && f == SpacingForm::ModulusArray),
        *operand matches EpsOperand::Tensor(d) ==> (if d == NumericDType::F64 {
            r matches Ok(f) && f == SpacingForm::DoubleArray
        } else if d == NumericDType::F32 {
            r matches Ok(f) && f == SpacingForm::SingleArray
        } else {
            r matches Err(e) && e.message@ == "eps: invalid input: "@ + ("input class '"@ + class_name(d) + "' is not floating-point"@)
                && opt_view(e.identifier) == Some("RunMat:eps:InvalidInput"@)
        }),
        *operand is GpuTensor ==> (r matches Err(e) && e.message@ == "eps: invalid input: "@ + "gpuArray input is not supported"@
            && opt_view(e.identifier) == Some("RunMat:eps:InvalidInput"@)),
        *operand matches EpsOperand::Other(desc) ==> (r matches Err(e) && e.message@
            == "eps: invalid input: "@ + ("expected a single or double value, got "@ + desc@) && opt_view(e.identifier) == Some(
            "RunMat:eps:InvalidInput"@,
        )),
{
    match operand {
        EpsOperand::Num => Ok(SpacingForm::DoubleScalar),
        EpsOperand::Complex => Ok(SpacingForm::ModulusScalar),
        EpsOperand::Tensor(d) => {
            let d = *d;
            if d == NumericDType::F64 {
                Ok(SpacingForm::DoubleArray)
            } else if d == NumericDType::F32 {
                Ok(SpacingForm::SingleArray)
            } else {
                let detail = String::from_str("input class '").concat(dtype_class_name(d)).concat("' is not floating-point");
                Err(invalid_input(detail.as_str()))
            }
        },
        EpsOperand::ComplexTensor => Ok(SpacingForm::ModulusArray),
        EpsOperand::GpuTensor => Err(invalid_input("gpuArray input is not supported")),
        EpsOperand::Other(desc) => {
            let detail = String::from_str("expected a single or double value, got ").concat(desc.as_str());
            Err(invalid_input(detail.as_str()))
        },
    }
}

/// Descriptor of `eps`.
pub fn eps_descriptor() -> (d: BuiltinDescriptor)
    ensures
        d.labels() == seq!["d = eps"@, "d = eps(x)"@, "d = eps(classname)"@],
        d.codes() == seq!["RM.EPS.TOO_MANY_INPUTS"@, "RM.EPS.INVALID_CLASS"@, "RM.EPS.INVALID_INPUT"@],
        d.output_mode == BuiltinOutputMode::Fixed,
{
    let s0 = signature(
        "d = eps",
        Vec::new(),
        vec![
            param(
                "d",
                BuiltinParamType::NumericArray,
                BuiltinParamArity::Required,
                "Floating-point spacing (relative accuracy).",
            ),
        ],
    );
    let s1 = signature(
        "d = eps(x)",
        vec![
            param(
                "x",
                BuiltinParamType::NumericArray,
                BuiltinParamArity::Required,
                "Floating-point value or array whose spacing is measured.",
            ),
        ],
        vec![
            param(
                "d",
                BuiltinParamType::NumericArray,
                BuiltinParamArity::Required,
                "Floating-point spacing (relative accuracy).",
            ),
        ],
    );
    let s2 = signature(
        "d = eps(classname)",
        vec![
            param(
                "classname",
                BuiltinParamType::StringScalar,
                BuiltinParamArity::Required,
                "Floating-point class name, 'double' or 'single'.",
            ),
        ],
        vec![
            param(
                "d",
                BuiltinParamType::NumericArray,
                BuiltinParamArity::Required,
                "Floating-point spacing (relative accuracy).",
            ),
        ],
    );
    let d = BuiltinDescriptor {
        signatures: vec![s0, s1, s2],
        output_mode: BuiltinOutputMode::Fixed,
        completion_policy: BuiltinCompletionPolicy::Public,
        errors: vec![eps_error_too_many_inputs(), eps_error_invalid_class(), eps_error_invalid_input()],
    };
    assert(d.labels() =~= seq!["d = eps"@, "d = eps(x)"@, "d = eps(classname)"@]);
    assert(d.codes() =~= seq!["RM.EPS.TOO_MANY_INPUTS"@, "RM.EPS.INVALID_CLASS"@, "RM.EPS.INVALID_INPUT"@]);
    d
}

} // verus!
