use runmat_runtime::descriptor::BuiltinOutputMode;
use runmat_runtime::ver_less_than::{dispatch_verlessthan, verlessthan_descriptor, verlessthan_fusion_spec, verlessthan_gpu_spec};
use runmat_runtime::version::{dispatch_version, parse_version, version_descriptor, version_fusion_spec, version_gpu_spec, RUNMAT_RELEASE, RUNMAT_VERSION};
use runmat_runtime::value::{CharArray, Value};

fn row(s: &str) -> Value {
    let data: Vec<char> = s.chars().collect();
    let cols = data.len();
    Value::CharArray(CharArray { data, rows: 1, cols })
}

fn char_row_text(value: &Value) -> String {
    match value {
        Value::CharArray(chars) => {
            assert_eq!(chars.rows, 1, "expected a char row vector");
            chars.data.iter().collect()
        }
        _ => panic!("expected char row vector"),
    }
}

fn run_vlt(toolbox: &str, version: &str) -> Result<bool, runmat_runtime::error::RuntimeError> {
    dispatch_verlessthan(&vec![row(toolbox), row(version)])
}

fn vlt(toolbox: &str, version: &str) -> bool {
    run_vlt(toolbox, version).ok().expect("verLessThan")
}

#[test]
fn contract_no_arg_returns_runmat_char_version() {
    let value = dispatch_version(&Vec::new()).ok().expect("version");
    let text = char_row_text(&value);
    assert!(text.contains(RUNMAT_VERSION));
    assert!(text.contains("RunMat"));
    assert!(!text.contains("R2026a) Update"));
}

#[test]
fn contract_release_option_returns_char_release_tag() {
    let value = dispatch_version(&vec![row("-release")]).ok().expect("version('-release')");
    let text = char_row_text(&value);
    assert_eq!(text, RUNMAT_RELEASE);
    assert_ne!(text, "2026a");
}

#[test]
fn documented_choice_release_option_case_insensitive_and_string() {
    let value = dispatch_version(&vec![Value::String("-RELEASE".to_string())]).ok().expect("version");
    assert_eq!(char_row_text(&value), RUNMAT_RELEASE);
}

#[test]
fn documented_choice_unrecognized_option_errors() {
    let err = dispatch_version(&vec![row("-date")]).err().expect("rejected");
    assert_eq!(err.identifier.as_deref(), Some("RunMat:version:InvalidOption"));
}

#[test]
fn documented_choice_non_text_option_errors() {
    let err = dispatch_version(&vec![Value::Num]).err().expect("rejected");
    assert_eq!(err.identifier.as_deref(), Some("RunMat:version:InvalidOption"));
}

#[test]
fn documented_choice_too_many_inputs_errors() {
    let err = dispatch_version(&vec![Value::String("-release".to_string()), Value::String("-release".to_string())])
        .err()
        .expect("rejected");
    assert_eq!(err.identifier.as_deref(), Some("RunMat:version:TooManyInputs"));
}

#[test]
fn contract_older_than_high_version_is_true() {
    assert!(vlt("matlab", "99.0"));
}

#[test]
fn contract_runmat_version_below_one_is_true_diverging_from_matlab() {
    assert!(vlt("matlab", "1.0"));
}

#[test]
fn contract_comparisons_reflect_runmat_version() {
    assert!(!vlt("matlab", RUNMAT_VERSION));
    assert!(!vlt("matlab", "0.0.1"));
    assert!(vlt("matlab", "0.6"));
    assert!(!vlt("matlab", "0.5"));
}

#[test]
fn documented_choice_toolbox_name_maps_to_runmat_version() {
    let a = vlt("matlab", "0.6");
    let b = vlt("runmat", "0.6");
    let c = vlt("anything", "0.6");
    assert_eq!(a, b);
    assert_eq!(b, c);
}

#[test]
fn documented_choice_invalid_inputs_error() {
    let err = dispatch_verlessthan(&vec![Value::Num, Value::Num]).err().expect("non-text");
    assert_eq!(err.identifier.as_deref(), Some("RunMat:verLessThan:InvalidInput"));
    let err = dispatch_verlessthan(&vec![row("matlab")]).err().expect("arity");
    assert_eq!(err.identifier.as_deref(), Some("RunMat:verLessThan:InvalidInput"));
    let err = run_vlt("matlab", "not-a-version").err().expect("bad version");
    assert_eq!(err.identifier.as_deref(), Some("RunMat:verLessThan:InvalidVersion"));
}

#[test]
fn parse_version_reads_dotted_components() {
    assert_eq!(parse_version("1.2.3"), Some(vec![1, 2, 3]));
    assert_eq!(parse_version(RUNMAT_VERSION), Some(vec![0, 5, 6]));
    assert_eq!(parse_version("not-a-version"), None);
}

#[test]
fn version_descriptor_and_spec_metadata_consistent() {
    let d = version_descriptor();
    assert_eq!(d.signatures.len(), 2);
    assert!(matches!(d.output_mode, BuiltinOutputMode::Fixed));
    assert_eq!(d.errors.len(), 2);
    assert_eq!(version_gpu_spec().name, "version");
    assert_eq!(version_fusion_spec().name, "version");
}

#[test]
#[allow(non_snake_case)]
fn verLessThan_descriptor_and_spec_metadata_consistent() {
    let d = verlessthan_descriptor();
    assert_eq!(d.signatures.len(), 1);
    assert!(matches!(d.output_mode, BuiltinOutputMode::Fixed));
    assert_eq!(d.errors.len(), 2);
    assert_eq!(verlessthan_gpu_spec().name, "verLessThan");
    assert_eq!(verlessthan_fusion_spec().name, "verLessThan");
}

#[test]
fn bad_version_error_is_the_same_for_every_toolbox() {
    let a = run_vlt("matlab", "abc").err().expect("bad version");
    let b = run_vlt("signal", "abc").err().expect("bad version");
    assert_eq!(a.message, b.message);
    assert_eq!(a.message, "verLessThan: version must be a dotted numeric string such as '1.2.3'");
    assert_eq!(a.builtin.as_deref(), Some("verLessThan"));
    assert_eq!(b.builtin.as_deref(), Some("verLessThan"));
    let c = dispatch_verlessthan(&vec![Value::Num, row("1.0")]).err().expect("non-text");
    assert_eq!(c.message, "verLessThan: expected verLessThan(toolbox, version) with two text arguments");
}
