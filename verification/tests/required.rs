use runmat_runtime::display::display_descriptor;
use runmat_runtime::eps::eps_descriptor;
use runmat_runtime::etime::etime_descriptor;
use runmat_runtime::fields::fields_descriptor;
use runmat_runtime::histc::histc_descriptor;
use runmat_runtime::normalize::normalize_descriptor;
use runmat_runtime::num2cell::num2cell_descriptor;
use runmat_runtime::seconds::seconds_descriptor;
use runmat_runtime::strtok::split_token;
use runmat_runtime::version::version_less_than;
use runmat_runtime::what::{what_descriptor, what_fusion_spec, what_gpu_spec};

fn labels(d: &runmat_runtime::descriptor::BuiltinDescriptor) -> Vec<String> {
    d.signatures.iter().map(|s| s.label.clone()).collect()
}

#[test]
fn display_descriptor_signatures_cover_primary_form() {
    let labels = labels(&display_descriptor());
    assert!(labels.contains(&"display(X)".to_string()));
}

#[test]
fn eps_descriptor_signatures_cover_core_forms() {
    let labels = labels(&eps_descriptor());
    assert!(labels.contains(&"d = eps".to_string()));
    assert!(labels.contains(&"d = eps(x)".to_string()));
    assert!(labels.contains(&"d = eps(classname)".to_string()));
}

#[test]
fn etime_descriptor_advertises_primary_signature() {
    assert_eq!(etime_descriptor().signatures[0].label, "s = etime(t2, t1)");
}

#[test]
fn descriptor_signature_covers_primary_form() {
    let labels = labels(&histc_descriptor());
    assert!(labels.iter().any(|label| label.contains("histc(x, edges)")));
}

#[test]
fn descriptor_has_stable_error_codes() {
    let codes: Vec<String> = normalize_descriptor().errors.iter().map(|e| e.code.clone()).collect();
    assert!(codes.contains(&"RM.NORMALIZE.INVALID_ARGUMENT".to_string()));
    assert!(codes.contains(&"RM.NORMALIZE.INVALID_INPUT".to_string()));
    assert!(codes.contains(&"RM.NORMALIZE.UNSUPPORTED".to_string()));
    assert!(codes.contains(&"RM.NORMALIZE.INTERNAL".to_string()));
}

#[test]
fn descriptor_signatures_cover_num2cell_forms() {
    let labels = labels(&num2cell_descriptor());
    assert!(labels.contains(&"C = num2cell(A)".to_string()));
    assert!(labels.contains(&"C = num2cell(A, dim)".to_string()));
}

#[test]
fn seconds_descriptor_advertises_primary_signature() {
    assert_eq!(seconds_descriptor().signatures[0].label, "d = seconds(x)");
}

#[test]
fn summary_derived_custom_delimiter_remainder() {
    let (token, remain) = split_token("a,b,c", Some(&[',']));
    assert_eq!((token.as_str(), remain.as_str()), ("a", ",b,c"));
}

#[test]
fn unresolved_choice_other_whitespace_delimits() {
    let (token, remain) = split_token("ab\tcd", None);
    assert_eq!((token.as_str(), remain.as_str()), ("ab", "\tcd"));

    let (token, remain) = split_token("\nab cd", None);
    assert_eq!((token.as_str(), remain.as_str()), ("ab", " cd"));
}

#[test]
fn documented_choice_version_less_than_semantics() {
    assert!(version_less_than(&[0, 5, 6], &[99, 0]));
    assert!(version_less_than(&[0, 5, 6], &[1, 0]));
    assert!(!version_less_than(&[0, 5, 6], &[0, 5, 6]));
    assert!(!version_less_than(&[1, 0], &[0, 9, 9]));
    assert!(version_less_than(&[1, 2], &[1, 2, 1]));
}

#[test]
fn descriptor_exposes_primary_signature() {
    let labels = labels(&what_descriptor());
    assert!(labels.contains(&"s = what(folder)".to_string()));
}

#[test]
fn gpu_and_fusion_specs_match_name() {
    assert_eq!(what_gpu_spec().name, "what");
    assert_eq!(what_fusion_spec().name, "what");
}

#[test]
fn descriptor_signature_covers_fields_form() {
    let labels = labels(&fields_descriptor());
    assert_eq!(labels, vec!["c = fields(s)".to_string()]);
}
