
use runmat_runtime::text_utils::{TextCollection, TextElement};
use runmat_runtime::value::Value;

fn texts(items: &[Option<&str>], shape: Vec<usize>) -> Result<TextCollection, String> {
    let elements = items
        .iter()
        .map(|i| match i {
            Some(t) => TextElement::Text(t.to_string()),
            None => TextElement::Missing,
        })
        .collect();
    Ok(TextCollection { elements, shape })
}

fn one(s: &str) -> Result<TextCollection, String> {
    texts(&[Some(s)], vec![1, 1])
}

fn run(subject: Result<TextCollection, String>, patterns: Result<TextCollection, String>, ignore_case: bool) -> Value {
    runmat_runtime::matches::matches(&subject, &patterns, &Ok(ignore_case)).ok().expect("matches")
}

fn as_bool(v: Value) -> bool {
    match v {
        Value::Bool(b) => b,
        _ => panic!("expected logical scalar"),
    }
}

#[test]
fn observed_in_set_membership_is_true() {
    let patterns = texts(&[Some("hello"), Some("world")], vec![1, 2]);
    assert!(as_bool(run(one("hello"), patterns, false)));
}

#[test]
fn observed_scalar_char_equality_is_true() {
    assert!(as_bool(run(one("abc"), one("abc"), false)));
}

#[test]
fn observed_ignore_case_option_is_true() {
    assert!(as_bool(run(one("Cat"), one("cat"), true)));
}

#[test]
fn unresolved_choice_non_member_is_false() {
    let patterns = texts(&[Some("hello"), Some("world")], vec![1, 2]);
    assert!(!as_bool(run(one("hell"), patterns, false)));
}

#[test]
fn unresolved_choice_case_sensitive_default_is_false() {
    assert!(!as_bool(run(one("Cat"), one("cat"), false)));
}

#[test]
fn unresolved_choice_array_first_argument_shapes_result() {
    let subjects = texts(&[Some("alpha"), Some("beta"), Some("gamma")], vec![3, 1]);
    let patterns = texts(&[Some("beta"), Some("gamma")], vec![1, 2]);
    match run(subjects, patterns, false) {
        Value::LogicalArray(a) => {
            assert_eq!(a.data, vec![0, 1, 1]);
            assert_eq!(a.shape, vec![3, 1]);
        }
        _ => panic!("expected logical array"),
    }
}

#[test]
fn unresolved_choice_cell_patterns_membership() {
    let patterns = texts(&[Some("red"), Some("green")], vec![1, 2]);
    assert!(as_bool(run(one("green"), patterns, false)));
}

#[test]
fn unresolved_choice_missing_subject_is_false() {
    let subject = texts(&[None], vec![1, 1]);
    assert!(!as_bool(run(subject, one("<missing>"), false)));
}

#[test]
fn invalid_option_name_errors() {
    let err = runmat_runtime::matches::matches(&one("foo"), &one("foo"), &Err("matches: unknown option 'IgnoreCases'".to_string()))
        .err()
        .expect("error");
    assert!(err.message.contains("unknown option"));
    assert_eq!(err.identifier.as_deref(), Some("RunMat:matches:InvalidOption"));
}

#[test]
fn invalid_subject_type_errors() {
    let err = runmat_runtime::matches::matches(&Err("matches: first argument must be text".to_string()), &one("a"), &Ok(false))
        .err()
        .expect("error");
    assert!(err.message.contains("first argument must be text"));
    assert_eq!(err.identifier.as_deref(), Some("RunMat:matches:InvalidInput"));
}

#[test]
fn matches_invalid_pattern_type_errors() {
    let err = runmat_runtime::matches::matches(&one("foo"), &Err("matches: pattern must be text".to_string()), &Ok(false))
        .err()
        .expect("error");
    assert!(err.message.contains("pattern must be text"));
    assert_eq!(err.builtin.as_deref(), Some("matches"));
}

#[test]
fn ignore_case_widens_matches_on_concrete_values() {
    let patterns = texts(&[Some("Alpha"), Some("beta")], vec![1, 2]);
    for s in ["Alpha", "ALPHA", "beta", "Beta", "gamma"] {
        let exact = as_bool(run(one(s), patterns.clone_collection(), false));
        let folded = as_bool(run(one(s), patterns.clone_collection(), true));
        assert!(!exact || folded);
    }
}

trait CloneCollection {
    fn clone_collection(&self) -> Self;
}

impl CloneCollection for Result<TextCollection, String> {
    fn clone_collection(&self) -> Self {
        match self {
            Ok(c) => Ok(TextCollection {
                elements: c
                    .elements
                    .iter()
                    .map(|e| match e {
                        TextElement::Text(t) => TextElement::Text(t.clone()),
                        TextElement::Missing => TextElement::Missing,
                    })
                    .collect(),
                shape: c.shape.clone(),
            }),
            Err(m) => Err(m.clone()),
        }
    }
}
