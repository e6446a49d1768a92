use runmat_runtime::strmatch::strmatch;
use runmat_runtime::text_utils::{TextCollection, TextElement};
use runmat_runtime::value::{CharArray, Value};

fn row(s: &str) -> Value {
    let data: Vec<char> = s.chars().collect();
    let cols = data.len();
    Value::CharArray(CharArray { data, rows: 1, cols })
}

fn column(entries: &[&str]) -> Result<TextCollection, String> {
    Ok(TextCollection {
        elements: entries.iter().map(|s| TextElement::Text(s.to_string())).collect(),
        shape: vec![entries.len(), 1],
    })
}

fn run(pattern: Value, entries: Result<TextCollection, String>, rest: Vec<Value>) -> Vec<usize> {
    strmatch(&pattern, &entries, &rest).ok().expect("strmatch")
}

fn run_err(pattern: Value, entries: Result<TextCollection, String>, rest: Vec<Value>) -> String {
    strmatch(&pattern, &entries, &rest).err().expect("error").message
}

#[test]
fn observed_prefix_match_indices() {
    assert_eq!(run(row("ap"), column(&["apple", "apricot", "banana"]), vec![]), vec![1, 2]);
}

#[test]
fn observed_exact_match_index() {
    assert_eq!(run(row("apple"), column(&["apple", "apple pie"]), vec![row("exact")]), vec![1]);
}

#[test]
fn observed_no_match_is_zero_by_one_empty() {
    assert!(run(row("zz"), column(&["apple", "banana"]), vec![]).is_empty());
}

#[test]
fn unresolved_choice_char_matrix_rows() {
    assert_eq!(run(row("c"), column(&["cat", "cow", "dog"]), vec![]), vec![1, 2]);
}

#[test]
fn unresolved_choice_string_array_entries() {
    let pattern = Value::String("ap".to_string());
    assert_eq!(run(pattern, column(&["apple", "apricot", "banana"]), vec![]), vec![1, 2]);
}

#[test]
fn unresolved_choice_exact_excludes_prefix_only() {
    assert!(run(row("ap"), column(&["apple", "apricot"]), vec![row("exact")]).is_empty());
}

#[test]
fn invalid_flag_errors() {
    let err = run_err(row("ap"), column(&["apple"]), vec![row("prefix")]);
    assert!(err.contains("invalid match flag"));
    assert_eq!(err, "strmatch: invalid match flag 'prefix'; supported flag is 'exact'");
}

#[test]
fn strmatch_invalid_pattern_type_errors() {
    let err = run_err(Value::Num, column(&["apple"]), vec![]);
    assert!(err.contains("first argument must be a character vector or string scalar"));
}

#[test]
fn invalid_array_type_errors() {
    let err = run_err(row("ap"), Err("strmatch: second argument must be text".to_string()), vec![]);
    assert!(err.contains("second argument must be text"));
}

#[test]
fn exact_flag_is_case_insensitive() {
    assert_eq!(run(row("apple"), column(&["apple", "apple pie"]), vec![row("EXACT")]), vec![1]);
}

#[test]
fn too_many_flags_error() {
    let err = run_err(row("a"), column(&["a"]), vec![row("exact"), row("exact")]);
    assert_eq!(err, "strmatch: too many input arguments");
}

#[test]
fn missing_entries_never_match() {
    let entries = Ok(TextCollection {
        elements: vec![TextElement::Missing, TextElement::Text("abc".to_string())],
        shape: vec![2, 1],
    });
    assert_eq!(run(row("a"), entries, vec![]), vec![2]);
}
