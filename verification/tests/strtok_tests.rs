use runmat_runtime::strtok::{split_token, strtok};
use runmat_runtime::value::{CharArray, Value};

fn row(s: &str) -> Value {
    let data: Vec<char> = s.chars().collect();
    let cols = data.len();
    Value::CharArray(CharArray { data, rows: 1, cols })
}

fn run(text: Value, rest: Vec<Value>) -> (Value, Value) {
    strtok(&text, &rest).ok().expect("strtok")
}

fn assert_char(value: &Value, expected: &str, rows: usize, cols: usize) {
    match value {
        Value::CharArray(chars) => {
            assert_eq!(chars.data.iter().collect::<String>(), expected);
            assert_eq!((chars.rows, chars.cols), (rows, cols));
        }
        _ => panic!("expected char array"),
    }
}

#[test]
fn observed_default_whitespace_token() {
    assert_char(&run(row("hello world"), vec![]).0, "hello", 1, 5);
}

#[test]
fn observed_custom_delimiter_token() {
    assert_char(&run(row("a,b,c"), vec![row(",")]).0, "a", 1, 1);
}

#[test]
fn observed_leading_delimiters_skipped() {
    assert_char(&run(row("   lead trail"), vec![]).0, "lead", 1, 4);
}

#[test]
fn summary_derived_two_output_remainder() {
    let (token, remain) = run(row("hello world"), vec![]);
    assert_char(&token, "hello", 1, 5);
    assert_char(&remain, " world", 1, 6);
}

#[test]
fn unresolved_choice_empty_and_all_delimiter_inputs() {
    let (token, remain) = split_token("", None);
    assert_eq!((token.as_str(), remain.as_str()), ("", ""));
    let (token, remain) = split_token("   ", None);
    assert_eq!((token.as_str(), remain.as_str()), ("", ""));
    assert_char(&run(row("   "), vec![]).0, "", 0, 0);
}

#[test]
fn unresolved_choice_string_input_returns_string() {
    match run(Value::String("hello world".to_string()), vec![]).0 {
        Value::String(s) => assert_eq!(s, "hello"),
        _ => panic!("expected string"),
    }
}

#[test]
fn strtok_invalid_input_errors() {
    let err = strtok(&Value::Num, &vec![]).err().expect("error");
    assert!(err.message.contains("strtok"));
}

#[test]
fn invalid_delimiter_errors() {
    let err = strtok(&row("a,b"), &vec![Value::Num]).err().expect("error");
    assert!(err.message.contains("delimiters"));
}

#[test]
fn token_and_remainder_reassemble_suffix_of_input() {
    for text in ["  alpha beta", "x", "a,,b", "\tq\n"] {
        let (token, remain) = split_token(text, Some(&[' ', ',', '\t', '\n']));
        let joined = format!("{}{}", token, remain);
        assert!(text.ends_with(&joined));
    }
}

#[test]
fn surplus_delimiter_arguments_error() {
    let err = strtok(&row("a b"), &vec![row(" "), row(",")]).err().expect("error");
    assert!(err.message.contains("delimiters"));
}
