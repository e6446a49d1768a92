use runmat_runtime::system::{cmdout_value, command_text, echo_stdout, exit_status_value};
use runmat_runtime::value::{CharArray, Value};

fn chars(s: &str) -> Vec<char> {
    s.chars().collect()
}

#[test]
fn observed_status_success() {
    assert_eq!(exit_status_value(Some(0), None), 0);
}

#[test]
fn observed_status_failure() {
    assert_eq!(exit_status_value(Some(1), None), 1);
}

#[test]
fn observed_captured_output() {
    let out = cmdout_value(&chars("hello\n"));
    assert_eq!((out.rows, out.cols), (1, 6));
    assert_eq!(out.data.iter().collect::<String>(), "hello\n");
}

#[test]
fn unresolved_choice_empty_stdout_two_outputs() {
    let out = cmdout_value(&[]);
    assert_eq!((out.rows, out.cols), (0, 0));
    assert!(out.data.is_empty());
}

#[test]
fn unresolved_choice_statement_call_echoes_stdout() {
    assert!(echo_stdout(Some(0), &chars("hello\n")));
    assert!(!echo_stdout(Some(0), &[]));
    assert!(!echo_stdout(Some(2), &chars("hello\n")));
    assert!(!echo_stdout(None, &chars("hello\n")));
}

#[test]
fn system_invalid_input_errors() {
    let err = command_text(&Value::Num).err().expect("error");
    assert!(err.message.contains("system"));
}

#[test]
fn signal_termination_maps_past_128() {
    assert_eq!(exit_status_value(None, Some(9)), 137);
    assert_eq!(exit_status_value(None, None), -1);
}

#[test]
fn command_text_reads_char_rows_and_strings() {
    let row = Value::CharArray(CharArray { data: chars("ls -l"), rows: 1, cols: 5 });
    assert_eq!(command_text(&row).ok(), Some(chars("ls -l")));
    assert_eq!(command_text(&Value::String("pwd".to_string())).ok(), Some(chars("pwd")));
}
