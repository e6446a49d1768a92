use runmat_runtime::datestr::{check_arg_count, format_serial_day, output_format, split_day_seconds, DEFAULT_FORMAT};
use runmat_runtime::value::{CharArray, Value};

fn row(s: &str) -> Value {
    let data: Vec<char> = s.chars().collect();
    let cols = data.len();
    Value::CharArray(CharArray { data, rows: 1, cols })
}

fn render(day: i64, seconds: i64, format: Option<&Value>) -> String {
    let fmt = output_format(format).ok().expect("format");
    let (d, h, m, s) = split_day_seconds(day, seconds);
    format_serial_day(d, h, m, s, &fmt).ok().expect("datestr")
}

#[test]
fn observed_serial_default_format() {
    let text = render(738885, 0, None);
    assert_eq!(text, "30-Dec-2022");
    assert_eq!(text.chars().count(), 11);
}

#[test]
fn observed_serial_explicit_format() {
    assert_eq!(render(738885, 0, Some(&row("yyyy-mm-dd"))), "2022-12-30");
}

#[test]
fn unresolved_choice_epoch_anchoring() {
    assert_eq!(render(1, 0, None), "01-Jan-0000");
    assert_eq!(render(719529, 0, None), "01-Jan-1970");
}

#[test]
fn unresolved_choice_time_of_day_tokens() {
    assert_eq!(render(738885, 43200, Some(&row("yyyy-mm-dd HH:MM:SS"))), "2022-12-30 12:00:00");
}

#[test]
fn unresolved_choice_second_rounding_carries() {
    // 86399.7 seconds round to a full day.
    assert_eq!(render(738885, 86400, Some(&row("dd-mmm-yyyy HH:MM:SS"))), "31-Dec-2022 00:00:00");
}

#[test]
fn unresolved_choice_string_format_argument() {
    assert_eq!(render(738885, 0, Some(&Value::String("yyyy-mm-dd".to_string()))), "2022-12-30");
}

#[test]
fn unresolved_choice_unknown_token_errors() {
    let fmt = output_format(Some(&row("yyyy-QQ"))).ok().expect("format text");
    let err = format_serial_day(738885, 0, 0, 0, &fmt).err().expect("error");
    assert!(err.message.contains("datestr"));
    assert_eq!(err.identifier.as_deref(), Some("RunMat:datestr:InvalidFormat"));
}

#[test]
fn unresolved_choice_argument_count_errors() {
    let err = check_arg_count(0).err().expect("error");
    assert!(err.message.contains("datestr"));
    let err = check_arg_count(3).err().expect("error");
    assert!(err.message.contains("datestr"));
    assert!(check_arg_count(1).is_ok());
    assert!(check_arg_count(2).is_ok());
}

#[test]
fn non_text_format_errors() {
    let err = output_format(Some(&Value::Num)).err().expect("error");
    assert_eq!(err.message, "datestr: formatOut must be a character vector or string scalar");
}

#[test]
fn default_format_is_day_month_year() {
    assert_eq!(DEFAULT_FORMAT, "dd-mmm-yyyy");
}

#[test]
fn split_day_seconds_reads_clock_fields() {
    assert_eq!(split_day_seconds(10, 3661), (10, 1, 1, 1));
    assert_eq!(split_day_seconds(10, 86400), (11, 0, 0, 0));
}

#[test]
fn leap_day_is_rendered() {
    // Serial day of 29-Feb-2024: 1-Jan-1970 plus 19782 days.
    assert_eq!(render(719529 + 19782, 0, None), "29-Feb-2024");
}
