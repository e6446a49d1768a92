use runmat_runtime::saveas::{check_arg_count, check_filename, map_control_flow, not_text, resolve_output_path, saveas_descriptor, text_arg, TextArgError};
use runmat_runtime::value::Value;
use runmat_runtime::error::RuntimeError;

fn chars(s: &str) -> Vec<char> {
    s.chars().collect()
}

#[test]
fn saveas_descriptor_covers_approved_signature() {
    let labels: Vec<String> = saveas_descriptor().signatures.iter().map(|s| s.label.clone()).collect();
    assert!(labels.contains(&"saveas(fig, filename)".to_string()));
    assert!(labels.contains(&"saveas(fig, filename, formattype)".to_string()));
}

#[test]
fn saveas_appends_png_when_extension_missing_unresolved_choice() {
    let path = resolve_output_path("exports/report", None).ok().expect("resolve");
    assert_eq!(path, "exports/report.png");
    let path = resolve_output_path("Report.PNG", None).ok().expect("resolve");
    assert_eq!(path, "Report.PNG");
}

#[test]
fn saveas_rejects_unsupported_extension_unresolved_choice() {
    let err = resolve_output_path("figure.svg", None).err().expect("svg unsupported");
    assert!(err.message.contains("not available yet"), "{}", err.message);
}

#[test]
fn saveas_formattype_png_only_unresolved_choice() {
    let path = resolve_output_path("figure.png", Some("png")).ok().expect("png accepted");
    assert_eq!(path, "figure.png");
    let path = resolve_output_path("figure", Some("PNG")).ok().expect("case-insensitive");
    assert_eq!(path, "figure.png");
    let err = resolve_output_path("figure.png", Some("jpeg")).err().expect("jpeg unsupported");
    assert!(err.message.contains("currently supports 'png'"), "{}", err.message);
}

#[test]
fn saveas_invalid_arguments_error_unresolved_choice() {
    let err = check_arg_count(1).err().expect("missing filename");
    assert!(err.message.contains("argument"), "{}", err.message);
    match text_arg(&Value::Num, "filename") {
        Err(TextArgError::NotText) => {
            let err = not_text("filename", "Num(2.0)");
            assert!(err.message.contains("filename"), "{}", err.message);
        }
        _ => panic!("a number is not a file name"),
    }
    let err = check_filename(&chars("")).err().expect("empty filename");
    assert!(err.message.contains("nonempty"), "{}", err.message);
}

#[test]
fn argument_count_message_gives_the_count() {
    let err = check_arg_count(4).err().expect("too many");
    assert_eq!(
        err.message,
        "saveas: invalid input arguments: expected saveas(fig, filename) or saveas(fig, filename, formattype), got 4 argument(s)"
    );
    assert!(check_arg_count(2).is_ok());
    assert!(check_arg_count(3).is_ok());
}

#[test]
fn nul_in_filename_is_refused() {
    let err = check_filename(&chars("a\0b.png")).err().expect("nul");
    assert!(err.message.contains("NUL"));
}

#[test]
fn hidden_file_name_gets_png_appended() {
    // A leading dot does not start an extension.
    assert_eq!(resolve_output_path(".plot", None).ok(), Some(".plot.png".to_string()));
}

#[test]
fn text_arg_reads_strings() {
    assert_eq!(text_arg(&Value::String("out.png".to_string()), "filename").ok(), Some(chars("out.png")));
}

#[test]
fn internal_error_keeps_its_source() {
    let inner = RuntimeError {
        message: "figure handle lost".to_string(),
        builtin: None,
        identifier: Some("RunMat:inner".to_string()),
        source: None,
    };
    let e = map_control_flow(inner);
    assert_eq!(e.message, "saveas: internal error: figure handle lost");
    assert_eq!(e.builtin.as_deref(), Some("saveas"));
    assert!(e.identifier.is_none());
    let src = e.source.expect("source kept");
    assert_eq!(src.message, "figure handle lost");
    assert_eq!(src.identifier.as_deref(), Some("RunMat:inner"));
}

#[test]
fn rooted_paths_follow_the_png_rule() {
    assert_eq!(resolve_output_path("/tmp/report", None).ok().expect("resolve"), "/tmp/report.png");
    assert_eq!(resolve_output_path("/report", None).ok().expect("resolve"), "/report.png");
    assert_eq!(resolve_output_path("/tmp/plot.png", None).ok().expect("resolve"), "/tmp/plot.png");
    let err = resolve_output_path("/tmp/f.jpg", None).err().expect("jpg unsupported");
    assert_eq!(err.identifier.as_deref(), Some("RunMat:saveas:UnsupportedFormat"));
}
