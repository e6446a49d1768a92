use runmat_runtime::str2num::{parse_numeric_source, split_row_elements, split_top_level, str2num, Expr, ParsedNumeric, Str2NumPlan};
use runmat_runtime::value::{CharArray, Value};

fn row(s: &str) -> Value {
    let data: Vec<char> = s.chars().collect();
    let cols = data.len();
    Value::CharArray(CharArray { data, rows: 1, cols })
}

/// Prefix rendering of an expression over the text it was read from.
fn show(e: &Expr, text: &[char]) -> String {
    match e {
        Expr::Number(a, b) => text[*a..*b].iter().collect(),
        Expr::Inf => "Inf".to_string(),
        Expr::NaN => "NaN".to_string(),
        Expr::Neg(x) => format!("(neg {})", show(x, text)),
        Expr::Add(x, y) => format!("(+ {} {})", show(x, text), show(y, text)),
        Expr::Sub(x, y) => format!("(- {} {})", show(x, text), show(y, text)),
        Expr::Mul(x, y) => format!("(* {} {})", show(x, text), show(y, text)),
        Expr::Div(x, y) => format!("(/ {} {})", show(x, text), show(y, text)),
        Expr::Pow(x, y) => format!("(^ {} {})", show(x, text), show(y, text)),
    }
}

fn scalar(text: &str) -> String {
    let cs: Vec<char> = text.chars().collect();
    match parse_numeric_source(&cs) {
        Some(ParsedNumeric::Scalar(el)) => show(&el.expr, &el.text),
        _ => panic!("expected a scalar expression"),
    }
}

fn matrix(text: &str) -> (usize, usize, Vec<Vec<String>>) {
    let cs: Vec<char> = text.chars().collect();
    match parse_numeric_source(&cs) {
        Some(ParsedNumeric::Matrix { rows_data, rows, cols }) => {
            let shown = rows_data
                .iter()
                .map(|r| r.iter().map(|el| show(&el.expr, &el.text)).collect())
                .collect();
            (rows, cols, shown)
        }
        _ => panic!("expected a matrix"),
    }
}

fn unparsed(text: &str) -> bool {
    let cs: Vec<char> = text.chars().collect();
    parse_numeric_source(&cs).is_none()
}

#[test]
fn observed_scalar_literal() {
    assert_eq!(scalar("42"), "42");
}

#[test]
fn observed_bracketed_row_vector() {
    assert_eq!(matrix("[1 2 3]"), (1, 3, vec![vec!["1".into(), "2".into(), "3".into()]]));
}

#[test]
fn observed_bracketed_matrix() {
    assert_eq!(
        matrix("[1 2; 3 4]"),
        (2, 2, vec![vec!["1".into(), "2".into()], vec!["3".into(), "4".into()]])
    );
}

#[test]
fn observed_arithmetic_expression() {
    assert_eq!(scalar("2+3"), "(+ 2 3)");
}

#[test]
fn summary_derived_unparsable_text_returns_empty() {
    assert!(unparsed("definitely not numeric"));
    assert!(unparsed(""));
}

#[test]
fn summary_derived_arithmetic_precedence_and_grouping() {
    assert_eq!(scalar("2+3*4"), "(+ 2 (* 3 4))");
    assert_eq!(scalar("(1+2)*3"), "(* (+ 1 2) 3)");
    assert_eq!(scalar("2^3"), "(^ 2 3)");
    assert_eq!(scalar("-4/2"), "(/ (neg 4) 2)");
}

#[test]
fn unresolved_choice_comma_separated_row() {
    assert_eq!(matrix("[1,2,3]"), (1, 3, vec![vec!["1".into(), "2".into(), "3".into()]]));
}

#[test]
fn unresolved_choice_signed_whitespace_tokenisation() {
    assert_eq!(matrix("[1 -2]"), (1, 2, vec![vec!["1".into(), "(neg 2)".into()]]));
    assert_eq!(matrix("[1 - 2]"), (1, 1, vec![vec!["(- 1 2)".into()]]));
}

#[test]
fn unresolved_choice_empty_brackets_and_bracketed_scalar() {
    assert_eq!(matrix("[]"), (0, 0, vec![]));
    assert_eq!(matrix("[5]"), (1, 1, vec![vec!["5".into()]]));
}

#[test]
fn unresolved_choice_inconsistent_row_lengths_return_empty() {
    assert!(unparsed("[1 2; 3]"));
}

#[test]
fn unresolved_choice_identifier_expression_returns_empty_without_vm() {
    assert!(unparsed("x+1"));
    match str2num(&row("x+1")) {
        Some(Str2NumPlan::Delegate(t)) => assert_eq!(t.iter().collect::<String>(), "x+1"),
        _ => panic!("expected the text to be handed on"),
    }
}

#[test]
fn str2num_unresolved_choice_non_text_input_errors() {
    assert!(str2num(&Value::Num).is_none());
}

#[test]
fn unresolved_choice_string_scalar_input_accepted() {
    match str2num(&Value::String("7".to_string())) {
        Some(Str2NumPlan::Parsed(ParsedNumeric::Scalar(el))) => assert_eq!(show(&el.expr, &el.text), "7"),
        _ => panic!("expected a parsed scalar"),
    }
}

#[test]
fn words_and_exponents_are_read() {
    assert_eq!(scalar("inf"), "Inf");
    assert_eq!(scalar(" NaN "), "NaN");
    assert_eq!(scalar("1.5e-3"), "1.5e-3");
}

#[test]
fn power_binds_tighter_than_unary_minus() {
    assert_eq!(scalar("-2^2"), "(neg (^ 2 2))");
}

#[test]
fn top_level_split_keeps_text_between_cuts() {
    let text: Vec<char> = "1,f(2,3);4".chars().collect();
    let parts = split_top_level(&text, &[',', ';']);
    let joined: Vec<String> = parts.iter().map(|p| p.iter().collect()).collect();
    assert_eq!(joined, vec!["1".to_string(), "f(2,3)".to_string(), "4".to_string()]);
    let none = split_top_level(&[], &[',']);
    assert_eq!(none.len(), 1);
    assert!(none[0].is_empty());
}

#[test]
fn row_elements_split_and_fail_as_stated() {
    let els = |s: &str| {
        let cs: Vec<char> = s.chars().collect();
        split_row_elements(&cs).map(|v| v.iter().map(|e| e.iter().collect::<String>()).collect::<Vec<_>>())
    };
    assert_eq!(els("1 -2"), Some(vec!["1".to_string(), "-2".to_string()]));
    assert_eq!(els("1 - 2"), Some(vec!["1 - 2".to_string()]));
    assert_eq!(els("f(1, 2), 3"), Some(vec!["f(1, 2)".to_string(), "3".to_string()]));
    assert_eq!(els("(1"), None);
    assert_eq!(els("1)"), None);
    assert_eq!(els(", 1"), None);
}
