use runmat_runtime::num2cell::{num2cell, CellArrayOut, CellValue, DimArgument, DimEntry, Num2CellError};
use runmat_runtime::value::{CharArray, Value};

fn dim_entry(v: f64) -> DimEntry {
    if !v.is_finite() {
        DimEntry::NonFinite
    } else if v >= 0.0 && (v - v.round()).abs() <= f64::EPSILON {
        DimEntry::Whole(v.round() as usize)
    } else {
        DimEntry::Invalid
    }
}

fn scalar_dim(v: f64) -> DimArgument {
    DimArgument { value: Value::Num, entries: vec![dim_entry(v)] }
}

fn run(value: Value, rest: Vec<DimArgument>) -> CellArrayOut {
    match num2cell(value, &rest) {
        Ok(c) => c,
        Err(_) => panic!("num2cell failed"),
    }
}

fn run_err(value: Value, rest: Vec<DimArgument>) -> String {
    match num2cell(value, &rest) {
        Err(Num2CellError::Failed(e)) => e.message,
        _ => panic!("expected an error"),
    }
}

/// The values of the cells, each a list of the input's doubles.
fn numeric_cells(out: &CellArrayOut, data: &[f64]) -> Vec<(Vec<f64>, Vec<usize>)> {
    out.cells
        .iter()
        .map(|c| match c {
            CellValue::Numeric(pos, shape) => (pos.iter().map(|&p| data[p]).collect(), shape.clone()),
            _ => panic!("expected numeric cell"),
        })
        .collect()
}

#[test]
fn observed_row_vector_yields_1x3_cell() {
    let data = [10.0, 20.0, 30.0];
    let out = run(Value::Tensor(vec![1, 3]), vec![]);
    assert_eq!(out.shape, vec![1, 3]);
    let cells = numeric_cells(&out, &data);
    assert_eq!(cells.iter().map(|c| c.0.clone()).collect::<Vec<_>>(), vec![vec![10.0], vec![20.0], vec![30.0]]);
}

#[test]
fn observed_matrix_yields_2x2_cell() {
    let data = [1.0, 3.0, 2.0, 4.0];
    let out = run(Value::Tensor(vec![2, 2]), vec![]);
    assert_eq!(out.shape, vec![2, 2]);
    let cells = numeric_cells(&out, &data);
    // cells are held row by row: (0,0), (0,1), (1,0), (1,1)
    assert_eq!(cells[0].0, vec![1.0]);
    assert_eq!(cells[1].0, vec![2.0]);
    assert_eq!(cells[2].0, vec![3.0]);
    assert_eq!(cells[3].0, vec![4.0]);
}

#[test]
fn observed_dim1_yields_1x2_cell() {
    let out = run(Value::Tensor(vec![2, 2]), vec![scalar_dim(1.0)]);
    assert_eq!(out.shape, vec![1, 2]);
}

#[test]
fn summary_derived_dim1_cells_are_columns() {
    let data = [1.0, 3.0, 2.0, 4.0];
    let out = run(Value::Tensor(vec![2, 2]), vec![scalar_dim(1.0)]);
    let cells = numeric_cells(&out, &data);
    assert_eq!(cells[0], (vec![1.0, 3.0], vec![2, 1]));
    assert_eq!(cells[1], (vec![2.0, 4.0], vec![2, 1]));
}

#[test]
fn observed_scalar_yields_1x1_cell() {
    let out = run(Value::Num, vec![]);
    assert_eq!(out.shape, vec![1, 1]);
    assert_eq!(numeric_cells(&out, &[7.0])[0].0, vec![7.0]);
}

#[test]
fn unresolved_choice_empty_matrix_yields_0x0_cell() {
    let out = run(Value::Tensor(vec![0, 0]), vec![]);
    assert_eq!(out.shape, vec![0, 0]);
    assert!(out.cells.is_empty());
}

#[test]
fn unresolved_choice_dim_vector_groups_both_dimensions() {
    let data = [1.0, 3.0, 2.0, 4.0];
    let dims = DimArgument { value: Value::Tensor(vec![1, 2]), entries: vec![dim_entry(1.0), dim_entry(2.0)] };
    let out = run(Value::Tensor(vec![2, 2]), vec![dims]);
    assert_eq!(out.shape, vec![1, 1]);
    let cells = numeric_cells(&out, &data);
    assert_eq!(cells[0], (vec![1.0, 3.0, 2.0, 4.0], vec![2, 2]));
}

#[test]
fn unresolved_choice_char_row_yields_char_cells() {
    let out = run(Value::CharArray(CharArray::new_row(&['a', 'b'])), vec![]);
    assert_eq!(out.shape, vec![1, 2]);
    for (value, expected) in out.cells.iter().zip(['a', 'b']) {
        match value {
            CellValue::Chars(ca) => {
                assert_eq!((ca.rows, ca.cols), (1, 1));
                assert_eq!(ca.data, vec![expected]);
            }
            _ => panic!("expected char cell"),
        }
    }
}

#[test]
fn unresolved_choice_invalid_dim_errors() {
    for bad in [0.0, 1.5] {
        let msg = run_err(Value::Tensor(vec![1, 2]), vec![scalar_dim(bad)]);
        assert!(msg.contains("positive integers"), "unexpected error message: {msg}");
    }
}

#[test]
fn num2cell_too_many_arguments_error() {
    let msg = run_err(Value::Tensor(vec![1, 1]), vec![scalar_dim(1.0), scalar_dim(2.0)]);
    assert!(msg.contains("at most one dimension argument"), "unexpected error message: {msg}");
}

#[test]
fn unsupported_input_is_handed_back() {
    match num2cell(Value::Struct, &[]) {
        Err(Num2CellError::UnsupportedType(_)) => {}
        _ => panic!("expected unsupported type"),
    }
}
