//! The builtins' view of a runtime value. Text and shape content are held as
//! plain values; numeric payloads (doubles) stay with the caller, so the
//! numeric variants only record their class and extent.

use vstd::prelude::*;

verus! {

/// Character matrix stored row by row.
pub struct CharArray {
    pub data: Vec<char>,
    pub rows: usize,
    pub cols: usize,
}

impl CharArray {
    /// `data` holds exactly `rows * cols` characters.
    pub open spec fn wf(&self) -> bool {
        self.data@.len() == self.rows * self.cols
    }

    /// Row `r` of the matrix.
    pub open spec fn row(&self, r: int) -> Seq<char> {
        self.data@.subrange(r * self.cols, r * self.cols + self.cols)
    }

    /// A 1-by-n row holding `text`.
    pub fn new_row(text: &[char]) -> (a: CharArray)
        ensures
            a.wf(),
            a.rows == 1,
            a.cols == text@.len(),
            a.data@ == text@,
    {
        let mut data: Vec<char> = Vec::new();
        let mut i: usize = 0;
        while i < text.len()
            invariant
                i <= text@.len(),
                data@ == text@.subrange(0, i as int),
            decreases text@.len() - i,
        {
            data.push(text[i]);
            i = i + 1;
        }
        CharArray { data, rows: 1, cols: text.len() }
    }

    /// The 0-by-0 character array.
    pub fn empty() -> (a: CharArray)
        ensures
            a.wf(),
            a.rows == 0,
            a.cols == 0,
            a.data@.len() == 0,
    {
        CharArray { data: Vec::new(), rows: 0, cols: 0 }
    }
}

/// N-D array of strings (column-major).
pub struct StringArray {
    pub data: Vec<String>,
    pub shape: Vec<usize>,
}

/// N-D logical array (column-major, one byte per element).
pub struct LogicalArray {
    pub data: Vec<u8>,
    pub shape: Vec<usize>,
}

/// Class of a value, without its contents.
#[derive(PartialEq, Eq, Structural, Clone, Copy, Debug)]
pub enum ValueClass {
    Num,
    Int,
    Complex,
    Bool,
    LogicalArray,
    String,
    StringArray,
    CharArray,
    Tensor,
    SparseTensor,
    ComplexTensor,
    Cell,
    Struct,
    GpuTensor,
    Object,
    HandleObject,
    FunctionHandle,
    Other,
}

/// A runtime value as the builtins read it.
pub enum Value {
    /// Real double scalar.
    Num,
    /// Integer scalar of some integer class.
    Int,
    /// Complex double scalar.
    Complex,
    Bool(bool),
    LogicalArray(LogicalArray),
    String(String),
    StringArray(StringArray),
    CharArray(CharArray),
    /// Real double array of the given shape.
    Tensor(Vec<usize>),
    /// Sparse matrix of the given rows and columns.
    SparseTensor(usize, usize),
    /// Complex array of the given shape.
    ComplexTensor(Vec<usize>),
    /// Cell array: the classes of its elements, in storage order.
    Cell(Vec<ValueClass>),
    Struct,
    GpuTensor,
    Object,
    HandleObject,
    FunctionHandle,
    Other,
}

impl Value {
    pub open spec fn class(&self) -> ValueClass {
        match self {
            Value::Num => ValueClass::Num,
            Value::Int => ValueClass::Int,
            Value::Complex => ValueClass::Complex,
            Value::Bool(_) => ValueClass::Bool,
            Value::LogicalArray(_) => ValueClass::LogicalArray,
            Value::String(_) => ValueClass::String,
            Value::StringArray(_) => ValueClass::StringArray,
            Value::CharArray(_) => ValueClass::CharArray,
            Value::Tensor(_) => ValueClass::Tensor,
            Value::SparseTensor(_, _) => ValueClass::SparseTensor,
            Value::ComplexTensor(_) => ValueClass::ComplexTensor,
            Value::Cell(_) => ValueClass::Cell,
            Value::Struct => ValueClass::Struct,
            Value::GpuTensor => ValueClass::GpuTensor,
            Value::Object => ValueClass::Object,
            Value::HandleObject => ValueClass::HandleObject,
            Value::FunctionHandle => ValueClass::FunctionHandle,
            Value::Other => ValueClass::Other,
        }
    }
}

} // verus!
