//! The in-memory form of a MAT-file's contents, and the parser that reads
//! it from bytes.

pub mod reader;
pub mod types;

pub use reader::{parse, parse_header, Header, ParseError, ParseErrorKind, RawElement};
pub use types::{
    ArrayFlags, ArrayType, DataElement, DataType, MatrixView, NumericData, NumericView,
};
