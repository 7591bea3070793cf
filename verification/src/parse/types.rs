//! The three vocabularies of the format (wire types, array classes, numeric
//! variants) and the arrays that are written and read.

use crate::primitive::ByteOrder;
use crate::scalar::{all_in_range, decode_all, decode_values, encode_all, encode_values, ints};
use vstd::prelude::*;

verus! {

/// The type of a data element as its tag names it.
#[derive(Clone, Copy, Debug, PartialEq, Eq, Structural)]
pub enum DataType {
    Int8,
    UInt8,
    Int16,
    UInt16,
    Int32,
    UInt32,
    Single,
    Double,
    Int64,
    UInt64,
    Matrix,
    Compressed,
    Utf8,
    Utf16,
    Utf32,
}

impl DataType {
    /// The code that stands for this type in a tag.
    pub open spec fn spec_code(self) -> u32 {
        match self {
            DataType::Int8 => 1,
            DataType::UInt8 => 2,
            DataType::Int16 => 3,
            DataType::UInt16 => 4,
            DataType::Int32 => 5,
            DataType::UInt32 => 6,
            DataType::Single => 7,
            DataType::Double => 9,
            DataType::Int64 => 12,
            DataType::UInt64 => 13,
            DataType::Matrix => 14,
            DataType::Compressed => 15,
            DataType::Utf8 => 16,
            DataType::Utf16 => 17,
            DataType::Utf32 => 18,
        }
    }

    /// The type that a code stands for, if it stands for one.
    pub open spec fn spec_from_code(code: u32) -> Option<DataType> {
        if code == 1 {
            Some(DataType::Int8)
        } else if code == 2 {
            Some(DataType::UInt8)
        } else if code == 3 {
            Some(DataType::Int16)
        } else if code == 4 {
            Some(DataType::UInt16)
        } else if code == 5 {
            Some(DataType::Int32)
        } else if code == 6 {
            Some(DataType::UInt32)
        } else if code == 7 {
            Some(DataType::Single)
        } else if code == 9 {
            Some(DataType::Double)
        } else if code == 12 {
            Some(DataType::Int64)
        } else if code == 13 {
            Some(DataType::UInt64)
        } else if code == 14 {
            Some(DataType::Matrix)
        } else if code == 15 {
            Some(DataType::Compressed)
        } else if code == 16 {
            Some(DataType::Utf8)
        } else if code == 17 {
            Some(DataType::Utf16)
        } else if code == 18 {
            Some(DataType::Utf32)
        } else {
            None
        }
    }

    /// The number of bytes of one value of a numeric type; zero for a type
    /// that holds no numbers.
    pub open spec fn width(self) -> nat {
        match self {
            DataType::Int8 | DataType::UInt8 => 1,
            DataType::Int16 | DataType::UInt16 => 2,
            DataType::Int32 | DataType::UInt32 | DataType::Single => 4,
            DataType::Int64 | DataType::UInt64 | DataType::Double => 8,
            _ => 0,
        }
    }

    /// Whether the type holds numbers.
    pub open spec fn is_numeric(self) -> bool {
        self.width() != 0
    }

    /// Whether the values of the type are stored in two's complement. The
    /// floating-point types are stored as their unsigned bit patterns.
    pub open spec fn signed(self) -> bool {
        self == DataType::Int8 || self == DataType::Int16 || self == DataType::Int32 || self
            == DataType::Int64
    }

    /// The code that stands for this type in a tag.
    pub fn code(self) -> (r: u32)
        ensures
            r == self.spec_code(),
    {
        match self {
            DataType::Int8 => 1,
            DataType::UInt8 => 2,
            DataType::Int16 => 3,
            DataType::UInt16 => 4,
            DataType::Int32 => 5,
            DataType::UInt32 => 6,
            DataType::Single => 7,
            DataType::Double => 9,
            DataType::Int64 => 12,
            DataType::UInt64 => 13,
            DataType::Matrix => 14,
            DataType::Compressed => 15,
            DataType::Utf8 => 16,
            DataType::Utf16 => 17,
            DataType::Utf32 => 18,
        }
    }

    /// The type that a code stands for, or `None` for a code of no type.
    pub fn from_code(code: u32) -> (r: Option<DataType>)
        ensures
            r == Self::spec_from_code(code),
    {
        match code {
            1 => Some(DataType::Int8),
            2 => Some(DataType::UInt8),
            3 => Some(DataType::Int16),
            4 => Some(DataType::UInt16),
            5 => Some(DataType::Int32),
            6 => Some(DataType::UInt32),
            7 => Some(DataType::Single),
            9 => Some(DataType::Double),
            12 => Some(DataType::Int64),
            13 => Some(DataType::UInt64),
            14 => Some(DataType::Matrix),
            15 => Some(DataType::Compressed),
            16 => Some(DataType::Utf8),
            17 => Some(DataType::Utf16),
            18 => Some(DataType::Utf32),
            _ => None,
        }
    }

    /// The number of bytes of one value, for a numeric type; `None` for a
    /// type that holds no numbers.
    pub fn byte_size(&self) -> (r: Option<usize>)
        ensures
            match r {
                Some(n) => self.is_numeric() && n == self.width(),
                None => !self.is_numeric(),
            },
    {
        match self {
            DataType::Int8 | DataType::UInt8 => Some(1),
            DataType::Int16 | DataType::UInt16 => Some(2),
            DataType::Int32 | DataType::UInt32 | DataType::Single => Some(4),
            DataType::Int64 | DataType::UInt64 | DataType::Double => Some(8),
            _ => None,
        }
    }

    /// A type is found again from its code.
    pub proof fn lemma_code_round_trip(self)
        ensures
            Self::spec_from_code(self.spec_code()) == Some(self),
    {
    }
}

/// The class of an array: what its elements are to the program that reads
/// it, whatever type they are stored in.
#[derive(Clone, Copy, Debug, PartialEq, Eq, Structural)]
pub enum ArrayType {
    Cell,
    Struct,
    Object,
    Char,
    Sparse,
    Double,
    Single,
    Int8,
    UInt8,
    Int16,
    UInt16,
    Int32,
    UInt32,
    Int64,
    UInt64,
}

impl ArrayType {
    /// The code that stands for this class in the array flags.
    pub open spec fn spec_code(self) -> u8 {
        match self {
            ArrayType::Cell => 1,
            ArrayType::Struct => 2,
            ArrayType::Object => 3,
            ArrayType::Char => 4,
            ArrayType::Sparse => 5,
            ArrayType::Double => 6,
            ArrayType::Single => 7,
            ArrayType::Int8 => 8,
            ArrayType::UInt8 => 9,
            ArrayType::Int16 => 10,
            ArrayType::UInt16 => 11,
            ArrayType::Int32 => 12,
            ArrayType::UInt32 => 13,
            ArrayType::Int64 => 14,
            ArrayType::UInt64 => 15,
        }
    }

    /// The class that a code stands for, if it stands for one.
    pub open spec fn spec_from_code(code: u8) -> Option<ArrayType> {
        if code == 1 {
            Some(ArrayType::Cell)
        } else if code == 2 {
            Some(ArrayType::Struct)
        } else if code == 3 {
            Some(ArrayType::Object)
        } else if code == 4 {
            Some(ArrayType::Char)
        } else if code == 5 {
            Some(ArrayType::Sparse)
        } else if code == 6 {
            Some(ArrayType::Double)
        } else if code == 7 {
            Some(ArrayType::Single)
        } else if code == 8 {
            Some(ArrayType::Int8)
        } else if code == 9 {
            Some(ArrayType::UInt8)
        } else if code == 10 {
            Some(ArrayType::Int16)
        } else if code == 11 {
            Some(ArrayType::UInt16)
        } else if code == 12 {
            Some(ArrayType::Int32)
        } else if code == 13 {
            Some(ArrayType::UInt32)
        } else if code == 14 {
            Some(ArrayType::Int64)
        } else if code == 15 {
            Some(ArrayType::UInt64)
        } else {
            None
        }
    }

    /// Whether arrays of this class are plain numeric matrices.
    pub open spec fn spec_is_numeric(self) -> bool {
        self.spec_code() >= 6
    }

    /// The code that stands for this class in the array flags.
    pub fn code(self) -> (r: u8)
        ensures
            r == self.spec_code(),
    {
        match self {
            ArrayType::Cell => 1,
            ArrayType::Struct => 2,
            ArrayType::Object => 3,
            ArrayType::Char => 4,
            ArrayType::Sparse => 5,
            ArrayType::Double => 6,
            ArrayType::Single => 7,
            ArrayType::Int8 => 8,
            ArrayType::UInt8 => 9,
            ArrayType::Int16 => 10,
            ArrayType::UInt16 => 11,
            ArrayType::Int32 => 12,
            ArrayType::UInt32 => 13,
            ArrayType::Int64 => 14,
            ArrayType::UInt64 => 15,
        }
    }

    /// The class that a code stands for, or `None` for a code of no class.
    pub fn from_code(code: u8) -> (r: Option<ArrayType>)
        ensures
            r == Self::spec_from_code(code),
    {
        match code {
            1 => Some(ArrayType::Cell),
            2 => Some(ArrayType::Struct),
            3 => Some(ArrayType::Object),
            4 => Some(ArrayType::Char),
            5 => Some(ArrayType::Sparse),
            6 => Some(ArrayType::Double),
            7 => Some(ArrayType::Single),
            8 => Some(ArrayType::Int8),
            9 => Some(ArrayType::UInt8),
            10 => Some(ArrayType::Int16),
            11 => Some(ArrayType::UInt16),
            12 => Some(ArrayType::Int32),
            13 => Some(ArrayType::UInt32),
            14 => Some(ArrayType::Int64),
            15 => Some(ArrayType::UInt64),
            _ => None,
        }
    }

    /// Whether arrays of this class are plain numeric matrices.
    pub fn is_numeric(self) -> (r: bool)
        ensures
            r == self.spec_is_numeric(),
    {
        match self {
            ArrayType::Cell
            | ArrayType::Struct
            | ArrayType::Object
            | ArrayType::Char
            | ArrayType::Sparse => false,
            _ => true,
        }
    }

    /// A class is found again from its code.
    pub proof fn lemma_code_round_trip(self)
        ensures
            Self::spec_from_code(self.spec_code()) == Some(self),
    {
    }
}

/// What the array flags of a matrix say.
#[derive(Clone, Copy, Debug, PartialEq, Eq, Structural)]
pub struct ArrayFlags {
    /// The matrix has an imaginary part.
    pub complex: bool,
    /// The matrix is a global variable.
    pub global: bool,
    /// The matrix holds truth values.
    pub logical: bool,
    /// The class of the matrix.
    pub class: ArrayType,
    /// The number of non-zero elements a sparse matrix has room for; zero
    /// for any other class.
    pub nzmax: u32,
}

/// The numbers of one part of a matrix, in one of the ten numeric types.
/// `Single` and `Double` hold the bit patterns of IEEE 754 numbers of 32
/// and 64 bits.
#[derive(Clone, Debug, PartialEq)]
pub enum NumericData {
    Int8(Vec<i8>),
    UInt8(Vec<u8>),
    Int16(Vec<i16>),
    UInt16(Vec<u16>),
    Int32(Vec<i32>),
    UInt32(Vec<u32>),
    Int64(Vec<i64>),
    UInt64(Vec<u64>),
    Single(Vec<u32>),
    Double(Vec<u64>),
}

/// Numeric data as mathematics sees it: the type, and the values as
/// integers in the order they are stored.
pub struct NumericView {
    pub kind: DataType,
    pub values: Seq<int>,
}

impl NumericView {
    /// The type is numeric and every value is one of that type.
    pub open spec fn wf(self) -> bool {
        &&& self.kind.is_numeric()
        &&& all_in_range(self.values, self.kind.width(), self.kind.signed())
    }
}

impl View for NumericData {
    type V = NumericView;

    open spec fn view(&self) -> NumericView {
        match self {
            NumericData::Int8(v) => NumericView { kind: DataType::Int8, values: ints(v@) },
            NumericData::UInt8(v) => NumericView { kind: DataType::UInt8, values: ints(v@) },
            NumericData::Int16(v) => NumericView { kind: DataType::Int16, values: ints(v@) },
            NumericData::UInt16(v) => NumericView { kind: DataType::UInt16, values: ints(v@) },
            NumericData::Int32(v) => NumericView { kind: DataType::Int32, values: ints(v@) },
            NumericData::UInt32(v) => NumericView { kind: DataType::UInt32, values: ints(v@) },
            NumericData::Int64(v) => NumericView { kind: DataType::Int64, values: ints(v@) },
            NumericData::UInt64(v) => NumericView { kind: DataType::UInt64, values: ints(v@) },
            NumericData::Single(v) => NumericView { kind: DataType::Single, values: ints(v@) },
            NumericData::Double(v) => NumericView { kind: DataType::Double, values: ints(v@) },
        }
    }
}

/// The bytes of the values of numeric data, one value after the other.
pub open spec fn numeric_payload(data: NumericView, order: ByteOrder) -> Seq<u8> {
    encode_values(data.values, data.kind.width(), order)
}

impl NumericData {
    /// The number of values.
    pub fn len(&self) -> (r: usize)
        ensures
            r == self@.values.len(),
    {
        match self {
            NumericData::Int8(v) => v.len(),
            NumericData::UInt8(v) => v.len(),
            NumericData::Int16(v) => v.len(),
            NumericData::UInt16(v) => v.len(),
            NumericData::Int32(v) => v.len(),
            NumericData::UInt32(v) => v.len(),
            NumericData::Int64(v) => v.len(),
            NumericData::UInt64(v) => v.len(),
            NumericData::Single(v) => v.len(),
            NumericData::Double(v) => v.len(),
        }
    }

    /// The wire type that the values are stored in.
    pub fn data_type(&self) -> (r: DataType)
        ensures
            r == self@.kind,
            r.is_numeric(),
    {
        match self {
            NumericData::Int8(_) => DataType::Int8,
            NumericData::UInt8(_) => DataType::UInt8,
            NumericData::Int16(_) => DataType::Int16,
            NumericData::UInt16(_) => DataType::UInt16,
            NumericData::Int32(_) => DataType::Int32,
            NumericData::UInt32(_) => DataType::UInt32,
            NumericData::Int64(_) => DataType::Int64,
            NumericData::UInt64(_) => DataType::UInt64,
            NumericData::Single(_) => DataType::Single,
            NumericData::Double(_) => DataType::Double,
        }
    }

    /// What is true of the view of any numeric data.
    pub proof fn lemma_view_wf(&self)
        ensures
            self@.wf(),
    {
        match self {
            NumericData::Int8(v) => crate::scalar::lemma_ints_in_range::<i8>(v@),
            NumericData::UInt8(v) => crate::scalar::lemma_ints_in_range::<u8>(v@),
            NumericData::Int16(v) => crate::scalar::lemma_ints_in_range::<i16>(v@),
            NumericData::UInt16(v) => crate::scalar::lemma_ints_in_range::<u16>(v@),
            NumericData::Int32(v) => crate::scalar::lemma_ints_in_range::<i32>(v@),
            NumericData::UInt32(v) => crate::scalar::lemma_ints_in_range::<u32>(v@),
            NumericData::Int64(v) => crate::scalar::lemma_ints_in_range::<i64>(v@),
            NumericData::UInt64(v) => crate::scalar::lemma_ints_in_range::<u64>(v@),
            NumericData::Single(v) => crate::scalar::lemma_ints_in_range::<u32>(v@),
            NumericData::Double(v) => crate::scalar::lemma_ints_in_range::<u64>(v@),
        }
    }

    /// Writes the bytes of the values, in order, at the end of `out`.
    pub fn write_to(&self, order: ByteOrder, out: &mut Vec<u8>)
        ensures
            final(out)@ == old(out)@ + numeric_payload(self@, order),
    {
        match self {
            NumericData::Int8(v) => encode_all(v.as_slice(), order, out),
            NumericData::UInt8(v) => encode_all(v.as_slice(), order, out),
            NumericData::Int16(v) => encode_all(v.as_slice(), order, out),
            NumericData::UInt16(v) => encode_all(v.as_slice(), order, out),
            NumericData::Int32(v) => encode_all(v.as_slice(), order, out),
            NumericData::UInt32(v) => encode_all(v.as_slice(), order, out),
            NumericData::Int64(v) => encode_all(v.as_slice(), order, out),
            NumericData::UInt64(v) => encode_all(v.as_slice(), order, out),
            NumericData::Single(v) => encode_all(v.as_slice(), order, out),
            NumericData::Double(v) => encode_all(v.as_slice(), order, out),
        }
    }

    /// The numeric data of the given type that the bytes hold, if the type
    /// is numeric and the bytes hold whole values.
    pub open spec fn spec_from_bytes(kind: DataType, bytes: Seq<u8>, order: ByteOrder) -> Option<
        NumericView,
    > {
        if kind.is_numeric() && bytes.len() as int % kind.width() as int == 0 {
            Some(
                NumericView {
                    kind,
                    values: decode_values(bytes, kind.width(), kind.signed(), order),
                },
            )
        } else {
            None
        }
    }

    /// Reads the values of the given type that `bytes` holds, one after
    /// the other. Gives `None` for a type that holds no numbers, and for
    /// bytes that do not hold whole values.
    pub fn from_bytes(kind: DataType, bytes: &[u8], order: ByteOrder) -> (r: Option<NumericData>)
        ensures
            match r {
                Some(data) => Self::spec_from_bytes(kind, bytes@, order) == Some(data@),
                None => Self::spec_from_bytes(kind, bytes@, order) is None,
            },
    {
        if kind.byte_size().is_none() {
            return None;
        }
        match kind {
            DataType::Int8 => match decode_all(bytes, order) {
                Some(values) => Some(NumericData::Int8(values)),
                None => None,
            },
            DataType::UInt8 => match decode_all(bytes, order) {
                Some(values) => Some(NumericData::UInt8(values)),
                None => None,
            },
            DataType::Int16 => match decode_all(bytes, order) {
                Some(values) => Some(NumericData::Int16(values)),
                None => None,
            },
            DataType::UInt16 => match decode_all(bytes, order) {
                Some(values) => Some(NumericData::UInt16(values)),
                None => None,
            },
            DataType::Int32 => match decode_all(bytes, order) {
                Some(values) => Some(NumericData::Int32(values)),
                None => None,
            },
            DataType::UInt32 => match decode_all(bytes, order) {
                Some(values) => Some(NumericData::UInt32(values)),
                None => None,
            },
            DataType::Int64 => match decode_all(bytes, order) {
                Some(values) => Some(NumericData::Int64(values)),
                None => None,
            },
            DataType::UInt64 => match decode_all(bytes, order) {
                Some(values) => Some(NumericData::UInt64(values)),
                None => None,
            },
            DataType::Single => match decode_all(bytes, order) {
                Some(values) => Some(NumericData::Single(values)),
                None => None,
            },
            DataType::Double => match decode_all(bytes, order) {
                Some(values) => Some(NumericData::Double(values)),
                None => None,
            },
            _ => None,
        }
    }

    /// The bytes of the values, one value after the other, in the given
    /// byte order.
    pub fn to_bytes(&self, order: ByteOrder) -> (r: Vec<u8>)
        ensures
            r@ == numeric_payload(self@, order),
    {
        let mut out: Vec<u8> = Vec::new();
        self.write_to(order, &mut out);
        assert(Seq::<u8>::empty() + numeric_payload(self@, order) =~= numeric_payload(
            self@,
            order,
        ));
        out
    }

    /// The bytes of the values, one value after the other, most
    /// significant byte first.
    pub fn to_be_bytes(&self) -> (r: Vec<u8>)
        ensures
            r@ == numeric_payload(self@, ByteOrder::Big),
    {
        self.to_bytes(ByteOrder::Big)
    }

    /// The bytes of the values, one value after the other, least
    /// significant byte first.
    pub fn to_le_bytes(&self) -> (r: Vec<u8>)
        ensures
            r@ == numeric_payload(self@, ByteOrder::Little),
    {
        self.to_bytes(ByteOrder::Little)
    }

    /// The bytes of the values, one value after the other, in the byte
    /// order of the machine that runs the call.
    pub fn to_ne_bytes(self) -> (r: Vec<u8>)
        ensures
            r@ == numeric_payload(self@, ByteOrder::Little) || r@ == numeric_payload(
                self@,
                ByteOrder::Big,
            ),
    {
        self.to_bytes(ByteOrder::native())
    }
}

/// One data element of a file. Numeric matrices are the only kind there
/// is: the flags, the dimensions, the name, the real part, and the
/// imaginary part if the matrix is complex.
#[derive(Clone, Debug, PartialEq)]
pub enum DataElement {
    NumericMatrix(ArrayFlags, Vec<i32>, String, NumericData, Option<NumericData>),
}

/// A numeric matrix as mathematics sees it.
pub struct MatrixView {
    pub flags: ArrayFlags,
    pub dimensions: Seq<int>,
    pub name: Seq<char>,
    pub real_part: NumericView,
    pub imaginary_part: Option<NumericView>,
}

impl MatrixView {
    /// What holds of a matrix that can be written and read back: at most
    /// three dimensions of 32 bits, a numeric class, parts whose values fit
    /// their types, an imaginary part exactly where the flags say so, and
    /// as many imaginary values as real ones.
    pub open spec fn wf(self) -> bool {
        &&& self.dimensions.len() <= 3
        &&& all_in_range(self.dimensions, 4, true)
        &&& self.flags.class.spec_is_numeric()
        &&& self.real_part.wf()
        &&& self.flags.complex == self.imaginary_part.is_some()
        &&& self.imaginary_part matches Some(imaginary) ==> imaginary.wf()
            && imaginary.values.len() == self.real_part.values.len()
    }
}

impl View for DataElement {
    type V = MatrixView;

    open spec fn view(&self) -> MatrixView {
        match self {
            DataElement::NumericMatrix(
                flags,
                dimensions,
                name,
                real_part,
                imaginary_part,
            ) => MatrixView {
                flags: *flags,
                dimensions: ints(dimensions@),
                name: name@,
                real_part: real_part@,
                imaginary_part: match imaginary_part {
                    Some(data) => Some(data@),
                    None => None,
                },
            },
        }
    }
}

} // verus!
