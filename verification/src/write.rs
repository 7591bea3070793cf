//! Writing arrays into the layout of a MAT-file.

pub mod writers;

use crate::format::{
    array_flags_element, dimensions_element, element, header, lemma_default_description,
    matrix_element, matrix_payload, matrix_size, name_element,
};
use crate::parse::types::{
    ArrayFlags, ArrayType, DataElement, DataType, MatrixView, NumericData, NumericView,
};
use crate::primitive::ByteOrder;
use crate::scalar::ints;
use vstd::prelude::*;
use vstd::string::StringSliceAdditionalSpecFns;
use vstd::utf8::encode_utf8;

verus! {

/// Why nothing was written.
#[derive(Clone, Copy, Debug, PartialEq, Eq, Structural)]
pub enum WriteError {
    /// The description of the header has more than 116 bytes.
    DescriptionTooLong,
    /// A matrix has more than three dimensions.
    TooManyDimensions,
    /// The imaginary part has another number of values than the real part.
    LengthMismatch,
    /// A numeric part was to be written with a type that holds no numbers.
    NonNumericType,
}

/// What a 32-bit signed field holds of a count: its low 32 bits, read in
/// two's complement.
pub open spec fn count_as_i32(n: int) -> i32 {
    let low = n % 0x1_0000_0000;
    if low < 0x8000_0000 {
        low as i32
    } else {
        (low - 0x1_0000_0000) as i32
    }
}

/// The matrix that holds an array as one row: one row and as many columns
/// as there are values, class `Double`, complex where there is an
/// imaginary part.
pub open spec fn row_vector(
    name: Seq<char>,
    real_part: NumericView,
    imaginary_part: Option<NumericView>,
) -> MatrixView {
    MatrixView {
        flags: ArrayFlags {
            complex: imaginary_part is Some,
            global: false,
            logical: false,
            class: ArrayType::Double,
            nzmax: 0,
        },
        dimensions: seq![1int, count_as_i32(real_part.values.len() as int) as int],
        name,
        real_part,
        imaginary_part,
    }
}

/// The description of the header that [`MatFileWriter::new`] writes.
pub open spec fn library_description() -> Seq<u8> {
    encode_utf8("MATLAB 5.0 MAT-file, Platform: matfile-rs"@)
}

/// The description of the header that [`MatFileWriter::write`] writes.
pub open spec fn fixed_description() -> Seq<u8> {
    encode_utf8(
        "MATLAB 5.0 MAT-file, Platform: GLNXA64, Created on: Mon Jun 17 17:55:27 2024"@,
    )
}

/// The library's description has 41 bytes, and so fits a header.
pub proof fn lemma_library_description()
    ensures
        library_description().len() == 41,
{
    reveal_strlit("MATLAB 5.0 MAT-file, Platform: matfile-rs");
    let chars = "MATLAB 5.0 MAT-file, Platform: matfile-rs"@;
    assert(vstd::utf8::is_ascii_chars(chars));
    vstd::utf8::is_ascii_chars_encode_utf8(chars);
}

/// The fixed description has 76 bytes, and so fits a header.
pub proof fn lemma_fixed_description()
    ensures
        fixed_description().len() == 76,
{
    reveal_strlit("MATLAB 5.0 MAT-file, Platform: GLNXA64, Created on: Mon Jun 17 17:55:27 2024");
    let chars = "MATLAB 5.0 MAT-file, Platform: GLNXA64, Created on: Mon Jun 17 17:55:27 2024"@;
    assert(vstd::utf8::is_ascii_chars(chars));
    vstd::utf8::is_ascii_chars_encode_utf8(chars);
}

/// The row vector of an array is a matrix that can be written and read
/// back, where the parts of the array fit their types and the imaginary
/// part is as long as the real part.
pub proof fn lemma_row_vector_wf(
    name: Seq<char>,
    real_part: NumericView,
    imaginary_part: Option<NumericView>,
)
    requires
        real_part.wf(),
        imaginary_part matches Some(part) ==> part.wf() && part.values.len()
            == real_part.values.len(),
    ensures
        row_vector(name, real_part, imaginary_part).wf(),
{
    let matrix = row_vector(name, real_part, imaginary_part);
    assert(matrix.dimensions.len() == 2);
    assert(crate::scalar::all_in_range(matrix.dimensions, 4, true));
}

/// The count of an array as the second dimension of its row vector.
pub fn row_length(count: usize) -> (r: i32)
    ensures
        r == count_as_i32(count as int),
{
    let low: u64 = (count as u64) % 0x1_0000_0000;
    if low < 0x8000_0000 {
        low as i32
    } else {
        (low as i64 - 0x1_0000_0000) as i32
    }
}

/// Writes MAT-files into byte buffers, in one byte order.
pub struct MatFileWriter {
    /// The byte order of everything that this writer writes.
    pub byte_order: ByteOrder,
}

impl MatFileWriter {
    /// A writer for the byte order of the machine that runs the call.
    pub fn native() -> MatFileWriter {
        MatFileWriter::with_byte_order(ByteOrder::native())
    }

    /// A writer for the given byte order.
    pub fn with_byte_order(byte_order: ByteOrder) -> (r: MatFileWriter)
        ensures
            r.byte_order == byte_order,
    {
        MatFileWriter { byte_order }
    }

    /// Starts a file at the end of `w`: writes a header with the library's
    /// description, in the byte order of the machine that runs the call,
    /// and gives the writer to go on with.
    pub fn new(w: &mut Vec<u8>) -> (r: Result<MatFileWriter, WriteError>)
        ensures
            r matches Ok(writer) && final(w)@ == old(w)@ + header(
                library_description(),
                writer.byte_order,
            ),
    {
        proof {
            lemma_library_description();
        }
        Self::new_with_description(w, "MATLAB 5.0 MAT-file, Platform: matfile-rs")
    }

    /// Starts a file at the end of `w`: writes a header with the given
    /// description, in the byte order of the machine that runs the call,
    /// and gives the writer to go on with. A description that has more than
    /// 116 bytes is refused.
    pub fn new_with_description(w: &mut Vec<u8>, description: &str) -> (r: Result<
        MatFileWriter,
        WriteError,
    >)
        ensures
            match r {
                Ok(writer) => description.spec_bytes().len() <= 116 && final(w)@ == old(w)@
                    + header(description.spec_bytes(), writer.byte_order),
                Err(e) => e == WriteError::DescriptionTooLong && description.spec_bytes().len()
                    > 116 && final(w)@ == old(w)@,
            },
    {
        let matfile = MatFileWriter::native();
        proof {
            lemma_default_description();
        }
        writers::write_header(w, description, matfile.byte_order)?;

        Ok(matfile)
    }

    /// Writes an array as a matrix of one row, class `Double`, at the end
    /// of `w`. An imaginary part of another length than the real part is
    /// refused.
    pub fn write_array(
        &self,
        w: &mut Vec<u8>,
        name: &str,
        real_part: NumericData,
        imaginary_part: Option<NumericData>,
    ) -> (r: Result<(), WriteError>)
        ensures
            match r {
                Ok(()) => (imaginary_part matches Some(part) ==> part@.values.len()
                    == real_part@.values.len()) && final(w)@ == old(w)@ + matrix_element(
                    row_vector(
                        name@,
                        real_part@,
                        match imaginary_part {
                            Some(part) => Some(part@),
                            None => None,
                        },
                    ),
                    self.byte_order,
                ),
                Err(e) => e == WriteError::LengthMismatch && (imaginary_part matches Some(part)
                    && part@.values.len() != real_part@.values.len()) && final(w)@ == old(w)@,
            },
    {
        let complex = imaginary_part.is_some();
        if let Some(part) = &imaginary_part {
            if real_part.len() != part.len() {
                return Err(WriteError::LengthMismatch);
            }
        }
        let dim: Vec<i32> = vec![1i32, row_length(real_part.len())];

        let matrix = DataElement::NumericMatrix(
            ArrayFlags {
                complex,
                global: false,
                logical: false,
                class: ArrayType::Double,
                nzmax: 0,
            },
            dim,
            name.to_owned(),
            real_part,
            imaginary_part,
        );
        assert(matrix@.dimensions =~= seq![
            1int,
            count_as_i32(real_part@.values.len() as int) as int,
        ]);
        let mut buf: Vec<u8> = Vec::new();
        writers::write_matrix_payload(&mut buf, &matrix, self.byte_order)?;
        assert(buf@ =~= matrix_payload(matrix@, self.byte_order));

        writers::write_data_element(w, DataType::Matrix, buf.as_slice(), self.byte_order)
    }

    /// Writes a whole file at the end of `w`: a header with a fixed
    /// description, and `nums` as a matrix of one row under the given name.
    pub fn write(&self, w: &mut Vec<u8>, array_name: &str, nums: &[i32]) -> (r: Result<
        (),
        WriteError,
    >)
        ensures
            r is Ok,
            final(w)@ == old(w)@ + header(fixed_description(), self.byte_order) + matrix_element(
                row_vector(
                    array_name@,
                    NumericView { kind: DataType::Int32, values: ints(nums@) },
                    None,
                ),
                self.byte_order,
            ),
    {
        proof {
            lemma_fixed_description();
        }
        self.write_header(
            w,
            "MATLAB 5.0 MAT-file, Platform: GLNXA64, Created on: Mon Jun 17 17:55:27 2024",
        )?;

        let values = vstd::slice::slice_to_vec(nums);
        self.write_array(w, array_name, NumericData::Int32(values), None)
    }

    /// Writes the header of a file; see [`writers::write_header`].
    pub fn write_header(&self, w: &mut Vec<u8>, text: &str) -> (r: Result<(), WriteError>)
        ensures
            match r {
                Ok(()) => crate::format::effective_description(text.spec_bytes()).len() <= 116
                    && final(w)@ == old(w)@ + header(text.spec_bytes(), self.byte_order),
                Err(e) => e == WriteError::DescriptionTooLong
                    && crate::format::effective_description(text.spec_bytes()).len() > 116
                    && final(w)@ == old(w)@,
            },
    {
        writers::write_header(w, text, self.byte_order)
    }

    /// Writes a matrix as one data element; see [`writers::write_matrix`].
    pub fn write_matrix(&self, w: &mut Vec<u8>, data_element: DataElement) -> (r: Result<
        (),
        WriteError,
    >)
        ensures
            match r {
                Ok(()) => writers::matrix_fault(data_element@) is None && final(w)@ == old(w)@
                    + matrix_element(data_element@, self.byte_order),
                Err(e) => writers::matrix_fault(data_element@) == Some(e) && final(w)@ == old(w)@,
            },
    {
        writers::write_matrix(w, data_element, self.byte_order)
    }

    /// Writes one data element; see [`writers::write_data_element`].
    pub fn write_data_element(&self, w: &mut Vec<u8>, data_type: DataType, byte_data: &[u8]) -> (r:
        Result<(), WriteError>)
        ensures
            r is Ok,
            final(w)@ == old(w)@ + element(data_type, byte_data@, self.byte_order),
    {
        writers::write_data_element(w, data_type, byte_data, self.byte_order)
    }

    /// Writes the array flags; see
    /// [`writers::write_sub_element_array_flags`].
    pub fn write_sub_element_array_flags(&self, w: &mut Vec<u8>, array_flags: ArrayFlags) -> (r:
        Result<(), WriteError>)
        ensures
            r is Ok,
            final(w)@ == old(w)@ + array_flags_element(array_flags, self.byte_order),
    {
        writers::write_sub_element_array_flags(w, array_flags, self.byte_order)
    }

    /// Writes the dimensions; see
    /// [`writers::write_sub_element_dimensions`].
    pub fn write_sub_element_dimensions(&self, w: &mut Vec<u8>, dimensions: &[i32]) -> (r: Result<
        (),
        WriteError,
    >)
        ensures
            match r {
                Ok(()) => dimensions@.len() <= 3 && final(w)@ == old(w)@ + dimensions_element(
                    ints(dimensions@),
                    self.byte_order,
                ),
                Err(e) => e == WriteError::TooManyDimensions && dimensions@.len() > 3 && final(w)@
                    == old(w)@,
            },
    {
        writers::write_sub_element_dimensions(w, dimensions, self.byte_order)
    }

    /// Writes the name; see [`writers::write_sub_element_array_name`].
    pub fn write_sub_element_array_name(&self, w: &mut Vec<u8>, array_name: &str) -> (r: Result<
        (),
        WriteError,
    >)
        ensures
            r is Ok,
            final(w)@ == old(w)@ + name_element(array_name@, self.byte_order),
    {
        writers::write_sub_element_array_name(w, array_name, self.byte_order)
    }

    /// Writes the real part; see
    /// [`writers::write_sub_element_real_part`].
    pub fn write_sub_element_real_part(
        &self,
        w: &mut Vec<u8>,
        data_type: DataType,
        data: &[u8],
    ) -> (r: Result<(), WriteError>)
        ensures
            match r {
                Ok(()) => data_type.is_numeric() && final(w)@ == old(w)@ + element(
                    data_type,
                    data@,
                    self.byte_order,
                ),
                Err(e) => e == WriteError::NonNumericType && !data_type.is_numeric() && final(w)@
                    == old(w)@,
            },
    {
        writers::write_sub_element_real_part(w, data_type, data, self.byte_order)
    }

    /// Writes the imaginary part; see
    /// [`writers::write_sub_element_imaginary_part`].
    pub fn write_sub_element_imaginary_part(
        &self,
        w: &mut Vec<u8>,
        data_type: DataType,
        data: &[u8],
    ) -> (r: Result<(), WriteError>)
        ensures
            match r {
                Ok(()) => data_type.is_numeric() && final(w)@ == old(w)@ + element(
                    data_type,
                    data@,
                    self.byte_order,
                ),
                Err(e) => e == WriteError::NonNumericType && !data_type.is_numeric() && final(w)@
                    == old(w)@,
            },
    {
        self.write_sub_element_real_part(w, data_type, data)
    }
}

impl DataElement {
    /// The number of bytes of the payload of the matrix; see
    /// [`writers::sizes::data_element`].
    pub fn calculate_size(&self) -> (r: usize)
        requires
            matrix_size(self@) <= usize::MAX,
        ensures
            r == matrix_size(self@),
    {
        writers::sizes::data_element(self)
    }
}

} // verus!
