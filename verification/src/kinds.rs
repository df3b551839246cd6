//! The kinds of payload and the classes of array, with the numbers that
//! stand for them in a file, and which kind may fill which.

use vstd::prelude::*;

verus! {

/// The kind of payload that a tag announces.
#[derive(Debug, PartialEq, Eq, Clone, Copy, Structural)]
pub enum DataType {
    Int8,
    UInt8,
    Int16,
    UInt16,
    Int32,
    UInt32,
    Single,
    Double,
    Int64,
    UInt64,
    Matrix,
    Compressed,
    Utf8,
    Utf16,
    Utf32,
}

impl DataType {
    /// The number that stands for this kind in a tag.
    pub open spec fn spec_code(self) -> int {
        match self {
            DataType::Int8 => 1,
            DataType::UInt8 => 2,
            DataType::Int16 => 3,
            DataType::UInt16 => 4,
            DataType::Int32 => 5,
            DataType::UInt32 => 6,
            DataType::Single => 7,
            DataType::Double => 9,
            DataType::Int64 => 12,
            DataType::UInt64 => 13,
            DataType::Matrix => 14,
            DataType::Compressed => 15,
            DataType::Utf8 => 16,
            DataType::Utf16 => 17,
            DataType::Utf32 => 18,
        }
    }

    /// The kind that `code` stands for, if any.
    pub open spec fn spec_from_code(code: int) -> Option<DataType> {
        if code == 1 {
            Some(DataType::Int8)
        } else if code == 2 {
            Some(DataType::UInt8)
        } else if code == 3 {
            Some(DataType::Int16)
        } else if code == 4 {
            Some(DataType::UInt16)
        } else if code == 5 {
            Some(DataType::Int32)
        } else if code == 6 {
            Some(DataType::UInt32)
        } else if code == 7 {
            Some(DataType::Single)
        } else if code == 9 {
            Some(DataType::Double)
        } else if code == 12 {
            Some(DataType::Int64)
        } else if code == 13 {
            Some(DataType::UInt64)
        } else if code == 14 {
            Some(DataType::Matrix)
        } else if code == 15 {
            Some(DataType::Compressed)
        } else if code == 16 {
            Some(DataType::Utf8)
        } else if code == 17 {
            Some(DataType::Utf16)
        } else if code == 18 {
            Some(DataType::Utf32)
        } else {
            None
        }
    }

    /// Bytes per element for the ten numeric kinds, zero for the others.
    pub open spec fn spec_width(self) -> int {
        match self {
            DataType::Int8 | DataType::UInt8 => 1,
            DataType::Int16 | DataType::UInt16 => 2,
            DataType::Int32 | DataType::UInt32 | DataType::Single => 4,
            DataType::Int64 | DataType::UInt64 | DataType::Double => 8,
            _ => 0,
        }
    }

    /// Whether elements of this kind are two's complement integers.
    pub open spec fn spec_is_signed(self) -> bool {
        self == DataType::Int8 || self == DataType::Int16 || self == DataType::Int32 || self
            == DataType::Int64
    }

    pub fn code(self) -> (r: u32)
        ensures
            r as int == self.spec_code(),
    {
        match self {
            DataType::Int8 => 1,
            DataType::UInt8 => 2,
            DataType::Int16 => 3,
            DataType::UInt16 => 4,
            DataType::Int32 => 5,
            DataType::UInt32 => 6,
            DataType::Single => 7,
            DataType::Double => 9,
            DataType::Int64 => 12,
            DataType::UInt64 => 13,
            DataType::Matrix => 14,
            DataType::Compressed => 15,
            DataType::Utf8 => 16,
            DataType::Utf16 => 17,
            DataType::Utf32 => 18,
        }
    }

    pub fn from_u32(code: u32) -> (r: Option<DataType>)
        ensures
            r == DataType::spec_from_code(code as int),
    {
        match code {
            1 => Some(DataType::Int8),
            2 => Some(DataType::UInt8),
            3 => Some(DataType::Int16),
            4 => Some(DataType::UInt16),
            5 => Some(DataType::Int32),
            6 => Some(DataType::UInt32),
            7 => Some(DataType::Single),
            9 => Some(DataType::Double),
            12 => Some(DataType::Int64),
            13 => Some(DataType::UInt64),
            14 => Some(DataType::Matrix),
            15 => Some(DataType::Compressed),
            16 => Some(DataType::Utf8),
            17 => Some(DataType::Utf16),
            18 => Some(DataType::Utf32),
            _ => None,
        }
    }

    /// Bytes per element for the ten numeric kinds, zero for the others.
    pub fn width(self) -> (r: usize)
        ensures
            r as int == self.spec_width(),
    {
        match self {
            DataType::Int8 | DataType::UInt8 => 1,
            DataType::Int16 | DataType::UInt16 => 2,
            DataType::Int32 | DataType::UInt32 | DataType::Single => 4,
            DataType::Int64 | DataType::UInt64 | DataType::Double => 8,
            _ => 0,
        }
    }
}

/// The class that an array declares for itself.
#[derive(Debug, PartialEq, Eq, Clone, Copy, Structural)]
pub enum ArrayType {
    Cell,
    Struct,
    Object,
    Char,
    Sparse,
    Double,
    Single,
    Int8,
    UInt8,
    Int16,
    UInt16,
    Int32,
    UInt32,
    Int64,
    UInt64,
}

impl ArrayType {
    /// The number that stands for this class in the array flags.
    pub open spec fn spec_code(self) -> int {
        match self {
            ArrayType::Cell => 1,
            ArrayType::Struct => 2,
            ArrayType::Object => 3,
            ArrayType::Char => 4,
            ArrayType::Sparse => 5,
            ArrayType::Double => 6,
            ArrayType::Single => 7,
            ArrayType::Int8 => 8,
            ArrayType::UInt8 => 9,
            ArrayType::Int16 => 10,
            ArrayType::UInt16 => 11,
            ArrayType::Int32 => 12,
            ArrayType::UInt32 => 13,
            ArrayType::Int64 => 14,
            ArrayType::UInt64 => 15,
        }
    }

    /// The class that `code` stands for, if any.
    pub open spec fn spec_from_code(code: int) -> Option<ArrayType> {
        if code == 1 {
            Some(ArrayType::Cell)
        } else if code == 2 {
            Some(ArrayType::Struct)
        } else if code == 3 {
            Some(ArrayType::Object)
        } else if code == 4 {
            Some(ArrayType::Char)
        } else if code == 5 {
            Some(ArrayType::Sparse)
        } else if code == 6 {
            Some(ArrayType::Double)
        } else if code == 7 {
            Some(ArrayType::Single)
        } else if code == 8 {
            Some(ArrayType::Int8)
        } else if code == 9 {
            Some(ArrayType::UInt8)
        } else if code == 10 {
            Some(ArrayType::Int16)
        } else if code == 11 {
            Some(ArrayType::UInt16)
        } else if code == 12 {
            Some(ArrayType::Int32)
        } else if code == 13 {
            Some(ArrayType::UInt32)
        } else if code == 14 {
            Some(ArrayType::Int64)
        } else if code == 15 {
            Some(ArrayType::UInt64)
        } else {
            None
        }
    }

    /// The element kind that the dense assembler holds a payload against.
    ///
    /// The class `Int32` is paired with the kind `UInt32`, not `Int32`: files
    /// in circulation were accepted under this pairing, so it is kept, and
    /// stated here, instead of being quietly changed.
    pub open spec fn spec_numeric_data_type(self) -> Option<DataType> {
        match self {
            ArrayType::Double => Some(DataType::Double),
            ArrayType::Single => Some(DataType::Single),
            ArrayType::Int8 => Some(DataType::Int8),
            ArrayType::UInt8 => Some(DataType::UInt8),
            ArrayType::Int16 => Some(DataType::Int16),
            ArrayType::UInt16 => Some(DataType::UInt16),
            ArrayType::Int32 => Some(DataType::UInt32),
            ArrayType::UInt32 => Some(DataType::UInt32),
            ArrayType::Int64 => Some(DataType::Int64),
            ArrayType::UInt64 => Some(DataType::UInt64),
            _ => None,
        }
    }

    /// The element kind in which an array of this class is handed out.
    pub open spec fn spec_storage_type(self) -> Option<DataType> {
        match self {
            ArrayType::Int32 => Some(DataType::Int32),
            _ => self.spec_numeric_data_type(),
        }
    }

    pub fn code(self) -> (r: u8)
        ensures
            r as int == self.spec_code(),
    {
        match self {
            ArrayType::Cell => 1,
            ArrayType::Struct => 2,
            ArrayType::Object => 3,
            ArrayType::Char => 4,
            ArrayType::Sparse => 5,
            ArrayType::Double => 6,
            ArrayType::Single => 7,
            ArrayType::Int8 => 8,
            ArrayType::UInt8 => 9,
            ArrayType::Int16 => 10,
            ArrayType::UInt16 => 11,
            ArrayType::Int32 => 12,
            ArrayType::UInt32 => 13,
            ArrayType::Int64 => 14,
            ArrayType::UInt64 => 15,
        }
    }

    pub fn from_u8(code: u8) -> (r: Option<ArrayType>)
        ensures
            r == ArrayType::spec_from_code(code as int),
    {
        match code {
            1 => Some(ArrayType::Cell),
            2 => Some(ArrayType::Struct),
            3 => Some(ArrayType::Object),
            4 => Some(ArrayType::Char),
            5 => Some(ArrayType::Sparse),
            6 => Some(ArrayType::Double),
            7 => Some(ArrayType::Single),
            8 => Some(ArrayType::Int8),
            9 => Some(ArrayType::UInt8),
            10 => Some(ArrayType::Int16),
            11 => Some(ArrayType::UInt16),
            12 => Some(ArrayType::Int32),
            13 => Some(ArrayType::UInt32),
            14 => Some(ArrayType::Int64),
            15 => Some(ArrayType::UInt64),
            _ => None,
        }
    }

    /// The element kind in which an array of this class is handed out.
    pub fn storage_type(&self) -> (r: Option<DataType>)
        ensures
            r == self.spec_storage_type(),
    {
        match self {
            ArrayType::Int32 => Some(DataType::Int32),
            _ => self.numeric_data_type(),
        }
    }

    /// The element kind that the dense assembler holds a payload against;
    /// `None` for the classes that are not dense numeric arrays.
    pub fn numeric_data_type(&self) -> (r: Option<DataType>)
        ensures
            r == self.spec_numeric_data_type(),
    {
        match self {
            ArrayType::Double => Some(DataType::Double),
            ArrayType::Single => Some(DataType::Single),
            ArrayType::Int8 => Some(DataType::Int8),
            ArrayType::UInt8 => Some(DataType::UInt8),
            ArrayType::Int16 => Some(DataType::Int16),
            ArrayType::UInt16 => Some(DataType::UInt16),
            ArrayType::Int32 => Some(DataType::UInt32),
            ArrayType::UInt32 => Some(DataType::UInt32),
            ArrayType::Int64 => Some(DataType::Int64),
            ArrayType::UInt64 => Some(DataType::UInt64),
            _ => None,
        }
    }
}

/// Whether a payload of kind `subelement_type` may fill an array whose
/// elements are of kind `array_type`.
pub open spec fn spec_types_are_compatible(array_type: DataType, subelement_type: DataType) -> bool {
    let small = subelement_type == DataType::UInt8;
    let short = small || subelement_type == DataType::Int16 || subelement_type == DataType::UInt16;
    let wide = short || subelement_type == DataType::Int32;
    match array_type {
        DataType::Int8 => subelement_type == DataType::Int8,
        DataType::UInt8 => small,
        DataType::Int16 => small || subelement_type == DataType::Int16,
        DataType::UInt16 => small || subelement_type == DataType::UInt16,
        DataType::Int32 => wide,
        DataType::UInt32 => short || subelement_type == DataType::UInt32,
        DataType::Int64 => wide || subelement_type == DataType::Int64,
        DataType::UInt64 => wide || subelement_type == DataType::UInt64,
        DataType::Single => wide || subelement_type == DataType::Single,
        DataType::Double => wide || subelement_type == DataType::Double,
        _ => false,
    }
}

/// Whether a payload of kind `subelement_type` may fill an array whose
/// elements are of kind `array_type`.
pub fn numeric_data_types_are_compatible(array_type: DataType, subelement_type: DataType) -> (r:
    bool)
    ensures
        r == spec_types_are_compatible(array_type, subelement_type),
{
    match array_type {
        DataType::Int8 => match subelement_type {
            DataType::Int8 => true,
            _ => false,
        },
        DataType::UInt8 => match subelement_type {
            DataType::UInt8 => true,
            _ => false,
        },
        DataType::Int16 => match subelement_type {
            DataType::UInt8 | DataType::Int16 => true,
            _ => false,
        },
        DataType::UInt16 => match subelement_type {
            DataType::UInt8 | DataType::UInt16 => true,
            _ => false,
        },
        DataType::Int32 => match subelement_type {
            DataType::UInt8 | DataType::Int16 | DataType::UInt16 | DataType::Int32 => true,
            _ => false,
        },
        DataType::UInt32 => match subelement_type {
            DataType::UInt8 | DataType::Int16 | DataType::UInt16 | DataType::UInt32 => true,
            _ => false,
        },
        DataType::Int64 => match subelement_type {
            DataType::UInt8
            | DataType::Int16
            | DataType::UInt16
            | DataType::Int32
            | DataType::Int64 => true,
            _ => false,
        },
        DataType::UInt64 => match subelement_type {
            DataType::UInt8
            | DataType::Int16
            | DataType::UInt16
            | DataType::Int32
            | DataType::UInt64 => true,
            _ => false,
        },
        DataType::Single => match subelement_type {
            DataType::UInt8
            | DataType::Int16
            | DataType::UInt16
            | DataType::Int32
            | DataType::Single => true,
            _ => false,
        },
        DataType::Double => match subelement_type {
            DataType::UInt8
            | DataType::Int16
            | DataType::UInt16
            | DataType::Int32
            | DataType::Double => true,
            _ => false,
        },
        _ => false,
    }
}

} // verus!
