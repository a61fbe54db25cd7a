use vstd::prelude::*;

verus! {

/// The logical type of a value, independent of how it is laid out.
#[derive(Debug, PartialEq, Eq)]
pub enum DataType {
    Boolean,
    Int8,
    Int16,
    Int32,
    Int64,
    UInt8,
    UInt16,
    UInt32,
    UInt64,
    /// UTF-8 text addressed by 32-bit offsets.
    Utf8,
    /// UTF-8 text addressed by 64-bit offsets.
    LargeUtf8,
    /// Byte buffers addressed by 32-bit offsets.
    Binary,
    /// Byte buffers addressed by 64-bit offsets.
    LargeBinary,
    /// Days since 1970-01-01, as a signed 32-bit count.
    Date32,
    /// Nanoseconds since 1970-01-01T00:00:00, as a signed 64-bit count.
    Timestamp,
    /// A list of values of the inner field, addressed by 32-bit offsets.
    List(Box<Field>),
    /// A list of values of the inner field, addressed by 64-bit offsets.
    LargeList(Box<Field>),
}

/// A field descriptor: a logical type and whether its values may be absent.
#[derive(Debug, PartialEq, Eq)]
pub struct Field {
    pub data_type: DataType,
    pub nullable: bool,
}

/// Types stored in fixed-width slots.
pub open spec fn is_scalar_type(t: DataType) -> bool {
    !(t is Utf8 || t is LargeUtf8 || t is Binary || t is LargeBinary || t is List || t is LargeList)
}

pub open spec fn is_text_type(t: DataType) -> bool {
    t is Utf8 || t is LargeUtf8
}

pub open spec fn is_bytes_type(t: DataType) -> bool {
    t is Binary || t is LargeBinary
}

pub open spec fn is_list_type(t: DataType) -> bool {
    t is List || t is LargeList
}

/// The field of the elements of a list type.
pub open spec fn list_inner(t: DataType) -> Field
    recommends
        is_list_type(t),
{
    match t {
        DataType::List(f) => *f,
        DataType::LargeList(f) => *f,
        _ => Field { data_type: DataType::Boolean, nullable: false },
    }
}

impl DataType {
    /// Whether `self` and `other` are the same logical type, down to the
    /// inner fields of list types.
    pub fn same_as(&self, other: &DataType) -> (r: bool)
        ensures
            r == (*self == *other),
        decreases self,
    {
        match (self, other) {
            (DataType::List(a), DataType::List(b)) => a.same_as(b),
            (DataType::LargeList(a), DataType::LargeList(b)) => a.same_as(b),
            (DataType::Boolean, DataType::Boolean) => true,
            (DataType::Int8, DataType::Int8) => true,
            (DataType::Int16, DataType::Int16) => true,
            (DataType::Int32, DataType::Int32) => true,
            (DataType::Int64, DataType::Int64) => true,
            (DataType::UInt8, DataType::UInt8) => true,
            (DataType::UInt16, DataType::UInt16) => true,
            (DataType::UInt32, DataType::UInt32) => true,
            (DataType::UInt64, DataType::UInt64) => true,
            (DataType::Utf8, DataType::Utf8) => true,
            (DataType::LargeUtf8, DataType::LargeUtf8) => true,
            (DataType::Binary, DataType::Binary) => true,
            (DataType::LargeBinary, DataType::LargeBinary) => true,
            (DataType::Date32, DataType::Date32) => true,
            (DataType::Timestamp, DataType::Timestamp) => true,
            _ => false,
        }
    }

    /// A copy of this type.
    pub fn duplicate(&self) -> (r: DataType)
        ensures
            r == *self,
        decreases self,
    {
        match self {
            DataType::List(f) => DataType::List(Box::new(f.duplicate())),
            DataType::LargeList(f) => DataType::LargeList(Box::new(f.duplicate())),
            DataType::Boolean => DataType::Boolean,
            DataType::Int8 => DataType::Int8,
            DataType::Int16 => DataType::Int16,
            DataType::Int32 => DataType::Int32,
            DataType::Int64 => DataType::Int64,
            DataType::UInt8 => DataType::UInt8,
            DataType::UInt16 => DataType::UInt16,
            DataType::UInt32 => DataType::UInt32,
            DataType::UInt64 => DataType::UInt64,
            DataType::Utf8 => DataType::Utf8,
            DataType::LargeUtf8 => DataType::LargeUtf8,
            DataType::Binary => DataType::Binary,
            DataType::LargeBinary => DataType::LargeBinary,
            DataType::Date32 => DataType::Date32,
            DataType::Timestamp => DataType::Timestamp,
        }
    }
}

impl Field {
    pub fn new(data_type: DataType, nullable: bool) -> (r: Field)
        ensures
            r.data_type == data_type,
            r.nullable == nullable,
    {
        Field { data_type, nullable }
    }

    /// The descriptor of the optional wrapper of this field: same type, nullable.
    pub fn optional(&self) -> (r: Field)
        ensures
            r.data_type == self.data_type,
            r.nullable,
    {
        Field { data_type: self.data_type.duplicate(), nullable: true }
    }

    pub fn is_nullable(&self) -> (r: bool)
        ensures
            r == self.nullable,
    {
        self.nullable
    }

    pub fn same_as(&self, other: &Field) -> (r: bool)
        ensures
            r == (*self == *other),
        decreases self,
    {
        self.nullable == other.nullable && self.data_type.same_as(&other.data_type)
    }

    pub fn duplicate(&self) -> (r: Field)
        ensures
            r == *self,
        decreases self,
    {
        Field { data_type: self.data_type.duplicate(), nullable: self.nullable }
    }
}

} // verus!
