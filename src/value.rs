use vstd::prelude::*;
use crate::field::{is_list_type, list_inner, DataType, Field};

verus! {

/// The mathematical model of a native value.
pub enum Datum {
    Null,
    Boolean(bool),
    Int8(i8),
    Int16(i16),
    Int32(i32),
    Int64(i64),
    UInt8(u8),
    UInt16(u16),
    UInt32(u32),
    UInt64(u64),
    Utf8(Seq<char>),
    Binary(Seq<u8>),
    Date32(i32),
    Timestamp(i64),
    List(Seq<Datum>),
}

/// A native value. `Null` is the absent value of an optional field; a
/// present value is held as itself, never wrapped a second time.
#[derive(Debug, PartialEq, Eq)]
pub enum Value {
    Null,
    Boolean(bool),
    Int8(i8),
    Int16(i16),
    Int32(i32),
    Int64(i64),
    UInt8(u8),
    UInt16(u16),
    UInt32(u32),
    UInt64(u64),
    Utf8(String),
    Binary(Vec<u8>),
    /// Days since 1970-01-01.
    Date32(i32),
    /// Nanoseconds since 1970-01-01T00:00:00.
    Timestamp(i64),
    List(Vec<Value>),
}

pub open spec fn datum_of(v: Value) -> Datum
    decreases v,
{
    match v {
        Value::Null => Datum::Null,
        Value::Boolean(x) => Datum::Boolean(x),
        Value::Int8(x) => Datum::Int8(x),
        Value::Int16(x) => Datum::Int16(x),
        Value::Int32(x) => Datum::Int32(x),
        Value::Int64(x) => Datum::Int64(x),
        Value::UInt8(x) => Datum::UInt8(x),
        Value::UInt16(x) => Datum::UInt16(x),
        Value::UInt32(x) => Datum::UInt32(x),
        Value::UInt64(x) => Datum::UInt64(x),
        Value::Utf8(s) => Datum::Utf8(s@),
        Value::Binary(b) => Datum::Binary(b@),
        Value::Date32(x) => Datum::Date32(x),
        Value::Timestamp(x) => Datum::Timestamp(x),
        Value::List(l) => Datum::List(data_of(l@)),
    }
}

/// The models of a sequence of values, element by element.
pub open spec fn data_of(s: Seq<Value>) -> Seq<Datum>
    decreases s,
{
    if s.len() == 0 {
        Seq::empty()
    } else {
        data_of(s.subrange(0, s.len() - 1)).push(datum_of(s[s.len() - 1]))
    }
}

impl View for Value {
    type V = Datum;

    open spec fn view(&self) -> Datum {
        datum_of(*self)
    }
}

/// Whether a present (non-null) datum has the shape of the logical type.
pub open spec fn has_type(d: Datum, f: Field) -> bool
    decreases d,
{
    match d {
        Datum::Null => f.nullable,
        Datum::Boolean(_) => f.data_type is Boolean,
        Datum::Int8(_) => f.data_type is Int8,
        Datum::Int16(_) => f.data_type is Int16,
        Datum::Int32(_) => f.data_type is Int32,
        Datum::Int64(_) => f.data_type is Int64,
        Datum::UInt8(_) => f.data_type is UInt8,
        Datum::UInt16(_) => f.data_type is UInt16,
        Datum::UInt32(_) => f.data_type is UInt32,
        Datum::UInt64(_) => f.data_type is UInt64,
        Datum::Utf8(_) => f.data_type is Utf8 || f.data_type is LargeUtf8,
        Datum::Binary(_) => f.data_type is Binary || f.data_type is LargeBinary,
        Datum::Date32(_) => f.data_type is Date32,
        Datum::Timestamp(_) => f.data_type is Timestamp,
        Datum::List(s) => is_list_type(f.data_type) && all_have_type(s, list_inner(f.data_type)),
    }
}

/// Whether every datum of `s` has the logical type `f`.
pub open spec fn all_have_type(s: Seq<Datum>, f: Field) -> bool
    decreases s,
{
    if s.len() == 0 {
        true
    } else {
        all_have_type(s.subrange(0, s.len() - 1), f) && has_type(s[s.len() - 1], f)
    }
}

pub proof fn lemma_data_of_push(s: Seq<Value>, v: Value)
    ensures
        data_of(s.push(v)) == data_of(s).push(datum_of(v)),
{
    assert(s.push(v).subrange(0, s.len() as int) =~= s);
}

pub proof fn lemma_data_of_len(s: Seq<Value>)
    ensures
        data_of(s).len() == s.len(),
    decreases s.len(),
{
    if s.len() > 0 {
        lemma_data_of_len(s.subrange(0, s.len() - 1));
    }
}

pub proof fn lemma_data_of_index(s: Seq<Value>, i: int)
    requires
        0 <= i < s.len(),
    ensures
        data_of(s).len() == s.len(),
        data_of(s)[i] == datum_of(s[i]),
    decreases s.len(),
{
    lemma_data_of_len(s);
    if i < s.len() - 1 {
        lemma_data_of_index(s.subrange(0, s.len() - 1), i);
    }
}

pub proof fn lemma_all_have_type_push(s: Seq<Datum>, d: Datum, f: Field)
    ensures
        all_have_type(s.push(d), f) == (all_have_type(s, f) && has_type(d, f)),
{
    assert(s.push(d).subrange(0, s.len() as int) =~= s);
}

/// A copy of a byte buffer.
pub fn copy_bytes(b: &Vec<u8>) -> (r: Vec<u8>)
    ensures
        r@ == b@,
{
    let mut r: Vec<u8> = Vec::new();
    let mut i: usize = 0;
    while i < b.len()
        invariant
            i <= b.len(),
            r@ == b@.subrange(0, i as int),
        decreases b.len() - i,
    {
        r.push(b[i]);
        i = i + 1;
        proof {
            assert(r@ =~= b@.subrange(0, i as int));
        }
    }
    proof {
        assert(b@.subrange(0, b.len() as int) =~= b@);
    }
    r
}

} // verus!
