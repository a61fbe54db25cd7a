use vstd::prelude::*;
use crate::column::{in_range, lemma_rows, row, rows, scalar_datum, wf, Column, Payload};
use crate::field::{is_scalar_type, DataType, Field};
use crate::serialize::ConvertError;
use crate::value::{copy_bytes, data_of, lemma_data_of_push, Datum, Value};

verus! {

/// What decoding `c` as the logical type `f` yields: its rows when the
/// column's recorded type is that of `f`, nothing otherwise.
pub open spec fn decoded(c: Column, f: Field) -> Option<Seq<Datum>> {
    if c.data_type == f.data_type {
        Some(rows(c))
    } else {
        None
    }
}

/// The native value of a present fixed-width slot.
fn scalar_value(t: &DataType, x: i128) -> (r: Value)
    requires
        is_scalar_type(*t),
        in_range(*t, x),
    ensures
        r@ == scalar_datum(*t, x),
{
    match t {
        DataType::Boolean => Value::Boolean(x != 0),
        DataType::Int8 => Value::Int8(x as i8),
        DataType::Int16 => Value::Int16(x as i16),
        DataType::Int32 => Value::Int32(x as i32),
        DataType::Int64 => Value::Int64(x as i64),
        DataType::UInt8 => Value::UInt8(x as u8),
        DataType::UInt16 => Value::UInt16(x as u16),
        DataType::UInt32 => Value::UInt32(x as u32),
        DataType::UInt64 => Value::UInt64(x as u64),
        DataType::Date32 => Value::Date32(x as i32),
        _ => Value::Timestamp(x as i64),
    }
}

/// Decodes row `i` of `array` into an owned native value.
pub fn arrow_deserialize(array: &Column, i: usize) -> (r: Value)
    requires
        wf(*array),
        i < rows(*array).len(),
    ensures
        r@ == rows(*array)[i as int],
    decreases array,
{
    proof {
        lemma_rows(*array);
    }
    if !array.validity[i] {
        return Value::Null;
    }
    match &array.payload {
        Payload::Fixed(v) => {
            assert(in_range(array.data_type, v@[i as int]));
            scalar_value(&array.data_type, v[i])
        },
        Payload::Utf8(v) => Value::Utf8(v[i].clone()),
        Payload::Binary(v) => Value::Binary(copy_bytes(&v[i])),
        Payload::List(o, child) => {
            let start = o[i];
            let end = o[i + 1];
            proof {
                lemma_rows(**child);
                assert(o@[0] <= start <= end <= o@[o.len() - 1]);
            }
            let mut out: Vec<Value> = Vec::new();
            let mut j: usize = start;
            while j < end
                invariant
                    start <= j <= end,
                    end <= child.validity.len(),
                    wf(**child),
                    array.payload == Payload::List(*o, *child),
                    rows(**child).len() == child.validity.len(),
                    data_of(out@) == rows(**child).subrange(start as int, j as int),
                decreases end - j,
            {
                proof {
                    assert(decreases_to!(*array => array.payload));
                    assert(decreases_to!(array.payload => array.payload->List_1));
                }
                let x = arrow_deserialize(child, j);
                proof {
                    lemma_data_of_push(out@, x);
                    assert(rows(**child).subrange(start as int, j + 1) =~= rows(**child).subrange(start as int, j as int).push(rows(**child)[j as int]));
                }
                out.push(x);
                j = j + 1;
            }
            Value::List(out)
        },
    }
}

/// Decodes every row of `arr` as a value of the logical type `f`. The
/// recorded type of `arr` is checked first: on a mismatch no row is read.
pub fn arrow_array_deserialize_iterator(arr: &Column, f: &Field) -> (r: Result<Vec<Value>, ConvertError>)
    requires
        wf(*arr),
    ensures
        r is Ok <==> decoded(*arr, *f) is Some,
        r is Ok ==> Some(data_of(r->Ok_0@)) == decoded(*arr, *f),
        r is Err ==> r == Err::<Vec<Value>, ConvertError>(
            ConvertError::TypeMismatch { expected: f.data_type, actual: arr.data_type },
        ),
{
    if !arr.data_type.same_as(&f.data_type) {
        return Err(ConvertError::TypeMismatch { expected: f.data_type.duplicate(), actual: arr.data_type.duplicate() });
    }
    proof {
        lemma_rows(*arr);
    }
    let n = arr.validity.len();
    let mut out: Vec<Value> = Vec::new();
    let mut i: usize = 0;
    while i < n
        invariant
            i <= n,
            n == rows(*arr).len(),
            wf(*arr),
            data_of(out@) == rows(*arr).subrange(0, i as int),
        decreases n - i,
    {
        let x = arrow_deserialize(arr, i);
        proof {
            lemma_data_of_push(out@, x);
            assert(rows(*arr).subrange(0, i + 1) =~= rows(*arr).subrange(0, i as int).push(rows(*arr)[i as int]));
        }
        out.push(x);
        i = i + 1;
    }
    proof {
        assert(rows(*arr).subrange(0, n as int) =~= rows(*arr));
    }
    Ok(out)
}

} // verus!
