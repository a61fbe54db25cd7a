use vstd::prelude::*;
use crate::column::{bytes_of, text_of, empty_model, lemma_push_all_model_push, model, push_all_model, push_model, lemma_rows, lemma_rows_extended, row, rows, rows_upto, slot_of, wf, Column, Payload};
use crate::field::{is_list_type, list_inner, DataType, Field};
use crate::value::{
    all_have_type, data_of, datum_of, has_type, lemma_all_have_type_push, lemma_data_of_index,
    lemma_data_of_len, lemma_data_of_push, Datum, Value,
};

verus! {

/// Why a conversion failed.
#[derive(Debug, PartialEq, Eq)]
pub enum ConvertError {
    /// The value at this position does not have the logical type it was
    /// encoded as.
    ValueNotOfType { row: usize },
    /// A column's recorded type differs from the type it was decoded as.
    TypeMismatch { expected: DataType, actual: DataType },
}

/// `c` is the column that encoding `vals` as `f` produces.
pub open spec fn encodes(vals: Seq<Datum>, f: Field, c: Column) -> bool {
    &&& wf(c)
    &&& c.data_type == f.data_type
    &&& rows(c) == vals
}

/// The position of the first datum of `s` that does not have type `f`.
pub open spec fn first_not_of_type(s: Seq<Datum>, f: Field, i: int) -> bool {
    &&& 0 <= i < s.len()
    &&& !has_type(s[i], f)
    &&& forall|j: int| 0 <= j < i ==> has_type(#[trigger] s[j], f)
}

pub proof fn lemma_all_have_type_index(s: Seq<Datum>, f: Field)
    ensures
        all_have_type(s, f) == (forall|i: int| 0 <= i < s.len() ==> has_type(#[trigger] s[i], f)),
    decreases s.len(),
{
    if s.len() > 0 {
        let p = s.subrange(0, s.len() - 1);
        lemma_all_have_type_index(p, f);
        assert(s =~= p.push(s[s.len() - 1]));
        lemma_all_have_type_push(p, s[s.len() - 1], f);
        assert forall|i: int| 0 <= i < p.len() implies p[i] == s[i] by {}
    }
}

/// Whether `v` has the logical type `f`.
pub fn conforms(v: &Value, f: &Field) -> (r: bool)
    ensures
        r == has_type(v@, *f),
    decreases v,
{
    match v {
        Value::Null => f.nullable,
        Value::Boolean(_) => matches!(f.data_type, DataType::Boolean),
        Value::Int8(_) => matches!(f.data_type, DataType::Int8),
        Value::Int16(_) => matches!(f.data_type, DataType::Int16),
        Value::Int32(_) => matches!(f.data_type, DataType::Int32),
        Value::Int64(_) => matches!(f.data_type, DataType::Int64),
        Value::UInt8(_) => matches!(f.data_type, DataType::UInt8),
        Value::UInt16(_) => matches!(f.data_type, DataType::UInt16),
        Value::UInt32(_) => matches!(f.data_type, DataType::UInt32),
        Value::UInt64(_) => matches!(f.data_type, DataType::UInt64),
        Value::Utf8(_) => matches!(f.data_type, DataType::Utf8 | DataType::LargeUtf8),
        Value::Binary(_) => matches!(f.data_type, DataType::Binary | DataType::LargeBinary),
        Value::Date32(_) => matches!(f.data_type, DataType::Date32),
        Value::Timestamp(_) => matches!(f.data_type, DataType::Timestamp),
        Value::List(items) => {
            let inner: &Field = match &f.data_type {
                DataType::List(g) => g,
                DataType::LargeList(g) => g,
                _ => {
                    return false;
                },
            };
            let mut i: usize = 0;
            while i < items.len()
                invariant
                    i <= items.len(),
                    *v == Value::List(*items),
                    *inner == list_inner(f.data_type),
                    all_have_type(data_of(items@.subrange(0, i as int)), *inner),
                decreases items.len() - i,
            {
                proof {
                    assert(decreases_to!(*items => items[i as int]));
                    assert(decreases_to!(*v => (*v)->List_0));
                    assert(items@.subrange(0, i + 1) =~= items@.subrange(0, i as int).push(items@[i as int]));
                    lemma_data_of_push(items@.subrange(0, i as int), items@[i as int]);
                    lemma_all_have_type_push(data_of(items@.subrange(0, i as int)), datum_of(items@[i as int]), *inner);
                }
                if !conforms(&items[i], inner) {
                    proof {
                        lemma_all_have_type_index(data_of(items@), *inner);
                        lemma_data_of_index(items@, i as int);
                    }
                    return false;
                }
                i = i + 1;
            }
            proof {
                assert(items@.subrange(0, items.len() as int) =~= items@);
            }
            true
        },
    }
}

/// The fixed-width slot that stores a present scalar value.
fn slot_value(v: &Value) -> (r: i128)
    ensures
        r == slot_of(v@),
{
    match v {
        Value::Boolean(b) => if *b { 1 } else { 0 },
        Value::Int8(x) => *x as i128,
        Value::Int16(x) => *x as i128,
        Value::Int32(x) => *x as i128,
        Value::Int64(x) => *x as i128,
        Value::UInt8(x) => *x as i128,
        Value::UInt16(x) => *x as i128,
        Value::UInt32(x) => *x as i128,
        Value::UInt64(x) => *x as i128,
        Value::Date32(x) => *x as i128,
        Value::Timestamp(x) => *x as i128,
        _ => 0,
    }
}

/// `c` with `v` appended as its last row.
fn pushed(c: Column, f: &Field, v: &Value) -> (r: Column)
    requires
        wf(c),
        c.data_type == f.data_type,
        has_type(v@, *f),
    ensures
        wf(r),
        r.data_type == c.data_type,
        rows(r) == rows(c).push(v@),
        model(r) == push_model(model(c), v@),
    decreases v,
{
    let ghost old_c = c;
    let Column { data_type, mut validity, payload } = c;
    let present = !matches!(v, Value::Null);
    let n = validity.len();
    match payload {
        Payload::Fixed(mut vals) => {
            let x = if present { slot_value(v) } else { 0 };
            vals.push(x);
            validity.push(present);
            let r = Column { data_type, validity, payload: Payload::Fixed(vals) };
            proof {
                assert forall|i: int| 0 <= i < n implies row(r, i) == row(old_c, i) by {
                    assert(vals@[i] == old_c.payload->Fixed_0@[i]);
                }
                lemma_rows_extended(old_c, r);
                assert(model(r).payload == push_model(model(old_c), v@).payload);
                assert(model(r) == push_model(model(old_c), v@));
            }
            r
        },
        Payload::Utf8(mut vals) => {
            let s = match v {
                Value::Utf8(s) => s.clone(),
                _ => String::new(),
            };
            vals.push(s);
            validity.push(present);
            let r = Column { data_type, validity, payload: Payload::Utf8(vals) };
            proof {
                assert forall|i: int| 0 <= i < n implies row(r, i) == row(old_c, i) by {
                    assert(vals@[i] == old_c.payload->Utf8_0@[i]);
                }
                lemma_rows_extended(old_c, r);
                assert(vals@.map_values(|t: String| t@) =~= old_c.payload->Utf8_0@.map_values(|t: String| t@).push(text_of(v@)));
                assert(model(r) == push_model(model(old_c), v@));
            }
            r
        },
        Payload::Binary(mut vals) => {
            let b = match v {
                Value::Binary(b) => crate::value::copy_bytes(b),
                _ => Vec::new(),
            };
            vals.push(b);
            validity.push(present);
            let r = Column { data_type, validity, payload: Payload::Binary(vals) };
            proof {
                assert forall|i: int| 0 <= i < n implies row(r, i) == row(old_c, i) by {
                    assert(vals@[i] == old_c.payload->Binary_0@[i]);
                }
                lemma_rows_extended(old_c, r);
                assert(vals@.map_values(|b: Vec<u8>| b@) =~= old_c.payload->Binary_0@.map_values(|b: Vec<u8>| b@).push(bytes_of(v@)));
                assert(model(r) == push_model(model(old_c), v@));
            }
            r
        },
        Payload::List(mut offsets, child) => {
            let mut ch: Column = *child;
            let ghost old_ch = ch;
            proof {
                lemma_rows(old_ch);
            }
            match v {
                Value::List(items) => {
                    let inner: &Field = match &f.data_type {
                        DataType::List(g) => g,
                        DataType::LargeList(g) => g,
                        _ => {
                            proof {
                                assert(false);
                            }
                            f
                        },
                    };
                    proof {
                        lemma_all_have_type_index(data_of(items@), *inner);
                        lemma_data_of_len(items@);
                    }
                    let mut i: usize = 0;
                    while i < items.len()
                        invariant
                            i <= items.len(),
                            *v == Value::List(*items),
                            *inner == list_inner(f.data_type),
                            wf(ch),
                            ch.data_type == inner.data_type,
                            data_of(items@).len() == items@.len(),
                            forall|j: int| 0 <= j < items@.len() ==> has_type(#[trigger] data_of(items@)[j], *inner),
                            rows(ch) == rows(old_ch) + data_of(items@.subrange(0, i as int)),
                            model(ch) == push_all_model(model(old_ch), data_of(items@.subrange(0, i as int))),
                        decreases items.len() - i,
                    {
                        proof {
                            assert(decreases_to!(*items => items[i as int]));
                            assert(decreases_to!(*v => (*v)->List_0));
                            lemma_data_of_index(items@, i as int);
                        }
                        ch = pushed(ch, inner, &items[i]);
                        proof {
                            assert(items@.subrange(0, i + 1) =~= items@.subrange(0, i as int).push(items@[i as int]));
                            lemma_data_of_push(items@.subrange(0, i as int), items@[i as int]);
                            assert(rows(ch) =~= rows(old_ch) + data_of(items@.subrange(0, i + 1)));
                            lemma_push_all_model_push(model(old_ch), data_of(items@.subrange(0, i as int)), datum_of(items@[i as int]));
                        }
                        i = i + 1;
                    }
                    proof {
                        assert(items@.subrange(0, items.len() as int) =~= items@);
                        lemma_rows(ch);
                    }
                    let end = ch.validity.len();
                    offsets.push(end);
                    validity.push(true);
                    let r = Column { data_type, validity, payload: Payload::List(offsets, Box::new(ch)) };
                    proof {
                        let oo = old_c.payload->List_1;
                        let o = old_c.payload->List_0@;
                        assert(wf(*oo));
                        assert forall|a: int| 0 <= a < n implies row(r, a) == row(old_c, a) by {
                            assert(o[a] <= o[a + 1] <= o[n as int]);
                            assert(offsets@[a] == o[a] && offsets@[a + 1] == o[a + 1]);
                            assert(rows(ch).subrange(o[a] as int, o[a + 1] as int)
                                =~= rows(old_ch).subrange(o[a] as int, o[a + 1] as int));
                        }
                        assert(rows(ch).subrange(o[n as int] as int, end as int) =~= data_of(items@));
                        lemma_rows_extended(old_c, r);
                        assert(old_ch == *oo);
                        assert(model(r) == push_model(model(old_c), v@));
                    }
                    r
                },
                _ => {
                    let last = offsets[offsets.len() - 1];
                    offsets.push(last);
                    validity.push(false);
                    let r = Column { data_type, validity, payload: Payload::List(offsets, Box::new(ch)) };
                    proof {
                        let o = old_c.payload->List_0@;
                        assert forall|a: int| 0 <= a < n implies row(r, a) == row(old_c, a) by {
                            assert(offsets@[a] == o[a] && offsets@[a + 1] == o[a + 1]);
                        }
                        lemma_rows_extended(old_c, r);
                        assert(model(r) == push_model(model(old_c), v@));
                    }
                    r
                },
            }
        },
    }
}

/// An empty column of the logical type `f`, ready to take values.
pub fn new_array(f: &Field) -> (c: Column)
    ensures
        encodes(Seq::empty(), *f, c),
        model(c) == empty_model(*f),
    decreases f,
{
    let payload = match &f.data_type {
        DataType::Utf8 | DataType::LargeUtf8 => Payload::Utf8(Vec::new()),
        DataType::Binary | DataType::LargeBinary => Payload::Binary(Vec::new()),
        DataType::List(g) | DataType::LargeList(g) => {
            let child = new_array(g);
            let mut offsets: Vec<usize> = Vec::new();
            offsets.push(0);
            Payload::List(offsets, Box::new(child))
        },
        _ => Payload::Fixed(Vec::new()),
    };
    let c = Column { data_type: f.data_type.duplicate(), validity: Vec::new(), payload };
    proof {
        assert(rows(c) =~= Seq::<Datum>::empty());
        assert(c.validity@ =~= Seq::<bool>::empty());
        let p = c.payload;
        if p is Fixed {
            assert(p->Fixed_0@ =~= Seq::<i128>::empty());
        } else if p is Utf8 {
            assert(p->Utf8_0@.map_values(|t: String| t@) =~= Seq::<Seq<char>>::empty());
        } else if p is Binary {
            assert(p->Binary_0@.map_values(|b: Vec<u8>| b@) =~= Seq::<Seq<u8>>::empty());
        } else {
            assert(p->List_0@ =~= seq![0usize]);
        }
    }
    c
}

/// Appends `v` to `array` as a value of the logical type `f`; `array` is
/// left as it was when `v` does not have that type.
pub fn arrow_serialize(v: &Value, f: &Field, array: &mut Column) -> (r: Result<(), ConvertError>)
    requires
        wf(*old(array)),
        old(array).data_type == f.data_type,
    ensures
        r is Ok <==> has_type(v@, *f),
        r is Ok ==> encodes(rows(*old(array)).push(v@), *f, *final(array)),
        r is Ok ==> model(*final(array)) == push_model(model(*old(array)), v@),
        r is Err ==> *final(array) == *old(array)
            && r == Err::<(), ConvertError>(ConvertError::ValueNotOfType { row: old(array).validity.len() }),
{
    if !conforms(v, f) {
        return Err(ConvertError::ValueNotOfType { row: array.validity.len() });
    }
    let mut c = Column { data_type: DataType::Boolean, validity: Vec::new(), payload: Payload::Fixed(Vec::new()) };
    std::mem::swap(array, &mut c);
    *array = pushed(c, f, v);
    Ok(())
}

/// Appends `values` in order to `array` as values of the logical type `f`,
/// stopping at the first value that does not have that type.
pub fn arrow_serialize_extend(values: &Vec<Value>, f: &Field, array: &mut Column) -> (r: Result<(), ConvertError>)
    requires
        wf(*old(array)),
        old(array).data_type == f.data_type,
    ensures
        r is Ok <==> all_have_type(data_of(values@), *f),
        r is Ok ==> encodes(rows(*old(array)) + data_of(values@), *f, *final(array)),
        r is Ok ==> model(*final(array)) == push_all_model(model(*old(array)), data_of(values@)),
        forall|k: usize| r == Err::<(), ConvertError>(ConvertError::ValueNotOfType { row: k }) ==> {
            &&& first_not_of_type(data_of(values@), *f, k as int)
            &&& model(*final(array)) == push_all_model(model(*old(array)), data_of(values@).subrange(0, k as int))
            &&& encodes(rows(*old(array)) + data_of(values@).subrange(0, k as int), *f, *final(array))
        },
        r is Err ==> exists|k: usize| r == Err::<(), ConvertError>(ConvertError::ValueNotOfType { row: k }),
{
    let ghost start = rows(*array);
    proof {
        lemma_data_of_len(values@);
        lemma_all_have_type_index(data_of(values@), *f);
    }
    let mut i: usize = 0;
    while i < values.len()
        invariant
            i <= values.len(),
            data_of(values@).len() == values@.len(),
            all_have_type(data_of(values@), *f) == (forall|j: int| 0 <= j < values@.len() ==> has_type(#[trigger] data_of(values@)[j], *f)),
            forall|j: int| 0 <= j < i ==> has_type(#[trigger] data_of(values@)[j], *f),
            data_of(values@.subrange(0, i as int)) == data_of(values@).subrange(0, i as int),
            encodes(start + data_of(values@).subrange(0, i as int), *f, *array),
            start == rows(*old(array)),
            model(*array) == push_all_model(model(*old(array)), data_of(values@).subrange(0, i as int)),
        decreases values.len() - i,
    {
        proof {
            lemma_data_of_index(values@, i as int);
        }
        let res = arrow_serialize(&values[i], f, array);
        if res.is_err() {
            proof {
                assert(!has_type(data_of(values@)[i as int], *f));
                assert(data_of(values@.subrange(0, i as int)) == data_of(values@).subrange(0, i as int));
                assert(first_not_of_type(data_of(values@), *f, i as int));
                assert(encodes(start + data_of(values@).subrange(0, i as int), *f, *array));
            }
            return Err(ConvertError::ValueNotOfType { row: i });
        }
        proof {
            assert(values@.subrange(0, i + 1) =~= values@.subrange(0, i as int).push(values@[i as int]));
            lemma_data_of_push(values@.subrange(0, i as int), values@[i as int]);
            assert(data_of(values@).subrange(0, i + 1) =~= data_of(values@).subrange(0, i as int).push(datum_of(values@[i as int])));
            assert(start + data_of(values@).subrange(0, i + 1) =~= (start + data_of(values@).subrange(0, i as int)).push(datum_of(values@[i as int])));
            lemma_push_all_model_push(model(*old(array)), data_of(values@).subrange(0, i as int), datum_of(values@[i as int]));
        }
        i = i + 1;
    }
    proof {
        assert(data_of(values@).subrange(0, values.len() as int) =~= data_of(values@));
    }
    Ok(())
}

/// Encodes `values` into a new column of the logical type `f`.
pub fn into_arrow(values: &Vec<Value>, f: &Field) -> (r: Result<Column, ConvertError>)
    ensures
        r is Ok <==> all_have_type(data_of(values@), *f),
        r is Ok ==> encodes(data_of(values@), *f, r->Ok_0),
        r is Ok ==> model(r->Ok_0) == push_all_model(empty_model(*f), data_of(values@)),
        r is Err ==> exists|k: usize| r == Err::<Column, ConvertError>(ConvertError::ValueNotOfType { row: k }),
        forall|k: usize| r == Err::<Column, ConvertError>(ConvertError::ValueNotOfType { row: k })
            ==> first_not_of_type(data_of(values@), *f, k as int),
{
    let mut c = new_array(f);
    match arrow_serialize_extend(values, f, &mut c) {
        Ok(()) => {
            proof {
                assert(Seq::<Datum>::empty() + data_of(values@) =~= data_of(values@));
            }
            Ok(c)
        },
        Err(e) => Err(e),
    }
}

} // verus!
