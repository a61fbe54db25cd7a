use vstd::prelude::*;
use crate::field::{Field, is_bytes_type, is_list_type, is_scalar_type, is_text_type, list_inner, DataType};
use crate::value::Datum;

verus! {

/// The values of a column, laid out by the physical kind of its type.
#[derive(Debug)]
pub enum Payload {
    /// One fixed-width slot per row: integers, booleans (0 or 1), dates
    /// and timestamps. An absent row holds 0.
    Fixed(Vec<i128>),
    /// One text per row; an absent row holds the empty text.
    Utf8(Vec<String>),
    /// One byte buffer per row; an absent row holds the empty buffer.
    Binary(Vec<Vec<u8>>),
    /// Row `i` is the slice `offsets[i]..offsets[i + 1]` of the child column.
    List(Vec<usize>, Box<Column>),
}

/// A physical column: its recorded logical type, one validity flag per row
/// (`false` marks an absent row) and the payload.
#[derive(Debug)]
pub struct Column {
    pub data_type: DataType,
    pub validity: Vec<bool>,
    pub payload: Payload,
}

/// Whether `x` is a slot value that the scalar type `t` can hold.
pub open spec fn in_range(t: DataType, x: i128) -> bool {
    match t {
        DataType::Boolean => x == 0 || x == 1,
        DataType::Int8 => i8::MIN <= x <= i8::MAX,
        DataType::Int16 => i16::MIN <= x <= i16::MAX,
        DataType::Int32 | DataType::Date32 => i32::MIN <= x <= i32::MAX,
        DataType::Int64 | DataType::Timestamp => i64::MIN <= x <= i64::MAX,
        DataType::UInt8 => 0 <= x <= u8::MAX,
        DataType::UInt16 => 0 <= x <= u16::MAX,
        DataType::UInt32 => 0 <= x <= u32::MAX,
        DataType::UInt64 => 0 <= x <= u64::MAX,
        _ => false,
    }
}

/// The value that a present fixed-width slot holding `x` stands for.
pub open spec fn scalar_datum(t: DataType, x: i128) -> Datum {
    match t {
        DataType::Boolean => Datum::Boolean(x != 0),
        DataType::Int8 => Datum::Int8(x as i8),
        DataType::Int16 => Datum::Int16(x as i16),
        DataType::Int32 => Datum::Int32(x as i32),
        DataType::Int64 => Datum::Int64(x as i64),
        DataType::UInt8 => Datum::UInt8(x as u8),
        DataType::UInt16 => Datum::UInt16(x as u16),
        DataType::UInt32 => Datum::UInt32(x as u32),
        DataType::UInt64 => Datum::UInt64(x as u64),
        DataType::Date32 => Datum::Date32(x as i32),
        DataType::Timestamp => Datum::Timestamp(x as i64),
        _ => Datum::Null,
    }
}

/// The slot value that stores a present scalar datum.
pub open spec fn slot_of(d: Datum) -> i128 {
    match d {
        Datum::Boolean(b) => if b { 1 } else { 0 },
        Datum::Int8(x) => x as i128,
        Datum::Int16(x) => x as i128,
        Datum::Int32(x) => x as i128,
        Datum::Int64(x) => x as i128,
        Datum::UInt8(x) => x as i128,
        Datum::UInt16(x) => x as i128,
        Datum::UInt32(x) => x as i128,
        Datum::UInt64(x) => x as i128,
        Datum::Date32(x) => x as i128,
        Datum::Timestamp(x) => x as i128,
        _ => 0,
    }
}

/// The text that a text slot holds for `d`: empty for an absent row.
pub open spec fn text_of(d: Datum) -> Seq<char> {
    match d {
        Datum::Utf8(t) => t,
        _ => Seq::empty(),
    }
}

/// The bytes that a byte-buffer slot holds for `d`: empty for an absent row.
pub open spec fn bytes_of(d: Datum) -> Seq<u8> {
    match d {
        Datum::Binary(b) => b,
        _ => Seq::empty(),
    }
}

/// The contents of a column's payload, as mathematical values.
pub enum PayloadModel {
    Fixed(Seq<i128>),
    Utf8(Seq<Seq<char>>),
    Binary(Seq<Seq<u8>>),
    List(Seq<usize>, Box<ColumnModel>),
}

/// The contents of a column, as mathematical values: what a builder holds.
pub struct ColumnModel {
    pub data_type: DataType,
    pub validity: Seq<bool>,
    pub payload: PayloadModel,
}

/// The contents of `c`.
pub open spec fn model(c: Column) -> ColumnModel
    decreases c,
{
    ColumnModel {
        data_type: c.data_type,
        validity: c.validity@,
        payload: match c.payload {
            Payload::Fixed(v) => PayloadModel::Fixed(v@),
            Payload::Utf8(v) => PayloadModel::Utf8(v@.map_values(|t: String| t@)),
            Payload::Binary(v) => PayloadModel::Binary(v@.map_values(|b: Vec<u8>| b@)),
            Payload::List(o, child) => PayloadModel::List(o@, Box::new(model(*child))),
        },
    }
}

/// The contents of an empty column of the logical type `f`: a list column
/// starts with the single offset 0 and an empty child column.
pub open spec fn empty_model(f: Field) -> ColumnModel
    decreases f,
{
    ColumnModel {
        data_type: f.data_type,
        validity: Seq::empty(),
        payload: match f.data_type {
            DataType::Utf8 | DataType::LargeUtf8 => PayloadModel::Utf8(Seq::empty()),
            DataType::Binary | DataType::LargeBinary => PayloadModel::Binary(Seq::empty()),
            DataType::List(g) => PayloadModel::List(seq![0usize], Box::new(empty_model(*g))),
            DataType::LargeList(g) => PayloadModel::List(seq![0usize], Box::new(empty_model(*g))),
            _ => PayloadModel::Fixed(Seq::empty()),
        },
    }
}

/// The contents of a builder after one row holding `d` is appended to `m`:
/// one validity flag more, one slot more in a flat payload, and for a list
/// the items appended in order to the child, then one offset that closes
/// the row (a repeat of the last offset for an absent row). Nothing that
/// `m` held changes.
pub open spec fn push_model(m: ColumnModel, d: Datum) -> ColumnModel
    decreases d,
{
    ColumnModel {
        data_type: m.data_type,
        validity: m.validity.push(d != Datum::Null),
        payload: match m.payload {
            PayloadModel::Fixed(v) => PayloadModel::Fixed(v.push(slot_of(d))),
            PayloadModel::Utf8(v) => PayloadModel::Utf8(v.push(text_of(d))),
            PayloadModel::Binary(v) => PayloadModel::Binary(v.push(bytes_of(d))),
            PayloadModel::List(o, child) => match d {
                Datum::List(items) => {
                    let grown = push_all_model(*child, items);
                    PayloadModel::List(o.push(grown.validity.len() as usize), Box::new(grown))
                },
                _ => PayloadModel::List(o.push(o.last()), child),
            },
        },
    }
}

/// The contents of a builder after the rows `s` are appended to `m` in order.
pub open spec fn push_all_model(m: ColumnModel, s: Seq<Datum>) -> ColumnModel
    decreases s,
{
    if s.len() == 0 {
        m
    } else {
        push_model(push_all_model(m, s.subrange(0, s.len() - 1)), s[s.len() - 1])
    }
}

pub proof fn lemma_push_all_model_push(m: ColumnModel, s: Seq<Datum>, d: Datum)
    ensures
        push_all_model(m, s.push(d)) == push_model(push_all_model(m, s), d),
{
    assert(s.push(d).subrange(0, s.len() as int) =~= s);
}

/// The value of row `i` of `c`.
pub open spec fn row(c: Column, i: int) -> Datum
    decreases c, 0nat,
{
    if 0 <= i < c.validity.len() && c.validity[i] {
        match c.payload {
            Payload::Fixed(v) => scalar_datum(c.data_type, v[i]),
            Payload::Utf8(v) => Datum::Utf8(v[i]@),
            Payload::Binary(v) => Datum::Binary(v[i]@),
            Payload::List(o, child) => {
                let all = rows_upto(*child, child.validity.len() as nat);
                Datum::List(all.subrange(o[i] as int, o[i + 1] as int))
            },
        }
    } else {
        Datum::Null
    }
}

/// The values of the first `n` rows of `c`.
pub open spec fn rows_upto(c: Column, n: nat) -> Seq<Datum>
    decreases c, n,
{
    if n == 0 {
        Seq::empty()
    } else {
        rows_upto(c, (n - 1) as nat).push(row(c, n - 1))
    }
}

/// The values of all rows of `c`: what decoding `c` yields.
pub open spec fn rows(c: Column) -> Seq<Datum> {
    rows_upto(c, c.validity.len() as nat)
}

/// A column is well formed when its payload has the layout of its type,
/// one entry per row, and list offsets start at 0, never decrease and end
/// at the length of the child column.
pub open spec fn wf(c: Column) -> bool
    decreases c,
{
    match c.payload {
        Payload::Fixed(v) => {
            &&& is_scalar_type(c.data_type)
            &&& v.len() == c.validity.len()
            &&& forall|i: int| 0 <= i < v.len() ==> in_range(c.data_type, #[trigger] v[i])
        },
        Payload::Utf8(v) => is_text_type(c.data_type) && v.len() == c.validity.len(),
        Payload::Binary(v) => is_bytes_type(c.data_type) && v.len() == c.validity.len(),
        Payload::List(o, child) => {
            &&& is_list_type(c.data_type)
            &&& child.data_type == list_inner(c.data_type).data_type
            &&& wf(*child)
            &&& o.len() == c.validity.len() + 1
            &&& o[0] == 0
            &&& o[o.len() - 1] == child.validity.len()
            &&& forall|i: int, j: int| 0 <= i <= j < o.len() ==> o[i] <= o[j]
        },
    }
}

pub proof fn lemma_rows_upto(c: Column, n: nat)
    ensures
        rows_upto(c, n).len() == n,
        forall|i: int| 0 <= i < n ==> #[trigger] rows_upto(c, n)[i] == row(c, i),
    decreases n,
{
    if n > 0 {
        lemma_rows_upto(c, (n - 1) as nat);
    }
}

/// The rows of a column, one by one.
pub proof fn lemma_rows(c: Column)
    ensures
        rows(c).len() == c.validity.len(),
        forall|i: int| 0 <= i < c.validity.len() ==> #[trigger] rows(c)[i] == row(c, i),
{
    lemma_rows_upto(c, c.validity.len() as nat);
}

/// Two columns whose first `n` rows agree have the same first `n` rows.
pub proof fn lemma_rows_agree(a: Column, b: Column, n: nat)
    requires
        forall|i: int| 0 <= i < n ==> row(a, i) == row(b, i),
    ensures
        rows_upto(a, n) == rows_upto(b, n),
    decreases n,
{
    lemma_rows_upto(a, n);
    lemma_rows_upto(b, n);
    assert(rows_upto(a, n) =~= rows_upto(b, n));
}

/// A column that agrees with `c` on all of its rows and has one row more
/// holds the rows of `c` followed by that row.
pub proof fn lemma_rows_extended(c: Column, r: Column)
    requires
        r.validity.len() == c.validity.len() + 1,
        forall|i: int| 0 <= i < c.validity.len() ==> row(r, i) == row(c, i),
    ensures
        rows(r) == rows(c).push(row(r, c.validity.len() as int)),
{
    lemma_rows_agree(r, c, c.validity.len() as nat);
}

/// A row is absent exactly where its validity flag is off.
pub proof fn lemma_null_iff_invalid(c: Column, i: int)
    requires
        wf(c),
        0 <= i < c.validity.len(),
    ensures
        (row(c, i) == Datum::Null) == !c.validity[i],
{
    if c.validity[i] {
        match c.payload {
            Payload::Fixed(v) => {
                assert(in_range(c.data_type, v[i]));
            },
            _ => {},
        }
    }
}

impl Column {
    /// The number of rows.
    pub fn len(&self) -> (r: usize)
        requires
            wf(*self),
        ensures
            r == rows(*self).len(),
    {
        proof { lemma_rows(*self); }
        self.validity.len()
    }

    /// Whether row `i` is present.
    pub fn is_valid(&self, i: usize) -> (r: bool)
        requires
            wf(*self),
            i < rows(*self).len(),
        ensures
            r == (rows(*self)[i as int] != Datum::Null),
    {
        proof {
            lemma_rows(*self);
            lemma_null_iff_invalid(*self, i as int);
        }
        self.validity[i]
    }
}

/// Whether the slot value `x` is one that the type `t` stores in a
/// fixed-width slot.
pub fn slot_in_range(t: &DataType, x: i128) -> (r: bool)
    ensures
        r == (is_scalar_type(*t) && in_range(*t, x)),
{
    match t {
        DataType::Boolean => x == 0 || x == 1,
        DataType::Int8 => i8::MIN as i128 <= x && x <= i8::MAX as i128,
        DataType::Int16 => i16::MIN as i128 <= x && x <= i16::MAX as i128,
        DataType::Int32 | DataType::Date32 => i32::MIN as i128 <= x && x <= i32::MAX as i128,
        DataType::Int64 | DataType::Timestamp => i64::MIN as i128 <= x && x <= i64::MAX as i128,
        DataType::UInt8 => 0 <= x && x <= u8::MAX as i128,
        DataType::UInt16 => 0 <= x && x <= u16::MAX as i128,
        DataType::UInt32 => 0 <= x && x <= u32::MAX as i128,
        DataType::UInt64 => 0 <= x && x <= u64::MAX as i128,
        _ => false,
    }
}

impl Column {
    /// Whether this column is well formed, so that it can be decoded.
    pub fn is_well_formed(&self) -> (r: bool)
        ensures
            r == wf(*self),
        decreases self,
    {
        let n = self.validity.len();
        match &self.payload {
            Payload::Fixed(v) => {
                if v.len() != n {
                    return false;
                }
                let mut i: usize = 0;
                while i < v.len()
                    invariant
                        i <= v.len(),
                        v.len() == n,
                        self.payload == Payload::Fixed(*v),
                        self.validity.len() == n,
                        forall|j: int| 0 <= j < i ==> in_range(self.data_type, #[trigger] v@[j]),
                    decreases v.len() - i,
                {
                    if !slot_in_range(&self.data_type, v[i]) {
                        return false;
                    }
                    i = i + 1;
                }
                matches!(
                    self.data_type,
                    DataType::Boolean | DataType::Int8 | DataType::Int16 | DataType::Int32 | DataType::Int64
                        | DataType::UInt8 | DataType::UInt16 | DataType::UInt32 | DataType::UInt64
                        | DataType::Date32 | DataType::Timestamp
                )
            },
            Payload::Utf8(v) => matches!(self.data_type, DataType::Utf8 | DataType::LargeUtf8) && v.len() == n,
            Payload::Binary(v) => matches!(self.data_type, DataType::Binary | DataType::LargeBinary) && v.len() == n,
            Payload::List(o, child) => {
                let inner: &Field = match &self.data_type {
                    DataType::List(g) => g,
                    DataType::LargeList(g) => g,
                    _ => {
                        return false;
                    },
                };
                if !child.data_type.same_as(&inner.data_type) {
                    return false;
                }
                proof {
                    assert(decreases_to!(*self => self.payload));
                    assert(decreases_to!(self.payload => self.payload->List_1));
                }
                if !child.is_well_formed() {
                    return false;
                }
                if o.len() == 0 || o.len() - 1 != n || o[0] != 0 || o[n] != child.validity.len() {
                    return false;
                }
                let mut k: usize = 0;
                while k < n
                    invariant
                        k <= n,
                        o.len() == n + 1,
                        self.payload == Payload::List(*o, *child),
                        forall|a: int, b: int| 0 <= a <= b <= k ==> o@[a] <= o@[b],
                    decreases n - k,
                {
                    if o[k] > o[k + 1] {
                        proof {
                            assert(!(o@[k as int] <= o@[k + 1]));
                        }
                        return false;
                    }
                    proof {
                        assert forall|a: int, b: int| 0 <= a <= b <= k + 1 implies o@[a] <= o@[b] by {
                            if b == k + 1 && a <= k {
                                assert(o@[a] <= o@[k as int]);
                            }
                        }
                    }
                    k = k + 1;
                }
                true
            },
        }
    }
}

} // verus!
