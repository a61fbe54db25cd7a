use vstd::prelude::*;
use crate::column::{lemma_null_iff_invalid, lemma_rows, rows, wf, Column};
use crate::deserialize::decoded;
use crate::field::{is_list_type, list_inner, DataType, Field};
use crate::serialize::encodes;
use crate::value::{all_have_type, has_type, lemma_all_have_type_push, Datum};

verus! {

/// A single value of a type is accepted by the encoder for that type, and
/// the column it is encoded into decodes, as the same type, to exactly
/// that value; this includes the absent value of an optional type.
pub proof fn lemma_round_trip(v: Datum, f: Field, c: Column)
    requires
        has_type(v, f),
        encodes(seq![v], f, c),
    ensures
        all_have_type(seq![v], f),
        decoded(c, f) == Some(seq![v]),
{
    lemma_all_have_type_push(Seq::empty(), v, f);
    assert(Seq::<Datum>::empty().push(v) =~= seq![v]);
}

/// A sequence of lists of lists (some of them empty, some absent where the
/// outer type is optional) is accepted by the encoder, and its column
/// decodes to exactly the same nested structure.
pub proof fn lemma_nested_round_trip(vals: Seq<Datum>, f: Field, c: Column)
    requires
        is_list_type(f.data_type),
        is_list_type(list_inner(f.data_type).data_type),
        all_have_type(vals, f),
        encodes(vals, f, c),
    ensures
        decoded(c, f) == Some(vals),
{
}

/// The absent value of an optional type is stored as a slot marked
/// invalid, and that slot decodes to the absent value.
pub proof fn lemma_null_propagation(f: Field, c: Column)
    requires
        f.nullable,
        encodes(seq![Datum::Null], f, c),
    ensures
        has_type(Datum::Null, f),
        c.validity@ == seq![false],
        decoded(c, f) == Some(seq![Datum::Null]),
{
    lemma_rows(c);
    assert(rows(c)[0] == Datum::Null);
    lemma_null_iff_invalid(c, 0);
    assert(c.validity@ =~= seq![false]);
}

/// A column recorded as 32-bit integers does not decode as UTF-8 text.
pub proof fn lemma_type_mismatch(c: Column, f: Field)
    requires
        wf(c),
        c.data_type == DataType::Int32,
        f.data_type == DataType::Utf8,
    ensures
        decoded(c, f) is None,
{
}

/// Text encoded with 64-bit offsets decodes as text with 64-bit offsets,
/// and not as text with 32-bit offsets.
pub proof fn lemma_offset_width(vals: Seq<Datum>, large: Field, small: Field, c: Column)
    requires
        large.data_type == DataType::LargeUtf8,
        small.data_type == DataType::Utf8,
        encodes(vals, large, c),
    ensures
        decoded(c, large) == Some(vals),
        decoded(c, small) is None,
{
}

} // verus!
