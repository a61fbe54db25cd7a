//! Conversion between row-oriented native values and columnar arrays.
//!
//! A sequence of [`Value`]s of one logical type ([`Field`]) is encoded into a
//! [`Column`]: one validity flag per row, a payload laid out by the physical
//! kind of the type, and for nested lists an offset buffer into a child
//! column. Decoding checks the column's recorded type before reading a row.
pub mod column;
pub mod deserialize;
pub mod field;
pub mod laws;
pub mod serialize;
pub mod value;

pub use column::{Column, Payload};
pub use deserialize::{arrow_array_deserialize_iterator, arrow_deserialize};
pub use field::{DataType, Field};
pub use serialize::{arrow_serialize, arrow_serialize_extend, into_arrow, new_array, ConvertError};
pub use value::{Datum, Value};
