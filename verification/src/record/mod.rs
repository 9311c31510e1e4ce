//! Records of a dBase file: the description of a field and the values it holds.

pub mod datetime;
pub mod field;
pub mod memo;

use crate::record::field::FieldType;
use vstd::prelude::*;

verus! {

/// The description of one field of a record: its name, its type, and the number of
/// bytes it takes in a record.
pub struct FieldInfo {
    pub name: String,
    pub field_type: FieldType,
    pub field_length: u8,
}

impl FieldInfo {
    pub fn new(name: String, field_type: FieldType, field_length: u8) -> (r: Self)
        ensures
            r.name@ == name@,
            r.field_type == field_type,
            r.field_length == field_length,
    {
        FieldInfo { name, field_type, field_length }
    }
}

} // verus!
