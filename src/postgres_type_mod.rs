//! The small closed set of database types the library works with.
use vstd::prelude::*;

use crate::text_mod::{eq_ignore_ascii_case, same_ignoring_ascii_case};

verus! {

/// Types of the input parameters of database functions.
#[derive(Debug, Clone, Copy, PartialEq, Eq, Structural)]
pub enum PostgresInputType {
    /// 4 bytes
    Integer,
    /// `character varying`, named by its first word
    Character,
    /// text
    Text,
}

/// Types of the fields of database views.
#[derive(Debug, Clone, Copy, PartialEq, Eq, Structural)]
pub enum PostgresFieldType {
    /// 4 bytes
    Int4,
    /// varchar
    Varchar,
    /// names of database objects
    Name,
    /// text
    Text,
}

/// A typed argument of a statement.
#[derive(Debug, Clone, PartialEq, Eq)]
pub enum PostgresValue {
    String(String),
    I32(i32),
}

/// What a statement argument holds.
pub enum ValueView {
    Text(Seq<char>),
    Int32(i32),
}

pub open spec fn value_view(v: PostgresValue) -> ValueView {
    match v {
        PostgresValue::String(s) => ValueView::Text(s@),
        PostgresValue::I32(n) => ValueView::Int32(n),
    }
}

pub open spec fn values_view(v: Seq<PostgresValue>) -> Seq<ValueView> {
    v.map_values(|x: PostgresValue| value_view(x))
}

/// The input type that a database type name stands for, ignoring ASCII case.
pub open spec fn input_type_of(s: Seq<char>) -> Option<PostgresInputType> {
    if same_ignoring_ascii_case(s, "integer"@) {
        Some(PostgresInputType::Integer)
    } else if same_ignoring_ascii_case(s, "character"@) {
        Some(PostgresInputType::Character)
    } else if same_ignoring_ascii_case(s, "text"@) {
        Some(PostgresInputType::Text)
    } else {
        None
    }
}

/// The field type that a database type name stands for, ignoring ASCII case.
pub open spec fn field_type_of(s: Seq<char>) -> Option<PostgresFieldType> {
    if same_ignoring_ascii_case(s, "int4"@) {
        Some(PostgresFieldType::Int4)
    } else if same_ignoring_ascii_case(s, "varchar"@) {
        Some(PostgresFieldType::Varchar)
    } else if same_ignoring_ascii_case(s, "name"@) {
        Some(PostgresFieldType::Name)
    } else if same_ignoring_ascii_case(s, "text"@) {
        Some(PostgresFieldType::Text)
    } else {
        None
    }
}

impl PostgresInputType {
    /// Reads a type name as the database writes it.
    pub fn from_type_name(s: &str) -> (r: Option<PostgresInputType>)
        ensures
            r == input_type_of(s@),
    {
        if eq_ignore_ascii_case(s, "integer") {
            Some(PostgresInputType::Integer)
        } else if eq_ignore_ascii_case(s, "character") {
            Some(PostgresInputType::Character)
        } else if eq_ignore_ascii_case(s, "text") {
            Some(PostgresInputType::Text)
        } else {
            None
        }
    }
}

impl PostgresFieldType {
    /// Reads a type name as the database writes it.
    pub fn from_type_name(s: &str) -> (r: Option<PostgresFieldType>)
        ensures
            r == field_type_of(s@),
    {
        if eq_ignore_ascii_case(s, "int4") {
            Some(PostgresFieldType::Int4)
        } else if eq_ignore_ascii_case(s, "varchar") {
            Some(PostgresFieldType::Varchar)
        } else if eq_ignore_ascii_case(s, "name") {
            Some(PostgresFieldType::Name)
        } else if eq_ignore_ascii_case(s, "text") {
            Some(PostgresFieldType::Text)
        } else {
            None
        }
    }
}

} // verus!
