//! Runtime values: the tagged results the evaluator reduces syntax trees
//! to — 64-bit integers, booleans, and the null absence value.

use vstd::prelude::*;

use crate::digits::{dec_i64, i64_to_string};

verus! {

/// A runtime value.
#[derive(Clone, Copy)]
pub enum Object {
    Integer { value: i64 },
    Boolean { value: bool },
    Null,
}

/// The textual rendering of a runtime value, as `inspect` prints it.
pub open spec fn spec_object_text(o: Object) -> Seq<char> {
    match o {
        Object::Integer { value } => dec_i64(value),
        Object::Boolean { value } => if value {
            "true"@
        } else {
            "false"@
        },
        Object::Null => "null"@,
    }
}

/// The kind tag of a runtime value, as `kind` reports it.
pub open spec fn spec_object_kind(o: Object) -> Seq<char> {
    match o {
        Object::Integer { .. } => "Integer"@,
        Object::Boolean { .. } => "Boolean"@,
        Object::Null => "Null"@,
    }
}

impl Object {
    /// Renders the value as text: the decimal integer, `true`/`false`, or
    /// `null`.
    pub fn inspect(&self) -> (r: String)
        ensures
            r@ == spec_object_text(*self),
    {
        match self {
            Object::Integer { value } => i64_to_string(*value),
            Object::Boolean { value } => if *value {
                "true".to_owned()
            } else {
                "false".to_owned()
            },
            Object::Null => "null".to_owned(),
        }
    }

    /// The value's kind tag.
    pub fn kind(&self) -> (r: String)
        ensures
            r@ == spec_object_kind(*self),
    {
        match self {
            Object::Integer { .. } => "Integer".to_owned(),
            Object::Boolean { .. } => "Boolean".to_owned(),
            Object::Null => "Null".to_owned(),
        }
    }
}

} // verus!
