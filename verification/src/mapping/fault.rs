//! Why a value would not become the type a caller asked for.

use vstd::prelude::*;
use vstd::string::StringExecFns;

use crate::text::{decimal, decimal_text};
use crate::value::{Number, Value, ValueView};

verus! {

/// A value did not become the type a caller asked for.
///
/// Apart from [`Error`](crate::error::Error) and
/// [`EncodingFault`](crate::error::EncodingFault), because nothing failed on the network and
/// nothing failed in the codec: the bytes arrived, decoded, and mean exactly what they say. What
/// failed is the caller's expectation about a field, which is a fault in the program rather than
/// in the conversation.
#[derive(Debug, PartialEq, Eq)]
#[non_exhaustive]
pub enum MappingFault {
    /// The value is not of the type the target needs.
    ///
    /// Both names are what a person calls the type, not a Rust path.
    WrongType {
        /// What the conversion needed.
        expected: &'static str,
        /// What was actually there.
        found: &'static str,
    },
    /// The record has no field by that name.
    ///
    /// Distinct from a field that is present and holds nothing: a missing key is a disagreement
    /// about the shape of the record, and a null is a fact about one.
    NoSuchField {
        /// The name that was asked for.
        name: String,
    },
    /// A fault inside a named field.
    InField {
        /// Which field.
        name: String,
        /// What went wrong inside it.
        cause: Box<MappingFault>,
    },
    /// A fault inside one element of a sequence.
    ///
    /// Separate from [`MappingFault::InField`] so that a bad value deep in a long array names its
    /// position.
    AtElement {
        /// Which element.
        index: usize,
        /// What went wrong inside it.
        cause: Box<MappingFault>,
    },
    /// The answer carried something other than records.
    NotRecords,
    /// A record's value is not an object, so it has no fields to address.
    NotAnObject {
        /// What the record held instead.
        found: &'static str,
    },
}

/// What a fault says.
#[verifier::ext_equal]
pub enum FaultView {
    /// The value is not of the type the target needs.
    WrongType {
        /// What the conversion needed.
        expected: Seq<char>,
        /// What was actually there.
        found: Seq<char>,
    },
    /// The record has no field by that name.
    NoSuchField {
        /// The name that was asked for.
        name: Seq<char>,
    },
    /// A fault inside a named field.
    InField {
        /// Which field.
        name: Seq<char>,
        /// What went wrong inside it.
        cause: Box<FaultView>,
    },
    /// A fault inside one element of a sequence.
    AtElement {
        /// Which element.
        index: usize,
        /// What went wrong inside it.
        cause: Box<FaultView>,
    },
    /// The answer carried something other than records.
    NotRecords,
    /// A record's value is not an object.
    NotAnObject {
        /// What the record held instead.
        found: Seq<char>,
    },
}

/// What a fault says, the fault inside it included.
pub open spec fn fault_view(fault: MappingFault) -> FaultView
    decreases fault,
{
    match fault {
        MappingFault::WrongType { expected, found } => FaultView::WrongType {
            expected: expected@,
            found: found@,
        },
        MappingFault::NoSuchField { name } => FaultView::NoSuchField { name: name@ },
        MappingFault::InField { name, cause } => FaultView::InField {
            name: name@,
            cause: Box::new(fault_view(*cause)),
        },
        MappingFault::AtElement { index, cause } => FaultView::AtElement {
            index,
            cause: Box::new(fault_view(*cause)),
        },
        MappingFault::NotRecords => FaultView::NotRecords,
        MappingFault::NotAnObject { found } => FaultView::NotAnObject { found: found@ },
    }
}

impl View for MappingFault {
    type V = FaultView;

    open spec fn view(&self) -> FaultView {
        fault_view(*self)
    }
}

/// A fault in words, from the outermost place to the cause.
pub open spec fn fault_words(fault: FaultView) -> Seq<char>
    decreases fault,
{
    match fault {
        FaultView::WrongType { expected, found } => "expected "@ + expected + ", found "@ + found,
        FaultView::NoSuchField { name } => "no field named `"@ + name + "`"@,
        FaultView::InField { name, cause } => "in field `"@ + name + "`: "@ + fault_words(*cause),
        FaultView::AtElement { index, cause } => "at element "@ + decimal(index as nat) + ": "@
            + fault_words(*cause),
        FaultView::NotRecords => "that answer holds no records"@,
        FaultView::NotAnObject { found } => "a record holds "@ + found + ", which has no fields"@,
    }
}

impl MappingFault {
    /// Attach a field name to this fault.
    pub(crate) fn in_field(self, name: &str) -> (fault: Self)
        ensures
            fault matches MappingFault::InField { name: field, cause } && field@ == name@ && *cause
                == self,
    {
        MappingFault::InField { name: name.to_owned(), cause: Box::new(self) }
    }

    /// Attach a sequence position to this fault.
    pub(crate) fn in_element(self, index: usize) -> (fault: Self)
        ensures
            fault == (MappingFault::AtElement { index, cause: Box::new(self) }),
    {
        MappingFault::AtElement { index, cause: Box::new(self) }
    }

    /// The fault, in words.
    #[must_use]
    pub fn to_string(&self) -> (text: String)
        ensures
            text@ == fault_words(self@),
        decreases self,
    {
        match self {
            MappingFault::WrongType { expected, found } => "expected ".to_owned()
                .concat(*expected)
                .concat(", found ")
                .concat(*found),
            MappingFault::NoSuchField { name } => "no field named `".to_owned()
                .concat(name.as_str())
                .concat("`"),
            MappingFault::InField { name, cause } => {
                let inner = cause.to_string();
                "in field `".to_owned().concat(name.as_str()).concat("`: ").concat(inner.as_str())
            },
            MappingFault::AtElement { index, cause } => {
                let inner = cause.to_string();
                "at element ".to_owned()
                    .concat(decimal_text(*index as u64).as_str())
                    .concat(": ")
                    .concat(inner.as_str())
            },
            MappingFault::NotRecords => "that answer holds no records".to_owned(),
            MappingFault::NotAnObject { found } => "a record holds ".to_owned()
                .concat(*found)
                .concat(", which has no fields"),
        }
    }
}

impl Clone for MappingFault {
    fn clone(&self) -> (copy: Self)
        ensures
            copy@ == self@,
    {
        copy_fault(self)
    }
}

fn copy_fault(fault: &MappingFault) -> (copy: MappingFault)
    ensures
        copy@ == fault@,
    decreases fault,
{
    match fault {
        MappingFault::WrongType { expected, found } => MappingFault::WrongType {
            expected: *expected,
            found: *found,
        },
        MappingFault::NoSuchField { name } => MappingFault::NoSuchField { name: name.clone() },
        MappingFault::InField { name, cause } => MappingFault::InField {
            name: name.clone(),
            cause: Box::new(copy_fault(cause)),
        },
        MappingFault::AtElement { index, cause } => MappingFault::AtElement {
            index: *index,
            cause: Box::new(copy_fault(cause)),
        },
        MappingFault::NotRecords => MappingFault::NotRecords,
        MappingFault::NotAnObject { found } => MappingFault::NotAnObject { found: *found },
    }
}

/// What to call a value in a message meant for a person.
///
/// These are the store's names, not Rust's. An absent field and a null get different names: the
/// distinction is one the store keeps deliberately, and a caller debugging a mapping is exactly
/// the person who needs to see it.
pub open spec fn kind_name(value: ValueView) -> Seq<char> {
    match value {
        ValueView::Absent => "an absent field"@,
        ValueView::Null => "null"@,
        ValueView::Bool(_) => "a boolean"@,
        ValueView::Number(Number::Integer(_)) => "a whole number"@,
        ValueView::Number(Number::Float(_)) => "a floating-point number"@,
        ValueView::Number(Number::Decimal { .. }) => "an exact decimal"@,
        ValueView::String(_) => "text"@,
        ValueView::Bytes(_) => "bytes"@,
        ValueView::Duration { .. } => "a duration"@,
        ValueView::Datetime { .. } => "a datetime"@,
        ValueView::Uuid(_) => "a uuid"@,
        ValueView::Table(_) => "a table reference"@,
        ValueView::Record(_) => "a record reference"@,
        ValueView::Array(_) => "an array"@,
        ValueView::Object(_) => "an object"@,
        ValueView::Range(_) => "a range"@,
        ValueView::SetOf(_) => "a set"@,
        ValueView::Geometry(_) => "a geometry"@,
        ValueView::Regex(_) => "a pattern"@,
    }
}

/// What to call a value in a message meant for a person.
///
/// Every variant is listed, and there is no catch-all: adding a value type fails to compile here,
/// and whoever adds it has to say what it is called.
pub(crate) fn name_of(value: &Value) -> (name: &'static str)
    ensures
        name@ == kind_name(value@),
{
    match value {
        Value::Absent => "an absent field",
        Value::Null => "null",
        Value::Bool(_) => "a boolean",
        Value::Number(Number::Integer(_)) => "a whole number",
        Value::Number(Number::Float(_)) => "a floating-point number",
        Value::Number(Number::Decimal { .. }) => "an exact decimal",
        Value::String(_) => "text",
        Value::Bytes(_) => "bytes",
        Value::Duration { .. } => "a duration",
        Value::Datetime { .. } => "a datetime",
        Value::Uuid(_) => "a uuid",
        Value::Table(_) => "a table reference",
        Value::Record(_) => "a record reference",
        Value::Array(_) => "an array",
        Value::Object(_) => "an object",
        Value::Range(_) => "a range",
        Value::SetOf(_) => "a set",
        Value::Geometry(_) => "a geometry",
        Value::Regex(_) => "a pattern",
    }
}

}
