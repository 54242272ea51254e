//! What a [`Value`] converts into.
//!
//! The conversions are the types that go outward, coming back, plus the three that only make sense
//! inward: [`Value`] itself, [`Option<T>`] and [`Vec<T>`]. A store type with no natural Rust
//! counterpart, a duration or a geometry, is taken as [`Value`] and converted by whoever knows.

use vstd::prelude::*;

use crate::double::Double;
use crate::mapping::FromValue;
use crate::mapping::fault::{kind_name, name_of, FaultView, MappingFault};
use crate::value::{values_view, Number, Value, ValueView};

verus! {

/// Whether `made` is the fault of a value that is not of the type needed.
pub open spec fn is_wrong_type<T>(
    made: Result<T, MappingFault>,
    expected: Seq<char>,
    value: ValueView,
) -> bool {
    made matches Err(fault) && fault@ == (FaultView::WrongType {
        expected,
        found: kind_name(value),
    })
}

impl FromValue for Value {
    open spec fn comes_of(value: ValueView, made: Result<Self, MappingFault>) -> bool {
        made matches Ok(held) && held@ == value
    }

    /// Take a field without converting it.
    ///
    /// The escape hatch: a store type this module has no Rust counterpart for is still reachable.
    fn from_value(value: Value) -> (made: Result<Self, MappingFault>) {
        Ok(value)
    }
}

impl FromValue for bool {
    open spec fn comes_of(value: ValueView, made: Result<Self, MappingFault>) -> bool {
        match value {
            ValueView::Bool(held) => made == Ok::<bool, MappingFault>(held),
            other => is_wrong_type(made, "a boolean"@, other),
        }
    }

    fn from_value(value: Value) -> (made: Result<Self, MappingFault>) {
        match value {
            Value::Bool(held) => Ok(held),
            other => Err(
                MappingFault::WrongType { expected: "a boolean", found: name_of(&other) },
            ),
        }
    }
}

impl FromValue for i64 {
    open spec fn comes_of(value: ValueView, made: Result<Self, MappingFault>) -> bool {
        match value {
            ValueView::Number(Number::Integer(held)) => made == Ok::<i64, MappingFault>(held),
            other => is_wrong_type(made, "a whole number"@, other),
        }
    }

    fn from_value(value: Value) -> (made: Result<Self, MappingFault>) {
        match value {
            Value::Number(Number::Integer(held)) => Ok(held),
            other => Err(
                MappingFault::WrongType { expected: "a whole number", found: name_of(&other) },
            ),
        }
    }
}

impl FromValue for Double {
    open spec fn comes_of(value: ValueView, made: Result<Self, MappingFault>) -> bool {
        match value {
            ValueView::Number(Number::Float(held)) => made == Ok::<Double, MappingFault>(held),
            other => is_wrong_type(made, "a floating-point number"@, other),
        }
    }

    /// A whole number is not accepted here, on purpose: a store integer is 64 bits and a double
    /// carries 53 of them exactly, so widening one into the other is lossy, silently, and in the
    /// direction of a plausible wrong answer rather than an error.
    fn from_value(value: Value) -> (made: Result<Self, MappingFault>) {
        match value {
            Value::Number(Number::Float(held)) => Ok(held),
            other => Err(
                MappingFault::WrongType {
                    expected: "a floating-point number",
                    found: name_of(&other),
                },
            ),
        }
    }
}

impl FromValue for Number {
    open spec fn comes_of(value: ValueView, made: Result<Self, MappingFault>) -> bool {
        match value {
            ValueView::Number(held) => made == Ok::<Number, MappingFault>(held),
            other => is_wrong_type(made, "a number"@, other),
        }
    }

    /// Any of the three shapes a number comes in, undecided.
    fn from_value(value: Value) -> (made: Result<Self, MappingFault>) {
        match value {
            Value::Number(held) => Ok(held),
            other => Err(MappingFault::WrongType { expected: "a number", found: name_of(&other) }),
        }
    }
}

impl FromValue for String {
    open spec fn comes_of(value: ValueView, made: Result<Self, MappingFault>) -> bool {
        match value {
            ValueView::String(held) => made matches Ok(text) && text@ == held,
            other => is_wrong_type(made, "text"@, other),
        }
    }

    fn from_value(value: Value) -> (made: Result<Self, MappingFault>) {
        match value {
            Value::String(held) => Ok(held),
            other => Err(MappingFault::WrongType { expected: "text", found: name_of(&other) }),
        }
    }
}

impl FromValue for Vec<u8> {
    open spec fn comes_of(value: ValueView, made: Result<Self, MappingFault>) -> bool {
        match value {
            ValueView::Bytes(held) => made matches Ok(bytes) && bytes@ == held,
            other => is_wrong_type(made, "bytes"@, other),
        }
    }

    fn from_value(value: Value) -> (made: Result<Self, MappingFault>) {
        match value {
            Value::Bytes(held) => Ok(held),
            other => Err(MappingFault::WrongType { expected: "bytes", found: name_of(&other) }),
        }
    }
}

impl<T: FromValue> FromValue for Option<T> {
    /// An absent field and a null are both no value: a caller writing `Option<T>` has asked one
    /// question, whether there is a value, and both answer it the same way.
    open spec fn comes_of(value: ValueView, made: Result<Self, MappingFault>) -> bool {
        match value {
            ValueView::Absent => made == Ok::<Option<T>, MappingFault>(None),
            ValueView::Null => made == Ok::<Option<T>, MappingFault>(None),
            held => match made {
                Ok(Some(item)) => T::comes_of(held, Ok(item)),
                Ok(None) => false,
                Err(fault) => T::comes_of(held, Err(fault)),
            },
        }
    }

    fn from_value(value: Value) -> (made: Result<Self, MappingFault>) {
        match value {
            Value::Absent | Value::Null => Ok(None),
            held => match T::from_value(held) {
                Ok(item) => Ok(Some(item)),
                Err(fault) => Err(fault),
            },
        }
    }

    /// A field the record does not carry is `None`, not a failure.
    ///
    /// This is what makes `Option<T>` mean optional rather than merely nullable.
    fn absent() -> (made: Option<Self>)
        ensures
            made == Some(None::<T>),
    {
        Some(None)
    }
}

/// Whether a `T` comes of a value.
pub open spec fn converts<T: FromValue>(value: ValueView) -> bool {
    exists|item: T| #[trigger] T::comes_of(value, Ok::<T, MappingFault>(item))
}

/// Whether `made` is what comes of a sequence: what each element comes to, or the first fault
/// with the position it is at.
pub open spec fn elements_come_to<T: FromValue>(
    elements: Seq<ValueView>,
    made: Result<Vec<T>, MappingFault>,
) -> bool {
    match made {
        Ok(items) => items@.len() == elements.len() && forall|i: int|
            0 <= i < elements.len() ==> T::comes_of(
                #[trigger] elements[i],
                Ok::<T, MappingFault>(items@[i]),
            ),
        Err(MappingFault::AtElement { index, cause }) => index < elements.len() && T::comes_of(
            elements[index as int],
            Err(*cause),
        ) && forall|i: int|
            0 <= i < index ==> converts::<T>(#[trigger] elements[i]),
        Err(_) => false,
    }
}

impl<T: FromValue> FromValue for Vec<T> {
    /// A set converts too: refusing it would preserve an ordering guarantee that a `Vec` does not
    /// make in the first place.
    open spec fn comes_of(value: ValueView, made: Result<Self, MappingFault>) -> bool {
        match value {
            ValueView::Array(elements) => elements_come_to(elements, made),
            ValueView::SetOf(elements) => elements_come_to(elements, made),
            other => is_wrong_type(made, "an array"@, other),
        }
    }

    fn from_value(value: Value) -> (made: Result<Self, MappingFault>) {
        let elements = match value {
            Value::Array(held) | Value::SetOf(held) => held,
            other => {
                return Err(
                    MappingFault::WrongType { expected: "an array", found: name_of(&other) },
                );
            },
        };
        map_elements(elements)
    }
}

fn map_elements<T: FromValue>(elements: Vec<Value>) -> (made: Result<Vec<T>, MappingFault>)
    ensures
        elements_come_to(values_view(elements@), made),
{
    let ghost held = values_view(elements@);
    let mut items: Vec<T> = Vec::new();
    for element in it: elements
        invariant
            it.seq() == elements@,
            held == values_view(elements@),
            items@.len() == it.index(),
            forall|i: int|
                0 <= i < it.index() ==> T::comes_of(
                    #[trigger] held[i],
                    Ok::<T, MappingFault>(items@[i]),
                ),
    {
        let ghost at = it.index() as int;
        assert(held[at] == element@);
        match T::from_value(element) {
            Ok(item) => {
                items.push(item);
            },
            Err(cause) => {
                assert forall|i: int| 0 <= i < at implies converts::<T>(#[trigger] held[i]) by {
                    assert(T::comes_of(held[i], Ok::<T, MappingFault>(items@[i])));
                }
                return Err(cause.in_element(items.len()));
            },
        }
    }
    Ok(items)
}

}
