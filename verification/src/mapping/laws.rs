//! What holds of the mapping as a whole.

use vstd::prelude::*;

use crate::double::Double;
use crate::fields::{field_of, lemma_without_field, ordered, without_field};
use crate::mapping::{
    record_comes_to, record_maps, records_come_to, taken_from, taken_from_nothing, FromRecord,
    FromValue, Row, RowView,
};
use crate::mapping::fault::{fault_words, kind_name, FaultView, MappingFault};
use crate::mapping::impls::converts;
use crate::text::decimal;
use crate::value::{IntoValue, Number, Value, ValueView};
use crate::wire::message::{Answer, AnswerView};

verus! {

/// Taking a field removes it: a second take finds nothing, and every other field is as it was.
pub proof fn law_taking_removes(row: RowView, field: Seq<char>, other: Seq<char>)
    requires
        ordered(row.fields),
        other != field,
    ensures
        field_of(without_field(row.fields, field), field) is None,
        field_of(without_field(row.fields, field), other) == field_of(row.fields, other),
        ordered(without_field(row.fields, field)),
{
    lemma_without_field(row.fields, field);
}

/// A required field that is not there is a fault that names it.
pub proof fn law_missing_fields_are_named<T: FromValue>(
    field: Seq<char>,
    taken: Result<T, MappingFault>,
)
    requires
        taken_from_nothing(field, None::<T>, taken),
    ensures
        taken matches Err(fault) && fault@ == (FaultView::NoSuchField { name: field }),
{
}

/// An integer that goes out comes back.
pub proof fn law_integers_come_back(value: i64, made: Result<i64, MappingFault>)
    requires
        i64::comes_of(value.value(), made),
    ensures
        made == Ok::<i64, MappingFault>(value),
{
}

/// A double that goes out comes back, bit for bit.
pub proof fn law_doubles_come_back(value: Double, made: Result<Double, MappingFault>)
    requires
        Double::comes_of(value.value(), made),
    ensures
        made == Ok::<Double, MappingFault>(value),
{
}

/// A boolean that goes out comes back.
pub proof fn law_booleans_come_back(value: bool, made: Result<bool, MappingFault>)
    requires
        bool::comes_of(value.value(), made),
    ensures
        made == Ok::<bool, MappingFault>(value),
{
}

/// Text that goes out comes back.
pub proof fn law_texts_come_back(value: String, made: Result<String, MappingFault>)
    requires
        String::comes_of(value.value(), made),
    ensures
        made matches Ok(text) && text@ == value@,
{
}

/// Bytes that go out come back.
pub proof fn law_bytes_come_back(value: Vec<u8>, made: Result<Vec<u8>, MappingFault>)
    requires
        <Vec<u8> as FromValue>::comes_of(value.value(), made),
    ensures
        made matches Ok(bytes) && bytes@ == value@,
{
}

/// A whole number does not widen itself into a float.
pub proof fn law_integers_do_not_widen(value: i64, made: Result<Double, MappingFault>)
    requires
        Double::comes_of(ValueView::Number(Number::Integer(value)), made),
    ensures
        made matches Err(fault) && fault@ == (FaultView::WrongType {
            expected: "a floating-point number"@,
            found: "a whole number"@,
        }),
{
}

/// What a value is called where it was not the one that was asked for.
pub proof fn law_values_are_called_by_their_kind(value: ValueView)
    ensures
        kind_name(value) == (match value {
            ValueView::Absent => "an absent field"@,
            ValueView::Null => "null"@,
            ValueView::Bool(_) => "a boolean"@,
            ValueView::Number(Number::Integer(_)) => "a whole number"@,
            ValueView::Number(Number::Float(_)) => "a floating-point number"@,
            ValueView::Number(Number::Decimal { .. }) => "an exact decimal"@,
            ValueView::String(_) => "text"@,
            ValueView::Bytes(_) => "bytes"@,
            ValueView::Duration { .. } => "a duration"@,
            ValueView::Datetime { .. } => "a datetime"@,
            ValueView::Uuid(_) => "a uuid"@,
            ValueView::Table(_) => "a table reference"@,
            ValueView::Record(_) => "a record reference"@,
            ValueView::Array(_) => "an array"@,
            ValueView::Object(_) => "an object"@,
            ValueView::Range(_) => "a range"@,
            ValueView::SetOf(_) => "a set"@,
            ValueView::Geometry(_) => "a geometry"@,
            ValueView::Regex(_) => "a pattern"@,
        }),
{
}

/// Whether something was refused for being of another type than the one that was asked for.
pub open spec fn is_refused<T>(
    made: Result<T, MappingFault>,
    expected: Seq<char>,
    value: ValueView,
) -> bool {
    made matches Err(MappingFault::WrongType { expected: wanted, found }) && wanted@ == expected
        && found@ == kind_name(value)
}

/// A plain type takes a value of its own kind, unchanged, and no other: each other is refused with
/// what was expected and what was found.
pub proof fn law_plain_types_take_their_own_kind(
    value: ValueView,
    flag: Result<bool, MappingFault>,
    integer: Result<i64, MappingFault>,
    double: Result<Double, MappingFault>,
    number: Result<Number, MappingFault>,
)
    requires
        bool::comes_of(value, flag),
        i64::comes_of(value, integer),
        Double::comes_of(value, double),
        Number::comes_of(value, number),
    ensures
        value matches ValueView::Bool(held) ==> flag == Ok::<bool, MappingFault>(held),
        !(value is Bool) ==> is_refused(flag, "a boolean"@, value),
        value matches ValueView::Number(held) ==> number == Ok::<Number, MappingFault>(held),
        !(value is Number) ==> is_refused(number, "a number"@, value),
        value matches ValueView::Number(Number::Integer(held)) ==> integer == Ok::<
            i64,
            MappingFault,
        >(held),
        !(value matches ValueView::Number(Number::Integer(_))) ==> is_refused(
            integer,
            "a whole number"@,
            value,
        ),
        value matches ValueView::Number(Number::Float(held)) ==> double == Ok::<
            Double,
            MappingFault,
        >(held),
        !(value matches ValueView::Number(Number::Float(_))) ==> is_refused(
            double,
            "a floating-point number"@,
            value,
        ),
{
}

/// Text, bytes and a value itself are taken as they are; where text or bytes are asked for, nothing
/// else is.
pub proof fn law_text_and_bytes_take_their_own_kind(
    value: ValueView,
    text: Result<String, MappingFault>,
    bytes: Result<Vec<u8>, MappingFault>,
    whole: Result<Value, MappingFault>,
)
    requires
        String::comes_of(value, text),
        <Vec<u8> as FromValue>::comes_of(value, bytes),
        Value::comes_of(value, whole),
    ensures
        value matches ValueView::String(held) ==> (text matches Ok(made) && made@ == held),
        !(value is String) ==> is_refused(text, "text"@, value),
        value matches ValueView::Bytes(held) ==> (bytes matches Ok(made) && made@ == held),
        !(value is Bytes) ==> is_refused(bytes, "bytes"@, value),
        whole matches Ok(made) && made@ == value,
{
}

/// An option is empty where the field is absent or null, and nowhere else; anything else is what
/// its inner type makes of it.
pub proof fn law_options_are_empty_where_nothing_is_held<T: FromValue>(
    value: ValueView,
    made: Result<Option<T>, MappingFault>,
)
    requires
        Option::<T>::comes_of(value, made),
    ensures
        made == Ok::<Option<T>, MappingFault>(None) <==> value is Absent || value is Null,
        made matches Ok(Some(item)) ==> T::comes_of(value, Ok(item)),
        made matches Err(fault) ==> T::comes_of(value, Err(fault)),
{
}

/// Whether a value may become an item.
pub open spec fn makes_an_item<T: FromValue>(value: ValueView) -> bool {
    exists|item: T| #[trigger] T::comes_of(value, Ok::<T, MappingFault>(item))
}

/// An array or a set becomes as many items as it has elements, each made of the element at its
/// place; where one would not become an item, the fault names its place and holds why. Nothing else
/// becomes a sequence.
pub proof fn law_sequences_are_made_of_every_element<T: FromValue>(
    value: ValueView,
    made: Result<Vec<T>, MappingFault>,
)
    requires
        <Vec<T> as FromValue>::comes_of(value, made),
    ensures
        match value {
            ValueView::Array(elements) | ValueView::SetOf(elements) => match made {
                Ok(items) => items@.len() == elements.len() && forall|i: int|
                    0 <= i < items@.len() ==> T::comes_of(
                        elements[i],
                        Ok::<T, MappingFault>(#[trigger] items@[i]),
                    ),
                Err(fault) => fault matches MappingFault::AtElement { index, cause } && index
                    < elements.len() && T::comes_of(elements[index as int], Err(*cause)) && forall|
                    i: int,
                |
                    0 <= i < index ==> makes_an_item::<T>(#[trigger] elements[i]),
            },
            _ => is_refused(made, "an array"@, value),
        },
{
    match value {
        ValueView::Array(elements) | ValueView::SetOf(elements) => match made {
            Ok(items) => {
                assert forall|i: int| 0 <= i < items@.len() implies T::comes_of(
                    elements[i],
                    Ok::<T, MappingFault>(#[trigger] items@[i]),
                ) by {
                    assert(0 <= i < elements.len());
                    let element = elements[i];
                }
            },
            Err(MappingFault::AtElement { index, .. }) => {
                assert forall|i: int| 0 <= i < index implies makes_an_item::<T>(
                    #[trigger] elements[i],
                ) by {
                    assert(converts::<T>(elements[i]));
                }
            },
            Err(_) => {},
        },
        _ => {},
    }
}

/// Records become as many items as there are, each made of the row at its place, with its identity
/// and its fields; a record that is no object is refused by what it is instead.
pub proof fn law_records_become_items_in_order<T: FromRecord>(
    records: Seq<(Seq<char>, ValueView)>,
    made: Result<Vec<T>, MappingFault>,
)
    requires
        records_come_to(records, made),
    ensures
        match made {
            Ok(items) => items@.len() == records.len() && forall|i: int|
                0 <= i < items@.len() ==> {
                    &&& records[i].1 is Object
                    &&& exists|row: Row|
                        row@.id == records[i].0 && ValueView::Object(row@.fields) == records[i].1
                            && #[trigger] call_ensures(
                            T::from_row,
                            (row,),
                            Ok::<T, MappingFault>(#[trigger] items@[i]),
                        )
                },
            Err(fault) => exists|at: int|
                0 <= at < records.len() && match (#[trigger] records[at]).1 {
                    ValueView::Object(fields) => exists|row: Row|
                        row@.id == records[at].0 && row@.fields == fields && #[trigger]
                        call_ensures(T::from_row, (row,), Err::<T, MappingFault>(fault)),
                    other => fault matches MappingFault::NotAnObject { found } && found@
                        == kind_name(other),
                },
        },
{
    match made {
        Ok(items) => {
            assert forall|i: int| 0 <= i < items@.len() implies {
                &&& records[i].1 is Object
                &&& exists|row: Row|
                    row@.id == records[i].0 && ValueView::Object(row@.fields) == records[i].1
                        && #[trigger] call_ensures(
                        T::from_row,
                        (row,),
                        Ok::<T, MappingFault>(#[trigger] items@[i]),
                    )
            } by {
                assert(record_comes_to(records[i], Ok::<T, MappingFault>(items@[i])));
            }
        },
        Err(fault) => {
            let at = choose|at: int|
                0 <= at < records.len() && record_comes_to::<T>(#[trigger] records[at], Err(fault))
                    && forall|i: int|
                    0 <= i < at ==> record_maps::<T>(#[trigger] records[i]);
            assert(record_comes_to::<T>(records[at], Err(fault)));
        },
    }
}

/// A field that would not become what was asked for is named, and the fault holds why.
pub proof fn law_failing_fields_are_named<T: FromValue>(
    field: Seq<char>,
    value: ValueView,
    taken: Result<T, MappingFault>,
)
    requires
        taken_from(field, value, taken),
    ensures
        match taken {
            Ok(made) => T::comes_of(value, Ok(made)),
            Err(fault) => fault matches MappingFault::InField { name, cause } && name@ == field
                && T::comes_of(value, Err(*cause)),
        },
{
}

/// A fault is told with the names and places that lead to it, from the outermost inward.
pub proof fn law_faults_are_told_from_the_outside_in(
    expected: Seq<char>,
    found: Seq<char>,
    index: usize,
    cause: FaultView,
)
    ensures
        fault_words(FaultView::WrongType { expected, found }) == "expected "@ + (expected + (
        ", found "@ + found)),
        fault_words(FaultView::NoSuchField { name: expected }) == "no field named `"@ + (expected
            + "`"@),
        fault_words(FaultView::InField { name: expected, cause: Box::new(cause) }) == "in field `"@
            + (expected + ("`: "@ + fault_words(cause))),
        fault_words(FaultView::AtElement { index, cause: Box::new(cause) }) == "at element "@ + (
        decimal(index as nat) + (": "@ + fault_words(cause))),
        fault_words(FaultView::NotRecords) == "that answer holds no records"@,
        fault_words(FaultView::NotAnObject { found }) == "a record holds "@ + (found
            + ", which has no fields"@),
{
    assert(fault_words(FaultView::WrongType { expected, found }) =~= "expected "@ + (expected + (
    ", found "@ + found)));
    assert(fault_words(FaultView::NoSuchField { name: expected }) =~= "no field named `"@ + (
    expected + "`"@));
    assert(fault_words(FaultView::InField { name: expected, cause: Box::new(cause) })
        =~= "in field `"@ + (expected + ("`: "@ + fault_words(cause))));
    assert(fault_words(FaultView::AtElement { index, cause: Box::new(cause) }) =~= "at element "@
        + (decimal(index as nat) + (": "@ + fault_words(cause))));
    assert(fault_words(FaultView::NotAnObject { found }) =~= "a record holds "@ + (found
        + ", which has no fields"@));
}

/// A fault is seen as it is, and so is what it holds.
pub proof fn law_faults_are_seen_as_they_are(fault: MappingFault)
    ensures
        match fault {
            MappingFault::WrongType { expected, found } => fault@ == (FaultView::WrongType {
                expected: expected@,
                found: found@,
            }),
            MappingFault::NoSuchField { name } => fault@ == (FaultView::NoSuchField {
                name: name@,
            }),
            MappingFault::InField { name, cause } => fault@ == (FaultView::InField {
                name: name@,
                cause: Box::new((*cause)@),
            }),
            MappingFault::AtElement { index, cause } => fault@ == (FaultView::AtElement {
                index,
                cause: Box::new((*cause)@),
            }),
            MappingFault::NotRecords => fault@ == FaultView::NotRecords,
            MappingFault::NotAnObject { found } => fault@ == (FaultView::NotAnObject {
                found: found@,
            }),
        },
{
}

/// A row is opened of an object with its identity and its fields, and of nothing else.
pub proof fn law_rows_are_opened_of_objects(
    id: String,
    value: Value,
    opened: Result<Row, MappingFault>,
)
    requires
        call_ensures(Row::new, (id, value), opened),
    ensures
        opened is Ok <==> value@ is Object,
        opened matches Ok(row) ==> row@.id == id@ && ValueView::Object(row@.fields) == value@,
        opened matches Err(fault) ==> (fault matches MappingFault::NotAnObject { found } && found@
            == kind_name(value@)),
{
}

/// A field that is taken from a row is made of what stands under its name, is gone from the row,
/// and leaves every other field where it was; one that is not there is made of nothing, or named.
pub proof fn law_fields_are_taken_once<T: FromValue>(
    row: &mut Row,
    field: &str,
    taken: Result<T, MappingFault>,
    other: Seq<char>,
)
    requires
        call_ensures(Row::take::<T>, (row, field), taken),
    ensures
        final(row)@.id == old(row)@.id,
        field_of(final(row)@.fields, field@) is None,
        other != field@ ==> field_of(final(row)@.fields, other) == field_of(
            old(row)@.fields,
            other,
        ),
        match field_of(old(row)@.fields, field@) {
            Some(value) => match taken {
                Ok(made) => T::comes_of(value, Ok(made)),
                Err(fault) => fault matches MappingFault::InField { name, cause } && name@ == field@
                    && T::comes_of(value, Err(*cause)),
            },
            None => match taken {
                Ok(made) => call_ensures(T::absent, (), Some(made)),
                Err(fault) => call_ensures(T::absent, (), None) && (
                fault matches MappingFault::NoSuchField { name } && name@ == field@),
            },
        },
{
    if field_of(old(row)@.fields, field@) is None {
        let made = choose|made: Option<T>| #[trigger]
            call_ensures(T::absent, (), made) && taken_from_nothing(field@, made, taken);
        assert(call_ensures(T::absent, (), made) && taken_from_nothing(field@, made, taken));
    }
}

/// A field that is not there makes an empty option; no plain type is made of it.
pub proof fn law_only_options_are_made_of_nothing<T: FromValue>(
    option: Option<Option<T>>,
    integer: Option<i64>,
    flag: Option<bool>,
    text: Option<String>,
    double: Option<Double>,
)
    requires
        call_ensures(<Option<T> as FromValue>::absent, (), option),
        call_ensures(<i64 as FromValue>::absent, (), integer),
        call_ensures(<bool as FromValue>::absent, (), flag),
        call_ensures(<String as FromValue>::absent, (), text),
        call_ensures(<Double as FromValue>::absent, (), double),
    ensures
        option == Some(None::<T>),
        integer is None,
        flag is None,
        text is None,
        double is None,
{
}

/// Records are mapped, and an answer of any other kind holds none.
pub proof fn law_only_records_are_mapped<T: FromRecord>(
    answer: Answer,
    made: Result<Vec<T>, MappingFault>,
)
    requires
        call_ensures(Answer::records_into::<T>, (answer,), made),
    ensures
        answer@ matches AnswerView::Records(records) ==> records_come_to(records.records, made),
        !(answer@ is Records) ==> (made matches Err(fault) && fault == MappingFault::NotRecords),
{
}

}
