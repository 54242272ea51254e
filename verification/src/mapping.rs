//! Turning what a node answered into the types a caller declared.
//!
//! Values go outward through `Value::from` and its siblings. This module is the inward direction:
//! a record is opened as a [`Row`], and each field is taken out of it as the type it is going to.
//!
//! There is no derive macro: the `impl` of [`FromRecord`] is written by hand, and the compiler
//! checks it against the struct rather than against a string in an attribute.
//!
//! There is no blanket implementation either. One that covered every type in every crate would
//! forbid a caller from writing `impl FromRecord for MyType` at all.

use vstd::prelude::*;

use crate::fields::{field_of, ordered, without_field};
use crate::value::{entries_view, Fields, Value, ValueView};
use crate::wire::message::{Answer, AnswerView};

pub mod fault;
pub mod impls;
pub mod laws;

pub use crate::mapping::fault::MappingFault;

use crate::mapping::fault::{kind_name, name_of, FaultView};

verus! {

/// A type a [`Value`] can become.
///
/// [`from_value`](FromValue::from_value) consumes the value rather than borrowing it. A record is a
/// map that is read once and taken apart, so the owned form saves a clone of every string in every
/// row.
pub trait FromValue: Sized {
    /// Whether `made` is what comes of a value.
    spec fn comes_of(value: ValueView, made: Result<Self, MappingFault>) -> bool;

    /// Convert a value into this type.
    ///
    /// The fault does not name the field, because a value does not know what it was called;
    /// [`Row::take`] attaches that.
    fn from_value(value: Value) -> (made: Result<Self, MappingFault>)
        ensures
            Self::comes_of(value@, made),
    ;

    /// What this type makes of a field that is not in the record at all.
    ///
    /// The default is `None`, meaning that there is no answer, so [`Row::take`] reports
    /// [`MappingFault::NoSuchField`] and the field is required. [`Option<T>`] overrides this to say
    /// that absence is an answer it can give.
    #[must_use]
    fn absent() -> (made: Option<Self>)
        default_ensures
            made is None,
    {
        None
    }
}

/// A type built from one whole record.
///
/// Implemented by hand for each of a caller's own types.
pub trait FromRecord: Sized {
    /// Build this type from a row.
    fn from_row(row: Row) -> (made: Result<Self, MappingFault>);
}

/// One record, opened up so its fields can be taken out by name.
///
/// [`take`](Row::take) removes the field it returns. That is what lets a row be mapped without
/// cloning: each field is moved into the caller's struct exactly once.
#[derive(Debug)]
pub struct Row {
    id: String,
    fields: Fields,
}

/// What a record holds.
#[verifier::ext_equal]
pub struct RowView {
    /// The record's identity.
    pub id: Seq<char>,
    /// The fields not taken yet, in the order of their names.
    pub fields: Seq<(Seq<char>, ValueView)>,
}

impl View for Row {
    type V = RowView;

    closed spec fn view(&self) -> RowView {
        RowView { id: self.id@, fields: self.fields@ }
    }
}

/// Whether `taken` is what a field that holds `value` comes to as a `T`: the fault names the
/// field.
pub open spec fn taken_from<T: FromValue>(
    field: Seq<char>,
    value: ValueView,
    taken: Result<T, MappingFault>,
) -> bool {
    match taken {
        Ok(_) => T::comes_of(value, taken),
        Err(MappingFault::InField { name, cause }) => name@ == field && T::comes_of(
            value,
            Err(*cause),
        ),
        Err(_) => false,
    }
}

/// Whether `taken` is what a field that is not there comes to as a `T`, where `made` is what `T`
/// makes of absence.
pub open spec fn taken_from_nothing<T: FromValue>(
    field: Seq<char>,
    made: Option<T>,
    taken: Result<T, MappingFault>,
) -> bool {
    match made {
        Some(made) => taken == Ok::<T, MappingFault>(made),
        None => taken matches Err(MappingFault::NoSuchField { name }) && name@ == field,
    }
}

impl Row {
    /// Open a record: its identity as the node spells it, and its value.
    ///
    /// A record that does not hold an object has no fields to address.
    pub fn new(id: String, value: Value) -> (opened: Result<Self, MappingFault>)
        ensures
            match value@ {
                ValueView::Object(fields) => opened matches Ok(row) && row@ == (RowView {
                    id: id@,
                    fields,
                }) && ordered(fields),
                other => opened matches Err(fault) && fault@ == (FaultView::NotAnObject {
                    found: kind_name(other),
                }),
            },
    {
        match value.into_fields() {
            Ok(fields) => Ok(Row { id, fields }),
            Err(other) => Err(MappingFault::NotAnObject { found: name_of(&other) }),
        }
    }

    /// The record's identity, as the node spelled it.
    #[must_use]
    pub fn id(&self) -> (id: &str)
        ensures
            id@ == self@.id,
    {
        self.id.as_str()
    }

    /// Take one field out of the record, converted.
    ///
    /// The target type is inferred from where the result is going, so a struct field's own
    /// declaration decides what the value must be. Where the record has no such field, the target
    /// decides whether that is an answer. Either way the field is gone, and every other field is as
    /// it was.
    pub fn take<T: FromValue>(&mut self, field: &str) -> (taken: Result<T, MappingFault>)
        ensures
            final(self)@ == (RowView {
                fields: without_field(old(self)@.fields, field@),
                ..old(self)@
            }),
            ordered(final(self)@.fields),
            field_of(final(self)@.fields, field@) is None,
            forall|other: Seq<char>|
                other != field@ ==> #[trigger] field_of(final(self)@.fields, other) == field_of(
                    old(self)@.fields,
                    other,
                ),
            match field_of(old(self)@.fields, field@) {
                Some(value) => taken_from(field@, value, taken),
                None => exists|made: Option<T>| #[trigger]
                    call_ensures(T::absent, (), made) && taken_from_nothing(field@, made, taken),
            },
    {
        match self.fields.remove(field) {
            Some(value) => match T::from_value(value) {
                Ok(made) => Ok(made),
                Err(cause) => Err(cause.in_field(field)),
            },
            None => match T::absent() {
                Some(made) => {
                    let taken = Ok(made);
                    assert(call_ensures(T::absent, (), Some(made)) && taken_from_nothing(
                        field@,
                        Some(made),
                        taken,
                    ));
                    taken
                },
                None => {
                    let taken = Err(MappingFault::NoSuchField { name: field.to_owned() });
                    assert(call_ensures(T::absent, (), None) && taken_from_nothing(
                        field@,
                        None::<T>,
                        taken,
                    ));
                    taken
                },
            },
        }
    }
}

/// Whether `made` is what comes of a record: where it holds an object, what `T` makes of it as a
/// row.
pub open spec fn record_comes_to<T: FromRecord>(
    record: (Seq<char>, ValueView),
    made: Result<T, MappingFault>,
) -> bool {
    match record.1 {
        ValueView::Object(fields) => exists|row: Row|
            row@ == (RowView { id: record.0, fields }) && #[trigger] call_ensures(
                T::from_row,
                (row,),
                made,
            ),
        other => made matches Err(fault) && fault@ == (FaultView::NotAnObject {
            found: kind_name(other),
        }),
    }
}

/// Whether a `T` comes of a record.
pub open spec fn record_maps<T: FromRecord>(record: (Seq<char>, ValueView)) -> bool {
    exists|item: T| #[trigger] record_comes_to(record, Ok::<T, MappingFault>(item))
}

/// Whether `made` is what comes of some records: what each of them comes to, or the first fault.
pub open spec fn records_come_to<T: FromRecord>(
    records: Seq<(Seq<char>, ValueView)>,
    made: Result<Vec<T>, MappingFault>,
) -> bool {
    match made {
        Ok(items) => items@.len() == records.len() && forall|i: int|
            0 <= i < records.len() ==> record_comes_to(
                #[trigger] records[i],
                Ok::<T, MappingFault>(items@[i]),
            ),
        Err(fault) => exists|at: int|
            0 <= at < records.len() && record_comes_to::<T>(#[trigger] records[at], Err(fault))
                && forall|i: int|
                0 <= i < at ==> record_maps::<T>(#[trigger] records[i]),
    }
}

impl Answer {
    /// Map every record in this answer into `T`.
    ///
    /// An answer that holds no records says so rather than answering with an empty list, which
    /// would be indistinguishable from a query that matched nothing. The mapping stops at the
    /// first record that fails: a mismatch is nearly always the same mismatch in every row.
    pub fn records_into<T: FromRecord>(self) -> (made: Result<Vec<T>, MappingFault>)
        ensures
            match self@ {
                AnswerView::Records(records) => records_come_to(records.records, made),
                _ => made matches Err(MappingFault::NotRecords),
            },
    {
        match self {
            Answer::Records { records, .. } => map_records(records),
            _ => Err(MappingFault::NotRecords),
        }
    }
}

fn map_records<T: FromRecord>(records: Vec<(String, Value)>) -> (made: Result<Vec<T>, MappingFault>)
    ensures
        records_come_to(entries_view(records@), made),
{
    let ghost held = entries_view(records@);
    let mut items: Vec<T> = Vec::new();
    for record in it: records
        invariant
            it.seq() == records@,
            held == entries_view(records@),
            items@.len() == it.index(),
            forall|i: int|
                0 <= i < it.index() ==> record_comes_to(
                    #[trigger] held[i],
                    Ok::<T, MappingFault>(items@[i]),
                ),
    {
        let ghost at = it.index() as int;
        assert(held[at] == (record.0@, record.1@));
        let (id, value) = record;
        let made = match Row::new(id, value) {
            Ok(row) => T::from_row(row),
            Err(fault) => Err(fault),
        };
        match made {
            Ok(item) => {
                assert(record_comes_to(held[at], Ok::<T, MappingFault>(item)));
                items.push(item);
            },
            Err(fault) => {
                assert(record_comes_to::<T>(held[at], Err(fault)));
                assert forall|i: int| 0 <= i < at implies record_maps::<T>(#[trigger] held[i]) by {
                    assert(record_comes_to(held[i], Ok::<T, MappingFault>(items@[i])));
                }
                return Err(fault);
            },
        }
    }
    Ok(items)
}

}
