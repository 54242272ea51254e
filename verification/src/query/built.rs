//! What each step of building a statement adds to it, and that what is built is read back as all of
//! the steps together.

use vstd::prelude::*;

use crate::fields::{field_of, lemma_with_field, ordered};
use crate::query::{Answerer, BuildError, BuildErrorView, Query, QueryView};
use crate::query::asked::{
    law_built_creates_write_what_was_asked, law_built_deletes_remove_what_was_asked,
    law_built_reads_ask_what_was_asked, law_built_updates_set_what_was_asked, read_create,
    read_delete, read_select, read_update,
};
use crate::query::filter::{Compare, Field, Filter, FilterView};
use crate::query::select::{select_values, Order, ProjectionView, Select, SelectView};
use crate::query::write::{create_values, update_values, Create, Delete, Update};
use crate::text::{lemma_lowered_spells, quoted, spells, IntoText};
use crate::value::IntoValue;

verus! {

/// A comparison compares the field it was started with to the value it was given, in the way that
/// it is named for.
pub proof fn law_comparisons_compare_as_named<V: IntoValue>(
    field: Field,
    value: V,
    how: Compare,
    made: Filter,
)
    requires
        match how {
            Compare::Equal => call_ensures(Field::eq, (field, value), made),
            Compare::NotEqual => call_ensures(Field::ne, (field, value), made),
            Compare::Less => call_ensures(Field::lt, (field, value), made),
            Compare::LessOrEqual => call_ensures(Field::le, (field, value), made),
            Compare::Greater => call_ensures(Field::gt, (field, value), made),
            Compare::GreaterOrEqual => call_ensures(Field::ge, (field, value), made),
        },
    ensures
        made@ == (FilterView::Compare { field: field@, how, value: value.value() }),
{
}

/// Two conditions are joined in the way that the step is named for, the first before the second.
pub proof fn law_conditions_are_joined_as_named(
    first: Filter,
    second: Filter,
    both: Filter,
    either: Filter,
)
    requires
        call_ensures(Filter::and, (first, second), both),
        call_ensures(Filter::or, (first, second), either),
    ensures
        both@ == FilterView::And(Box::new(first@), Box::new(second@)),
        either@ == FilterView::Or(Box::new(first@), Box::new(second@)),
{
}

/// A read that is built is read back as what it was asked for.
pub proof fn law_reads_are_built_as_asked(select: &Select, built: Result<Query, BuildError>)
    requires
        call_ensures(Select::build, (select,), built),
        select_values(select@).len() <= usize::MAX,
    ensures
        built matches Ok(query) ==> read_select(query.script@, query.parameters@) == Some(select@),
{
    law_built_reads_ask_what_was_asked(select@);
}

/// A read starts with its table and nothing else, and every step adds the one thing that it is
/// named for and leaves the rest as it was.
pub proof fn law_steps_of_a_read_add_one_thing<N: IntoText>(
    name: N,
    select: Select,
    at: u64,
    count: u64,
    made: Select,
)
    ensures
        call_ensures(Select::from, (name,), made) ==> made@.source == name.text()
            && made@.projection.len() == 0 && made@.filter is None && made@.order.len() == 0
            && made@.start is None && made@.limit is None && made@.staleness is None
            && made@.answered_by is None,
        call_ensures(Select::field, (select, name), made) ==> made@ == (SelectView {
            projection: select@.projection + seq![ProjectionView::Field(name.text())],
            ..select@
        }),
        call_ensures(Select::field_lines, (select, name, at, count), made) ==> made@ == (
        SelectView {
            projection: select@.projection + seq![
                ProjectionView::Lines { field: name.text(), start: at, count },
            ],
            ..select@
        }),
        call_ensures(Select::start, (select, at), made) ==> made@ == (SelectView {
            start: Some(at),
            ..select@
        }),
        call_ensures(Select::limit, (select, at), made) ==> made@ == (SelectView {
            limit: Some(at),
            ..select@
        }),
        call_ensures(Select::staleness, (select, name), made) ==> made@ == (SelectView {
            staleness: Some(name.text()),
            ..select@
        }),
{
    assert(select@.projection.push(ProjectionView::Field(name.text())) =~= select@.projection
        + seq![ProjectionView::Field(name.text())]);
    let window = ProjectionView::Lines { field: name.text(), start: at, count };
    assert(select@.projection.push(window) =~= select@.projection + seq![window]);
}

/// A read is filtered by the condition it was given, sorted by each field in turn, and answered by
/// whom it names; the steps leave the rest as it was.
pub proof fn law_reads_are_filtered_and_sorted<N: IntoText>(
    select: Select,
    filter: Filter,
    name: N,
    order: Order,
    answerer: Answerer,
    made: Select,
)
    ensures
        call_ensures(Select::filter, (select, filter), made) ==> made@ == (SelectView {
            filter: Some(filter@),
            ..select@
        }),
        call_ensures(Select::order_by, (select, name, order), made) ==> made@ == (SelectView {
            order: select@.order + seq![(name.text(), order)],
            ..select@
        }),
        call_ensures(Select::answered_by, (select, answerer), made) ==> made@ == (SelectView {
            answered_by: Some(answerer),
            ..select@
        }),
{
    assert(select@.order.push((name.text(), order)) =~= select@.order + seq![(name.text(), order)]);
}

/// A write starts with its record or its table and no field. Setting a field gives that name the
/// value and leaves every other field, the table and the identity as they were.
pub proof fn law_steps_of_a_create_set_one_field<N: IntoText, V: IntoValue>(
    name: N,
    value: V,
    create: Create,
    made: Create,
    other: Seq<char>,
)
    requires
        ordered(create@.fields),
    ensures
        call_ensures(Create::record, (name, value), made) ==> made@.table == name.text() && made@.id
            == Some(value.value()) && made@.fields.len() == 0,
        call_ensures(Create::in_table, (name,), made) ==> made@.table == name.text()
            && made@.id is None && made@.fields.len() == 0,
        call_ensures(Create::set, (create, name, value), made) ==> {
            &&& made@.table == create@.table
            &&& made@.id == create@.id
            &&& field_of(made@.fields, name.text()) == Some(value.value())
            &&& other != name.text() ==> field_of(made@.fields, other) == field_of(
                create@.fields,
                other,
            )
        },
{
    lemma_with_field(create@.fields, name.text(), value.value());
}

/// An update starts with its record and no field. Setting a field gives that name the value and
/// leaves every other field, the table and the identity as they were. A delete is its record.
pub proof fn law_steps_of_an_update_set_one_field<N: IntoText, V: IntoValue>(
    name: N,
    value: V,
    update: Update,
    made: Update,
    delete: Delete,
    other: Seq<char>,
)
    requires
        ordered(update@.fields),
    ensures
        call_ensures(Update::record, (name, value), made) ==> made@.table == name.text() && made@.id
            == value.value() && made@.fields.len() == 0,
        call_ensures(Update::set, (update, name, value), made) ==> {
            &&& made@.table == update@.table
            &&& made@.id == update@.id
            &&& field_of(made@.fields, name.text()) == Some(value.value())
            &&& other != name.text() ==> field_of(made@.fields, other) == field_of(
                update@.fields,
                other,
            )
        },
        call_ensures(Delete::record, (name, value), delete) ==> delete@.table == name.text()
            && delete@.id == value.value(),
{
    lemma_with_field(update@.fields, name.text(), value.value());
}

/// A create that is built is read back as what it was asked to write.
pub proof fn law_creates_are_built_as_asked(create: &Create, built: Result<Query, BuildError>)
    requires
        call_ensures(Create::build, (create,), built),
        create_values(create@).len() <= usize::MAX,
    ensures
        built matches Ok(query) ==> read_create(query.script@, query.parameters@) == Some(create@),
{
    law_built_creates_write_what_was_asked(create@);
}

/// An update that is built is read back as what it was asked to set.
pub proof fn law_updates_are_built_as_asked(update: &Update, built: Result<Query, BuildError>)
    requires
        call_ensures(Update::build, (update,), built),
        update_values(update@).len() <= usize::MAX,
    ensures
        built matches Ok(query) ==> read_update(query.script@, query.parameters@) == Some(update@),
{
    law_built_updates_set_what_was_asked(update@);
}

/// A delete that is built is read back as what it was asked to remove.
pub proof fn law_deletes_are_built_as_asked(delete: &Delete, built: Result<Query, BuildError>)
    requires
        call_ensures(Delete::build, (delete,), built),
    ensures
        built matches Ok(query) ==> read_delete(query.script@, query.parameters@) == Some(delete@),
{
    law_built_deletes_remove_what_was_asked(delete@);
}

/// A statement and a reason are seen as they are.
pub proof fn law_statements_are_seen_as_they_are(query: Query, error: BuildError)
    ensures
        query@ == (QueryView { script: query.script@, parameters: query.parameters@ }),
        match error {
            BuildError::NotAName { what, name } => error@ == (BuildErrorView::NotAName {
                what: what@,
                name: name@,
            }),
            BuildError::Incomplete { what } => error@ == (BuildErrorView::Incomplete {
                what: what@,
            }),
            BuildError::NotASpan { span } => error@ == (BuildErrorView::NotASpan { span: span@ }),
            BuildError::NotAnAnswerer { word } => error@ == (BuildErrorView::NotAnAnswerer {
                word: word@,
            }),
        },
{
}

/// A reason is told with what was supplied, quoted.
pub proof fn law_reasons_are_told_with_what_was_supplied(what: Seq<char>, supplied: Seq<char>)
    ensures
        (BuildErrorView::NotAName { what, name: supplied }).words() == what + (" "@ + (quoted(
            supplied,
        )
            + " is not a name: a name is letters, digits and underscores, and does not start with a digit"@)),
        (BuildErrorView::Incomplete { what }).words() == what,
        (BuildErrorView::NotASpan { span: supplied }).words() == quoted(supplied)
            + " is not a span of time: a span is digits and a unit, as often as it takes"@,
        (BuildErrorView::NotAnAnswerer { word: supplied }).words() == quoted(supplied)
            + " does not name who is to answer"@,
{
    assert((BuildErrorView::NotAName { what, name: supplied }).words() =~= what + (" "@ + (quoted(
        supplied,
    )
        + " is not a name: a name is letters, digits and underscores, and does not start with a digit"@)));
}

/// The leader is named by that word, in any case, and nobody by any other.
pub proof fn law_the_leader_is_named_in_any_case(
    word: &str,
    named: Result<Answerer, BuildError>,
)
    requires
        call_ensures(<Answerer as TryFrom<&str>>::try_from, (word,), named),
    ensures
        named is Ok <==> spells(word@, "leader"@),
        named matches Ok(answerer) ==> answerer == Answerer::Leader,
        named matches Err(error) ==> error@ == (BuildErrorView::NotAnAnswerer { word: word@ }),
{
    reveal_strlit("leader");
    lemma_lowered_spells(word@, "leader"@);
}

}
