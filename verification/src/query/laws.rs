//! What holds of every statement.

use vstd::prelude::*;

use crate::fields::{field_of, holds_name, lemma_with_field, ordered};
use crate::query::{bound, is_name, is_span, parameter_name, reference};
use crate::query::filter::{filter_fault, filter_text, filter_values, FilterView};
use crate::query::select::{
    order_fault, projection_fault, select_fault, select_script, select_values, where_text, Order,
    ProjectionView, SelectView,
};
use crate::query::write::{
    create_fault, create_script, delete_script, field_parts, fields_fault, update_fault,
    update_script, CreateView, DeleteView, UpdateView,
};
use crate::text::{decimal, lemma_decimal_is_injective};
use crate::value::ValueView;
use crate::wire::laws::same_names;

verus! {

/// Whether two conditions are the same but for the values in them.
pub open spec fn same_condition(a: FilterView, b: FilterView) -> bool
    decreases a,
{
    match (a, b) {
        (
            FilterView::Compare { field: left, how: first, .. },
            FilterView::Compare { field: right, how: second, .. },
        ) => left == right && first == second,
        (FilterView::And(a, c), FilterView::And(b, d)) => same_condition(*a, *b)
            && same_condition(*c, *d),
        (FilterView::Or(a, c), FilterView::Or(b, d)) => same_condition(*a, *b) && same_condition(
            *c,
            *d,
        ),
        _ => false,
    }
}

proof fn lemma_same_condition(a: FilterView, b: FilterView, at: nat)
    requires
        same_condition(a, b),
    ensures
        filter_text(a, at) == filter_text(b, at),
        filter_values(a).len() == filter_values(b).len(),
        filter_fault(a) == filter_fault(b),
    decreases a,
{
    match (a, b) {
        (FilterView::And(a, c), FilterView::And(b, d)) => {
            lemma_same_condition(*a, *b, at);
            lemma_same_condition(*c, *d, at + filter_values(*a).len());
        },
        (FilterView::Or(a, c), FilterView::Or(b, d)) => {
            lemma_same_condition(*a, *b, at);
            lemma_same_condition(*c, *d, at + filter_values(*a).len());
        },
        _ => {},
    }
}

/// A value never reaches the script: two reads that are the same but for the values in their
/// conditions are refused alike, have the same script and bind as many values.
pub proof fn law_reads_do_not_spell_values(select: SelectView, other: SelectView)
    requires
        match (select.filter, other.filter) {
            (Some(a), Some(b)) => same_condition(a, b),
            (None, None) => true,
            _ => false,
        },
        other == (SelectView { filter: other.filter, ..select }),
    ensures
        select_fault(select) == select_fault(other),
        select_script(select) == select_script(other),
        select_values(select).len() == select_values(other).len(),
{
    if let (Some(a), Some(b)) = (select.filter, other.filter) {
        lemma_same_condition(a, b, 0);
    }
    assert(where_text(select.filter) == where_text(other.filter));
}

proof fn lemma_same_faults(a: Seq<(Seq<char>, ValueView)>, b: Seq<(Seq<char>, ValueView)>)
    requires
        same_names(a, b),
    ensures
        fields_fault(a) == fields_fault(b),
    decreases a.len(),
{
    if a.len() > 0 {
        let fewer = a.drop_last();
        assert forall|i: int| 0 <= i < fewer.len() implies (#[trigger] fewer[i]).0
            == b.drop_last()[i].0 by {
            assert(a[i].0 == b[i].0);
        }
        lemma_same_faults(fewer, b.drop_last());
        assert(a[a.len() - 1].0 == b[a.len() - 1].0);
    }
}

proof fn lemma_same_parts(
    a: Seq<(Seq<char>, ValueView)>,
    b: Seq<(Seq<char>, ValueView)>,
    between: Seq<char>,
    at: nat,
)
    requires
        same_names(a, b),
    ensures
        field_parts(a, between, at) == field_parts(b, between, at),
        fields_fault(a) == fields_fault(b),
{
    lemma_same_faults(a, b);
    assert forall|i: int| 0 <= i < a.len() implies field_parts(a, between, at)[i] == field_parts(
        b,
        between,
        at,
    )[i] by {
        assert(a[i].0 == b[i].0);
    }
    assert(field_parts(a, between, at) =~= field_parts(b, between, at));
}

/// A value never reaches the script: two creates that are the same but for their values, the
/// identity's among them, are refused alike and have the same script.
pub proof fn law_creates_do_not_spell_values(create: CreateView, other: CreateView)
    requires
        create.table == other.table,
        create.id is Some == other.id is Some,
        same_names(create.fields, other.fields),
    ensures
        create_fault(create) == create_fault(other),
        create_script(create) == create_script(other),
{
    lemma_same_parts(create.fields, other.fields, ": "@, 0);
    lemma_same_parts(create.fields, other.fields, ": "@, 1);
}

/// A value never reaches the script: two updates that are the same but for their values, the
/// identity's among them, are refused alike and have the same script.
pub proof fn law_updates_do_not_spell_values(update: UpdateView, other: UpdateView)
    requires
        update.table == other.table,
        same_names(update.fields, other.fields),
    ensures
        update_fault(update) == update_fault(other),
        update_script(update) == update_script(other),
{
    lemma_same_parts(update.fields, other.fields, " = "@, 1);
}

/// A value never reaches the script: deletes from one table have the same script, whatever the
/// identity is.
pub proof fn law_deletes_do_not_spell_values(delete: DeleteView, other: DeleteView)
    requires
        delete.table == other.table,
    ensures
        delete_script(delete) == delete_script(other),
{
}

proof fn lemma_parameter_names_differ(a: nat, b: nat)
    requires
        a <= usize::MAX,
        b <= usize::MAX,
        parameter_name(a) == parameter_name(b),
    ensures
        a == b,
{
    reveal_strlit("p");
    assert(parameter_name(a).skip(1) =~= decimal(a));
    assert(parameter_name(b).skip(1) =~= decimal(b));
    lemma_decimal_is_injective(a, b);
}

proof fn lemma_bound(values: Seq<ValueView>)
    requires
        values.len() <= usize::MAX,
    ensures
        ordered(bound(values)),
        bound(values).len() == values.len(),
        forall|at: int|
            0 <= at < values.len() ==> field_of(
                bound(values),
                #[trigger] parameter_name(at as nat),
            ) == Some(values[at]),
        forall|name: Seq<char>| #[trigger]
            field_of(bound(values), name) is Some ==> exists|at: int|
                0 <= at < values.len() && #[trigger] parameter_name(at as nat) == name,
    decreases values.len(),
{
    if values.len() > 0 {
        let fewer = values.drop_last();
        let last = (values.len() - 1) as nat;
        lemma_bound(fewer);
        lemma_with_field(bound(fewer), parameter_name(last), values.last());
        if holds_name(bound(fewer), parameter_name(last)) {
            assert(field_of(bound(fewer), parameter_name(last)) is Some);
            let at = choose|at: int|
                0 <= at < fewer.len() && #[trigger] parameter_name(at as nat) == parameter_name(
                    last,
                );
            lemma_parameter_names_differ(at as nat, last);
        }
        assert forall|at: int| 0 <= at < values.len() implies field_of(
            bound(values),
            #[trigger] parameter_name(at as nat),
        ) == Some(values[at]) by {
            if at < last {
                if parameter_name(at as nat) == parameter_name(last) {
                    lemma_parameter_names_differ(at as nat, last);
                }
                assert(fewer[at] == values[at]);
            }
        }
        assert forall|name: Seq<char>| #[trigger]
            field_of(bound(values), name) is Some implies exists|at: int|
            0 <= at < values.len() && #[trigger] parameter_name(at as nat) == name by {
            if name == parameter_name(last) {
                assert(parameter_name(last as int as nat) == name);
            } else {
                assert(field_of(bound(fewer), name) is Some);
                let at = choose|at: int|
                    0 <= at < fewer.len() && #[trigger] parameter_name(at as nat) == name;
                assert(parameter_name(at as nat) == name);
            }
        }
    }
}

/// Every value is bound, once, under the name that the script refers to it by, and nothing else
/// is bound.
pub proof fn law_values_are_bound_by_their_references(values: Seq<ValueView>, at: nat)
    requires
        values.len() <= usize::MAX,
        at < values.len(),
    ensures
        bound(values).len() == values.len(),
        reference(at) == "$"@ + parameter_name(at),
        field_of(bound(values), parameter_name(at)) == Some(values[at as int]),
        forall|name: Seq<char>| #[trigger]
            field_of(bound(values), name) is Some ==> exists|place: int|
                0 <= place < values.len() && #[trigger] parameter_name(place as nat) == name,
{
    lemma_bound(values);
    let place: int = at as int;
    assert(field_of(bound(values), parameter_name(place as nat)) == Some(values[place]));
}

proof fn lemma_projection_names(items: Seq<ProjectionView>)
    requires
        projection_fault(items) is None,
    ensures
        forall|i: int| 0 <= i < items.len() ==> is_name((#[trigger] items[i]).field()),
    decreases items.len(),
{
    if items.len() > 0 {
        lemma_projection_names(items.drop_last());
        assert forall|i: int| 0 <= i < items.len() implies is_name(
            (#[trigger] items[i]).field(),
        ) by {
            if i < items.len() - 1 {
                assert(items.drop_last()[i] == items[i]);
            }
        }
    }
}

proof fn lemma_order_names(items: Seq<(Seq<char>, Order)>)
    requires
        order_fault(items) is None,
    ensures
        forall|i: int| 0 <= i < items.len() ==> is_name((#[trigger] items[i]).0),
    decreases items.len(),
{
    if items.len() > 0 {
        lemma_order_names(items.drop_last());
        assert forall|i: int| 0 <= i < items.len() implies is_name((#[trigger] items[i]).0) by {
            if i < items.len() - 1 {
                assert(items.drop_last()[i] == items[i]);
            }
        }
    }
}

proof fn lemma_field_names(fields: Seq<(Seq<char>, ValueView)>)
    requires
        fields_fault(fields) is None,
    ensures
        forall|i: int| 0 <= i < fields.len() ==> is_name((#[trigger] fields[i]).0),
    decreases fields.len(),
{
    if fields.len() > 0 {
        lemma_field_names(fields.drop_last());
        assert forall|i: int| 0 <= i < fields.len() implies is_name((#[trigger] fields[i]).0) by {
            if i < fields.len() - 1 {
                assert(fields.drop_last()[i] == fields[i]);
            }
        }
    }
}

/// Whether every field in a condition is a name.
pub open spec fn condition_names_hold(filter: FilterView) -> bool
    decreases filter,
{
    match filter {
        FilterView::Compare { field, .. } => is_name(field),
        FilterView::And(left, right) => condition_names_hold(*left) && condition_names_hold(*right),
        FilterView::Or(left, right) => condition_names_hold(*left) && condition_names_hold(*right),
    }
}

proof fn lemma_condition_names(filter: FilterView)
    requires
        filter_fault(filter) is None,
    ensures
        condition_names_hold(filter),
    decreases filter,
{
    match filter {
        FilterView::And(left, right) => {
            lemma_condition_names(*left);
            lemma_condition_names(*right);
        },
        FilterView::Or(left, right) => {
            lemma_condition_names(*left);
            lemma_condition_names(*right);
        },
        _ => {},
    }
}

/// Every name that a read interpolates was checked, and so was the span.
pub proof fn law_reads_interpolate_checked_names(select: SelectView)
    requires
        select_fault(select) is None,
    ensures
        is_name(select.source),
        forall|i: int|
            0 <= i < select.projection.len() ==> is_name((#[trigger] select.projection[i]).field()),
        select.filter matches Some(filter) ==> condition_names_hold(filter),
        forall|i: int| 0 <= i < select.order.len() ==> is_name((#[trigger] select.order[i]).0),
        select.staleness matches Some(span) ==> is_span(span),
{
    lemma_projection_names(select.projection);
    lemma_order_names(select.order);
    if let Some(filter) = select.filter {
        lemma_condition_names(filter);
    }
}

/// Every name that a create interpolates was checked, and there is something to write.
pub proof fn law_creates_interpolate_checked_names(create: CreateView)
    requires
        create_fault(create) is None,
    ensures
        is_name(create.table),
        create.fields.len() > 0,
        forall|i: int| 0 <= i < create.fields.len() ==> is_name((#[trigger] create.fields[i]).0),
{
    lemma_field_names(create.fields);
}

/// Every name that an update interpolates was checked, and there is something to set.
pub proof fn law_updates_interpolate_checked_names(update: UpdateView)
    requires
        update_fault(update) is None,
    ensures
        is_name(update.table),
        update.fields.len() > 0,
        forall|i: int| 0 <= i < update.fields.len() ==> is_name((#[trigger] update.fields[i]).0),
{
    lemma_field_names(update.fields);
}

}
