//! What a statement asks, read from its text and from what it binds: a reader of the grammar that
//! the builders write, which takes every statement back to what was built.

use vstd::prelude::*;

use crate::fields::field_of;
use crate::http::laws::law_numbers_are_read_as_written;
use crate::http::line::number_of;
use crate::query::{
    bound, is_name, is_name_char, is_span, name_fault, parameter_name, parameter_number, reference,
    target, Answerer, BuildErrorView, QueryView,
};
use crate::query::filter::{filter_fault, filter_text, filter_values, Compare, FilterView};
use crate::query::laws::{
    condition_names_hold, law_creates_interpolate_checked_names,
    law_reads_interpolate_checked_names, law_updates_interpolate_checked_names,
    law_values_are_bound_by_their_references,
};
use crate::query::select::{
    answered_by_text, count_text, order_fault, order_parts, order_text, projection_fault,
    projection_parts, projection_text, select_fault, select_query, select_script, select_values,
    staleness_text, where_text, Order, ProjectionView, SelectView,
};
use crate::query::write::{
    create_fault, create_query, create_script, create_target, create_values, delete_query,
    delete_script, field_parts, field_values, fields_fault, update_fault, update_query,
    update_script, update_values, CreateView, DeleteView, UpdateView,
};
use crate::text::{decimal, joined, lemma_assoc, lemma_decimal_digits};
use crate::value::ValueView;

verus! {

/// What stands after `start`, where a text starts with that.
pub open spec fn after(text: Seq<char>, start: Seq<char>) -> Option<Seq<char>> {
    if start.is_prefix_of(text) {
        Some(text.skip(start.len() as int))
    } else {
        None
    }
}

/// Whether a character may stand in a word: a letter, a digit or an underscore.
pub open spec fn in_a_word(ch: char) -> bool {
    ('a' <= ch <= 'z') || ('A' <= ch <= 'Z') || ('0' <= ch <= '9') || ch == '_'
}

/// The word that a text opens with.
pub open spec fn word(text: Seq<char>) -> Seq<char>
    decreases text.len(),
{
    if text.len() == 0 || !in_a_word(text[0]) {
        seq![]
    } else {
        seq![text[0]] + word(text.drop_first())
    }
}

/// A word, and what stands after it.
pub open spec fn read_word(text: Seq<char>) -> Option<(Seq<char>, Seq<char>)> {
    if word(text).len() == 0 {
        None
    } else {
        Some((word(text), text.skip(word(text).len() as int)))
    }
}

/// A count, and what stands after it.
pub open spec fn read_count(text: Seq<char>) -> Option<(u64, Seq<char>)> {
    match read_word(text) {
        None => None,
        Some((digits, rest)) => match number_of(digits, u64::MAX as nat) {
            None => None,
            Some(count) => Some((count as u64, rest)),
        },
    }
}

/// A reference, as the value that is bound under its name, and what stands after it.
pub open spec fn read_value(text: Seq<char>, bound: Seq<(Seq<char>, ValueView)>) -> Option<
    (ValueView, Seq<char>),
> {
    match after(text, seq!['$']) {
        None => None,
        Some(text) => match read_word(text) {
            None => None,
            Some((name, rest)) => match field_of(bound, name) {
                None => None,
                Some(value) => Some((value, rest)),
            },
        },
    }
}

/// An operator between spaces, and what stands after it.
pub open spec fn read_operator(text: Seq<char>) -> Option<(Compare, Seq<char>)> {
    if after(text, " = "@) is Some {
        Some((Compare::Equal, after(text, " = "@)->0))
    } else if after(text, " != "@) is Some {
        Some((Compare::NotEqual, after(text, " != "@)->0))
    } else if after(text, " < "@) is Some {
        Some((Compare::Less, after(text, " < "@)->0))
    } else if after(text, " <= "@) is Some {
        Some((Compare::LessOrEqual, after(text, " <= "@)->0))
    } else if after(text, " > "@) is Some {
        Some((Compare::Greater, after(text, " > "@)->0))
    } else if after(text, " >= "@) is Some {
        Some((Compare::GreaterOrEqual, after(text, " >= "@)->0))
    } else {
        None
    }
}

/// A comparison of a field with a value.
pub open spec fn read_comparison(text: Seq<char>, bound: Seq<(Seq<char>, ValueView)>) -> Option<
    (FilterView, Seq<char>),
> {
    match read_word(text) {
        None => None,
        Some((field, rest)) => match read_operator(rest) {
            None => None,
            Some((how, rest)) => match read_value(rest, bound) {
                None => None,
                Some((value, rest)) => Some((FilterView::Compare { field, how, value }, rest)),
            },
        },
    }
}

/// A condition: a comparison, or two conditions in parentheses that both hold or of which either
/// does.
pub open spec fn read_condition(text: Seq<char>, bound: Seq<(Seq<char>, ValueView)>) -> Option<
    (FilterView, Seq<char>),
>
    decreases text.len(),
{
    if text.len() > 0 && text[0] == '(' {
        match read_condition(text.skip(1), bound) {
            None => None,
            Some((left, rest)) => if rest.len() >= text.len() {
                None
            } else if after(rest, " AND "@) is Some {
                let more = after(rest, " AND "@)->0;
                match (if more.len() < text.len() {
                    read_condition(more, bound)
                } else {
                    None
                }) {
                    None => None,
                    Some((right, rest)) => match after(rest, seq![')']) {
                        None => None,
                        Some(rest) => Some(
                            (FilterView::And(Box::new(left), Box::new(right)), rest),
                        ),
                    },
                }
            } else if after(rest, " OR "@) is Some {
                let more = after(rest, " OR "@)->0;
                match (if more.len() < text.len() {
                    read_condition(more, bound)
                } else {
                    None
                }) {
                    None => None,
                    Some((right, rest)) => match after(rest, seq![')']) {
                        None => None,
                        Some(rest) => Some(
                            (FilterView::Or(Box::new(left), Box::new(right)), rest),
                        ),
                    },
                }
            } else {
                None
            },
        }
    } else {
        read_comparison(text, bound)
    }
}

proof fn lemma_after(start: Seq<char>, rest: Seq<char>)
    ensures
        after(start + rest, start) == Some(rest),
{
    assert((start + rest).skip(start.len() as int) =~= rest);
    assert(start =~= (start + rest).subrange(0, start.len() as int));
}

proof fn lemma_not_after(text: Seq<char>, start: Seq<char>, at: int)
    requires
        0 <= at < start.len(),
        at >= text.len() || text[at] != start[at],
    ensures
        after(text, start) is None,
{
    if start.is_prefix_of(text) {
        assert(start[at] == text.subrange(0, start.len() as int)[at]);
    }
}

/// Whether a word that stands before a text ends there.
pub open spec fn ends_a_word(text: Seq<char>) -> bool {
    text.len() == 0 || !in_a_word(text[0])
}

/// Whether a text is a word.
pub open spec fn is_word(text: Seq<char>) -> bool {
    text.len() > 0 && forall|i: int| 0 <= i < text.len() ==> in_a_word(#[trigger] text[i])
}

proof fn lemma_word(text: Seq<char>, rest: Seq<char>)
    requires
        forall|i: int| 0 <= i < text.len() ==> in_a_word(#[trigger] text[i]),
        ends_a_word(rest),
    ensures
        word(text + rest) == text,
    decreases text.len(),
{
    let all = text + rest;
    if text.len() == 0 {
        assert(all =~= rest);
        assert(text =~= Seq::empty());
    } else {
        let fewer = text.drop_first();
        assert forall|i: int| 0 <= i < fewer.len() implies in_a_word(#[trigger] fewer[i]) by {
            assert(fewer[i] == text[i + 1]);
        }
        lemma_word(fewer, rest);
        assert(all.drop_first() =~= fewer + rest);
        assert(all[0] == text[0]);
        assert(seq![text[0]] + fewer =~= text);
    }
}

proof fn lemma_read_word(text: Seq<char>, rest: Seq<char>)
    requires
        is_word(text),
        ends_a_word(rest),
    ensures
        read_word(text + rest) == Some((text, rest)),
{
    lemma_word(text, rest);
    assert((text + rest).skip(text.len() as int) =~= rest);
}

proof fn lemma_name_is_word(name: Seq<char>)
    requires
        is_name(name),
    ensures
        is_word(name),
{
    assert forall|i: int| 0 <= i < name.len() implies in_a_word(#[trigger] name[i]) by {
        assert(is_name_char(name[i]));
    }
}

proof fn lemma_decimal_is_word(value: nat)
    ensures
        is_word(decimal(value)),
{
    lemma_decimal_digits(value);
}

proof fn lemma_read_count(count: u64, rest: Seq<char>)
    requires
        ends_a_word(rest),
    ensures
        read_count(decimal(count as nat) + rest) == Some((count, rest)),
{
    lemma_decimal_is_word(count as nat);
    lemma_read_word(decimal(count as nat), rest);
    law_numbers_are_read_as_written(count as nat, u64::MAX as nat);
}

proof fn lemma_parameter_is_word(at: nat)
    ensures
        is_word(parameter_name(at)),
{
    reveal_strlit("p");
    lemma_decimal_is_word(parameter_number(at));
    let digits = decimal(parameter_number(at));
    let name = parameter_name(at);
    assert forall|i: int| 0 <= i < name.len() implies in_a_word(#[trigger] name[i]) by {
        if i > 0 {
            assert(name[i] == digits[i - 1]);
        }
    }
}

/// Whether each of some values is bound under the name of its place, from `at` on.
spec fn holds_values(
    parameters: Seq<(Seq<char>, ValueView)>,
    values: Seq<ValueView>,
    at: nat,
) -> bool {
    forall|i: int|
        0 <= i < values.len() ==> field_of(parameters, #[trigger] parameter_name((at + i) as nat))
            == Some(values[i])
}

proof fn lemma_read_value(
    parameters: Seq<(Seq<char>, ValueView)>,
    value: ValueView,
    at: nat,
    rest: Seq<char>,
)
    requires
        field_of(parameters, parameter_name(at)) == Some(value),
        ends_a_word(rest),
    ensures
        read_value(reference(at) + rest, parameters) == Some((value, rest)),
{
    reveal_strlit("$");
    let name = parameter_name(at);
    assert("$"@ =~= seq!['$']);
    lemma_assoc("$"@, name, rest);
    lemma_after(seq!['$'], name + rest);
    lemma_parameter_is_word(at);
    lemma_read_word(name, rest);
}

proof fn lemma_read_operator(how: Compare, rest: Seq<char>)
    ensures
        read_operator(" "@ + how.spelling() + " "@ + rest) == Some((how, rest)),
{
    reveal_strlit(" ");
    reveal_strlit("=");
    reveal_strlit("!=");
    reveal_strlit("<");
    reveal_strlit("<=");
    reveal_strlit(">");
    reveal_strlit(">=");
    reveal_strlit(" = ");
    reveal_strlit(" != ");
    reveal_strlit(" < ");
    reveal_strlit(" <= ");
    reveal_strlit(" > ");
    reveal_strlit(" >= ");
    let text = " "@ + how.spelling() + " "@ + rest;
    let between = match how {
        Compare::Equal => " = "@,
        Compare::NotEqual => " != "@,
        Compare::Less => " < "@,
        Compare::LessOrEqual => " <= "@,
        Compare::Greater => " > "@,
        Compare::GreaterOrEqual => " >= "@,
    };
    assert(" "@ + how.spelling() + " "@ =~= between);
    lemma_after(between, rest);
    assert(text[1] == between[1]);
    assert(text[2] == between[2]);
    if !(how is Equal) {
        lemma_not_after(text, " = "@, 1);
    }
    if !(how is Equal) && !(how is NotEqual) {
        lemma_not_after(text, " != "@, 1);
    }
    if how is LessOrEqual || how is Greater || how is GreaterOrEqual {
        lemma_not_after(text, " < "@, if how is LessOrEqual {
            2
        } else {
            1
        });
    }
    if how is Greater || how is GreaterOrEqual {
        lemma_not_after(text, " <= "@, 1);
    }
    if how is GreaterOrEqual {
        lemma_not_after(text, " > "@, 2);
    }
}

proof fn lemma_read_comparison(
    parameters: Seq<(Seq<char>, ValueView)>,
    field: Seq<char>,
    how: Compare,
    value: ValueView,
    at: nat,
    rest: Seq<char>,
)
    requires
        is_name(field),
        field_of(parameters, parameter_name(at)) == Some(value),
        ends_a_word(rest),
    ensures
        read_condition(field + " "@ + how.spelling() + " "@ + reference(at) + rest, parameters)
            == Some((FilterView::Compare { field, how, value }, rest)),
{
    reveal_strlit(" ");
    let held = reference(at) + rest;
    let compared = " "@ + how.spelling() + " "@ + held;
    let text = field + " "@ + how.spelling() + " "@ + reference(at) + rest;
    lemma_assoc(field + " "@ + how.spelling() + " "@, reference(at), rest);
    assert(field + " "@ + how.spelling() + " "@ + held =~= field + compared);
    lemma_name_is_word(field);
    assert(compared[0] == ' ');
    lemma_read_word(field, compared);
    lemma_read_operator(how, held);
    lemma_read_value(parameters, value, at, rest);
    assert(text[0] == field[0]);
    assert(in_a_word(field[0]));
}

proof fn lemma_values_split(
    parameters: Seq<(Seq<char>, ValueView)>,
    left: Seq<ValueView>,
    right: Seq<ValueView>,
    at: nat,
)
    requires
        holds_values(parameters, left + right, at),
    ensures
        holds_values(parameters, left, at),
        holds_values(parameters, right, at + left.len()),
{
    let all = left + right;
    assert forall|i: int| 0 <= i < left.len() implies field_of(
        parameters,
        #[trigger] parameter_name((at + i) as nat),
    ) == Some(left[i]) by {
        assert(all[i] == left[i]);
    }
    assert forall|i: int| 0 <= i < right.len() implies field_of(
        parameters,
        #[trigger] parameter_name((at + left.len() + i) as nat),
    ) == Some(right[i]) by {
        assert(all[left.len() + i] == right[i]);
        assert(parameter_name((at + (left.len() + i)) as nat) == parameter_name(
            (at + left.len() + i) as nat,
        ));
    }
}

proof fn lemma_read_pair(
    parameters: Seq<(Seq<char>, ValueView)>,
    left: FilterView,
    right: FilterView,
    first: Seq<char>,
    second: Seq<char>,
    both: bool,
    rest: Seq<char>,
)
    requires
        read_condition(
            first + ((if both {
                " AND "@
            } else {
                " OR "@
            }) + (second + (seq![')'] + rest))),
            parameters,
        ) == Some(
            (
                left,
                (if both {
                    " AND "@
                } else {
                    " OR "@
                }) + (second + (seq![')'] + rest)),
            ),
        ),
        read_condition(second + (seq![')'] + rest), parameters) == Some((right, seq![')'] + rest)),
    ensures
        read_condition(
            "("@ + first + (if both {
                " AND "@
            } else {
                " OR "@
            }) + second + ")"@ + rest,
            parameters,
        ) == Some(
            (
                if both {
                    FilterView::And(Box::new(left), Box::new(right))
                } else {
                    FilterView::Or(Box::new(left), Box::new(right))
                },
                rest,
            ),
        ),
{
    reveal_strlit("(");
    reveal_strlit(")");
    reveal_strlit(" AND ");
    reveal_strlit(" OR ");
    let joint = if both {
        " AND "@
    } else {
        " OR "@
    };
    let closing = seq![')'] + rest;
    let more = second + closing;
    let between = joint + more;
    let text = "("@ + first + joint + second + ")"@ + rest;
    assert(")"@ =~= seq![')']);
    lemma_assoc("("@ + first + joint + second, ")"@, rest);
    lemma_assoc("("@ + first + joint, second, closing);
    lemma_assoc("("@ + first, joint, more);
    lemma_assoc("("@, first, between);
    assert(text == "("@ + (first + between));
    assert(text[0] == '(');
    assert(text.skip(1) =~= first + between);
    lemma_after(joint, more);
    lemma_after(seq![')'], rest);
    if !both {
        assert(between[1] == 'O');
        lemma_not_after(between, " AND "@, 1);
    }
}

proof fn lemma_read_condition(
    parameters: Seq<(Seq<char>, ValueView)>,
    filter: FilterView,
    at: nat,
    rest: Seq<char>,
)
    requires
        condition_names_hold(filter),
        holds_values(parameters, filter_values(filter), at),
        ends_a_word(rest),
    ensures
        read_condition(filter_text(filter, at) + rest, parameters) == Some((filter, rest)),
    decreases filter,
{
    reveal_strlit(" AND ");
    reveal_strlit(" OR ");
    match filter {
        FilterView::Compare { field, how, value } => {
            assert(filter_values(filter)[0] == value);
            assert(field_of(parameters, parameter_name((at + 0) as nat)) == Some(value));
            lemma_read_comparison(parameters, field, how, value, at, rest);
        },
        FilterView::And(left, right) => {
            let next = at + filter_values(*left).len();
            let second = filter_text(*right, next);
            let closing = seq![')'] + rest;
            lemma_values_split(parameters, filter_values(*left), filter_values(*right), at);
            lemma_read_condition(parameters, *right, next, closing);
            assert((" AND "@ + (second + closing))[0] == ' ');
            lemma_read_condition(parameters, *left, at, " AND "@ + (second + closing));
            lemma_read_pair(
                parameters,
                *left,
                *right,
                filter_text(*left, at),
                second,
                true,
                rest,
            );
        },
        FilterView::Or(left, right) => {
            let next = at + filter_values(*left).len();
            let second = filter_text(*right, next);
            let closing = seq![')'] + rest;
            lemma_values_split(parameters, filter_values(*left), filter_values(*right), at);
            lemma_read_condition(parameters, *right, next, closing);
            assert((" OR "@ + (second + closing))[0] == ' ');
            lemma_read_condition(parameters, *left, at, " OR "@ + (second + closing));
            lemma_read_pair(
                parameters,
                *left,
                *right,
                filter_text(*left, at),
                second,
                false,
                rest,
            );
        },
    }
}

proof fn lemma_bound_holds(values: Seq<ValueView>)
    requires
        values.len() <= usize::MAX,
    ensures
        holds_values(bound(values), values, 0),
{
    assert forall|i: int| 0 <= i < values.len() implies field_of(
        bound(values),
        #[trigger] parameter_name((0 + i) as nat),
    ) == Some(values[i]) by {
        law_values_are_bound_by_their_references(values, i as nat);
    }
}

/// A condition is read back as the one that was built: the same tree of both and either, the same
/// fields, the same operators, and in each comparison the value that was given to it.
pub proof fn law_conditions_are_read_back(filter: FilterView)
    requires
        condition_names_hold(filter),
        filter_values(filter).len() <= usize::MAX,
    ensures
        read_condition(filter_text(filter, 0), bound(filter_values(filter))) == Some(
            (filter, Seq::<char>::empty()),
        ),
{
    lemma_bound_holds(filter_values(filter));
    lemma_read_condition(bound(filter_values(filter)), filter, 0, Seq::empty());
    assert(filter_text(filter, 0) + Seq::empty() =~= filter_text(filter, 0));
}

/// One item of a projection: a field, or a window onto one that comes back under its own name.
pub open spec fn read_item(text: Seq<char>) -> Option<(ProjectionView, Seq<char>)> {
    match after(text, "string::lines("@) {
        None => match read_word(text) {
            None => None,
            Some((field, rest)) => Some((ProjectionView::Field(field), rest)),
        },
        Some(text) => match read_word(text) {
            None => None,
            Some((field, rest)) => match after(rest, ", "@) {
                None => None,
                Some(rest) => match read_count(rest) {
                    None => None,
                    Some((start, rest)) => match after(rest, ", "@) {
                        None => None,
                        Some(rest) => match read_count(rest) {
                            None => None,
                            Some((count, rest)) => match after(rest, ") AS "@) {
                                None => None,
                                Some(rest) => match read_word(rest) {
                                    Some((name, rest)) if name == field => Some(
                                        (ProjectionView::Lines { field, start, count }, rest),
                                    ),
                                    _ => None,
                                },
                            },
                        },
                    },
                },
            },
        },
    }
}

/// Items of a projection, with a comma between each two.
pub open spec fn read_items(text: Seq<char>) -> Option<(Seq<ProjectionView>, Seq<char>)>
    decreases text.len(),
{
    match read_item(text) {
        None => None,
        Some((item, rest)) => match after(rest, ", "@) {
            None => Some((seq![item], rest)),
            Some(more) => if more.len() >= text.len() {
                None
            } else {
                match read_items(more) {
                    None => None,
                    Some((items, rest)) => Some((seq![item] + items, rest)),
                }
            },
        },
    }
}

/// A projection: everything, or items.
pub open spec fn read_projection(text: Seq<char>) -> Option<(Seq<ProjectionView>, Seq<char>)> {
    match after(text, seq!['*']) {
        Some(rest) => Some((seq![], rest)),
        None => read_items(text),
    }
}

/// A field and the direction it is sorted in.
pub open spec fn read_order(text: Seq<char>) -> Option<((Seq<char>, Order), Seq<char>)> {
    match read_word(text) {
        None => None,
        Some((field, rest)) => match (after(rest, " ASC"@), after(rest, " DESC"@)) {
            (Some(rest), _) => Some(((field, Order::Ascending), rest)),
            (None, Some(rest)) => Some(((field, Order::Descending), rest)),
            (None, None) => None,
        },
    }
}

/// Fields and their directions, with a comma between each two.
pub open spec fn read_orders(text: Seq<char>) -> Option<(Seq<(Seq<char>, Order)>, Seq<char>)>
    decreases text.len(),
{
    match read_order(text) {
        None => None,
        Some((item, rest)) => match after(rest, ", "@) {
            None => Some((seq![item], rest)),
            Some(more) => if more.len() >= text.len() {
                None
            } else {
                match read_orders(more) {
                    None => None,
                    Some((items, rest)) => Some((seq![item] + items, rest)),
                }
            },
        },
    }
}

/// The clause that sorts, where there is one.
pub open spec fn read_sorting(text: Seq<char>) -> Option<(Seq<(Seq<char>, Order)>, Seq<char>)> {
    match after(text, " ORDER BY "@) {
        None => Some((seq![], text)),
        Some(text) => read_orders(text),
    }
}

/// The clause that filters, where there is one.
pub open spec fn read_filter(text: Seq<char>, bound: Seq<(Seq<char>, ValueView)>) -> Option<
    (Option<FilterView>, Seq<char>),
> {
    match after(text, " WHERE "@) {
        None => Some((None, text)),
        Some(text) => match read_condition(text, bound) {
            None => None,
            Some((filter, rest)) => Some((Some(filter), rest)),
        },
    }
}

/// A clause that ends in a count, where there is one.
pub open spec fn read_counted(text: Seq<char>, clause: Seq<char>) -> Option<
    (Option<u64>, Seq<char>),
> {
    match after(text, clause) {
        None => Some((None, text)),
        Some(text) => match read_count(text) {
            None => None,
            Some((count, rest)) => Some((Some(count), rest)),
        },
    }
}

/// The clause that bounds the staleness, where there is one.
pub open spec fn read_staleness(text: Seq<char>) -> Option<(Option<Seq<char>>, Seq<char>)> {
    match after(text, " STALENESS "@) {
        None => Some((None, text)),
        Some(text) => match read_word(text) {
            None => None,
            Some((span, rest)) => Some((Some(span), rest)),
        },
    }
}

/// The clause that says who is to answer, where there is one.
pub open spec fn read_answerer(text: Seq<char>) -> Option<(Option<Answerer>, Seq<char>)> {
    match after(text, " ANSWERED BY LEADER"@) {
        None => Some((None, text)),
        Some(rest) => Some((Some(Answerer::Leader), rest)),
    }
}

/// What a read asks after its source: the clauses in the only order a node accepts, and the end.
pub open spec fn read_clauses(
    source: Seq<char>,
    projection: Seq<ProjectionView>,
    text: Seq<char>,
    bound: Seq<(Seq<char>, ValueView)>,
) -> Option<SelectView> {
    match read_filter(text, bound) {
        None => None,
        Some((filter, text)) => match read_sorting(text) {
            None => None,
            Some((order, text)) => match read_counted(text, " START "@) {
                None => None,
                Some((start, text)) => match read_counted(text, " LIMIT "@) {
                    None => None,
                    Some((limit, text)) => match read_staleness(text) {
                        None => None,
                        Some((staleness, text)) => match read_answerer(text) {
                            None => None,
                            Some((answered_by, text)) => if text == seq![';'] {
                                Some(
                                    SelectView {
                                        source,
                                        projection,
                                        filter,
                                        order,
                                        start,
                                        limit,
                                        staleness,
                                        answered_by,
                                    },
                                )
                            } else {
                                None
                            },
                        },
                    },
                },
            },
        },
    }
}

/// What a read asks.
pub open spec fn read_select(text: Seq<char>, bound: Seq<(Seq<char>, ValueView)>) -> Option<
    SelectView,
> {
    match after(text, "SELECT "@) {
        None => None,
        Some(text) => match read_projection(text) {
            None => None,
            Some((projection, text)) => match after(text, " FROM "@) {
                None => None,
                Some(text) => match read_word(text) {
                    None => None,
                    Some((source, text)) => read_clauses(source, projection, text, bound),
                },
            },
        },
    }
}

/// Parts that are joined open with the first of them.
proof fn lemma_joined_first(parts: Seq<Seq<char>>)
    requires
        parts.len() > 1,
    ensures
        joined(parts) == parts[0] + (", "@ + joined(parts.drop_first())),
    decreases parts.len(),
{
    let rest = parts.drop_first();
    if parts.len() == 2 {
        assert(parts.drop_last() =~= seq![parts[0]]);
        assert(rest =~= seq![parts[1]]);
        assert(joined(parts.drop_last()) == parts[0]);
        assert(joined(rest) == parts[1]);
        assert(joined(parts) =~= parts[0] + (", "@ + joined(rest)));
    } else {
        lemma_joined_first(parts.drop_last());
        assert(parts.drop_last().drop_first() =~= rest.drop_last());
        assert(joined(rest) == joined(rest.drop_last()) + ", "@ + rest.last());
        assert(rest.last() == parts.last());
        assert(parts.drop_last()[0] == parts[0]);
        assert(joined(parts) =~= parts[0] + (", "@ + joined(rest)));
    }
}

proof fn lemma_read_item(item: ProjectionView, rest: Seq<char>)
    requires
        is_name(item.field()),
        ends_a_word(rest),
        rest.len() > 0 ==> rest[0] != ':',
    ensures
        read_item(item.text() + rest) == Some((item, rest)),
        item.text().len() > 0,
        item.text()[0] != '*',
{
    reveal_strlit("string::lines(");
    reveal_strlit(", ");
    reveal_strlit(") AS ");
    let opening = "string::lines("@;
    let field = item.field();
    lemma_name_is_word(field);
    assert(in_a_word(field[0]));
    match item {
        ProjectionView::Field(_) => {
            let text = field + rest;
            lemma_read_word(field, rest);
            if opening.is_prefix_of(text) {
                lemma_after_prefix(text, opening);
                assert(text[6] == ':');
                if field.len() > 6 {
                    assert(in_a_word(field[6]));
                } else if field.len() == 6 {
                    assert(text[6] == rest[0]);
                } else {
                    let at = field.len() as int;
                    assert(text[at] == rest[0]);
                    assert(text[at] == opening[at]);
                    assert(in_a_word(opening[at]));
                }
                assert(false);
            }
        },
        ProjectionView::Lines { start, count, .. } => {
            let from = decimal(start as nat);
            let many = decimal(count as nat);
            let named = ") AS "@ + (field + rest);
            let counted = ", "@ + (many + named);
            let started = ", "@ + (from + counted);
            let text = item.text() + rest;
            lemma_assoc(
                opening + field + ", "@ + from + ", "@ + many + ") AS "@,
                field,
                rest,
            );
            lemma_assoc(opening + field + ", "@ + from + ", "@ + many, ") AS "@, field + rest);
            lemma_assoc(opening + field + ", "@ + from + ", "@, many, named);
            lemma_assoc(opening + field + ", "@ + from, ", "@, many + named);
            lemma_assoc(opening + field + ", "@, from, counted);
            lemma_assoc(opening + field, ", "@, from + counted);
            lemma_assoc(opening, field, started);
            lemma_after(opening, field + started);
            lemma_read_word(field, started);
            lemma_after(", "@, from + counted);
            lemma_read_count(start, counted);
            lemma_after(", "@, many + named);
            lemma_read_count(count, named);
            lemma_after(") AS "@, field + rest);
            lemma_read_word(field, rest);
            assert(item.text()[0] == opening[0]);
        },
    }
}

proof fn lemma_after_prefix(text: Seq<char>, start: Seq<char>)
    requires
        start.is_prefix_of(text),
    ensures
        start.len() <= text.len(),
        forall|i: int| 0 <= i < start.len() ==> #[trigger] text[i] == start[i],
{
    assert forall|i: int| 0 <= i < start.len() implies #[trigger] text[i] == start[i] by {
        assert(text.subrange(0, start.len() as int)[i] == text[i]);
    }
}

proof fn lemma_items_go_on(
    first: ProjectionView,
    more: Seq<char>,
    fewer: Seq<ProjectionView>,
    rest: Seq<char>,
)
    requires
        is_name(first.field()),
        read_items(more) == Some((fewer, rest)),
    ensures
        read_items(first.text() + (", "@ + more)) == Some((seq![first] + fewer, rest)),
        first.text().len() > 0,
        first.text()[0] != '*',
{
    reveal_strlit(", ");
    lemma_read_item(first, ", "@ + more);
    lemma_after(", "@, more);
}

proof fn lemma_items_end(first: ProjectionView, rest: Seq<char>)
    requires
        is_name(first.field()),
        rest.len() > 0,
        rest[0] == ' ',
    ensures
        read_items(first.text() + rest) == Some((seq![first], rest)),
        first.text().len() > 0,
        first.text()[0] != '*',
{
    reveal_strlit(", ");
    lemma_not_after(rest, ", "@, 0);
    lemma_read_item(first, rest);
}

proof fn lemma_read_items(items: Seq<ProjectionView>, rest: Seq<char>)
    requires
        items.len() > 0,
        forall|i: int| 0 <= i < items.len() ==> is_name((#[trigger] items[i]).field()),
        rest.len() > 0,
        rest[0] == ' ',
    ensures
        read_items(joined(projection_parts(items)) + rest) == Some((items, rest)),
        joined(projection_parts(items)).len() > 0,
        joined(projection_parts(items))[0] != '*',
    decreases items.len(),
{
    let parts = projection_parts(items);
    let first = items[0];
    assert(is_name(first.field()));
    assert(parts[0] == first.text());
    if items.len() == 1 {
        lemma_items_end(first, rest);
        assert(seq![first] =~= items);
    } else {
        let fewer = items.drop_first();
        assert forall|i: int| 0 <= i < fewer.len() implies is_name(
            (#[trigger] fewer[i]).field(),
        ) by {
            assert(fewer[i] == items[i + 1]);
        }
        lemma_read_items(fewer, rest);
        lemma_joined_first(parts);
        assert(parts.drop_first() =~= projection_parts(fewer));
        let more = joined(projection_parts(fewer));
        lemma_assoc(parts[0], ", "@ + more, rest);
        lemma_assoc(", "@, more, rest);
        lemma_items_go_on(first, more + rest, fewer, rest);
        assert(joined(parts)[0] == parts[0][0]);
        assert(seq![first] + fewer =~= items);
    }
}

proof fn lemma_read_projection(items: Seq<ProjectionView>, rest: Seq<char>)
    requires
        forall|i: int| 0 <= i < items.len() ==> is_name((#[trigger] items[i]).field()),
        rest.len() > 0,
        rest[0] == ' ',
    ensures
        read_projection(projection_text(items) + rest) == Some((items, rest)),
{
    reveal_strlit("*");
    if items.len() == 0 {
        assert("*"@ =~= seq!['*']);
        lemma_after(seq!['*'], rest);
        assert(items =~= Seq::empty());
    } else {
        lemma_read_items(items, rest);
        let text = projection_text(items) + rest;
        assert(text[0] == projection_text(items)[0]);
        lemma_not_after(text, seq!['*'], 0);
    }
}

proof fn lemma_read_order(item: (Seq<char>, Order), rest: Seq<char>)
    requires
        is_name(item.0),
    ensures
        read_order(item.0 + " "@ + item.1.spelling() + rest) == Some((item, rest)),
{
    reveal_strlit(" ");
    reveal_strlit("ASC");
    reveal_strlit("DESC");
    reveal_strlit(" ASC");
    reveal_strlit(" DESC");
    let direction = match item.1 {
        Order::Ascending => " ASC"@,
        Order::Descending => " DESC"@,
    };
    assert(" "@ + item.1.spelling() =~= direction);
    lemma_assoc(item.0, " "@, item.1.spelling());
    lemma_assoc(item.0, direction, rest);
    lemma_name_is_word(item.0);
    let tail = direction + rest;
    assert(tail[0] == ' ');
    lemma_read_word(item.0, tail);
    lemma_after(direction, rest);
    if item.1 is Descending {
        assert(tail[1] == 'D');
        lemma_not_after(tail, " ASC"@, 1);
    }
}

proof fn lemma_read_orders(items: Seq<(Seq<char>, Order)>, rest: Seq<char>)
    requires
        items.len() > 0,
        forall|i: int| 0 <= i < items.len() ==> is_name((#[trigger] items[i]).0),
        rest.len() > 0,
        rest[0] == ' ' || rest[0] == ';',
    ensures
        read_orders(joined(order_parts(items)) + rest) == Some((items, rest)),
    decreases items.len(),
{
    reveal_strlit(", ");
    let parts = order_parts(items);
    let first = items[0];
    assert(is_name(first.0));
    assert(parts[0] == first.0 + " "@ + first.1.spelling());
    lemma_not_after(rest, ", "@, 0);
    if items.len() == 1 {
        assert(parts =~= seq![parts[0]]);
        lemma_read_order(first, rest);
        assert(seq![first] =~= items);
    } else {
        let fewer = items.drop_first();
        assert forall|i: int| 0 <= i < fewer.len() implies is_name((#[trigger] fewer[i]).0) by {
            assert(fewer[i] == items[i + 1]);
        }
        lemma_read_orders(fewer, rest);
        lemma_joined_first(parts);
        assert(parts.drop_first() =~= order_parts(fewer));
        let more = joined(order_parts(fewer));
        lemma_assoc(parts[0], ", "@ + more, rest);
        lemma_assoc(", "@, more, rest);
        lemma_read_order(first, ", "@ + (more + rest));
        lemma_after(", "@, more + rest);
        assert(seq![first] + fewer =~= items);
    }
}

/// What the text after the source may open with, from the last clause back to the first.
spec fn opens_answerer(text: Seq<char>) -> bool {
    text.len() > 0 && (text[0] == ';' || (text.len() > 4 && text[0] == ' ' && text[1] == 'A'))
}

spec fn opens_staleness(text: Seq<char>) -> bool {
    opens_answerer(text) || (text.len() > 4 && text[0] == ' ' && text[1] == 'S' && text[4] == 'L')
}

spec fn opens_limit(text: Seq<char>) -> bool {
    opens_staleness(text) || (text.len() > 4 && text[0] == ' ' && text[1] == 'L')
}

spec fn opens_start(text: Seq<char>) -> bool {
    opens_limit(text) || (text.len() > 4 && text[0] == ' ' && text[1] == 'S' && text[4] == 'R')
}

spec fn opens_sorting(text: Seq<char>) -> bool {
    opens_start(text) || (text.len() > 4 && text[0] == ' ' && text[1] == 'O')
}

proof fn lemma_read_answerer(answerer: Option<Answerer>)
    ensures
        read_answerer(answered_by_text(answerer) + seq![';']) == Some((answerer, seq![';'])),
        opens_answerer(answered_by_text(answerer) + seq![';']),
{
    reveal_strlit(" ANSWERED BY ");
    reveal_strlit("LEADER");
    reveal_strlit(" ANSWERED BY LEADER");
    let rest = seq![';'];
    let text = answered_by_text(answerer) + rest;
    match answerer {
        None => {
            assert(text =~= rest);
            lemma_not_after(text, " ANSWERED BY LEADER"@, 0);
        },
        Some(Answerer::Leader) => {
            assert(" ANSWERED BY "@ + "LEADER"@ =~= " ANSWERED BY LEADER"@);
            lemma_after(" ANSWERED BY LEADER"@, rest);
            assert(text[0] == ' ' && text[1] == 'A');
        },
    }
}

proof fn lemma_read_staleness(staleness: Option<Seq<char>>, rest: Seq<char>)
    requires
        staleness matches Some(span) ==> is_span(span),
        opens_answerer(rest),
    ensures
        read_staleness(staleness_text(staleness) + rest) == Some((staleness, rest)),
        opens_staleness(staleness_text(staleness) + rest),
{
    reveal_strlit(" STALENESS ");
    let text = staleness_text(staleness) + rest;
    match staleness {
        None => {
            assert(text =~= rest);
            lemma_not_after(text, " STALENESS "@, if text[0] == ';' {
                0
            } else {
                1
            });
        },
        Some(span) => {
            lemma_assoc(" STALENESS "@, span, rest);
            lemma_after(" STALENESS "@, span + rest);
            assert forall|i: int| 0 <= i < span.len() implies in_a_word(#[trigger] span[i]) by {}
            lemma_read_word(span, rest);
            assert(text[0] == ' ' && text[1] == 'S' && text[4] == 'L');
        },
    }
}

proof fn lemma_read_counted(clause: Seq<char>, count: Option<u64>, rest: Seq<char>, at: int)
    requires
        0 <= at < clause.len(),
        rest.len() > 0,
        rest[0] == ' ' || rest[0] == ';',
        clause[0] == ' ',
        count is None ==> at >= rest.len() || rest[at] != clause[at],
    ensures
        read_counted(count_text(clause, count) + rest, clause) == Some((count, rest)),
{
    let text = count_text(clause, count) + rest;
    match count {
        None => {
            assert(text =~= rest);
            lemma_not_after(text, clause, at);
        },
        Some(number) => {
            lemma_assoc(clause, decimal(number as nat), rest);
            lemma_after(clause, decimal(number as nat) + rest);
            lemma_read_count(number, rest);
        },
    }
}

proof fn lemma_read_limit(limit: Option<u64>, rest: Seq<char>)
    requires
        opens_staleness(rest),
    ensures
        read_counted(count_text(" LIMIT "@, limit) + rest, " LIMIT "@) == Some((limit, rest)),
        opens_limit(count_text(" LIMIT "@, limit) + rest),
{
    reveal_strlit(" LIMIT ");
    let text = count_text(" LIMIT "@, limit) + rest;
    lemma_read_counted(" LIMIT "@, limit, rest, if rest[0] == ';' {
        0
    } else {
        1
    });
    if limit is Some {
        assert(text[0] == ' ' && text[1] == 'L');
    } else {
        assert(text =~= rest);
    }
}

proof fn lemma_read_start(start: Option<u64>, rest: Seq<char>)
    requires
        opens_limit(rest),
    ensures
        read_counted(count_text(" START "@, start) + rest, " START "@) == Some((start, rest)),
        opens_start(count_text(" START "@, start) + rest),
{
    reveal_strlit(" START ");
    let text = count_text(" START "@, start) + rest;
    lemma_read_counted(" START "@, start, rest, if rest[0] == ';' {
        0
    } else if rest[1] == 'S' {
        4
    } else {
        1
    });
    if start is Some {
        assert(text[0] == ' ' && text[1] == 'S' && text[4] == 'R');
    } else {
        assert(text =~= rest);
    }
}

proof fn lemma_read_sorting(order: Seq<(Seq<char>, Order)>, rest: Seq<char>)
    requires
        forall|i: int| 0 <= i < order.len() ==> is_name((#[trigger] order[i]).0),
        opens_start(rest),
    ensures
        read_sorting(order_text(order) + rest) == Some((order, rest)),
        opens_sorting(order_text(order) + rest),
{
    reveal_strlit(" ORDER BY ");
    let text = order_text(order) + rest;
    if order.len() == 0 {
        assert(text =~= rest);
        assert(order =~= Seq::empty());
        lemma_not_after(text, " ORDER BY "@, if rest[0] == ';' {
            0
        } else {
            1
        });
    } else {
        let items = joined(order_parts(order));
        lemma_assoc(" ORDER BY "@, items, rest);
        lemma_after(" ORDER BY "@, items + rest);
        lemma_read_orders(order, rest);
        assert(text[0] == ' ' && text[1] == 'O');
    }
}

proof fn lemma_read_filter(
    parameters: Seq<(Seq<char>, ValueView)>,
    filter: Option<FilterView>,
    rest: Seq<char>,
)
    requires
        filter matches Some(filter) ==> condition_names_hold(filter) && holds_values(
            parameters,
            filter_values(filter),
            0,
        ),
        opens_sorting(rest),
    ensures
        read_filter(where_text(filter) + rest, parameters) == Some((filter, rest)),
        (where_text(filter) + rest)[0] == ' ' || (where_text(filter) + rest)[0] == ';',
{
    reveal_strlit(" WHERE ");
    let text = where_text(filter) + rest;
    match filter {
        None => {
            assert(text =~= rest);
            lemma_not_after(text, " WHERE "@, if rest[0] == ';' {
                0
            } else {
                1
            });
        },
        Some(filter) => {
            lemma_assoc(" WHERE "@, filter_text(filter, 0), rest);
            lemma_after(" WHERE "@, filter_text(filter, 0) + rest);
            lemma_read_condition(parameters, filter, 0, rest);
            assert(text[0] == ' ');
        },
    }
}

/// A read that is built asks what it was built to ask: read from its text and from what it binds it
/// is the same source, the same projection in the same order, the same condition on the same
/// values, the same sorting, the same start and limit, the same bound on staleness and the same
/// answerer, and nothing else.
pub proof fn law_built_reads_ask_what_was_asked(select: SelectView)
    requires
        select_values(select).len() <= usize::MAX,
    ensures
        select_query(select) matches Ok(query) ==> read_select(query.script, query.parameters)
            == Some(select),
{
    if select_fault(select) is None {
        reveal_strlit("SELECT ");
        reveal_strlit(" FROM ");
        reveal_strlit(";");
        let parameters = bound(select_values(select));
        law_reads_interpolate_checked_names(select);
        lemma_bound_holds(select_values(select));
        assert(";"@ =~= seq![';']);
        let t5 = answered_by_text(select.answered_by) + seq![';'];
        let t4 = staleness_text(select.staleness) + t5;
        let t3 = count_text(" LIMIT "@, select.limit) + t4;
        let t2 = count_text(" START "@, select.start) + t3;
        let t1 = order_text(select.order) + t2;
        let t0 = where_text(select.filter) + t1;
        lemma_read_answerer(select.answered_by);
        lemma_read_staleness(select.staleness, t5);
        lemma_read_limit(select.limit, t4);
        lemma_read_start(select.start, t3);
        lemma_read_sorting(select.order, t2);
        lemma_read_filter(parameters, select.filter, t1);
        let read = "SELECT "@ + projection_text(select.projection);
        let h = read + " FROM "@ + select.source;
        let h0 = h + where_text(select.filter);
        let h1 = h0 + order_text(select.order);
        let h2 = h1 + count_text(" START "@, select.start);
        let h3 = h2 + count_text(" LIMIT "@, select.limit);
        let h4 = h3 + staleness_text(select.staleness);
        lemma_assoc(h4, answered_by_text(select.answered_by), seq![';']);
        lemma_assoc(h3, staleness_text(select.staleness), t5);
        lemma_assoc(h2, count_text(" LIMIT "@, select.limit), t4);
        lemma_assoc(h1, count_text(" START "@, select.start), t3);
        lemma_assoc(h0, order_text(select.order), t2);
        lemma_assoc(h, where_text(select.filter), t1);
        lemma_assoc(read + " FROM "@, select.source, t0);
        lemma_assoc(read, " FROM "@, select.source + t0);
        let from = " FROM "@ + (select.source + t0);
        lemma_assoc("SELECT "@, projection_text(select.projection), from);
        assert(select_script(select) == "SELECT "@ + (projection_text(select.projection) + from));
        lemma_after("SELECT "@, projection_text(select.projection) + from);
        assert(from[0] == ' ');
        lemma_read_projection(select.projection, from);
        lemma_after(" FROM "@, select.source + t0);
        lemma_name_is_word(select.source);
        lemma_read_word(select.source, t0);
    }
}

/// A name, what stands between, and its value.
pub open spec fn read_field(
    text: Seq<char>,
    between: Seq<char>,
    bound: Seq<(Seq<char>, ValueView)>,
) -> Option<((Seq<char>, ValueView), Seq<char>)> {
    match read_word(text) {
        None => None,
        Some((name, rest)) => match after(rest, between) {
            None => None,
            Some(rest) => match read_value(rest, bound) {
                None => None,
                Some((value, rest)) => Some(((name, value), rest)),
            },
        },
    }
}

/// Names and their values, with a comma between each two.
pub open spec fn read_fields(
    text: Seq<char>,
    between: Seq<char>,
    bound: Seq<(Seq<char>, ValueView)>,
) -> Option<(Seq<(Seq<char>, ValueView)>, Seq<char>)>
    decreases text.len(),
{
    match read_field(text, between, bound) {
        None => None,
        Some((item, rest)) => match after(rest, ", "@) {
            None => Some((seq![item], rest)),
            Some(more) => if more.len() >= text.len() {
                None
            } else {
                match read_fields(more, between, bound) {
                    None => None,
                    Some((items, rest)) => Some((seq![item] + items, rest)),
                }
            },
        },
    }
}

/// What a create writes: a record by its identity or a bare table, and in braces each name, a
/// colon and its value.
pub open spec fn read_create(text: Seq<char>, bound: Seq<(Seq<char>, ValueView)>) -> Option<
    CreateView,
> {
    match after(text, "CREATE "@) {
        None => None,
        Some(text) => match read_word(text) {
            None => None,
            Some((table, text)) => match (match after(text, seq![':']) {
                None => Some((None::<ValueView>, text)),
                Some(text) => match read_value(text, bound) {
                    None => None,
                    Some((id, text)) => Some((Some(id), text)),
                },
            }) {
                None => None,
                Some((id, text)) => match after(text, " = { "@) {
                    None => None,
                    Some(text) => match read_fields(text, ": "@, bound) {
                        None => None,
                        Some((fields, text)) => if text == " };"@ {
                            Some(CreateView { table, id, fields })
                        } else {
                            None
                        },
                    },
                },
            },
        },
    }
}

/// What an update sets: a record by its identity, and after `SET` each name, an equals sign and its
/// value. No brace stands in it, so nothing of the record is replaced but what is named.
pub open spec fn read_update(text: Seq<char>, bound: Seq<(Seq<char>, ValueView)>) -> Option<
    UpdateView,
> {
    match after(text, "UPDATE "@) {
        None => None,
        Some(text) => match read_word(text) {
            None => None,
            Some((table, text)) => match after(text, seq![':']) {
                None => None,
                Some(text) => match read_value(text, bound) {
                    None => None,
                    Some((id, text)) => match after(text, " SET "@) {
                        None => None,
                        Some(text) => match read_fields(text, " = "@, bound) {
                            None => None,
                            Some((fields, text)) => if text == seq![';'] {
                                Some(UpdateView { table, id, fields })
                            } else {
                                None
                            },
                        },
                    },
                },
            },
        },
    }
}

/// What a delete removes: a record by its identity.
pub open spec fn read_delete(text: Seq<char>, bound: Seq<(Seq<char>, ValueView)>) -> Option<
    DeleteView,
> {
    match after(text, "DELETE "@) {
        None => None,
        Some(text) => match read_word(text) {
            None => None,
            Some((table, text)) => match after(text, seq![':']) {
                None => None,
                Some(text) => match read_value(text, bound) {
                    None => None,
                    Some((id, text)) => if text == seq![';'] {
                        Some(DeleteView { table, id })
                    } else {
                        None
                    },
                },
            },
        },
    }
}

proof fn lemma_read_field(
    parameters: Seq<(Seq<char>, ValueView)>,
    field: (Seq<char>, ValueView),
    between: Seq<char>,
    at: nat,
    rest: Seq<char>,
)
    requires
        is_name(field.0),
        between.len() > 0,
        !in_a_word(between[0]),
        field_of(parameters, parameter_name(at)) == Some(field.1),
        ends_a_word(rest),
    ensures
        read_field(field.0 + between + reference(at) + rest, between, parameters) == Some(
            (field, rest),
        ),
{
    let held = reference(at) + rest;
    lemma_assoc(field.0 + between, reference(at), rest);
    lemma_assoc(field.0, between, held);
    lemma_name_is_word(field.0);
    assert((between + held)[0] == between[0]);
    lemma_read_word(field.0, between + held);
    lemma_after(between, held);
    lemma_read_value(parameters, field.1, at, rest);
}

proof fn lemma_read_fields(
    parameters: Seq<(Seq<char>, ValueView)>,
    fields: Seq<(Seq<char>, ValueView)>,
    between: Seq<char>,
    at: nat,
    rest: Seq<char>,
)
    requires
        fields.len() > 0,
        forall|i: int| 0 <= i < fields.len() ==> is_name((#[trigger] fields[i]).0),
        between.len() > 0,
        !in_a_word(between[0]),
        holds_values(parameters, field_values(fields), at),
        rest.len() > 0,
        rest[0] == ' ' || rest[0] == ';',
    ensures
        read_fields(joined(field_parts(fields, between, at)) + rest, between, parameters) == Some(
            (fields, rest),
        ),
    decreases fields.len(),
{
    reveal_strlit(", ");
    let parts = field_parts(fields, between, at);
    let first = fields[0];
    assert(is_name(first.0));
    assert(parts[0] == first.0 + between + reference(at));
    assert(field_values(fields)[0] == first.1);
    assert(field_of(parameters, parameter_name((at + 0) as nat)) == Some(first.1));
    lemma_not_after(rest, ", "@, 0);
    if fields.len() == 1 {
        assert(parts =~= seq![parts[0]]);
        lemma_read_field(parameters, first, between, at, rest);
        assert(seq![first] =~= fields);
    } else {
        let fewer = fields.drop_first();
        assert forall|i: int| 0 <= i < fewer.len() implies is_name((#[trigger] fewer[i]).0) by {
            assert(fewer[i] == fields[i + 1]);
        }
        assert(field_values(fields) =~= seq![first.1] + field_values(fewer));
        lemma_values_split(parameters, seq![first.1], field_values(fewer), at);
        lemma_read_fields(parameters, fewer, between, at + 1, rest);
        lemma_joined_first(parts);
        assert(parts.drop_first() =~= field_parts(fewer, between, at + 1)) by {
            assert forall|i: int| 0 <= i < fewer.len() implies parts.drop_first()[i]
                == #[trigger] field_parts(fewer, between, at + 1)[i] by {
                assert(fewer[i] == fields[i + 1]);
                assert((at + (i + 1)) as nat == (at + 1 + i) as nat);
            }
        }
        let more = joined(field_parts(fewer, between, at + 1));
        lemma_assoc(parts[0], ", "@ + more, rest);
        lemma_assoc(", "@, more, rest);
        lemma_read_field(parameters, first, between, at, ", "@ + (more + rest));
        lemma_after(", "@, more + rest);
        assert(seq![first] + fewer =~= fields);
    }
}

/// A table, a colon and the reference to an identity.
proof fn lemma_read_target(
    parameters: Seq<(Seq<char>, ValueView)>,
    table: Seq<char>,
    id: ValueView,
    rest: Seq<char>,
)
    requires
        is_name(table),
        field_of(parameters, parameter_name(0)) == Some(id),
        ends_a_word(rest),
    ensures
        target(table, 0) + rest == table + (seq![':'] + (reference(0) + rest)),
        read_word(target(table, 0) + rest) == Some((table, seq![':'] + (reference(0) + rest))),
        after(seq![':'] + (reference(0) + rest), seq![':']) == Some(reference(0) + rest),
        read_value(reference(0) + rest, parameters) == Some((id, rest)),
{
    reveal_strlit(":");
    assert(":"@ =~= seq![':']);
    let held = reference(0) + rest;
    lemma_assoc(table + ":"@, reference(0), rest);
    lemma_assoc(table, seq![':'], held);
    lemma_name_is_word(table);
    assert((seq![':'] + held)[0] == ':');
    lemma_read_word(table, seq![':'] + held);
    lemma_after(seq![':'], held);
    lemma_read_value(parameters, id, 0, rest);
}

/// A create that is built writes what it was built to write: the same table, the same identity or
/// none, and under each name the value that was given to it, and nothing else.
pub proof fn law_built_creates_write_what_was_asked(create: CreateView)
    requires
        create_values(create).len() <= usize::MAX,
    ensures
        create_query(create) matches Ok(query) ==> read_create(query.script, query.parameters)
            == Some(create),
{
    if create_fault(create) is None {
        reveal_strlit("CREATE ");
        reveal_strlit(" = { ");
        reveal_strlit(": ");
        reveal_strlit(" };");
        let values = create_values(create);
        let parameters = bound(values);
        law_creates_interpolate_checked_names(create);
        lemma_bound_holds(values);
        let at: nat = if create.id is Some {
            1
        } else {
            0
        };
        let held = joined(field_parts(create.fields, ": "@, at));
        let tail = held + " };"@;
        let braced = " = { "@ + tail;
        let goal = create_target(create);
        lemma_assoc("CREATE "@ + goal + " = { "@, held, " };"@);
        lemma_assoc("CREATE "@ + goal, " = { "@, tail);
        lemma_assoc("CREATE "@, goal, braced);
        assert(create_script(create) == "CREATE "@ + (goal + braced));
        lemma_after("CREATE "@, goal + braced);
        assert(braced[0] == ' ');
        lemma_after(" = { "@, tail);
        match create.id {
            Some(id) => {
                lemma_values_split(parameters, seq![id], field_values(create.fields), 0);
                assert(seq![id][0] == id);
                assert(field_of(parameters, parameter_name((0 + 0) as nat)) == Some(id));
                lemma_read_target(parameters, create.table, id, braced);
            },
            None => {
                lemma_name_is_word(create.table);
                lemma_read_word(create.table, braced);
                lemma_not_after(braced, seq![':'], 0);
            },
        }
        lemma_read_fields(parameters, create.fields, ": "@, at, " };"@);
    }
}

/// An update that is built sets what it was built to set: in the same record the value that was
/// given under each name, as many as there are, and it replaces nothing.
pub proof fn law_built_updates_set_what_was_asked(update: UpdateView)
    requires
        update_values(update).len() <= usize::MAX,
    ensures
        update_query(update) matches Ok(query) ==> read_update(query.script, query.parameters)
            == Some(update),
{
    if update_fault(update) is None {
        reveal_strlit("UPDATE ");
        reveal_strlit(" SET ");
        reveal_strlit(" = ");
        reveal_strlit(";");
        let values = update_values(update);
        let parameters = bound(values);
        law_updates_interpolate_checked_names(update);
        lemma_bound_holds(values);
        assert(";"@ =~= seq![';']);
        let held = joined(field_parts(update.fields, " = "@, 1));
        let tail = held + seq![';'];
        let setting = " SET "@ + tail;
        let goal = target(update.table, 0);
        lemma_assoc("UPDATE "@ + goal + " SET "@, held, seq![';']);
        lemma_assoc("UPDATE "@ + goal, " SET "@, tail);
        lemma_assoc("UPDATE "@, goal, setting);
        assert(update_script(update) == "UPDATE "@ + (goal + setting));
        lemma_after("UPDATE "@, goal + setting);
        assert(setting[0] == ' ');
        lemma_values_split(parameters, seq![update.id], field_values(update.fields), 0);
        assert(seq![update.id][0] == update.id);
        assert(field_of(parameters, parameter_name((0 + 0) as nat)) == Some(update.id));
        lemma_read_target(parameters, update.table, update.id, setting);
        lemma_after(" SET "@, tail);
        lemma_read_fields(parameters, update.fields, " = "@, 1, seq![';']);
    }
}

/// A delete that is built removes what it was built to remove.
pub proof fn law_built_deletes_remove_what_was_asked(delete: DeleteView)
    ensures
        delete_query(delete) matches Ok(query) ==> read_delete(query.script, query.parameters)
            == Some(delete),
{
    if name_fault("a table"@, delete.table) is None {
        reveal_strlit("DELETE ");
        reveal_strlit(";");
        let values = seq![delete.id];
        let parameters = bound(values);
        lemma_bound_holds(values);
        assert(";"@ =~= seq![';']);
        let goal = target(delete.table, 0);
        lemma_assoc("DELETE "@, goal, seq![';']);
        assert(delete_script(delete) == "DELETE "@ + (goal + seq![';']));
        lemma_after("DELETE "@, goal + seq![';']);
        assert(values[0] == delete.id);
        assert(field_of(parameters, parameter_name((0 + 0) as nat)) == Some(delete.id));
        lemma_read_target(parameters, delete.table, delete.id, seq![';']);
    }
}

/// A read is built exactly where the table, every field it names, in its projection, its condition
/// and its sorting, are identifiers and the bound on staleness has the shape of a span.
pub proof fn law_reads_are_built_of_names(select: SelectView)
    ensures
        select_query(select) is Ok <==> is_name(select.source) && (forall|i: int|
            0 <= i < select.projection.len() ==> is_name((#[trigger] select.projection[i]).field()))
            && (select.filter matches Some(filter) ==> condition_names_hold(filter)) && (forall|
            i: int,
        |
            0 <= i < select.order.len() ==> is_name((#[trigger] select.order[i]).0)) && (
        select.staleness matches Some(span) ==> is_span(span)),
{
    if select_fault(select) is None {
        law_reads_interpolate_checked_names(select);
    }
    if forall|i: int|
        0 <= i < select.projection.len() ==> is_name((#[trigger] select.projection[i]).field()) {
        lemma_projection_has_no_fault(select.projection);
    }
    if forall|i: int| 0 <= i < select.order.len() ==> is_name((#[trigger] select.order[i]).0) {
        lemma_order_has_no_fault(select.order);
    }
    if let Some(filter) = select.filter {
        if condition_names_hold(filter) {
            lemma_condition_has_no_fault(filter);
        }
    }
}

proof fn lemma_projection_has_no_fault(items: Seq<ProjectionView>)
    requires
        forall|i: int| 0 <= i < items.len() ==> is_name((#[trigger] items[i]).field()),
    ensures
        projection_fault(items) is None,
    decreases items.len(),
{
    if items.len() > 0 {
        let fewer = items.drop_last();
        assert forall|i: int| 0 <= i < fewer.len() implies is_name(
            (#[trigger] fewer[i]).field(),
        ) by {
            assert(fewer[i] == items[i]);
        }
        lemma_projection_has_no_fault(fewer);
        assert(is_name(items[items.len() - 1].field()));
    }
}

proof fn lemma_order_has_no_fault(items: Seq<(Seq<char>, Order)>)
    requires
        forall|i: int| 0 <= i < items.len() ==> is_name((#[trigger] items[i]).0),
    ensures
        order_fault(items) is None,
    decreases items.len(),
{
    if items.len() > 0 {
        let fewer = items.drop_last();
        assert forall|i: int| 0 <= i < fewer.len() implies is_name((#[trigger] fewer[i]).0) by {
            assert(fewer[i] == items[i]);
        }
        lemma_order_has_no_fault(fewer);
        assert(is_name(items[items.len() - 1].0));
    }
}

proof fn lemma_condition_has_no_fault(filter: FilterView)
    requires
        condition_names_hold(filter),
    ensures
        filter_fault(filter) is None,
    decreases filter,
{
    match filter {
        FilterView::And(left, right) => {
            lemma_condition_has_no_fault(*left);
            lemma_condition_has_no_fault(*right);
        },
        FilterView::Or(left, right) => {
            lemma_condition_has_no_fault(*left);
            lemma_condition_has_no_fault(*right);
        },
        _ => {},
    }
}

proof fn lemma_fields_have_no_fault(fields: Seq<(Seq<char>, ValueView)>)
    requires
        forall|i: int| 0 <= i < fields.len() ==> is_name((#[trigger] fields[i]).0),
    ensures
        fields_fault(fields) is None,
    decreases fields.len(),
{
    if fields.len() > 0 {
        let fewer = fields.drop_last();
        assert forall|i: int| 0 <= i < fewer.len() implies is_name((#[trigger] fewer[i]).0) by {
            assert(fewer[i] == fields[i]);
        }
        lemma_fields_have_no_fault(fewer);
        assert(is_name(fields[fields.len() - 1].0));
    }
}

/// A create, an update or a delete is built exactly where its table and every field it names are
/// identifiers, and a create or an update only where it names a field.
pub proof fn law_writes_are_built_of_names(
    create: CreateView,
    update: UpdateView,
    delete: DeleteView,
)
    ensures
        create_query(create) is Ok <==> create.fields.len() > 0 && is_name(create.table) && forall|
            i: int,
        |
            0 <= i < create.fields.len() ==> is_name((#[trigger] create.fields[i]).0),
        update_query(update) is Ok <==> update.fields.len() > 0 && is_name(update.table) && forall|
            i: int,
        |
            0 <= i < update.fields.len() ==> is_name((#[trigger] update.fields[i]).0),
        delete_query(delete) is Ok <==> is_name(delete.table),
{
    if create_fault(create) is None {
        law_creates_interpolate_checked_names(create);
    }
    if update_fault(update) is None {
        law_updates_interpolate_checked_names(update);
    }
    if forall|i: int| 0 <= i < create.fields.len() ==> is_name((#[trigger] create.fields[i]).0) {
        lemma_fields_have_no_fault(create.fields);
    }
    if forall|i: int| 0 <= i < update.fields.len() ==> is_name((#[trigger] update.fields[i]).0) {
        lemma_fields_have_no_fault(update.fields);
    }
}

/// A name is one or more letters, digits and underscores and does not start with a digit; a span
/// starts with a digit, ends with a letter, and holds nothing but letters and digits.
pub proof fn law_names_and_spans_are_plain(text: Seq<char>)
    ensures
        is_name(text) <==> is_word(text) && !('0' <= text[0] <= '9'),
        is_span(text) ==> is_word(text) && ('0' <= text[0] <= '9') && !('0' <= text.last() <= '9')
            && text.last() != '_',
        is_word(text) && ('0' <= text[0] <= '9') && !('0' <= text.last() <= '9') && !text.contains(
            '_',
        ) ==> is_span(text),
{
    if is_word(text) && !text.contains('_') {
        assert forall|i: int| 0 <= i < text.len() implies text[i] != '_' by {
            assert(text.contains(text[i]));
        }
    }
    if is_name(text) {
        lemma_name_is_word(text);
    }
    if is_word(text) {
        assert forall|i: int| 0 <= i < text.len() implies is_name_char(#[trigger] text[i]) by {
            assert(in_a_word(text[i]));
        }
    }
    if is_span(text) {
        assert forall|i: int| 0 <= i < text.len() implies in_a_word(#[trigger] text[i]) by {}
    }
}

proof fn lemma_lacks(a: Seq<char>, b: Seq<char>, ch: char)
    requires
        !a.contains(ch),
        !b.contains(ch),
    ensures
        !(a + b).contains(ch),
{
    assert forall|i: int| 0 <= i < (a + b).len() implies #[trigger] (a + b)[i] != ch by {
        if i < a.len() {
            assert(a.contains(a[i]));
        } else {
            assert(b.contains(b[i - a.len()]));
        }
    }
}

proof fn lemma_words_lack(word: Seq<char>, ch: char)
    requires
        is_word(word),
        !in_a_word(ch),
    ensures
        !word.contains(ch),
{
}

proof fn lemma_reference_lacks(at: nat, ch: char)
    requires
        !in_a_word(ch),
        ch != '$',
    ensures
        !reference(at).contains(ch),
{
    reveal_strlit("$");
    lemma_parameter_is_word(at);
    lemma_lacks("$"@, parameter_name(at), ch);
}

proof fn lemma_joined_lacks(parts: Seq<Seq<char>>, ch: char)
    requires
        forall|i: int| 0 <= i < parts.len() ==> !(#[trigger] parts[i]).contains(ch),
        ch != ',',
        ch != ' ',
    ensures
        !joined(parts).contains(ch),
    decreases parts.len(),
{
    reveal_strlit(", ");
    if parts.len() > 1 {
        let fewer = parts.drop_last();
        assert forall|i: int| 0 <= i < fewer.len() implies !(#[trigger] fewer[i]).contains(ch) by {
            assert(fewer[i] == parts[i]);
        }
        lemma_joined_lacks(fewer, ch);
        assert(!parts[parts.len() - 1].contains(ch));
        lemma_lacks(joined(fewer), ", "@, ch);
        lemma_lacks(joined(fewer) + ", "@, parts.last(), ch);
    } else if parts.len() == 1 {
        assert(!parts[0].contains(ch));
    }
}

/// An update replaces nothing, however many fields it sets: its script opens with the record and
/// ` SET `, refers to the identity first, and holds no brace. The identity is bound as the first
/// parameter and the value of each field as the one after, under the number of its place.
pub proof fn law_updates_replace_nothing(update: UpdateView)
    requires
        update_values(update).len() <= usize::MAX,
    ensures
        update_query(update) matches Ok(query) ==> {
            &&& ("UPDATE "@ + update.table + ":$p0 SET "@).is_prefix_of(query.script)
            &&& !query.script.contains('{')
            &&& !query.script.contains('}')
            &&& query.parameters.len() == 1 + update.fields.len()
            &&& field_of(query.parameters, "p0"@) == Some(update.id)
            &&& forall|i: int|
                0 <= i < update.fields.len() ==> field_of(
                    query.parameters,
                    "p"@ + decimal((i + 1) as nat),
                ) == Some((#[trigger] update.fields[i]).1)
        },
{
    if update_fault(update) is None {
        reveal_strlit("UPDATE ");
        reveal_strlit(":");
        reveal_strlit("$");
        reveal_strlit("p");
        reveal_strlit("p0");
        reveal_strlit(" SET ");
        reveal_strlit(" = ");
        reveal_strlit(":$p0 SET ");
        reveal_strlit(";");
        law_updates_interpolate_checked_names(update);
        lemma_name_is_word(update.table);
        let values = update_values(update);
        let parts = field_parts(update.fields, " = "@, 1);
        let script = update_script(update);
        assert(decimal(0) =~= seq!['0']);
        assert(reference(0) =~= seq!['$', 'p', '0']);
        assert(parameter_name(0) =~= "p0"@);
        let opening = "UPDATE "@ + update.table + ":$p0 SET "@;
        assert(opening =~= "UPDATE "@ + target(update.table, 0) + " SET "@);
        assert(script =~= opening + (joined(parts) + ";"@));
        lemma_after(opening, joined(parts) + ";"@);
        assert forall|ch: char| ch == '{' || ch == '}' implies !script.contains(ch) by {
            lemma_words_lack(update.table, ch);
            lemma_lacks("UPDATE "@, update.table, ch);
            lemma_lacks("UPDATE "@ + update.table, ":$p0 SET "@, ch);
            assert forall|i: int| 0 <= i < parts.len() implies !(#[trigger] parts[i]).contains(
                ch,
            ) by {
                let name = update.fields[i].0;
                assert(is_name(update.fields[i].0));
                lemma_name_is_word(name);
                lemma_words_lack(name, ch);
                lemma_reference_lacks((1 + i) as nat, ch);
                lemma_lacks(name, " = "@, ch);
                lemma_lacks(name + " = "@, reference((1 + i) as nat), ch);
            }
            lemma_joined_lacks(parts, ch);
            lemma_lacks(joined(parts), ";"@, ch);
            lemma_lacks(opening, joined(parts) + ";"@, ch);
        }
        law_values_are_bound_by_their_references(values, 0);
        assert forall|i: int| 0 <= i < update.fields.len() implies field_of(
            bound(values),
            "p"@ + decimal((i + 1) as nat),
        ) == Some((#[trigger] update.fields[i]).1) by {
            law_values_are_bound_by_their_references(values, (i + 1) as nat);
            assert(values[i + 1] == field_values(update.fields)[i]);
        }
    }
}

/// A value is bound under the letter `p` and the number of its place, from nought, and referred to
/// by a dollar sign and that name.
pub proof fn law_parameters_are_numbered(values: Seq<ValueView>, at: nat)
    requires
        values.len() <= usize::MAX,
        at < values.len(),
    ensures
        reference(at) == seq!['$', 'p'] + decimal(at),
        field_of(bound(values), seq!['p'] + decimal(at)) == Some(values[at as int]),
{
    reveal_strlit("$");
    reveal_strlit("p");
    law_values_are_bound_by_their_references(values, at);
    assert(reference(at) =~= seq!['$', 'p'] + decimal(at));
    assert(parameter_name(at) =~= seq!['p'] + decimal(at));
}

/// The fields that a condition names, from left to right.
pub open spec fn fields_named(filter: FilterView) -> Seq<Seq<char>>
    decreases filter,
{
    match filter {
        FilterView::Compare { field, .. } => seq![field],
        FilterView::And(left, right) | FilterView::Or(left, right) => fields_named(*left)
            + fields_named(*right),
    }
}

/// Whether a text is the first of some that is not a name.
pub open spec fn is_first_bad(names: Seq<Seq<char>>, at: int) -> bool {
    0 <= at < names.len() && !is_name(names[at]) && forall|i: int|
        0 <= i < at ==> is_name(#[trigger] names[i])
}

/// The fields that a projection names.
pub open spec fn fields_projected(items: Seq<ProjectionView>) -> Seq<Seq<char>> {
    items.map_values(|item: ProjectionView| item.field())
}

/// The fields that a sorting names.
pub open spec fn fields_sorted(items: Seq<(Seq<char>, Order)>) -> Seq<Seq<char>> {
    items.map_values(|item: (Seq<char>, Order)| item.0)
}

/// The fields that a write names.
pub open spec fn fields_written(fields: Seq<(Seq<char>, ValueView)>) -> Seq<Seq<char>> {
    fields.map_values(|field: (Seq<char>, ValueView)| field.0)
}

proof fn lemma_projection_fault_is_first(items: Seq<ProjectionView>, at: int)
    requires
        is_first_bad(fields_projected(items), at),
    ensures
        projection_fault(items) == Some(
            BuildErrorView::NotAName { what: "a field"@, name: fields_projected(items)[at] },
        ),
    decreases items.len(),
{
    let fewer = items.drop_last();
    let names = fields_projected(items);
    assert(fields_projected(fewer) =~= names.drop_last());
    if at == items.len() - 1 {
        assert forall|i: int| 0 <= i < fewer.len() implies is_name(
            (#[trigger] fewer[i]).field(),
        ) by {
            assert(is_name(names[i]));
        }
        lemma_projection_has_no_fault(fewer);
    } else {
        lemma_projection_fault_is_first(fewer, at);
    }
}

proof fn lemma_order_fault_is_first(items: Seq<(Seq<char>, Order)>, at: int)
    requires
        is_first_bad(fields_sorted(items), at),
    ensures
        order_fault(items) == Some(
            BuildErrorView::NotAName { what: "a field"@, name: fields_sorted(items)[at] },
        ),
    decreases items.len(),
{
    let fewer = items.drop_last();
    let names = fields_sorted(items);
    assert(fields_sorted(fewer) =~= names.drop_last());
    if at == items.len() - 1 {
        assert forall|i: int| 0 <= i < fewer.len() implies is_name((#[trigger] fewer[i]).0) by {
            assert(is_name(names[i]));
        }
        lemma_order_has_no_fault(fewer);
    } else {
        lemma_order_fault_is_first(fewer, at);
    }
}

proof fn lemma_fields_fault_is_first(fields: Seq<(Seq<char>, ValueView)>, at: int)
    requires
        is_first_bad(fields_written(fields), at),
    ensures
        fields_fault(fields) == Some(
            BuildErrorView::NotAName { what: "a field"@, name: fields_written(fields)[at] },
        ),
    decreases fields.len(),
{
    let fewer = fields.drop_last();
    let names = fields_written(fields);
    assert(fields_written(fewer) =~= names.drop_last());
    if at == fields.len() - 1 {
        assert forall|i: int| 0 <= i < fewer.len() implies is_name((#[trigger] fewer[i]).0) by {
            assert(is_name(names[i]));
        }
        lemma_fields_have_no_fault(fewer);
    } else {
        lemma_fields_fault_is_first(fewer, at);
    }
}

proof fn lemma_names_hold(filter: FilterView)
    requires
        forall|i: int|
            0 <= i < fields_named(filter).len() ==> is_name(#[trigger] fields_named(filter)[i]),
    ensures
        condition_names_hold(filter),
    decreases filter,
{
    match filter {
        FilterView::Compare { field, .. } => {
            assert(is_name(fields_named(filter)[0]));
        },
        FilterView::And(left, right) | FilterView::Or(left, right) => {
            let names = fields_named(filter);
            let a = fields_named(*left);
            let b = fields_named(*right);
            assert forall|i: int| 0 <= i < a.len() implies is_name(#[trigger] a[i]) by {
                assert(a[i] == names[i]);
            }
            assert forall|i: int| 0 <= i < b.len() implies is_name(#[trigger] b[i]) by {
                assert(b[i] == names[a.len() + i]);
            }
            lemma_names_hold(*left);
            lemma_names_hold(*right);
        },
    }
}

proof fn lemma_filter_fault_is_first(filter: FilterView, at: int)
    requires
        is_first_bad(fields_named(filter), at),
    ensures
        filter_fault(filter) == Some(
            BuildErrorView::NotAName { what: "a field"@, name: fields_named(filter)[at] },
        ),
    decreases filter,
{
    match filter {
        FilterView::Compare { .. } => {},
        FilterView::And(left, right) | FilterView::Or(left, right) => {
            let names = fields_named(filter);
            let a = fields_named(*left);
            let b = fields_named(*right);
            if at < a.len() {
                assert forall|i: int| 0 <= i < at implies is_name(#[trigger] a[i]) by {
                    assert(a[i] == names[i]);
                }
                lemma_filter_fault_is_first(*left, at);
            } else {
                assert forall|i: int| 0 <= i < a.len() implies is_name(#[trigger] a[i]) by {
                    assert(a[i] == names[i]);
                }
                assert forall|i: int| 0 <= i < at - a.len() implies is_name(#[trigger] b[i]) by {
                    assert(b[i] == names[a.len() + i]);
                }
                lemma_names_hold(*left);
                lemma_condition_has_no_fault(*left);
                lemma_filter_fault_is_first(*right, at - a.len());
            }
        },
    }
}

/// A read that is refused is refused for the first thing in it, in the order in which a statement
/// spells them, that may not be interpolated, and the refusal holds that text as it was given.
pub proof fn law_refused_reads_name_the_first_fault(select: SelectView, at: int)
    ensures
        !is_name(select.source) ==> select_query(select) == Err::<QueryView, BuildErrorView>(
            BuildErrorView::NotAName { what: "a table"@, name: select.source },
        ),
        is_name(select.source) && is_first_bad(fields_projected(select.projection), at)
            ==> select_query(select) == Err::<QueryView, BuildErrorView>(
            BuildErrorView::NotAName {
                what: "a field"@,
                name: select.projection[at].field(),
            },
        ),
        is_name(select.source) && projection_fault(select.projection) is None && (
        select.filter matches Some(filter) && is_first_bad(fields_named(filter), at))
            ==> select_query(select) == Err::<QueryView, BuildErrorView>(
            BuildErrorView::NotAName { what: "a field"@, name: fields_named(select.filter->0)[at] },
        ),
        is_name(select.source) && projection_fault(select.projection) is None && (
        select.filter matches Some(filter) ==> condition_names_hold(filter)) && is_first_bad(
            fields_sorted(select.order),
            at,
        ) ==> select_query(select) == Err::<QueryView, BuildErrorView>(
            BuildErrorView::NotAName { what: "a field"@, name: select.order[at].0 },
        ),
        is_name(select.source) && projection_fault(select.projection) is None && (
        select.filter matches Some(filter) ==> condition_names_hold(filter)) && order_fault(
            select.order,
        ) is None && (select.staleness matches Some(span) && !is_span(span)) ==> select_query(
            select,
        ) == Err::<QueryView, BuildErrorView>(
            BuildErrorView::NotASpan { span: select.staleness->0 },
        ),
{
    if is_first_bad(fields_projected(select.projection), at) {
        lemma_projection_fault_is_first(select.projection, at);
    }
    if is_first_bad(fields_sorted(select.order), at) {
        lemma_order_fault_is_first(select.order, at);
    }
    if let Some(filter) = select.filter {
        if is_first_bad(fields_named(filter), at) {
            lemma_filter_fault_is_first(filter, at);
        }
        if condition_names_hold(filter) {
            lemma_condition_has_no_fault(filter);
        }
    }
}

/// A write that is refused is refused for naming no field, else for its table, else for the first
/// field that may not be interpolated, and the refusal holds that text as it was given.
pub proof fn law_refused_writes_name_the_first_fault(
    create: CreateView,
    update: UpdateView,
    delete: DeleteView,
    at: int,
)
    ensures
        create.fields.len() == 0 ==> create_query(create) == Err::<QueryView, BuildErrorView>(
            BuildErrorView::Incomplete { what: "a create needs at least one field"@ },
        ),
        update.fields.len() == 0 ==> update_query(update) == Err::<QueryView, BuildErrorView>(
            BuildErrorView::Incomplete { what: "an update needs at least one field to set"@ },
        ),
        create.fields.len() > 0 && !is_name(create.table) ==> create_query(create) == Err::<
            QueryView,
            BuildErrorView,
        >(BuildErrorView::NotAName { what: "a table"@, name: create.table }),
        update.fields.len() > 0 && !is_name(update.table) ==> update_query(update) == Err::<
            QueryView,
            BuildErrorView,
        >(BuildErrorView::NotAName { what: "a table"@, name: update.table }),
        !is_name(delete.table) ==> delete_query(delete) == Err::<QueryView, BuildErrorView>(
            BuildErrorView::NotAName { what: "a table"@, name: delete.table },
        ),
        is_name(create.table) && is_first_bad(fields_written(create.fields), at) ==> create_query(
            create,
        ) == Err::<QueryView, BuildErrorView>(
            BuildErrorView::NotAName { what: "a field"@, name: create.fields[at].0 },
        ),
        is_name(update.table) && is_first_bad(fields_written(update.fields), at) ==> update_query(
            update,
        ) == Err::<QueryView, BuildErrorView>(
            BuildErrorView::NotAName { what: "a field"@, name: update.fields[at].0 },
        ),
{
    if is_first_bad(fields_written(create.fields), at) {
        lemma_fields_fault_is_first(create.fields, at);
    }
    if is_first_bad(fields_written(update.fields), at) {
        lemma_fields_fault_is_first(update.fields, at);
    }
}

}
