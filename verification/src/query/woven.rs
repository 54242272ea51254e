//! How the references to a statement's values stand in its text: each once, in the order of the
//! values, between pieces that hold no reference.

use vstd::prelude::*;

use crate::query::{
    is_name, is_name_char, name_fault, parameter_name, parameter_number, reference, target,
};
use crate::query::filter::{filter_text, filter_values, FilterView};
use crate::query::laws::{
    condition_names_hold, law_creates_interpolate_checked_names,
    law_reads_interpolate_checked_names, law_updates_interpolate_checked_names,
};
use crate::query::select::{
    answered_by_text, count_text, order_parts, order_text, projection_parts, projection_text,
    select_fault, select_script, select_values, staleness_text, where_text, Order, ProjectionView,
    SelectView,
};
use crate::query::write::{
    create_fault, create_script, create_target, create_values, delete_script, field_parts,
    update_fault, update_script, update_values, CreateView, DeleteView, UpdateView,
};
use crate::text::{decimal, is_digit, joined, lemma_decimal_digits};
use crate::value::ValueView;

verus! {

/// Whether a character may stand between the references of a built statement: a character of a
/// name, or one of the few marks that the grammar has between names. No dollar sign, no quote, no
/// line end, no comment and no semicolon is among them.
pub open spec fn is_bare(ch: char) -> bool {
    ||| is_name_char(ch)
    ||| ch == ' '
    ||| ch == ','
    ||| ch == ':'
    ||| ch == '*'
    ||| ch == '='
    ||| ch == '!'
    ||| ch == '<'
    ||| ch == '>'
    ||| ch == '('
    ||| ch == ')'
    ||| ch == '{'
    ||| ch == '}'
}

/// Whether every character may stand between references.
pub open spec fn all_bare(text: Seq<char>) -> bool {
    forall|i: int| 0 <= i < text.len() ==> is_bare(#[trigger] text[i])
}

/// Whether a text ends the name that stands before it: it does not go on with a character of a
/// name.
pub open spec fn ends_a_name(text: Seq<char>) -> bool {
    text.len() == 0 || !is_name_char(text[0])
}

/// Pieces of text with a reference between each two, to the value at `at` first and then to each
/// that follows.
pub open spec fn woven(pieces: Seq<Seq<char>>, at: nat) -> Seq<char>
    decreases pieces.len(),
{
    if pieces.len() == 0 {
        seq![]
    } else if pieces.len() == 1 {
        pieces[0]
    } else {
        pieces[0] + reference(at) + woven(pieces.drop_first(), at + 1)
    }
}

/// Whether a text is these pieces with `count` references between them: no piece holds a
/// reference, and none carries on the name in the one before it.
pub open spec fn is_weave(pieces: Seq<Seq<char>>, text: Seq<char>, at: nat, count: nat) -> bool {
    &&& pieces.len() == count + 1
    &&& forall|i: int| 0 <= i < pieces.len() ==> all_bare(#[trigger] pieces[i])
    &&& forall|i: int| 0 < i < pieces.len() ==> ends_a_name(#[trigger] pieces[i])
    &&& text == woven(pieces, at)
}

/// Whether a text refers to `count` values, from the one at `at` on, each exactly once and in
/// order, and to nothing else.
pub open spec fn refers(text: Seq<char>, at: nat, count: nat) -> bool {
    exists|pieces: Seq<Seq<char>>| #[trigger] is_weave(pieces, text, at, count)
}

/// Whether a script ends at its semicolon and refers before it to each of `count` values exactly
/// once, in their order.
pub open spec fn refers_in_order(script: Seq<char>, count: nat) -> bool {
    script.len() > 0 && script.last() == ';' && refers(script.drop_last(), 0, count)
}

proof fn lemma_bare_join(a: Seq<char>, b: Seq<char>)
    requires
        all_bare(a),
        all_bare(b),
    ensures
        all_bare(a + b),
{
}

proof fn lemma_bare_decimal(value: nat)
    ensures
        all_bare(decimal(value)),
{
    lemma_decimal_digits(value);
    assert forall|i: int| 0 <= i < decimal(value).len() implies is_bare(
        #[trigger] decimal(value)[i],
    ) by {
        assert(is_digit(decimal(value)[i]));
    }
}

proof fn lemma_bare_name(name: Seq<char>)
    requires
        is_name(name),
    ensures
        all_bare(name),
{
}

proof fn lemma_bare_joined(parts: Seq<Seq<char>>)
    requires
        forall|i: int| 0 <= i < parts.len() ==> all_bare(#[trigger] parts[i]),
    ensures
        all_bare(joined(parts)),
    decreases parts.len(),
{
    reveal_strlit(", ");
    if parts.len() > 1 {
        let fewer = parts.drop_last();
        assert forall|i: int| 0 <= i < fewer.len() implies all_bare(#[trigger] fewer[i]) by {
            assert(fewer[i] == parts[i]);
        }
        lemma_bare_joined(fewer);
        lemma_bare_join(joined(fewer), ", "@);
        lemma_bare_join(joined(fewer) + ", "@, parts.last());
    }
}

proof fn lemma_bare_projection(items: Seq<ProjectionView>)
    requires
        forall|i: int| 0 <= i < items.len() ==> is_name((#[trigger] items[i]).field()),
    ensures
        all_bare(projection_text(items)),
{
    reveal_strlit("*");
    reveal_strlit("string::lines(");
    reveal_strlit(", ");
    reveal_strlit(") AS ");
    let parts = projection_parts(items);
    assert forall|i: int| 0 <= i < parts.len() implies all_bare(#[trigger] parts[i]) by {
        let field = items[i].field();
        lemma_bare_name(field);
        if let ProjectionView::Lines { start, count, .. } = items[i] {
            let head = "string::lines("@ + field + ", "@;
            lemma_bare_decimal(start as nat);
            lemma_bare_decimal(count as nat);
            lemma_bare_join("string::lines("@, field);
            lemma_bare_join("string::lines("@ + field, ", "@);
            lemma_bare_join(head, decimal(start as nat));
            lemma_bare_join(head + decimal(start as nat), ", "@);
            lemma_bare_join(head + decimal(start as nat) + ", "@, decimal(count as nat));
            let counted = head + decimal(start as nat) + ", "@ + decimal(count as nat);
            lemma_bare_join(counted, ") AS "@);
            lemma_bare_join(counted + ") AS "@, field);
        }
    }
    lemma_bare_joined(parts);
}

proof fn lemma_bare_order(items: Seq<(Seq<char>, Order)>)
    requires
        forall|i: int| 0 <= i < items.len() ==> is_name((#[trigger] items[i]).0),
    ensures
        all_bare(order_text(items)),
{
    reveal_strlit(" ");
    reveal_strlit("ASC");
    reveal_strlit("DESC");
    reveal_strlit(" ORDER BY ");
    let parts = order_parts(items);
    assert forall|i: int| 0 <= i < parts.len() implies all_bare(#[trigger] parts[i]) by {
        lemma_bare_name(items[i].0);
        lemma_bare_join(items[i].0, " "@);
        lemma_bare_join(items[i].0 + " "@, items[i].1.spelling());
    }
    lemma_bare_joined(parts);
    if items.len() > 0 {
        lemma_bare_join(" ORDER BY "@, joined(parts));
    }
}

proof fn lemma_bare_count(clause: Seq<char>, count: Option<u64>)
    requires
        all_bare(clause),
    ensures
        all_bare(count_text(clause, count)),
{
    if let Some(count) = count {
        lemma_bare_decimal(count as nat);
        lemma_bare_join(clause, decimal(count as nat));
    }
}

proof fn lemma_bare_refers(text: Seq<char>, at: nat)
    requires
        all_bare(text),
    ensures
        refers(text, at, 0),
{
    assert(is_weave(seq![text], text, at, 0));
}

proof fn lemma_reference_refers(at: nat)
    ensures
        refers(reference(at), at, 1),
{
    let pieces = seq![Seq::<char>::empty(), Seq::empty()];
    assert(pieces.drop_first() =~= seq![Seq::empty()]);
    assert(woven(pieces.drop_first(), at + 1) == Seq::<char>::empty());
    assert(woven(pieces, at) =~= reference(at));
    assert(is_weave(pieces, reference(at), at, 1));
}

/// The pieces of two texts, one after the other.
spec fn both(a: Seq<Seq<char>>, b: Seq<Seq<char>>) -> Seq<Seq<char>> {
    a.drop_last() + seq![a.last() + b[0]] + b.drop_first()
}

proof fn lemma_both_woven(a: Seq<Seq<char>>, b: Seq<Seq<char>>, at: nat)
    requires
        a.len() > 0,
        b.len() > 0,
    ensures
        woven(both(a, b), at) == woven(a, at) + woven(b, (at + a.len() - 1) as nat),
    decreases a.len(),
{
    let all = both(a, b);
    if a.len() == 1 {
        assert(all =~= seq![a[0] + b[0]] + b.drop_first());
        assert(all.drop_first() =~= b.drop_first());
        assert(woven(all, at) =~= a[0] + woven(b, at));
    } else {
        let fewer = a.drop_first();
        lemma_both_woven(fewer, b, at + 1);
        assert(all.drop_first() =~= both(fewer, b));
        assert(all[0] == a[0]);
        let rest = woven(b, (at + a.len() - 1) as nat);
        assert(woven(all, at) =~= woven(a, at) + rest);
    }
}

proof fn lemma_woven_opens(pieces: Seq<Seq<char>>, at: nat)
    requires
        pieces.len() > 0,
        ends_a_name(woven(pieces, at)),
    ensures
        ends_a_name(pieces[0]),
{
    if pieces[0].len() > 0 {
        assert(woven(pieces, at)[0] == pieces[0][0]);
    }
}

/// Two texts that refer to one run of values after the other do so together.
proof fn lemma_refers_join(a: Seq<char>, b: Seq<char>, at: nat, count: nat, more: nat)
    requires
        refers(a, at, count),
        refers(b, at + count, more),
        count == 0 || ends_a_name(b),
    ensures
        refers(a + b, at, count + more),
{
    let p = choose|pieces: Seq<Seq<char>>| #[trigger] is_weave(pieces, a, at, count);
    let q = choose|pieces: Seq<Seq<char>>| #[trigger] is_weave(pieces, b, at + count, more);
    let all = both(p, q);
    lemma_both_woven(p, q, at);
    lemma_bare_join(p.last(), q[0]);
    if count > 0 {
        lemma_woven_opens(q, at + count);
    }
    assert forall|i: int| 0 <= i < all.len() implies all_bare(#[trigger] all[i]) && (i > 0
        ==> ends_a_name(all[i])) by {
        if i < count {
            assert(all[i] == p[i]);
        } else if i > count {
            assert(all[i] == q[i - count]);
        } else {
            assert(all[i] == p.last() + q[0]);
            assert(p.last() == p[count as int]);
            if p.last().len() == 0 {
                assert(all[i] =~= q[0]);
            }
        }
    }
    assert(is_weave(all, a + b, at, count + more));
}

/// What is bare may stand after what refers, where it ends a name.
proof fn lemma_refers_then(a: Seq<char>, b: Seq<char>, at: nat, count: nat)
    requires
        refers(a, at, count),
        all_bare(b),
        ends_a_name(b),
    ensures
        refers(a + b, at, count),
{
    lemma_bare_refers(b, at + count);
    lemma_refers_join(a, b, at, count, 0);
}

/// What is bare may stand before what refers.
proof fn lemma_refers_after(a: Seq<char>, b: Seq<char>, at: nat, count: nat)
    requires
        all_bare(a),
        refers(b, at, count),
    ensures
        refers(a + b, at, count),
{
    lemma_bare_refers(a, at);
    lemma_refers_join(a, b, at, 0, count);
}

/// Two conditions in parentheses, with a word between them.
proof fn lemma_pair_refers(
    left: Seq<char>,
    word: Seq<char>,
    right: Seq<char>,
    at: nat,
    count: nat,
    more: nat,
)
    requires
        refers(left, at, count),
        refers(right, at + count, more),
        all_bare(word),
        word.len() > 0,
        ends_a_name(word),
    ensures
        refers("("@ + left + word + right + ")"@, at, count + more),
{
    reveal_strlit("(");
    reveal_strlit(")");
    lemma_refers_after("("@, left, at, count);
    lemma_refers_after(word, right, at + count, more);
    assert((word + right)[0] == word[0]);
    lemma_refers_join("("@ + left, word + right, at, count, more);
    assert("("@ + left + (word + right) =~= "("@ + left + word + right);
    lemma_refers_then("("@ + left + word + right, ")"@, at, count + more);
}

proof fn lemma_filter_refers(filter: FilterView, at: nat)
    requires
        condition_names_hold(filter),
    ensures
        refers(filter_text(filter, at), at, filter_values(filter).len()),
    decreases filter,
{
    reveal_strlit(" AND ");
    reveal_strlit(" OR ");
    reveal_strlit(" ");
    reveal_strlit("=");
    reveal_strlit("!=");
    reveal_strlit("<");
    reveal_strlit("<=");
    reveal_strlit(">");
    reveal_strlit(">=");
    match filter {
        FilterView::Compare { field, how, .. } => {
            assert(all_bare(how.spelling()));
            lemma_bare_join(field, " "@);
            lemma_bare_join(field + " "@, how.spelling());
            lemma_bare_join(field + " "@ + how.spelling(), " "@);
            lemma_reference_refers(at);
            lemma_refers_after(field + " "@ + how.spelling() + " "@, reference(at), at, 1);
        },
        FilterView::And(left, right) => {
            let count = filter_values(*left).len();
            let more = filter_values(*right).len();
            lemma_filter_refers(*left, at);
            lemma_filter_refers(*right, at + count);
            let first = filter_text(*left, at);
            let second = filter_text(*right, at + count);
            lemma_pair_refers(first, " AND "@, second, at, count, more);
        },
        FilterView::Or(left, right) => {
            let count = filter_values(*left).len();
            let more = filter_values(*right).len();
            lemma_filter_refers(*left, at);
            lemma_filter_refers(*right, at + count);
            let first = filter_text(*left, at);
            let second = filter_text(*right, at + count);
            lemma_pair_refers(first, " OR "@, second, at, count, more);
        },
    }
}

proof fn lemma_end_refers(text: Seq<char>, count: nat)
    requires
        refers(text, 0, count),
    ensures
        refers_in_order(text + ";"@, count),
{
    reveal_strlit(";");
    assert((text + ";"@).drop_last() =~= text);
}

/// A clause that stands in a statement or does not: what is there is bare and ends a name.
spec fn is_clause(text: Seq<char>) -> bool {
    all_bare(text) && ends_a_name(text)
}

proof fn lemma_clauses(select: SelectView)
    requires
        select_fault(select) is None,
    ensures
        is_clause(order_text(select.order)),
        is_clause(count_text(" START "@, select.start)),
        is_clause(count_text(" LIMIT "@, select.limit)),
        is_clause(staleness_text(select.staleness)),
        is_clause(answered_by_text(select.answered_by)),
{
    reveal_strlit(" ORDER BY ");
    reveal_strlit(" START ");
    reveal_strlit(" LIMIT ");
    reveal_strlit(" STALENESS ");
    reveal_strlit(" ANSWERED BY ");
    reveal_strlit("LEADER");
    law_reads_interpolate_checked_names(select);
    lemma_bare_order(select.order);
    lemma_bare_count(" START "@, select.start);
    lemma_bare_count(" LIMIT "@, select.limit);
    if let Some(span) = select.staleness {
        lemma_bare_join(" STALENESS "@, span);
    }
    if let Some(answerer) = select.answered_by {
        lemma_bare_join(" ANSWERED BY "@, answerer.word());
    }
}

/// A read that is built refers to each of its values exactly once, in the order in which they
/// stand in its condition.
pub proof fn law_built_reads_refer_in_order(select: SelectView)
    requires
        select_fault(select) is None,
    ensures
        refers_in_order(select_script(select), select_values(select).len()),
{
    reveal_strlit("SELECT ");
    reveal_strlit(" FROM ");
    reveal_strlit(" WHERE ");
    law_reads_interpolate_checked_names(select);
    lemma_bare_projection(select.projection);
    lemma_bare_name(select.source);
    let read = "SELECT "@ + projection_text(select.projection);
    let source = read + " FROM "@ + select.source;
    lemma_bare_join("SELECT "@, projection_text(select.projection));
    lemma_bare_join(read, " FROM "@);
    lemma_bare_join(read + " FROM "@, select.source);
    let count = select_values(select).len();
    match select.filter {
        Some(filter) => {
            lemma_filter_refers(filter, 0);
            lemma_refers_after(" WHERE "@, filter_text(filter, 0), 0, count);
        },
        None => {
            lemma_bare_refers(where_text(select.filter), 0);
        },
    }
    lemma_refers_after(source, where_text(select.filter), 0, count);
    lemma_clauses(select);
    let filtered = source + where_text(select.filter);
    let sorted = filtered + order_text(select.order);
    lemma_refers_then(filtered, order_text(select.order), 0, count);
    let started = sorted + count_text(" START "@, select.start);
    lemma_refers_then(sorted, count_text(" START "@, select.start), 0, count);
    let limited = started + count_text(" LIMIT "@, select.limit);
    lemma_refers_then(started, count_text(" LIMIT "@, select.limit), 0, count);
    let bounded = limited + staleness_text(select.staleness);
    lemma_refers_then(limited, staleness_text(select.staleness), 0, count);
    lemma_refers_then(bounded, answered_by_text(select.answered_by), 0, count);
    lemma_end_refers(bounded + answered_by_text(select.answered_by), count);
}

proof fn lemma_fields_refer(fields: Seq<(Seq<char>, ValueView)>, between: Seq<char>, at: nat)
    requires
        forall|i: int| 0 <= i < fields.len() ==> is_name((#[trigger] fields[i]).0),
        all_bare(between),
    ensures
        refers(joined(field_parts(fields, between, at)), at, fields.len()),
    decreases fields.len(),
{
    reveal_strlit(", ");
    let parts = field_parts(fields, between, at);
    if fields.len() == 0 {
        lemma_bare_refers(joined(parts), at);
    } else {
        let fewer = fields.drop_last();
        let last = (fields.len() - 1) as nat;
        let name = fields[last as int].0;
        lemma_bare_join(name, between);
        lemma_reference_refers(at + last);
        lemma_refers_after(name + between, reference(at + last), at + last, 1);
        assert(parts.last() == name + between + reference(at + last));
        if last > 0 {
            assert forall|i: int| 0 <= i < fewer.len() implies is_name(
                (#[trigger] fewer[i]).0,
            ) by {
                assert(fewer[i] == fields[i]);
            }
            lemma_fields_refer(fewer, between, at);
            assert(parts.drop_last() =~= field_parts(fewer, between, at));
            let before = joined(parts.drop_last());
            lemma_refers_after(", "@, parts.last(), at + last, 1);
            assert((", "@ + parts.last())[0] == ',');
            lemma_refers_join(before, ", "@ + parts.last(), at, last, 1);
            assert(before + (", "@ + parts.last()) =~= before + ", "@ + parts.last());
        }
    }
}

proof fn lemma_target_refers(table: Seq<char>, at: nat)
    requires
        is_name(table),
    ensures
        refers(target(table, at), at, 1),
{
    reveal_strlit(":");
    lemma_bare_join(table, ":"@);
    lemma_reference_refers(at);
    lemma_refers_after(table + ":"@, reference(at), at, 1);
}

/// A create that is built refers to each of its values exactly once: the identity, where there is
/// one, and then the fields in the order of their names.
pub proof fn law_built_creates_refer_in_order(create: CreateView)
    requires
        create_fault(create) is None,
    ensures
        refers_in_order(create_script(create), create_values(create).len()),
{
    reveal_strlit("CREATE ");
    reveal_strlit(" = { ");
    reveal_strlit(": ");
    reveal_strlit(" }");
    reveal_strlit(" };");
    reveal_strlit(";");
    law_creates_interpolate_checked_names(create);
    lemma_bare_name(create.table);
    let at: nat = if create.id is Some {
        1
    } else {
        0
    };
    if create.id is Some {
        lemma_target_refers(create.table, 0);
    } else {
        lemma_bare_refers(create.table, 0);
    }
    let count = create.fields.len();
    let held = joined(field_parts(create.fields, ": "@, at));
    lemma_fields_refer(create.fields, ": "@, at);
    let opening = "CREATE "@ + create_target(create);
    lemma_refers_after("CREATE "@, create_target(create), 0, at);
    lemma_refers_after(" = { "@, held, at, count);
    assert((" = { "@ + held)[0] == ' ');
    lemma_refers_join(opening, " = { "@ + held, 0, at, count);
    let text = opening + " = { "@ + held;
    assert(opening + (" = { "@ + held) =~= text);
    lemma_refers_then(text, " }"@, 0, at + count);
    assert(create_script(create) =~= text + " }"@ + ";"@);
    lemma_end_refers(text + " }"@, at + count);
}

/// An update that is built refers to each of its values exactly once: the identity and then the
/// fields in the order of their names.
pub proof fn law_built_updates_refer_in_order(update: UpdateView)
    requires
        update_fault(update) is None,
    ensures
        refers_in_order(update_script(update), update_values(update).len()),
{
    reveal_strlit("UPDATE ");
    reveal_strlit(" SET ");
    reveal_strlit(" = ");
    law_updates_interpolate_checked_names(update);
    let count = update.fields.len();
    let held = joined(field_parts(update.fields, " = "@, 1));
    let opening = "UPDATE "@ + target(update.table, 0);
    lemma_target_refers(update.table, 0);
    lemma_fields_refer(update.fields, " = "@, 1);
    lemma_refers_after("UPDATE "@, target(update.table, 0), 0, 1);
    lemma_refers_after(" SET "@, held, 1, count);
    assert((" SET "@ + held)[0] == ' ');
    lemma_refers_join(opening, " SET "@ + held, 0, 1, count);
    assert(opening + (" SET "@ + held) =~= opening + " SET "@ + held);
    lemma_end_refers(opening + " SET "@ + held, 1 + count);
}

/// A delete that is built refers to the identity, exactly once.
pub proof fn law_built_deletes_refer_in_order(delete: DeleteView)
    requires
        name_fault("a table"@, delete.table) is None,
    ensures
        refers_in_order(delete_script(delete), 1),
{
    reveal_strlit("DELETE ");
    lemma_target_refers(delete.table, 0);
    lemma_refers_after("DELETE "@, target(delete.table, 0), 0, 1);
    lemma_end_refers("DELETE "@ + target(delete.table, 0), 1);
}

/// Whether a character may stand inside a built statement: between its references, or in one.
pub open spec fn is_plain(ch: char) -> bool {
    is_bare(ch) || ch == '$'
}

/// Whether every character may stand inside a built statement.
pub open spec fn all_plain(text: Seq<char>) -> bool {
    forall|i: int| 0 <= i < text.len() ==> is_plain(#[trigger] text[i])
}

/// Whether a script is one statement and no more: it ends at its only semicolon.
pub open spec fn is_one_statement(script: Seq<char>) -> bool {
    script.len() > 0 && script.last() == ';' && all_plain(script.drop_last())
}

proof fn lemma_woven_is_plain(pieces: Seq<Seq<char>>, at: nat)
    requires
        forall|i: int| 0 <= i < pieces.len() ==> all_bare(#[trigger] pieces[i]),
    ensures
        all_plain(woven(pieces, at)),
    decreases pieces.len(),
{
    if pieces.len() == 1 {
        assert(all_bare(pieces[0]));
    } else if pieces.len() > 1 {
        let rest = pieces.drop_first();
        assert forall|i: int| 0 <= i < rest.len() implies all_bare(#[trigger] rest[i]) by {
            assert(rest[i] == pieces[i + 1]);
        }
        lemma_woven_is_plain(rest, at + 1);
        reveal_strlit("p");
        reveal_strlit("$");
        lemma_bare_decimal(parameter_number(at));
        lemma_bare_join("p"@, decimal(parameter_number(at)));
        assert(all_bare(parameter_name(at)));
        assert(all_bare(pieces[0]));
        assert(all_plain(reference(at)));
        assert(all_plain(pieces[0] + reference(at)));
    }
}

proof fn lemma_referring_is_one_statement(script: Seq<char>, count: nat)
    requires
        refers_in_order(script, count),
    ensures
        is_one_statement(script),
{
    let text = script.drop_last();
    let pieces = choose|pieces: Seq<Seq<char>>| #[trigger] is_weave(pieces, text, 0, count);
    lemma_woven_is_plain(pieces, 0);
}

/// No read that is built holds more than one statement, whatever it was given: all of its text but
/// the semicolon it ends with is letters, digits and a few marks of the grammar.
pub proof fn law_built_reads_are_one_statement(select: SelectView)
    requires
        select_fault(select) is None,
    ensures
        is_one_statement(select_script(select)),
{
    law_built_reads_refer_in_order(select);
    lemma_referring_is_one_statement(select_script(select), select_values(select).len());
}

/// No create that is built holds more than one statement.
pub proof fn law_built_creates_are_one_statement(create: CreateView)
    requires
        create_fault(create) is None,
    ensures
        is_one_statement(create_script(create)),
{
    law_built_creates_refer_in_order(create);
    lemma_referring_is_one_statement(create_script(create), create_values(create).len());
}

/// No update that is built holds more than one statement.
pub proof fn law_built_updates_are_one_statement(update: UpdateView)
    requires
        update_fault(update) is None,
    ensures
        is_one_statement(update_script(update)),
{
    law_built_updates_refer_in_order(update);
    lemma_referring_is_one_statement(update_script(update), update_values(update).len());
}

/// No delete that is built holds more than one statement.
pub proof fn law_built_deletes_are_one_statement(delete: DeleteView)
    requires
        name_fault("a table"@, delete.table) is None,
    ensures
        is_one_statement(delete_script(delete)),
{
    law_built_deletes_refer_in_order(delete);
    lemma_referring_is_one_statement(delete_script(delete), 1);
}

}
