//! Named values in the order of their names: what it is to set one, find one, and take one away.

use vstd::prelude::*;

use crate::order::{lemma_order_is_total, lemma_order_is_transitive, text_before};
use crate::value::ValueView;

verus! {

/// Whether names are in order, each of them once.
pub open spec fn ordered(fields: Seq<(Seq<char>, ValueView)>) -> bool {
    forall|i: int, j: int|
        0 <= i < j < fields.len() ==> text_before(
            (#[trigger] fields[i]).0,
            (#[trigger] fields[j]).0,
        )
}

/// Whether a name is among some fields.
pub open spec fn holds_name(fields: Seq<(Seq<char>, ValueView)>, name: Seq<char>) -> bool {
    exists|i: int| 0 <= i < fields.len() && (#[trigger] fields[i]).0 == name
}

/// Where a name stands among some fields.
pub open spec fn place_of(fields: Seq<(Seq<char>, ValueView)>, name: Seq<char>) -> int {
    choose|i: int| 0 <= i < fields.len() && (#[trigger] fields[i]).0 == name
}

/// The value under a name.
pub open spec fn field_of(fields: Seq<(Seq<char>, ValueView)>, name: Seq<char>) -> Option<
    ValueView,
> {
    if holds_name(fields, name) {
        Some(fields[place_of(fields, name)].1)
    } else {
        None
    }
}

/// Fields with one value more, or another in its place where the name was there already.
pub open spec fn with_field(
    fields: Seq<(Seq<char>, ValueView)>,
    name: Seq<char>,
    value: ValueView,
) -> Seq<(Seq<char>, ValueView)>
    decreases fields.len(),
{
    if fields.len() == 0 || text_before(fields.last().0, name) {
        fields.push((name, value))
    } else if fields.last().0 == name {
        fields.drop_last().push((name, value))
    } else {
        with_field(fields.drop_last(), name, value).push(fields.last())
    }
}

/// Fields with some more, one after the other.
pub open spec fn with_fields(
    fields: Seq<(Seq<char>, ValueView)>,
    more: Seq<(Seq<char>, ValueView)>,
) -> Seq<(Seq<char>, ValueView)>
    decreases more.len(),
{
    if more.len() == 0 {
        fields
    } else {
        with_fields(with_field(fields, more[0].0, more[0].1), more.drop_first())
    }
}

/// Fields without one of them.
pub open spec fn without_field(
    fields: Seq<(Seq<char>, ValueView)>,
    name: Seq<char>,
) -> Seq<(Seq<char>, ValueView)> {
    if holds_name(fields, name) {
        fields.remove(place_of(fields, name))
    } else {
        fields
    }
}

/// A name that is among fields in order stands in one place only.
pub proof fn lemma_one_place(fields: Seq<(Seq<char>, ValueView)>, at: int)
    requires
        ordered(fields),
        0 <= at < fields.len(),
    ensures
        holds_name(fields, fields[at].0),
        place_of(fields, fields[at].0) == at,
{
    let name = fields[at].0;
    let found = place_of(fields, name);
    assert(fields[at].0 == name);
    if found != at {
        lemma_order_is_total(fields[found].0, fields[at].0);
    }
}

/// Where `at` is the first place that does not sort before `name`, the new field goes there.
pub proof fn lemma_with_field_at(
    fields: Seq<(Seq<char>, ValueView)>,
    name: Seq<char>,
    value: ValueView,
    at: int,
)
    requires
        ordered(fields),
        0 <= at <= fields.len(),
        forall|i: int| 0 <= i < at ==> text_before((#[trigger] fields[i]).0, name),
        at < fields.len() ==> !text_before(fields[at].0, name),
    ensures
        with_field(fields, name, value) == (if at < fields.len() && fields[at].0 == name {
            fields.update(at, (name, value))
        } else {
            fields.insert(at, (name, value))
        }),
        holds_name(fields, name) == (at < fields.len() && fields[at].0 == name),
        at < fields.len() && fields[at].0 == name ==> place_of(fields, name) == at,
    decreases fields.len(),
{
    if at < fields.len() && fields[at].0 == name {
        lemma_one_place(fields, at);
    } else if holds_name(fields, name) {
        let found = place_of(fields, name);
        lemma_order_is_total(name, name);
        if found >= at {
            lemma_order_is_total(fields[at].0, name);
            if found > at {
                lemma_order_is_transitive(name, fields[at].0, fields[found].0);
            }
        }
        assert(false);
    }
    if at == fields.len() {
        assert(fields.insert(at, (name, value)) =~= fields.push((name, value)));
    } else {
        let last = fields.len() - 1;
        lemma_order_is_total(fields[at].0, name);
        lemma_order_is_total(fields[last].0, name);
        if at < last {
            if fields[at].0 != name {
                lemma_order_is_transitive(name, fields[at].0, fields[last].0);
            }
            let fewer = fields.drop_last();
            lemma_with_field_at(fewer, name, value, at);
            assert(fewer[at] == fields[at]);
            if fields[at].0 == name {
                assert(fewer.update(at, (name, value)).push(fields.last()) =~= fields.update(
                    at,
                    (name, value),
                ));
            } else {
                assert(fewer.insert(at, (name, value)).push(fields.last()) =~= fields.insert(
                    at,
                    (name, value),
                ));
            }
        } else if fields[at].0 == name {
            assert(fields.drop_last().push((name, value)) =~= fields.update(at, (name, value)));
        } else {
            let fewer = fields.drop_last();
            lemma_with_field_at(fewer, name, value, at);
            assert(fewer.insert(at, (name, value)) =~= fewer.push((name, value)));
            assert(fewer.push((name, value)).push(fields.last()) =~= fields.insert(
                at,
                (name, value),
            ));
        }
    }
}

/// How many fields, from the first on, sort before a name.
spec fn smaller(fields: Seq<(Seq<char>, ValueView)>, name: Seq<char>) -> int
    decreases fields.len(),
{
    if fields.len() == 0 || text_before(fields.last().0, name) {
        fields.len() as int
    } else {
        smaller(fields.drop_last(), name)
    }
}

proof fn lemma_smaller(fields: Seq<(Seq<char>, ValueView)>, name: Seq<char>)
    requires
        ordered(fields),
    ensures
        0 <= smaller(fields, name) <= fields.len(),
        forall|i: int|
            0 <= i < smaller(fields, name) ==> text_before((#[trigger] fields[i]).0, name),
        smaller(fields, name) < fields.len() ==> !text_before(
            fields[smaller(fields, name)].0,
            name,
        ),
    decreases fields.len(),
{
    if fields.len() > 0 {
        let last = fields.len() - 1;
        if text_before(fields.last().0, name) {
            assert forall|i: int| 0 <= i < fields.len() implies text_before(
                (#[trigger] fields[i]).0,
                name,
            ) by {
                if i < last {
                    lemma_order_is_transitive(fields[i].0, fields[last].0, name);
                }
            }
        } else {
            let fewer = fields.drop_last();
            lemma_smaller(fewer, name);
            assert forall|i: int| 0 <= i < smaller(fields, name) implies text_before(
                (#[trigger] fields[i]).0,
                name,
            ) by {
                assert(fewer[i] == fields[i]);
            }
        }
    }
}

/// Setting a field keeps the names in order. The name then stands for the new value, and every
/// other name for what it stood for before.
pub proof fn lemma_with_field(
    fields: Seq<(Seq<char>, ValueView)>,
    name: Seq<char>,
    value: ValueView,
)
    requires
        ordered(fields),
    ensures
        ordered(with_field(fields, name, value)),
        field_of(with_field(fields, name, value), name) == Some(value),
        forall|other: Seq<char>|
            other != name ==> #[trigger] field_of(with_field(fields, name, value), other)
                == field_of(fields, other),
        with_field(fields, name, value).len() == fields.len() + (if holds_name(fields, name) {
            0int
        } else {
            1
        }),
{
    let at = smaller(fields, name);
    lemma_smaller(fields, name);
    lemma_with_field_at(fields, name, value, at);
    let more = with_field(fields, name, value);
    let replaced = at < fields.len() && fields[at].0 == name;
    assert forall|i: int, j: int| 0 <= i < j < more.len() implies text_before(
        (#[trigger] more[i]).0,
        (#[trigger] more[j]).0,
    ) by {
        if replaced {
            assert(more[i].0 == fields[i].0 && more[j].0 == fields[j].0);
        } else {
            let old_i = if i < at { i } else { i - 1 };
            let old_j = if j < at { j } else { j - 1 };
            if i != at {
                assert(more[i] == fields[old_i]);
            }
            if j != at {
                assert(more[j] == fields[old_j]);
            }
            if i == at {
                lemma_order_is_total(fields[at].0, name);
                if old_j > at {
                    lemma_order_is_transitive(name, fields[at].0, fields[old_j].0);
                }
            }
        }
    }
    assert(more[at] == (name, value));
    lemma_one_place(more, at);
    assert forall|other: Seq<char>| other != name implies #[trigger] field_of(more, other)
        == field_of(fields, other) by {
        if holds_name(fields, other) {
            let found = place_of(fields, other);
            lemma_one_place(fields, found);
            let now = if replaced || found < at { found } else { found + 1 };
            assert(more[now] == fields[found]);
            lemma_one_place(more, now);
        } else if holds_name(more, other) {
            let found = place_of(more, other);
            let was = if replaced || found < at { found } else { found - 1 };
            assert(found != at);
            assert(fields[was] == more[found]);
            assert(false);
        }
    }
}

/// Taking a field away keeps the names in order. The name then stands for nothing, and every
/// other name for what it stood for before.
pub proof fn lemma_without_field(fields: Seq<(Seq<char>, ValueView)>, name: Seq<char>)
    requires
        ordered(fields),
    ensures
        ordered(without_field(fields, name)),
        field_of(without_field(fields, name), name) is None,
        forall|other: Seq<char>|
            other != name ==> #[trigger] field_of(without_field(fields, name), other)
                == field_of(fields, other),
{
    let fewer = without_field(fields, name);
    if holds_name(fields, name) {
        let at = place_of(fields, name);
        assert forall|i: int, j: int| 0 <= i < j < fewer.len() implies text_before(
            (#[trigger] fewer[i]).0,
            (#[trigger] fewer[j]).0,
        ) by {
            let old_i = if i < at { i } else { i + 1 };
            let old_j = if j < at { j } else { j + 1 };
            assert(fewer[i] == fields[old_i] && fewer[j] == fields[old_j]);
        }
        if holds_name(fewer, name) {
            let found = place_of(fewer, name);
            let was = if found < at { found } else { found + 1 };
            assert(fields[was] == fewer[found]);
            lemma_one_place(fields, was);
            assert(false);
        }
        assert forall|other: Seq<char>| other != name implies #[trigger] field_of(fewer, other)
            == field_of(fields, other) by {
            if holds_name(fields, other) {
                let found = place_of(fields, other);
                lemma_one_place(fields, found);
                let now = if found < at { found } else { found - 1 };
                assert(fewer[now] == fields[found]);
                lemma_one_place(fewer, now);
            } else if holds_name(fewer, other) {
                let found = place_of(fewer, other);
                let was = if found < at { found } else { found + 1 };
                assert(fields[was] == fewer[found]);
                assert(false);
            }
        }
    }
}

/// Fields in order that hold the same are the same.
proof fn lemma_ordered_fields_are_equal(
    a: Seq<(Seq<char>, ValueView)>,
    b: Seq<(Seq<char>, ValueView)>,
)
    requires
        ordered(a),
        ordered(b),
        forall|name: Seq<char>| #[trigger] field_of(a, name) == field_of(b, name),
    ensures
        a == b,
    decreases a.len(),
{
    if a.len() == 0 {
        if b.len() > 0 {
            lemma_one_place(b, 0);
            assert(field_of(a, b[0].0) == field_of(b, b[0].0));
        }
        assert(a =~= b);
    } else {
        let last = a.len() - 1;
        let name = a[last].0;
        lemma_one_place(a, last);
        assert(field_of(a, name) == field_of(b, name));
        let found = place_of(b, name);
        if found < b.len() - 1 {
            let above = b[b.len() - 1].0;
            lemma_one_place(b, b.len() - 1);
            assert(field_of(a, above) == field_of(b, above));
            let at = place_of(a, above);
            lemma_order_is_total(name, above);
            lemma_order_is_total(a[at].0, a[last].0);
            assert(false);
        }
        let fewer_a = a.drop_last();
        let fewer_b = b.drop_last();
        assert forall|other: Seq<char>| #[trigger]
            field_of(fewer_a, other) == field_of(fewer_b, other) by {
            lemma_without_last(a, other);
            lemma_without_last(b, other);
            assert(field_of(a, other) == field_of(b, other));
        }
        lemma_ordered_fields_are_equal(fewer_a, fewer_b);
        assert(a[last] == b[b.len() - 1]);
        assert(a =~= fewer_a.push(a[last]));
        assert(b =~= fewer_b.push(b[b.len() - 1]));
    }
}

proof fn lemma_without_last(fields: Seq<(Seq<char>, ValueView)>, name: Seq<char>)
    requires
        ordered(fields),
        fields.len() > 0,
    ensures
        field_of(fields.drop_last(), name) == (if name == fields.last().0 {
            None
        } else {
            field_of(fields, name)
        }),
{
    let fewer = fields.drop_last();
    let last = fields.len() - 1;
    if holds_name(fewer, name) {
        let at = place_of(fewer, name);
        assert(fields[at] == fewer[at]);
        lemma_one_place(fields, at);
        if name == fields.last().0 {
            lemma_one_place(fields, last);
        }
    } else if holds_name(fields, name) && name != fields.last().0 {
        let at = place_of(fields, name);
        assert(at != last);
        assert(fewer[at] == fields[at]);
        assert(false);
    }
}

/// The order in which fields are given values does not matter, which makes two equal objects
/// encode to equal bytes and two equal writes render equal.
pub proof fn law_order_of_setting_does_not_matter(
    fields: Seq<(Seq<char>, ValueView)>,
    one: Seq<char>,
    first: ValueView,
    other: Seq<char>,
    second: ValueView,
)
    requires
        ordered(fields),
        one != other,
    ensures
        with_field(with_field(fields, one, first), other, second) == with_field(
            with_field(fields, other, second),
            one,
            first,
        ),
{
    let left = with_field(fields, one, first);
    let right = with_field(fields, other, second);
    lemma_with_field(fields, one, first);
    lemma_with_field(fields, other, second);
    lemma_with_field(left, other, second);
    lemma_with_field(right, one, first);
    let a = with_field(left, other, second);
    let b = with_field(right, one, first);
    assert forall|name: Seq<char>| #[trigger] field_of(a, name) == field_of(b, name) by {
        if name != one && name != other {
            assert(field_of(left, name) == field_of(fields, name));
            assert(field_of(right, name) == field_of(fields, name));
        }
    }
    lemma_ordered_fields_are_equal(a, b);
}

/// The value that was given last under a name, among values given one after the other.
pub open spec fn given_last(
    given: Seq<(Seq<char>, ValueView)>,
    name: Seq<char>,
) -> Option<ValueView>
    decreases given.len(),
{
    if given.len() == 0 {
        None
    } else if given.last().0 == name {
        Some(given.last().1)
    } else {
        given_last(given.drop_last(), name)
    }
}

proof fn lemma_given_first(
    first: (Seq<char>, ValueView),
    given: Seq<(Seq<char>, ValueView)>,
    name: Seq<char>,
)
    ensures
        given_last(seq![first] + given, name) == (match given_last(given, name) {
            Some(value) => Some(value),
            None => if first.0 == name {
                Some(first.1)
            } else {
                None
            },
        }),
    decreases given.len(),
{
    let all = seq![first] + given;
    if given.len() > 0 {
        lemma_given_first(first, given.drop_last(), name);
        assert(all.drop_last() =~= seq![first] + given.drop_last());
        assert(all.last() == given.last());
    } else {
        assert(all.last() == first);
        assert(all.drop_last() =~= Seq::empty());
        assert(given_last(Seq::empty(), name) is None);
    }
}

proof fn lemma_with_fields(
    fields: Seq<(Seq<char>, ValueView)>,
    given: Seq<(Seq<char>, ValueView)>,
)
    requires
        ordered(fields),
    ensures
        ordered(with_fields(fields, given)),
        forall|name: Seq<char>| #[trigger]
            field_of(with_fields(fields, given), name) == (match given_last(given, name) {
                Some(value) => Some(value),
                None => field_of(fields, name),
            }),
    decreases given.len(),
{
    if given.len() > 0 {
        let first = given[0];
        let rest = given.drop_first();
        let now = with_field(fields, first.0, first.1);
        lemma_with_field(fields, first.0, first.1);
        lemma_with_fields(now, rest);
        assert(given =~= seq![first] + rest);
        assert forall|name: Seq<char>| #[trigger]
            field_of(with_fields(fields, given), name) == (match given_last(given, name) {
                Some(value) => Some(value),
                None => field_of(fields, name),
            }) by {
            lemma_given_first(first, rest, name);
            assert(name != first.0 ==> field_of(now, name) == field_of(fields, name));
        }
    }
}

/// Values given by name one after the other are held in the order of the names, each name once and
/// under it the value that was given last; every name that was given is held, and no other.
pub proof fn law_the_last_value_given_is_held(given: Seq<(Seq<char>, ValueView)>, at: int)
    ensures
        ({
            let held = with_fields(Seq::empty(), given);
            &&& forall|i: int, j: int|
                0 <= i < j < held.len() ==> text_before(
                    (#[trigger] held[i]).0,
                    (#[trigger] held[j]).0,
                )
            &&& 0 <= at < held.len() ==> given_last(given, held[at].0) == Some(held[at].1)
            &&& 0 <= at < given.len() ==> exists|i: int|
                0 <= i < held.len() && (#[trigger] held[i]).0 == given[at].0
        }),
{
    let held = with_fields(Seq::empty(), given);
    lemma_with_fields(Seq::empty(), given);
    if 0 <= at < held.len() {
        lemma_one_place(held, at);
        assert(field_of(held, held[at].0) == Some(held[at].1));
    }
    if 0 <= at < given.len() {
        lemma_given_somewhere(given, at);
        assert(field_of(held, given[at].0) is Some);
        assert(holds_name(held, given[at].0));
    }
}

proof fn lemma_given_somewhere(given: Seq<(Seq<char>, ValueView)>, at: int)
    requires
        0 <= at < given.len(),
    ensures
        given_last(given, given[at].0) is Some,
    decreases given.len(),
{
    if at < given.len() - 1 {
        lemma_given_somewhere(given.drop_last(), at);
        assert(given.drop_last()[at] == given[at]);
    }
}

/// What is found under a name is what stands under it, in fields in order.
pub proof fn law_fields_are_found_by_name(fields: Seq<(Seq<char>, ValueView)>, at: int)
    requires
        ordered(fields),
        0 <= at < fields.len(),
    ensures
        field_of(fields, fields[at].0) == Some(fields[at].1),
        forall|name: Seq<char>|
            (forall|i: int| 0 <= i < fields.len() ==> (#[trigger] fields[i]).0 != name)
                ==> #[trigger] field_of(fields, name) is None,
{
    lemma_one_place(fields, at);
}

}
