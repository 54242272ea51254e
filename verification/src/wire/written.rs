//! What a node writes, and that it is read as that: outcomes, changes, and the frames and bodies
//! that this client sends, byte by byte.

use vstd::prelude::*;
use vstd::utf8::encode_utf8;

use crate::bytes::{big_endian, lemma_magnitude_of_big_endian, lemma_spans};
use crate::codec::laws::{is_shallow, is_sound, lemma_block, lemma_take, lemma_text, lemma_u32};
use crate::codec::layout::{block, value_bytes};
use crate::codec::parse::whole_value;
use crate::codec::published::measured;
use crate::error::{EncodingFault, Error};
use crate::value::{Value, ValueView};
use crate::wire::body::{take_encoded, take_u64};
use crate::wire::frame::{frame_bytes, kind_of, Kind};
use crate::wire::laws::lemma_encoded;
use crate::wire::message::{
    answer_of, each_parameter, records_of, request_bytes, take_each_name, take_each_pair,
    take_each_record, take_each_text, take_exact, take_names, take_notes, take_only, take_pairs,
    take_records, take_suggestion, with_names, Answer, AnswerView, Exact, ExactView, Names,
    RecordsView, Request, RequestView, Suggested, SuggestedView,
};
use crate::wire::push::{
    became_of, change_of, follow_bytes, Became, BecameView, Change, ChangeView, Follow, FollowView,
};

verus! {

/// Text behind its length.
pub open spec fn text_written(text: Seq<char>) -> Seq<u8> {
    measured(encode_utf8(text))
}

/// Whether four bytes hold the length of a text.
pub open spec fn text_is_short(text: Seq<char>) -> bool {
    encode_utf8(text).len() <= 0xFFFF_FFFF
}

/// A value behind the length of its bytes.
pub open spec fn value_written(value: ValueView) -> Seq<u8> {
    measured(value_bytes(value))
}

/// Whether a value can be written behind its length and nests no deeper than is read.
pub open spec fn value_travels(value: ValueView) -> bool {
    value_bytes(value).len() <= 0xFFFF_FFFF && is_sound(value) && is_shallow(value, 0)
}

/// A table and what it is called.
pub open spec fn name_written(name: (u32, Seq<char>)) -> Seq<u8> {
    big_endian(name.0 as nat, 4) + text_written(name.1)
}

/// Tables and what they are called, behind how many they are.
pub open spec fn names_written(names: Seq<(u32, Seq<char>)>) -> Seq<u8> {
    big_endian(names.len(), 4) + names.map_values(
        |name: (u32, Seq<char>)| name_written(name),
    ).flatten()
}

/// A record: its identity and its value.
pub open spec fn record_written(record: (Seq<char>, ValueView)) -> Seq<u8> {
    text_written(record.0) + value_written(record.1)
}

/// Records, one after the other.
pub open spec fn each_record_written(records: Seq<(Seq<char>, ValueView)>) -> Seq<u8> {
    records.map_values(|record: (Seq<char>, ValueView)| record_written(record)).flatten()
}

/// Records behind how many they are.
pub open spec fn records_written(records: Seq<(Seq<char>, ValueView)>) -> Seq<u8> {
    big_endian(records.len(), 4) + each_record_written(records)
}

/// Two texts.
pub open spec fn pair_written(pair: (Seq<char>, Seq<char>)) -> Seq<u8> {
    text_written(pair.0) + text_written(pair.1)
}

/// Pairs of texts behind how many they are.
pub open spec fn pairs_written(pairs: Seq<(Seq<char>, Seq<char>)>) -> Seq<u8> {
    big_endian(pairs.len(), 4) + pairs.map_values(
        |pair: (Seq<char>, Seq<char>)| pair_written(pair),
    ).flatten()
}

/// Texts behind how many they are.
pub open spec fn texts_written(texts: Seq<Seq<char>>) -> Seq<u8> {
    big_endian(texts.len(), 4) + texts.map_values(|text: Seq<char>| text_written(text)).flatten()
}

/// What a node appends to its records: as many of four fields as it knows, in this order. A
/// suggestion of a kind that this client does not know is a byte that is none of the three, and
/// whatever follows it.
pub struct Appended {
    /// How many of the fields are there.
    pub told: nat,
    /// Each note's kind and message.
    pub notes: Seq<(Seq<char>, Seq<char>)>,
    /// The byte that says whether the statement wrote `ONLY`.
    pub only: u8,
    /// The byte that says whether the answer is approximate.
    pub approximate: u8,
    /// Why it is, where it is.
    pub reason: Seq<char>,
    /// What the query might have meant.
    pub suggestion: Option<SuggestedView>,
    /// The byte of a suggestion that is none of the three.
    pub strange: u8,
}

/// A suggestion: a byte, and after the third of them the corrections.
pub open spec fn suggestion_written(suggestion: Option<SuggestedView>, strange: u8) -> Seq<u8> {
    match suggestion {
        Some(SuggestedView::NotSought) => seq![0u8],
        Some(SuggestedView::NothingNearer) => seq![1u8],
        Some(SuggestedView::DidYouMean(corrections)) => seq![2u8] + pairs_written(corrections),
        None => seq![strange],
    }
}

/// What is appended to the records.
pub open spec fn appended_written(appended: Appended) -> Seq<u8> {
    (if appended.told >= 1 {
        pairs_written(appended.notes)
    } else {
        seq![]
    }) + ((if appended.told >= 2 {
        seq![appended.only]
    } else {
        seq![]
    }) + ((if appended.told >= 3 {
        seq![appended.approximate] + text_written(appended.reason)
    } else {
        seq![]
    }) + (if appended.told >= 4 {
        suggestion_written(appended.suggestion, appended.strange)
    } else {
        seq![]
    })))
}

/// An outcome of records: its tag, the path, the names of tables, the records, and what is
/// appended.
pub open spec fn records_outcome(
    path: u8,
    names: Seq<(u32, Seq<char>)>,
    records: Seq<(Seq<char>, ValueView)>,
    appended: Appended,
) -> Seq<u8> {
    seq![1u8, path] + names_written(names) + records_written(records) + appended_written(appended)
}

/// Whether four bytes hold the lengths in a list of names.
pub open spec fn names_are_short(names: Seq<(u32, Seq<char>)>) -> bool {
    names.len() <= 0xFFFF_FFFF && forall|i: int|
        0 <= i < names.len() ==> text_is_short((#[trigger] names[i]).1)
}

/// Whether four bytes hold the lengths in a list of pairs.
pub open spec fn pairs_are_short(pairs: Seq<(Seq<char>, Seq<char>)>) -> bool {
    pairs.len() <= 0xFFFF_FFFF && forall|i: int|
        0 <= i < pairs.len() ==> text_is_short((#[trigger] pairs[i]).0) && text_is_short(pairs[i].1)
}

/// Whether four bytes hold the lengths in a list of texts.
pub open spec fn texts_are_short(texts: Seq<Seq<char>>) -> bool {
    texts.len() <= 0xFFFF_FFFF && forall|i: int|
        0 <= i < texts.len() ==> text_is_short(#[trigger] texts[i])
}

/// Whether records can be written and are read.
pub open spec fn records_travel(records: Seq<(Seq<char>, ValueView)>) -> bool {
    records.len() <= 0xFFFF_FFFF && forall|i: int|
        0 <= i < records.len() ==> text_is_short((#[trigger] records[i]).0) && value_travels(
            records[i].1,
        )
}

/// Whether what is appended can be written.
pub open spec fn appended_is_short(appended: Appended) -> bool {
    &&& appended.told <= 4
    &&& pairs_are_short(appended.notes)
    &&& text_is_short(appended.reason)
    &&& appended.suggestion matches Some(SuggestedView::DidYouMean(pairs)) ==> pairs_are_short(
        pairs,
    )
    &&& appended.strange >= 3
}

/// What a table is called last, in a list of them.
pub open spec fn called_last(names: Seq<(u32, Seq<char>)>, table: u32) -> Option<Seq<char>>
    decreases names.len(),
{
    if names.len() == 0 {
        None
    } else if names.last().0 == table {
        Some(names.last().1)
    } else {
        called_last(names.drop_last(), table)
    }
}

/// Whether a map holds what each listed table is called last, and no other table.
pub open spec fn maps_names(held: Map<u32, Seq<char>>, names: Seq<(u32, Seq<char>)>) -> bool {
    forall|table: u32|
        match called_last(names, table) {
            Some(name) => #[trigger] held.dom().contains(table) && held[table] == name,
            None => !held.dom().contains(table),
        }
}

proof fn lemma_called_first(
    first: (u32, Seq<char>),
    names: Seq<(u32, Seq<char>)>,
    table: u32,
)
    ensures
        called_last(seq![first] + names, table) == (match called_last(names, table) {
            Some(name) => Some(name),
            None => if first.0 == table {
                Some(first.1)
            } else {
                None
            },
        }),
    decreases names.len(),
{
    let all = seq![first] + names;
    if names.len() > 0 {
        lemma_called_first(first, names.drop_last(), table);
        assert(all.drop_last() =~= seq![first] + names.drop_last());
        assert(all.last() == names.last());
    } else {
        assert(all.last() == first);
        assert(all.drop_last() =~= Seq::empty());
        assert(called_last(Seq::empty(), table) is None);
    }
}

proof fn lemma_maps_names(had: Map<u32, Seq<char>>, names: Seq<(u32, Seq<char>)>)
    ensures
        forall|table: u32|
            match called_last(names, table) {
                Some(name) => #[trigger] with_names(had, names).dom().contains(table) && with_names(
                    had,
                    names,
                )[table] == name,
                None => with_names(had, names).dom().contains(table) == had.dom().contains(table)
                    && with_names(had, names)[table] == had[table],
            },
    decreases names.len(),
{
    if names.len() > 0 {
        let first = names[0];
        let rest = names.drop_first();
        lemma_maps_names(had.insert(first.0, first.1), rest);
        assert(names =~= seq![first] + rest);
        assert forall|table: u32|
            match called_last(names, table) {
                Some(name) => #[trigger] with_names(had, names).dom().contains(table) && with_names(
                    had,
                    names,
                )[table] == name,
                None => with_names(had, names).dom().contains(table) == had.dom().contains(table)
                    && with_names(had, names)[table] == had[table],
            } by {
            lemma_called_first(first, rest, table);
            assert(with_names(had, names) == with_names(had.insert(first.0, first.1), rest));
            let now = with_names(had.insert(first.0, first.1), rest);
            assert(now.dom().contains(table) || !now.dom().contains(table));
        }
    }
}

/// Text that was written is read.
pub proof fn lemma_short_text(text: Seq<char>, rest: Seq<u8>)
    requires
        text_is_short(text),
    ensures
        crate::codec::parse::take_text(text_written(text) + rest) == Ok::<
            (Seq<char>, Seq<u8>),
            EncodingFault,
        >((text, rest)),
{
    assert(text_written(text) == block(encode_utf8(text)));
    lemma_text(text, rest);
}

proof fn lemma_value_travels(value: ValueView, rest: Seq<u8>)
    requires
        value_travels(value),
    ensures
        take_encoded(value_written(value) + rest) == Ok::<(ValueView, Seq<u8>), Error>(
            (value, rest),
        ),
{
    assert(value_written(value) == block(value_bytes(value)));
    lemma_encoded(value, rest);
}

proof fn lemma_in_three(a: Seq<u8>, b: Seq<u8>, c: Seq<u8>, rest: Seq<u8>)
    ensures
        (a + b) + c + rest == a + (b + (c + rest)),
{
    assert((a + b) + c + rest =~= a + (b + (c + rest)));
}

proof fn lemma_name_step(
    name: (u32, Seq<char>),
    held: Seq<u8>,
    others: Seq<(u32, Seq<char>)>,
    rest: Seq<u8>,
)
    requires
        text_is_short(name.1),
        take_each_name(held + rest, others.len()) == Ok::<(Seq<(u32, Seq<char>)>, Seq<u8>), Error>(
            (others, rest),
        ),
    ensures
        take_each_name(name_written(name) + held + rest, others.len() + 1) == Ok::<
            (Seq<(u32, Seq<char>)>, Seq<u8>),
            Error,
        >((seq![name] + others, rest)),
{
    let table = big_endian(name.0 as nat, 4);
    let called = text_written(name.1);
    lemma_in_three(table, called, held, rest);
    lemma_u32(name.0 as nat, called + (held + rest));
    lemma_short_text(name.1, held + rest);
}

proof fn lemma_names_read(names: Seq<(u32, Seq<char>)>, rest: Seq<u8>)
    requires
        names_are_short(names),
    ensures
        take_each_name(
            names.map_values(|name: (u32, Seq<char>)| name_written(name)).flatten() + rest,
            names.len(),
        ) == Ok::<(Seq<(u32, Seq<char>)>, Seq<u8>), Error>((names, rest)),
    decreases names.len(),
{
    let parts = |items: Seq<(u32, Seq<char>)>|
        items.map_values(|name: (u32, Seq<char>)| name_written(name));
    if names.len() == 0 {
        assert(parts(names).flatten() + rest =~= rest);
        assert(names =~= Seq::empty());
    } else {
        let fewer = names.drop_first();
        assert(text_is_short(names[0].1));
        assert forall|i: int| 0 <= i < fewer.len() implies text_is_short(
            (#[trigger] fewer[i]).1,
        ) by {
            assert(fewer[i] == names[i + 1]);
        }
        lemma_names_read(fewer, rest);
        assert(parts(names).drop_first() =~= parts(fewer));
        lemma_name_step(names[0], parts(fewer).flatten(), fewer, rest);
        assert(seq![names[0]] + fewer =~= names);
    }
}

proof fn lemma_names_written(names: Seq<(u32, Seq<char>)>, rest: Seq<u8>)
    requires
        names_are_short(names),
    ensures
        take_names(names_written(names) + rest) == Ok::<(Map<u32, Seq<char>>, Seq<u8>), Error>(
            (with_names(Map::empty(), names), rest),
        ),
{
    let items = names.map_values(|name: (u32, Seq<char>)| name_written(name)).flatten();
    assert(names_written(names) + rest =~= big_endian(names.len(), 4) + (items + rest));
    lemma_u32(names.len(), items + rest);
    lemma_names_read(names, rest);
}

proof fn lemma_record_step(
    record: (Seq<char>, ValueView),
    held: Seq<u8>,
    others: Seq<(Seq<char>, ValueView)>,
    rest: Seq<u8>,
)
    requires
        text_is_short(record.0),
        value_travels(record.1),
        take_each_record(held + rest, others.len()) == Ok::<
            (Seq<(Seq<char>, ValueView)>, Seq<u8>),
            Error,
        >((others, rest)),
    ensures
        take_each_record(record_written(record) + held + rest, others.len() + 1) == Ok::<
            (Seq<(Seq<char>, ValueView)>, Seq<u8>),
            Error,
        >((seq![record] + others, rest)),
{
    let id = text_written(record.0);
    let value = value_written(record.1);
    lemma_in_three(id, value, held, rest);
    lemma_short_text(record.0, value + (held + rest));
    lemma_value_travels(record.1, held + rest);
}

proof fn lemma_records_read(records: Seq<(Seq<char>, ValueView)>, rest: Seq<u8>)
    requires
        records_travel(records),
    ensures
        take_each_record(each_record_written(records) + rest, records.len()) == Ok::<
            (Seq<(Seq<char>, ValueView)>, Seq<u8>),
            Error,
        >((records, rest)),
    decreases records.len(),
{
    let parts = |items: Seq<(Seq<char>, ValueView)>|
        items.map_values(|record: (Seq<char>, ValueView)| record_written(record));
    if records.len() == 0 {
        assert(each_record_written(records) + rest =~= rest);
        assert(records =~= Seq::empty());
    } else {
        let fewer = records.drop_first();
        assert(text_is_short(records[0].0) && value_travels(records[0].1));
        assert forall|i: int| 0 <= i < fewer.len() implies text_is_short((#[trigger] fewer[i]).0)
            && value_travels(fewer[i].1) by {
            assert(fewer[i] == records[i + 1]);
        }
        lemma_records_read(fewer, rest);
        assert(parts(records).drop_first() =~= parts(fewer));
        assert(each_record_written(records) == record_written(records[0]) + each_record_written(
            fewer,
        ));
        lemma_record_step(records[0], each_record_written(fewer), fewer, rest);
        assert(seq![records[0]] + fewer =~= records);
    }
}

proof fn lemma_records_written(records: Seq<(Seq<char>, ValueView)>, rest: Seq<u8>)
    requires
        records_travel(records),
    ensures
        take_records(records_written(records) + rest) == Ok::<
            (Seq<(Seq<char>, ValueView)>, Seq<u8>),
            Error,
        >((records, rest)),
{
    let items = each_record_written(records);
    assert(records_written(records) + rest =~= big_endian(records.len(), 4) + (items + rest));
    lemma_u32(records.len(), items + rest);
    lemma_records_read(records, rest);
}

proof fn lemma_pair_step(
    pair: (Seq<char>, Seq<char>),
    held: Seq<u8>,
    others: Seq<(Seq<char>, Seq<char>)>,
    rest: Seq<u8>,
)
    requires
        text_is_short(pair.0),
        text_is_short(pair.1),
        take_each_pair(held + rest, others.len()) == Ok::<
            (Seq<(Seq<char>, Seq<char>)>, Seq<u8>),
            Error,
        >((others, rest)),
    ensures
        take_each_pair(pair_written(pair) + held + rest, others.len() + 1) == Ok::<
            (Seq<(Seq<char>, Seq<char>)>, Seq<u8>),
            Error,
        >((seq![pair] + others, rest)),
{
    let first = text_written(pair.0);
    let second = text_written(pair.1);
    lemma_in_three(first, second, held, rest);
    lemma_short_text(pair.0, second + (held + rest));
    lemma_short_text(pair.1, held + rest);
}

proof fn lemma_pairs_read(pairs: Seq<(Seq<char>, Seq<char>)>, rest: Seq<u8>)
    requires
        pairs_are_short(pairs),
    ensures
        take_each_pair(
            pairs.map_values(|pair: (Seq<char>, Seq<char>)| pair_written(pair)).flatten() + rest,
            pairs.len(),
        ) == Ok::<(Seq<(Seq<char>, Seq<char>)>, Seq<u8>), Error>((pairs, rest)),
    decreases pairs.len(),
{
    let parts = |items: Seq<(Seq<char>, Seq<char>)>|
        items.map_values(|pair: (Seq<char>, Seq<char>)| pair_written(pair));
    if pairs.len() == 0 {
        assert(parts(pairs).flatten() + rest =~= rest);
        assert(pairs =~= Seq::empty());
    } else {
        let fewer = pairs.drop_first();
        assert(text_is_short(pairs[0].0) && text_is_short(pairs[0].1));
        assert forall|i: int| 0 <= i < fewer.len() implies text_is_short((#[trigger] fewer[i]).0)
            && text_is_short(fewer[i].1) by {
            assert(fewer[i] == pairs[i + 1]);
        }
        lemma_pairs_read(fewer, rest);
        assert(parts(pairs).drop_first() =~= parts(fewer));
        lemma_pair_step(pairs[0], parts(fewer).flatten(), fewer, rest);
        assert(seq![pairs[0]] + fewer =~= pairs);
    }
}

proof fn lemma_pairs_written(pairs: Seq<(Seq<char>, Seq<char>)>, rest: Seq<u8>)
    requires
        pairs_are_short(pairs),
    ensures
        take_pairs(pairs_written(pairs) + rest) == Ok::<
            (Seq<(Seq<char>, Seq<char>)>, Seq<u8>),
            Error,
        >((pairs, rest)),
        pairs_written(pairs).len() > 0,
{
    let items = pairs.map_values(|pair: (Seq<char>, Seq<char>)| pair_written(pair)).flatten();
    assert(pairs_written(pairs) + rest =~= big_endian(pairs.len(), 4) + (items + rest));
    crate::bytes::lemma_big_endian_len(pairs.len(), 4);
    lemma_u32(pairs.len(), items + rest);
    lemma_pairs_read(pairs, rest);
}

proof fn lemma_texts_read(texts: Seq<Seq<char>>, rest: Seq<u8>)
    requires
        texts_are_short(texts),
    ensures
        take_each_text(
            texts.map_values(|text: Seq<char>| text_written(text)).flatten() + rest,
            texts.len(),
        ) == Ok::<(Seq<Seq<char>>, Seq<u8>), Error>((texts, rest)),
    decreases texts.len(),
{
    let parts = |items: Seq<Seq<char>>| items.map_values(|text: Seq<char>| text_written(text));
    if texts.len() == 0 {
        assert(parts(texts).flatten() + rest =~= rest);
        assert(texts =~= Seq::empty());
    } else {
        let fewer = texts.drop_first();
        assert(text_is_short(texts[0]));
        assert forall|i: int| 0 <= i < fewer.len() implies text_is_short(#[trigger] fewer[i]) by {
            assert(fewer[i] == texts[i + 1]);
        }
        lemma_texts_read(fewer, rest);
        assert(parts(texts).drop_first() =~= parts(fewer));
        let after = parts(fewer).flatten() + rest;
        assert(parts(texts).flatten() + rest =~= text_written(texts[0]) + after);
        lemma_short_text(texts[0], after);
        assert(seq![texts[0]] + fewer =~= texts);
    }
}

/// A byte that was written is read.
pub proof fn lemma_first_byte(byte: u8, rest: Seq<u8>)
    ensures
        crate::codec::parse::take_byte(seq![byte] + rest) == Ok::<(u8, Seq<u8>), EncodingFault>(
            (byte, rest),
        ),
{
    assert((seq![byte] + rest).drop_first() =~= rest);
}

/// What is said of a suggestion: the one that was written, and nothing of a kind that is not known.
proof fn lemma_suggestion_written(appended: Appended)
    requires
        appended_is_short(appended),
    ensures
        take_suggestion(suggestion_written(appended.suggestion, appended.strange)) matches Ok(
            (suggestion, _),
        ) && suggestion == appended.suggestion,
{
    let bytes = suggestion_written(appended.suggestion, appended.strange);
    match appended.suggestion {
        Some(SuggestedView::DidYouMean(pairs)) => {
            lemma_first_byte(2, pairs_written(pairs));
            lemma_pairs_written(pairs, Seq::empty());
            assert(pairs_written(pairs) + Seq::empty() =~= pairs_written(pairs));
        },
        Some(SuggestedView::NotSought) => {
            lemma_first_byte(0, Seq::empty());
            assert(bytes =~= seq![0u8] + Seq::empty());
        },
        Some(SuggestedView::NothingNearer) => {
            lemma_first_byte(1, Seq::empty());
            assert(bytes =~= seq![1u8] + Seq::empty());
        },
        None => {
            lemma_first_byte(appended.strange, Seq::empty());
            assert(bytes =~= seq![appended.strange] + Seq::empty());
        },
    }
}

/// What is read of the fields that a node appended, and of those that it did not: no notes, not
/// `ONLY`, and nothing said of exactness and of a suggestion.
pub open spec fn appended_is_read(appended: Appended, records: RecordsView) -> bool {
    &&& records.notes == (if appended.told >= 1 {
        appended.notes
    } else {
        Seq::empty()
    })
    &&& records.only == (appended.told >= 2 && appended.only != 0)
    &&& records.exact == (if appended.told < 3 {
        None
    } else if appended.approximate == 0 {
        Some(ExactView::Yes)
    } else {
        Some(ExactView::No { reason: appended.reason })
    })
    &&& records.suggestion == (if appended.told >= 4 {
        appended.suggestion
    } else {
        None
    })
}

/// What each field is read as, one after the other.
spec fn appended_parses(appended: Appended, bytes: Seq<u8>) -> bool {
    match take_notes(bytes) {
        Err(_) => false,
        Ok((notes, rest)) => match take_only(rest) {
            Err(_) => false,
            Ok((only, rest)) => match take_exact(rest) {
                Err(_) => false,
                Ok((exact, rest)) => match take_suggestion(rest) {
                    Err(_) => false,
                    Ok((suggestion, _)) => appended_is_read(
                        appended,
                        RecordsView {
                            records: Seq::empty(),
                            path: Seq::empty(),
                            names: Map::empty(),
                            notes,
                            only,
                            exact,
                            suggestion,
                        },
                    ),
                },
            },
        },
    }
}

proof fn lemma_appended(appended: Appended)
    requires
        appended_is_short(appended),
    ensures
        appended_parses(appended, appended_written(appended)),
{
    let last = if appended.told >= 4 {
        suggestion_written(appended.suggestion, appended.strange)
    } else {
        Seq::empty()
    };
    let exact = if appended.told >= 3 {
        seq![appended.approximate] + text_written(appended.reason)
    } else {
        Seq::empty()
    };
    let only = if appended.told >= 2 {
        seq![appended.only]
    } else {
        Seq::empty()
    };
    lemma_suggestion_written(appended);
    let third = exact + last;
    let second = only + third;
    let bytes = appended_written(appended);
    if appended.told >= 1 {
        lemma_pairs_written(appended.notes, second);
        assert(bytes == pairs_written(appended.notes) + second);
    } else {
        assert(bytes =~= Seq::empty());
        assert(second =~= Seq::empty());
        assert(third =~= Seq::empty());
        assert(last =~= Seq::empty());
    }
    if appended.told >= 2 {
        lemma_first_byte(appended.only, third);
    } else {
        assert(second =~= Seq::empty());
        assert(third =~= Seq::empty());
        assert(last =~= Seq::empty());
    }
    if appended.told >= 3 {
        assert(third =~= seq![appended.approximate] + (text_written(appended.reason) + last));
        lemma_first_byte(appended.approximate, text_written(appended.reason) + last);
        lemma_short_text(appended.reason, last);
    } else {
        assert(third =~= Seq::empty());
        assert(last =~= Seq::empty());
    }
    if appended.told < 4 {
        assert(last =~= Seq::empty());
    }
}

/// Records are read as a node writes them: every record that was written, in the order in which
/// they were, under its own identity and with its own value; the path by its byte; what each table
/// is called; and each of the appended fields, or that it was not there.
pub proof fn law_records_are_read_as_written(
    path: u8,
    names: Seq<(u32, Seq<char>)>,
    records: Seq<(Seq<char>, ValueView)>,
    appended: Appended,
)
    requires
        names_are_short(names),
        records_travel(records),
        appended_is_short(appended),
    ensures
        answer_of(records_outcome(path, names, records, appended)) matches Ok(
            AnswerView::Records(read),
        ) && read.records == records && maps_names(read.names, names) && appended_is_read(
            appended,
            read,
        ) && read.path == (if path == 0 {
            "record"@
        } else if path == 1 {
            "index"@
        } else if path == 3 {
            "ordered"@
        } else {
            "scan"@
        }),
{
    let bytes = records_outcome(path, names, records, appended);
    let tail = appended_written(appended);
    let held = records_written(records) + tail;
    let named = names_written(names) + held;
    assert(bytes =~= seq![1u8] + (seq![path] + named));
    lemma_first_byte(1, seq![path] + named);
    lemma_first_byte(path, named);
    lemma_names_written(names, held);
    lemma_records_written(records, tail);
    lemma_appended(appended);
    lemma_maps_names(Map::empty(), names);
    let read = records_of(seq![path] + named);
    assert(read is Ok);
}

/// An outcome that holds no records is read as it was written: done, one value with the names of
/// tables, keys in order, how many were removed, and of any other tag that it is not known. What
/// follows inside the outcome changes nothing.
pub proof fn law_outcomes_are_read_as_written(
    names: Seq<(u32, Seq<char>)>,
    value: ValueView,
    keys: Seq<Seq<char>>,
    count: u64,
    tag: u8,
    more: Seq<u8>,
)
    requires
        names_are_short(names),
        value_travels(value),
        texts_are_short(keys),
        tag > 4,
    ensures
        answer_of(seq![0u8] + more) == Ok::<AnswerView, Error>(AnswerView::Done),
        answer_of(seq![2u8] + names_written(names) + value_written(value) + more) matches Ok(
            AnswerView::Value { value: read, names: called },
        ) && read == value && maps_names(called, names),
        answer_of(seq![3u8] + texts_written(keys) + more) == Ok::<AnswerView, Error>(
            AnswerView::Keys(keys),
        ),
        answer_of(seq![4u8] + big_endian(count as nat, 8) + more) == Ok::<AnswerView, Error>(
            AnswerView::Removed(count),
        ),
        answer_of(seq![tag] + more) == Ok::<AnswerView, Error>(AnswerView::Unknown),
        answer_of(Seq::empty()) == Err::<AnswerView, Error>(Error::Malformed),
{
    lemma_first_byte(0, more);
    lemma_first_byte(tag, more);
    let held = value_written(value) + more;
    assert(seq![2u8] + names_written(names) + value_written(value) + more =~= seq![2u8] + (
    names_written(names) + held));
    lemma_first_byte(2, names_written(names) + held);
    lemma_names_written(names, held);
    lemma_value_travels(value, more);
    lemma_maps_names(Map::empty(), names);
    let items = keys.map_values(|text: Seq<char>| text_written(text)).flatten();
    assert(seq![3u8] + texts_written(keys) + more =~= seq![3u8] + (big_endian(keys.len(), 4) + (items
        + more)));
    lemma_first_byte(3, big_endian(keys.len(), 4) + (items + more));
    lemma_u32(keys.len(), items + more);
    lemma_texts_read(keys, more);
    assert(seq![4u8] + big_endian(count as nat, 8) + more =~= seq![4u8] + (big_endian(
        count as nat,
        8,
    ) + more));
    lemma_first_byte(4, big_endian(count as nat, 8) + more);
    lemma_eight_bytes(count, more);
}

/// A number of eight bytes that was written is read.
pub proof fn lemma_eight_bytes(value: u64, rest: Seq<u8>)
    ensures
        take_u64(big_endian(value as nat, 8) + rest) == Ok::<(u64, Seq<u8>), Error>((value, rest)),
{
    lemma_spans();
    lemma_magnitude_of_big_endian(value as nat, 8);
    lemma_take(big_endian(value as nat, 8), rest);
}

proof fn lemma_undecoded(bytes: Seq<u8>, reason: EncodingFault, rest: Seq<u8>)
    requires
        bytes.len() <= 0xFFFF_FFFF,
        whole_value(bytes) == Err::<ValueView, EncodingFault>(reason),
    ensures
        take_encoded(measured(bytes) + rest) == Err::<(ValueView, Seq<u8>), Error>(
            Error::Encoding { reason },
        ),
{
    assert(measured(bytes) == block(bytes));
    lemma_block(bytes, rest);
}

proof fn lemma_records_stop(
    records: Seq<(Seq<char>, ValueView)>,
    id: Seq<char>,
    bytes: Seq<u8>,
    reason: EncodingFault,
    rest: Seq<u8>,
    others: nat,
)
    requires
        records_travel(records),
        text_is_short(id),
        bytes.len() <= 0xFFFF_FFFF,
        whole_value(bytes) == Err::<ValueView, EncodingFault>(reason),
    ensures
        take_each_record(
            each_record_written(records) + (text_written(id) + (measured(bytes) + rest)),
            records.len() + 1 + others,
        ) == Err::<(Seq<(Seq<char>, ValueView)>, Seq<u8>), Error>(Error::Encoding { reason }),
    decreases records.len(),
{
    let bad = text_written(id) + (measured(bytes) + rest);
    if records.len() == 0 {
        assert(each_record_written(records) + bad =~= bad);
        lemma_short_text(id, measured(bytes) + rest);
        lemma_undecoded(bytes, reason, rest);
    } else {
        let parts = |items: Seq<(Seq<char>, ValueView)>|
            items.map_values(|record: (Seq<char>, ValueView)| record_written(record));
        let fewer = records.drop_first();
        let first = records[0];
        assert(text_is_short(first.0) && value_travels(first.1));
        assert forall|i: int| 0 <= i < fewer.len() implies text_is_short((#[trigger] fewer[i]).0)
            && value_travels(fewer[i].1) by {
            assert(fewer[i] == records[i + 1]);
        }
        lemma_records_stop(fewer, id, bytes, reason, rest, others);
        assert(parts(records).drop_first() =~= parts(fewer));
        let after = each_record_written(fewer) + bad;
        lemma_in_three(
            text_written(first.0),
            value_written(first.1),
            each_record_written(fewer),
            bad,
        );
        lemma_short_text(first.0, value_written(first.1) + after);
        lemma_value_travels(first.1, after);
    }
}

/// A value that does not decode ends an answer with the fault of the codec where it is the one
/// value of an outcome.
pub proof fn law_undecodable_values_are_told(
    names: Seq<(u32, Seq<char>)>,
    bytes: Seq<u8>,
    reason: EncodingFault,
    rest: Seq<u8>,
)
    requires
        names_are_short(names),
        bytes.len() <= 0xFFFF_FFFF,
        whole_value(bytes) == Err::<ValueView, EncodingFault>(reason),
    ensures
        answer_of(seq![2u8] + (names_written(names) + (measured(bytes) + rest))) == Err::<
            AnswerView,
            Error,
        >(Error::Encoding { reason }),
{
    let held = measured(bytes) + rest;
    lemma_first_byte(2, names_written(names) + held);
    lemma_names_written(names, held);
    lemma_undecoded(bytes, reason, rest);
}

/// A value that does not decode ends an answer with the fault of the codec after any number of
/// records that did decode, and however many were to follow.
pub proof fn law_undecodable_records_are_told(
    path: u8,
    names: Seq<(u32, Seq<char>)>,
    records: Seq<(Seq<char>, ValueView)>,
    id: Seq<char>,
    bytes: Seq<u8>,
    reason: EncodingFault,
    others: nat,
    rest: Seq<u8>,
)
    requires
        names_are_short(names),
        records_travel(records),
        text_is_short(id),
        bytes.len() <= 0xFFFF_FFFF,
        records.len() + 1 + others <= 0xFFFF_FFFF,
        whole_value(bytes) == Err::<ValueView, EncodingFault>(reason),
    ensures
        answer_of(
            seq![1u8] + (seq![path] + (names_written(names) + (big_endian(
                records.len() + 1 + others,
                4,
            ) + (each_record_written(records) + (text_written(id) + (measured(bytes) + rest)))))),
        ) == Err::<AnswerView, Error>(Error::Encoding { reason }),
{
    let held = measured(bytes) + rest;
    let items = each_record_written(records) + (text_written(id) + held);
    let counted = big_endian(records.len() + 1 + others, 4) + items;
    let named = names_written(names) + counted;
    lemma_first_byte(1, seq![path] + named);
    lemma_first_byte(path, named);
    lemma_names_written(names, counted);
    lemma_u32(records.len() + 1 + others, items);
    lemma_records_stop(records, id, bytes, reason, rest, others);
}

/// What a change frame opens with: the position, the table and the identity.
pub open spec fn change_opening(sequence: u64, table: Seq<char>, id: Seq<char>) -> Seq<u8> {
    big_endian(sequence as nat, 8) + text_written(table) + text_written(id)
}

proof fn lemma_change_opening(sequence: u64, table: Seq<char>, id: Seq<char>, rest: Seq<u8>)
    requires
        text_is_short(table),
        text_is_short(id),
    ensures
        change_of(change_opening(sequence, table, id) + rest) == (match became_of(rest) {
            Err(error) => Err::<ChangeView, Error>(error),
            Ok(became) => Ok(ChangeView { sequence, table, id, became }),
        }),
{
    let named = text_written(id) + rest;
    assert(change_opening(sequence, table, id) + rest =~= big_endian(sequence as nat, 8) + (
    text_written(table) + named));
    lemma_eight_bytes(sequence, text_written(table) + named);
    lemma_short_text(table, named);
    lemma_short_text(id, rest);
}

/// A write is read as a node writes it: the position, the table and the identity that were written,
/// and after a zero that the record now holds the value that was written, whatever its type.
pub proof fn law_writes_are_read_as_written(
    sequence: u64,
    table: Seq<char>,
    id: Seq<char>,
    value: ValueView,
    more: Seq<u8>,
)
    requires
        text_is_short(table),
        text_is_short(id),
        value_travels(value),
    ensures
        change_of(
            change_opening(sequence, table, id) + (seq![0u8] + (value_written(value) + more)),
        ) == Ok::<ChangeView, Error>(
            ChangeView { sequence, table, id, became: BecameView::Written(value) },
        ),
{
    lemma_change_opening(sequence, table, id, seq![0u8] + (value_written(value) + more));
    lemma_first_byte(0, value_written(value) + more);
    lemma_value_travels(value, more);
}

/// A removal is read as a node writes it, after a one; no other byte than these two tells of a
/// change, and neither does a frame that ends before the byte.
pub proof fn law_removals_are_read_as_written(
    sequence: u64,
    table: Seq<char>,
    id: Seq<char>,
    byte: u8,
    more: Seq<u8>,
)
    requires
        text_is_short(table),
        text_is_short(id),
        byte > 0,
    ensures
        change_of(change_opening(sequence, table, id) + (seq![byte] + more)) == (if byte == 1 {
            Ok::<ChangeView, Error>(
                ChangeView { sequence, table, id, became: BecameView::Removed },
            )
        } else {
            Err(Error::Malformed)
        }),
        change_of(change_opening(sequence, table, id) + Seq::empty()) == Err::<ChangeView, Error>(
            Error::Malformed,
        ),
{
    lemma_change_opening(sequence, table, id, seq![byte] + more);
    lemma_first_byte(byte, more);
    lemma_change_opening(sequence, table, id, Seq::empty());
}

/// A write whose value does not decode is the fault of the codec.
pub proof fn law_undecodable_changes_are_told(
    sequence: u64,
    table: Seq<char>,
    id: Seq<char>,
    bytes: Seq<u8>,
    reason: EncodingFault,
    more: Seq<u8>,
)
    requires
        text_is_short(table),
        text_is_short(id),
        bytes.len() <= 0xFFFF_FFFF,
        whole_value(bytes) == Err::<ValueView, EncodingFault>(reason),
    ensures
        change_of(
            change_opening(sequence, table, id) + (seq![0u8] + (measured(bytes) + more)),
        ) == Err::<ChangeView, Error>(Error::Encoding { reason }),
{
    lemma_change_opening(sequence, table, id, seq![0u8] + (measured(bytes) + more));
    lemma_first_byte(0, measured(bytes) + more);
    lemma_undecoded(bytes, reason, more);
}

/// A removal is told of by nothing but a one after the identity, whatever bytes a change was read
/// from.
pub proof fn law_only_a_one_removes(bytes: Seq<u8>)
    ensures
        became_of(bytes) == Ok::<BecameView, Error>(BecameView::Removed) ==> bytes.len() > 0
            && bytes[0] == 1,
        became_of(bytes) matches Ok(BecameView::Written(value)) ==> bytes[0] == 0,
{
}

proof fn lemma_parameters_are_flat(parameters: Seq<(Seq<char>, ValueView)>)
    requires
        forall|i: int|
            0 <= i < parameters.len() ==> text_is_short((#[trigger] parameters[i]).0)
                && value_bytes(parameters[i].1).len() <= 0xFFFF_FFFF,
    ensures
        each_parameter(parameters) == each_record_written(parameters),
    decreases parameters.len(),
{
    if parameters.len() > 0 {
        let parts = |items: Seq<(Seq<char>, ValueView)>|
            items.map_values(|record: (Seq<char>, ValueView)| record_written(record));
        let fewer = parameters.drop_first();
        assert(text_is_short(parameters[0].0));
        assert forall|i: int| 0 <= i < fewer.len() implies text_is_short((#[trigger] fewer[i]).0)
            && value_bytes(fewer[i].1).len() <= 0xFFFF_FFFF by {
            assert(fewer[i] == parameters[i + 1]);
        }
        lemma_parameters_are_flat(fewer);
        assert(parts(parameters).drop_first() =~= parts(fewer));
    }
}

/// A request is laid out so: the script behind its length; a one, the name and the password, or a
/// zero where nobody signs in; how many parameters there are; and each of them in turn, the name
/// behind its length and the value behind the length of its bytes.
pub proof fn law_requests_are_laid_out(
    script: Seq<char>,
    name: Seq<char>,
    password: Seq<char>,
    parameters: Seq<(Seq<char>, ValueView)>,
)
    requires
        text_is_short(script),
        text_is_short(name),
        text_is_short(password),
        parameters.len() <= 0xFFFF_FFFF,
        forall|i: int|
            0 <= i < parameters.len() ==> text_is_short((#[trigger] parameters[i]).0)
                && value_bytes(parameters[i].1).len() <= 0xFFFF_FFFF,
    ensures
        request_bytes(
            RequestView { script, credentials: Some((name, password)), parameters },
        ) == text_written(script) + seq![1u8] + text_written(name) + text_written(password)
            + records_written(parameters),
        request_bytes(RequestView { script, credentials: None, parameters }) == text_written(script)
            + seq![0u8] + records_written(parameters),
{
    lemma_parameters_are_flat(parameters);
    assert(request_bytes(RequestView { script, credentials: None, parameters }) =~= text_written(
        script,
    ) + seq![0u8] + records_written(parameters));
    assert(request_bytes(RequestView { script, credentials: Some((name, password)), parameters })
        =~= text_written(script) + seq![1u8] + text_written(name) + text_written(password)
        + records_written(parameters));
}

/// A subscription is laid out so: the position in eight bytes, and then a one and the table, or a
/// zero for every table.
pub proof fn law_subscriptions_are_laid_out(from: u64, table: Seq<char>)
    requires
        text_is_short(table),
    ensures
        follow_bytes(FollowView { from, table: Some(table) }) == big_endian(from as nat, 8)
            + seq![1u8] + text_written(table),
        follow_bytes(FollowView { from, table: None }) == big_endian(from as nat, 8) + seq![0u8],
{
    assert(follow_bytes(FollowView { from, table: Some(table) }) =~= big_endian(from as nat, 8)
        + seq![1u8] + text_written(table));
}

/// A frame is laid out so: the byte of its kind, the length of its body in four bytes, and the
/// body. A request is one, an answer two, a refusal three, a subscription four and a change five,
/// both in what is written and in what is read, and no other byte names a kind.
pub proof fn law_frames_are_laid_out(kind: Kind, body: Seq<u8>, byte: u8)
    requires
        body.len() <= 0xFFFF_FFFF,
    ensures
        frame_bytes(kind, body) == seq![
            match kind {
                Kind::Request => 1u8,
                Kind::Answer => 2u8,
                Kind::Refusal => 3u8,
                Kind::Subscribe => 4u8,
                Kind::Change => 5u8,
            },
        ] + big_endian(body.len(), 4) + body,
        kind_of(1) == Some(Kind::Request),
        kind_of(2) == Some(Kind::Answer),
        kind_of(3) == Some(Kind::Refusal),
        kind_of(4) == Some(Kind::Subscribe),
        kind_of(5) == Some(Kind::Change),
        byte == 0 || byte > 5 ==> kind_of(byte) is None,
{
    assert(frame_bytes(kind, body) =~= seq![kind.byte()] + big_endian(body.len(), 4) + body);
}

/// Whether what is seen of some names is what each table is called.
pub open spec fn names_are_seen(names: Names, held: Map<u32, Seq<char>>) -> bool {
    forall|table: u32|
        #[trigger] held.dom().contains(table) == names@.dom().contains(table) && (
        names@.dom().contains(table) ==> held[table] == names@[table]@)
}

/// What is seen of an answer is what it holds: record for record, note for note, correction for
/// correction and key for key.
pub proof fn law_answers_are_seen_as_they_are(answer: Answer)
    ensures
        match answer {
            Answer::Done => answer@ == AnswerView::Done,
            Answer::Records { records, path, names, notes, only, exact, suggestion } => answer@
                matches AnswerView::Records(held) && held.path == path@ && held.only == only
                && names_are_seen(names, held.names) && held.records.len() == records@.len() && (
            forall|i: int|
                0 <= i < records@.len() ==> #[trigger] held.records[i] == (
                    records@[i].0@,
                    records@[i].1@,
                )) && held.notes.len() == notes@.len() && (forall|i: int|
                0 <= i < notes@.len() ==> #[trigger] held.notes[i] == (
                    notes@[i].kind@,
                    notes@[i].message@,
                )) && (match exact {
                None => held.exact is None,
                Some(Exact::Yes) => held.exact == Some(ExactView::Yes),
                Some(Exact::No { reason }) => held.exact == Some(
                    ExactView::No { reason: reason@ },
                ),
            }) && (match suggestion {
                None => held.suggestion is None,
                Some(Suggested::NotSought) => held.suggestion == Some(SuggestedView::NotSought),
                Some(Suggested::NothingNearer) => held.suggestion == Some(
                    SuggestedView::NothingNearer,
                ),
                Some(Suggested::DidYouMean(corrections)) => held.suggestion matches Some(
                    SuggestedView::DidYouMean(pairs),
                ) && pairs.len() == corrections@.len() && forall|i: int|
                    0 <= i < pairs.len() ==> #[trigger] pairs[i] == (
                        corrections@[i].typed@,
                        corrections@[i].instead@,
                    ),
            }),
            Answer::Value { value, names } => answer@ matches AnswerView::Value {
                value: held,
                names: called,
            } && held == value@ && names_are_seen(names, called),
            Answer::Keys(keys) => answer@ matches AnswerView::Keys(held) && held.len() == keys@.len()
                && forall|i: int| 0 <= i < held.len() ==> #[trigger] held[i] == keys@[i]@,
            Answer::Removed(count) => answer@ == AnswerView::Removed(count),
            Answer::Unknown => answer@ == AnswerView::Unknown,
        },
{
}

/// What is seen of a change, of a subscription and of a request is what each holds.
pub proof fn law_messages_are_seen_as_they_are(change: Change, follow: Follow, request: Request)
    ensures
        change@.sequence == change.sequence,
        change@.table == change.table@,
        change@.id == change.id@,
        match change.became {
            Became::Written(value) => change@.became == BecameView::Written(value@),
            Became::Removed => change@.became == BecameView::Removed,
        },
        follow@.from == follow.from,
        match follow.table {
            Some(table) => follow@.table == Some(table@),
            None => follow@.table is None,
        },
        request@.script == request.script@,
        request@.parameters == request.parameters@,
        match request.credentials {
            Some((name, password)) => request@.credentials == Some((name@, password@)),
            None => request@.credentials is None,
        },
{
}

}
