//! A body that ends before what it announces is malformed, wherever it ends.

use vstd::prelude::*;

use crate::bytes::{big_endian, lemma_big_endian_len};
use crate::codec::laws::{lemma_block, lemma_u32};
use crate::codec::layout::{block, value_bytes};
use crate::codec::parse::{take_block, take_text};
use crate::codec::published::measured;
use crate::error::Error;
use crate::value::ValueView;
use crate::wire::body::take_encoded;
use crate::wire::message::{answer_of, answers_of, take_each_answer, AnswerView};
use crate::wire::push::{change_of, ChangeView};
use crate::wire::written::{
    change_opening, lemma_eight_bytes, lemma_first_byte, lemma_short_text, text_is_short,
    text_written, value_written,
};

verus! {

/// The start of two runs of bytes is a start of the first, or the first and a start of the second.
proof fn lemma_start(first: Seq<u8>, rest: Seq<u8>, kept: int)
    requires
        0 <= kept <= first.len() + rest.len(),
    ensures
        kept <= first.len() ==> (first + rest).take(kept) == first.take(kept),
        kept >= first.len() ==> (first + rest).take(kept) == first + rest.take(
            kept - first.len(),
        ),
{
    if kept <= first.len() {
        assert((first + rest).take(kept) =~= first.take(kept));
    }
    if kept >= first.len() {
        assert((first + rest).take(kept) =~= first + rest.take(kept - first.len()));
    }
}

proof fn lemma_block_is_cut(bytes: Seq<u8>, kept: int)
    requires
        bytes.len() <= 0xFFFF_FFFF,
        0 <= kept < measured(bytes).len(),
    ensures
        take_block(measured(bytes).take(kept)) is Err,
        take_text(measured(bytes).take(kept)) is Err,
        take_encoded(measured(bytes).take(kept)) == Err::<(ValueView, Seq<u8>), Error>(
            Error::Malformed,
        ),
{
    let length = big_endian(bytes.len(), 4);
    lemma_big_endian_len(bytes.len(), 4);
    lemma_start(length, bytes, kept);
    if kept >= 4 {
        lemma_u32(bytes.len(), bytes.take(kept - 4));
    }
}

/// A change that is cut short, wherever it ends, is malformed: it is never read as another change.
pub proof fn law_changes_cut_short_are_malformed(
    sequence: u64,
    table: Seq<char>,
    id: Seq<char>,
    value: ValueView,
    kept: int,
)
    requires
        text_is_short(table),
        text_is_short(id),
        value_bytes(value).len() <= 0xFFFF_FFFF,
        0 <= kept < (change_opening(sequence, table, id) + (seq![0u8] + value_written(
            value,
        ))).len(),
    ensures
        change_of(
            (change_opening(sequence, table, id) + (seq![0u8] + value_written(value))).take(kept),
        ) == Err::<ChangeView, Error>(Error::Malformed),
{
    let number = big_endian(sequence as nat, 8);
    let became = seq![0u8] + value_written(value);
    let named = text_written(id) + became;
    let placed = text_written(table) + named;
    lemma_big_endian_len(sequence as nat, 8);
    assert(change_opening(sequence, table, id) + became =~= number + placed);
    lemma_start(number, placed, kept);
    if kept >= 8 {
        let kept = kept - 8;
        lemma_eight_bytes(sequence, placed.take(kept));
        lemma_start(text_written(table), named, kept);
        if kept < text_written(table).len() {
            lemma_block_is_cut(vstd::utf8::encode_utf8(table), kept);
        } else {
            let kept = kept - text_written(table).len();
            lemma_short_text(table, named.take(kept));
            lemma_start(text_written(id), became, kept);
            if kept < text_written(id).len() {
                lemma_block_is_cut(vstd::utf8::encode_utf8(id), kept);
            } else {
                let kept = kept - text_written(id).len();
                lemma_short_text(id, became.take(kept));
                lemma_start(seq![0u8], value_written(value), kept);
                if kept >= 1 {
                    lemma_first_byte(0, value_written(value).take(kept - 1));
                    lemma_block_is_cut(value_bytes(value), kept - 1);
                }
            }
        }
    }
}

/// Outcomes one after the other, each behind its length.
pub open spec fn outcomes_written(outcomes: Seq<Seq<u8>>) -> Seq<u8> {
    outcomes.map_values(|outcome: Seq<u8>| measured(outcome)).flatten()
}

/// Whether each outcome can be read, and four bytes hold its length.
pub open spec fn outcomes_are_readable(outcomes: Seq<Seq<u8>>) -> bool {
    forall|i: int|
        0 <= i < outcomes.len() ==> (#[trigger] outcomes[i]).len() <= 0xFFFF_FFFF && answer_of(
            outcomes[i],
        ) is Ok
}

proof fn lemma_outcomes_written(outcomes: Seq<Seq<u8>>)
    requires
        outcomes.len() > 0,
    ensures
        outcomes_written(outcomes) == measured(outcomes[0]) + outcomes_written(
            outcomes.drop_first(),
        ),
{
    let parts = outcomes.map_values(|outcome: Seq<u8>| measured(outcome));
    assert(parts.drop_first() =~= outcomes.drop_first().map_values(
        |outcome: Seq<u8>| measured(outcome),
    ));
}

proof fn lemma_outcomes_are_cut(outcomes: Seq<Seq<u8>>, kept: int)
    requires
        outcomes_are_readable(outcomes),
        0 <= kept < outcomes_written(outcomes).len(),
    ensures
        take_each_answer(outcomes_written(outcomes).take(kept), outcomes.len()) == Err::<
            (Seq<AnswerView>, Seq<u8>),
            Error,
        >(Error::Malformed),
    decreases outcomes.len(),
{
    if outcomes.len() == 0 {
        assert(outcomes_written(outcomes).len() == 0);
    } else {
        let first = outcomes[0];
        let fewer = outcomes.drop_first();
        let rest = outcomes_written(fewer);
        lemma_outcomes_written(outcomes);
        lemma_start(measured(first), rest, kept);
        assert(first.len() <= 0xFFFF_FFFF);
        if kept < measured(first).len() {
            lemma_block_is_cut(first, kept);
        } else {
            let kept = kept - measured(first).len();
            assert(measured(first) == block(first));
            lemma_block(first, rest.take(kept));
            assert forall|i: int| 0 <= i < fewer.len() implies (#[trigger] fewer[i]).len()
                <= 0xFFFF_FFFF && answer_of(fewer[i]) is Ok by {
                assert(fewer[i] == outcomes[i + 1]);
            }
            lemma_outcomes_are_cut(fewer, kept);
        }
    }
}

proof fn lemma_outcomes_are_read(outcomes: Seq<Seq<u8>>, more: Seq<u8>)
    requires
        outcomes_are_readable(outcomes),
    ensures
        take_each_answer(outcomes_written(outcomes) + more, outcomes.len()) matches Ok(
            (answers, rest),
        ) && rest == more && answers.len() == outcomes.len() && forall|i: int|
            0 <= i < outcomes.len() ==> answer_of(#[trigger] outcomes[i]) == Ok::<
                AnswerView,
                Error,
            >(answers[i]),
    decreases outcomes.len(),
{
    if outcomes.len() == 0 {
        assert(outcomes_written(outcomes) + more =~= more);
    } else {
        let first = outcomes[0];
        let fewer = outcomes.drop_first();
        let rest = outcomes_written(fewer) + more;
        lemma_outcomes_written(outcomes);
        assert(outcomes_written(outcomes) + more =~= measured(first) + rest);
        assert(first.len() <= 0xFFFF_FFFF);
        assert(measured(first) == block(first));
        lemma_block(first, rest);
        assert forall|i: int| 0 <= i < fewer.len() implies (#[trigger] fewer[i]).len()
            <= 0xFFFF_FFFF && answer_of(fewer[i]) is Ok by {
            assert(fewer[i] == outcomes[i + 1]);
        }
        lemma_outcomes_are_read(fewer, more);
        let held = take_each_answer(rest, fewer.len());
        let answers = (take_each_answer(outcomes_written(outcomes) + more, outcomes.len())->Ok_0).0;
        assert forall|i: int| 0 <= i < outcomes.len() implies answer_of(#[trigger] outcomes[i])
            == Ok::<AnswerView, Error>(answers[i]) by {
            if i > 0 {
                assert(fewer[i - 1] == outcomes[i]);
                assert(answers[i] == (held->Ok_0).0[i - 1]);
            }
        }
    }
}

/// An answer frame says as many things as it has outcomes, each what its outcome says, in the order
/// in which they stand, whatever follows them. One that is cut short, wherever it ends, is
/// malformed: no outcome that did not arrive is passed over.
pub proof fn law_answers_say_what_each_outcome_says(
    outcomes: Seq<Seq<u8>>,
    more: Seq<u8>,
    kept: int,
)
    requires
        outcomes.len() <= 0xFFFF_FFFF,
        outcomes_are_readable(outcomes),
    ensures
        answers_of(big_endian(outcomes.len(), 4) + outcomes_written(outcomes) + more) matches Ok(
            answers,
        ) && answers.len() == outcomes.len() && forall|i: int|
            0 <= i < outcomes.len() ==> answer_of(#[trigger] outcomes[i]) == Ok::<
                AnswerView,
                Error,
            >(answers[i]),
        0 <= kept < 4 + outcomes_written(outcomes).len() ==> answers_of(
            (big_endian(outcomes.len(), 4) + outcomes_written(outcomes)).take(kept),
        ) == Err::<Seq<AnswerView>, Error>(Error::Malformed),
{
    let count = big_endian(outcomes.len(), 4);
    let held = outcomes_written(outcomes);
    lemma_big_endian_len(outcomes.len(), 4);
    assert(count + held + more =~= count + (held + more));
    lemma_u32(outcomes.len(), held + more);
    lemma_outcomes_are_read(outcomes, more);
    if 0 <= kept < 4 + held.len() {
        lemma_start(count, held, kept);
        if kept >= 4 {
            lemma_u32(outcomes.len(), held.take(kept - 4));
            lemma_outcomes_are_cut(outcomes, kept - 4);
        }
    }
}

}
