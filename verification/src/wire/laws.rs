//! What holds of requests and answers as a whole.

use vstd::prelude::*;
use vstd::utf8::encode_utf8;

use crate::bytes::{big_endian, lemma_big_endian_len, lemma_magnitude_of_big_endian, lemma_spans};
use crate::codec::extent::{
    lemma_block_carries_over, lemma_byte_carries_over, lemma_take_carries_over,
    lemma_text_carries_over, lemma_u32_carries_over,
};
use crate::codec::laws::{
    counts, is_shallow, is_sound, law_round_trip, lemma_block, lemma_take, lemma_text, lemma_u32,
};
use crate::codec::layout::{block, count, plain32, value_bytes};
use crate::codec::parse::{take_byte, take_text, take_u32};
use crate::error::Error;
use crate::protocol::CEILING;
use crate::value::ValueView;
use crate::wire::body::{take_encoded, take_u64, well_shaped, Read};
use crate::wire::message::{
    answer_of, answers_of, claimed, credentials_bytes, each_parameter, quoted_names, records_of,
    request_bytes, shown_request, take_each_answer, take_each_name, take_each_pair,
    take_each_record, take_each_text, take_exact, take_names, take_notes, take_only, take_pairs,
    take_records, take_suggestion, take_texts, AnswerView, RequestView, OUTCOME_REMOVED,
};
use crate::wire::push::{follow_bytes, FollowView};

verus! {

/// Outcomes one after the other, each behind its length.
pub open spec fn each_outcome(outcomes: Seq<Seq<u8>>) -> Seq<u8>
    decreases outcomes.len(),
{
    if outcomes.len() == 0 {
        seq![]
    } else {
        block(outcomes[0]) + each_outcome(outcomes.drop_first())
    }
}

/// An answer frame's body: how many outcomes there are, and those.
pub open spec fn answer_body(outcomes: Seq<Seq<u8>>) -> Seq<u8> {
    plain32(outcomes.len()) + each_outcome(outcomes)
}

/// What each outcome says on its own, up to the first that says nothing that can be read.
pub open spec fn answers_apart(outcomes: Seq<Seq<u8>>) -> Result<Seq<AnswerView>, Error>
    decreases outcomes.len(),
{
    if outcomes.len() == 0 {
        Ok(seq![])
    } else {
        match answer_of(outcomes[0]) {
            Err(error) => Err(error),
            Ok(answer) => match answers_apart(outcomes.drop_first()) {
                Err(error) => Err(error),
                Ok(answers) => Ok(seq![answer] + answers),
            },
        }
    }
}

proof fn lemma_each_outcome(outcomes: Seq<Seq<u8>>, rest: Seq<u8>)
    requires
        forall|i: int| 0 <= i < outcomes.len() ==> counts((#[trigger] outcomes[i]).len()),
    ensures
        take_each_answer(each_outcome(outcomes) + rest, outcomes.len()) == (match answers_apart(
            outcomes,
        ) {
            Err(error) => Err::<(Seq<AnswerView>, Seq<u8>), Error>(error),
            Ok(answers) => Ok((answers, rest)),
        }),
    decreases outcomes.len(),
{
    if outcomes.len() == 0 {
        assert(each_outcome(outcomes) + rest =~= rest);
    } else {
        let tail = outcomes.drop_first();
        assert(each_outcome(outcomes) + rest =~= block(outcomes[0]) + (each_outcome(tail) + rest));
        lemma_block(outcomes[0], each_outcome(tail) + rest);
        assert forall|i: int| 0 <= i < tail.len() implies counts((#[trigger] tail[i]).len()) by {
            assert(tail[i] == outcomes[i + 1]);
        }
        lemma_each_outcome(tail, rest);
    }
}

/// Every outcome is read within its own length: a body of outcomes says what each of them says
/// on its own, whatever stands beside it and whatever follows the last.
#[verifier::rlimit(30)]
pub proof fn law_outcomes_are_read_apart(outcomes: Seq<Seq<u8>>, more: Seq<u8>)
    requires
        counts(outcomes.len()),
        forall|i: int| 0 <= i < outcomes.len() ==> counts((#[trigger] outcomes[i]).len()),
    ensures
        answers_of(answer_body(outcomes)) == answers_apart(outcomes),
        answers_of(answer_body(outcomes) + more) == answers_apart(outcomes),
{
    let all = each_outcome(outcomes);
    lemma_u32(outcomes.len(), all);
    lemma_each_outcome(outcomes, Seq::empty());
    assert(all + Seq::empty() =~= all);
    lemma_u32(outcomes.len(), all + more);
    lemma_each_outcome(outcomes, more);
    assert(answer_body(outcomes) + more =~= plain32(outcomes.len()) + (all + more));
}

/// An outcome of a kind this build does not know is no error, whatever it holds.
pub proof fn law_unknown_outcomes_are_no_error(tag: u8, held: Seq<u8>)
    requires
        tag > OUTCOME_REMOVED,
    ensures
        answer_of(seq![tag] + held) == Ok::<AnswerView, Error>(AnswerView::Unknown),
{
}

/// Whether what was read is read again, with `more` after what followed it.
spec fn stays<T>(read: Read<T>, longer: Read<T>, more: Seq<u8>) -> bool {
    match read {
        Ok((value, rest)) => longer == Ok::<(T, Seq<u8>), Error>((value, rest + more)),
        Err(_) => true,
    }
}

proof fn lemma_encoded_stays(bytes: Seq<u8>, more: Seq<u8>)
    ensures
        stays(take_encoded(bytes), take_encoded(bytes + more), more),
{
    lemma_block_carries_over(bytes, more);
}

proof fn lemma_u64_stays(bytes: Seq<u8>, more: Seq<u8>)
    ensures
        stays(take_u64(bytes), take_u64(bytes + more), more),
{
    lemma_take_carries_over(bytes, 8, more);
}

proof fn lemma_each_name_stays(bytes: Seq<u8>, count: nat, more: Seq<u8>)
    ensures
        stays(take_each_name(bytes, count), take_each_name(bytes + more, count), more),
    decreases count,
{
    if count > 0 {
        lemma_u32_carries_over(bytes, more);
        if let Ok((_, rest)) = take_u32(bytes) {
            lemma_text_carries_over(rest, more);
            if let Ok((_, after)) = take_text(rest) {
                lemma_each_name_stays(after, (count - 1) as nat, more);
            }
        }
    }
}

proof fn lemma_names_stay(bytes: Seq<u8>, more: Seq<u8>)
    ensures
        stays(take_names(bytes), take_names(bytes + more), more),
{
    lemma_u32_carries_over(bytes, more);
    if let Ok((count, rest)) = take_u32(bytes) {
        lemma_each_name_stays(rest, count as nat, more);
    }
}

proof fn lemma_each_record_stays(bytes: Seq<u8>, count: nat, more: Seq<u8>)
    ensures
        stays(take_each_record(bytes, count), take_each_record(bytes + more, count), more),
    decreases count,
{
    if count > 0 {
        lemma_text_carries_over(bytes, more);
        if let Ok((_, rest)) = take_text(bytes) {
            lemma_encoded_stays(rest, more);
            if let Ok((_, after)) = take_encoded(rest) {
                lemma_each_record_stays(after, (count - 1) as nat, more);
            }
        }
    }
}

proof fn lemma_records_stay(bytes: Seq<u8>, more: Seq<u8>)
    ensures
        stays(take_records(bytes), take_records(bytes + more), more),
{
    lemma_u32_carries_over(bytes, more);
    if let Ok((count, rest)) = take_u32(bytes) {
        lemma_each_record_stays(rest, count as nat, more);
    }
}

proof fn lemma_each_pair_stays(bytes: Seq<u8>, count: nat, more: Seq<u8>)
    ensures
        stays(take_each_pair(bytes, count), take_each_pair(bytes + more, count), more),
    decreases count,
{
    if count > 0 {
        lemma_text_carries_over(bytes, more);
        if let Ok((_, rest)) = take_text(bytes) {
            lemma_text_carries_over(rest, more);
            if let Ok((_, after)) = take_text(rest) {
                lemma_each_pair_stays(after, (count - 1) as nat, more);
            }
        }
    }
}

proof fn lemma_pairs_stay(bytes: Seq<u8>, more: Seq<u8>)
    ensures
        stays(take_pairs(bytes), take_pairs(bytes + more), more),
{
    lemma_u32_carries_over(bytes, more);
    if let Ok((count, rest)) = take_u32(bytes) {
        lemma_each_pair_stays(rest, count as nat, more);
    }
}

proof fn lemma_each_text_stays(bytes: Seq<u8>, count: nat, more: Seq<u8>)
    ensures
        stays(take_each_text(bytes, count), take_each_text(bytes + more, count), more),
    decreases count,
{
    if count > 0 {
        lemma_text_carries_over(bytes, more);
        if let Ok((_, rest)) = take_text(bytes) {
            lemma_each_text_stays(rest, (count - 1) as nat, more);
        }
    }
}

proof fn lemma_texts_stay(bytes: Seq<u8>, more: Seq<u8>)
    ensures
        stays(take_texts(bytes), take_texts(bytes + more), more),
{
    lemma_u32_carries_over(bytes, more);
    if let Ok((count, rest)) = take_u32(bytes) {
        lemma_each_text_stays(rest, count as nat, more);
    }
}

proof fn lemma_appended_fields_stay(bytes: Seq<u8>, more: Seq<u8>)
    ensures
        bytes.len() > 0 ==> stays(take_notes(bytes), take_notes(bytes + more), more),
        bytes.len() > 0 ==> stays(take_only(bytes), take_only(bytes + more), more),
        bytes.len() > 0 ==> stays(take_exact(bytes), take_exact(bytes + more), more),
        bytes.len() > 0 ==> stays(take_suggestion(bytes), take_suggestion(bytes + more), more),
{
    lemma_pairs_stay(bytes, more);
    lemma_byte_carries_over(bytes, more);
    if let Ok((_, rest)) = take_byte(bytes) {
        lemma_text_carries_over(rest, more);
        lemma_pairs_stay(rest, more);
    }
}

proof fn lemma_records_of_stays(bytes: Seq<u8>, more: Seq<u8>)
    requires
        records_of(bytes) matches Ok(records) ==> records.suggestion is Some,
    ensures
        records_of(bytes) is Ok ==> records_of(bytes + more) == records_of(bytes),
{
    lemma_byte_carries_over(bytes, more);
    if let Ok((_, rest)) = take_byte(bytes) {
        lemma_names_stay(rest, more);
        if let Ok((_, rest)) = take_names(rest) {
            lemma_records_stay(rest, more);
            if let Ok((_, rest)) = take_records(rest) {
                lemma_appended_fields_stay(rest, more);
                if let Ok((_, rest)) = take_notes(rest) {
                    lemma_appended_fields_stay(rest, more);
                    if let Ok((_, rest)) = take_only(rest) {
                        lemma_appended_fields_stay(rest, more);
                        if let Ok((_, rest)) = take_exact(rest) {
                            lemma_appended_fields_stay(rest, more);
                        }
                    }
                }
            }
        }
    }
}

/// A later minor may add a field to an outcome this build already knows: an outcome that was read
/// reads the same with more bytes after it. Records are read so once they hold every field that
/// this build knows of, down to the suggestion.
pub proof fn law_trailing_fields_are_skipped(outcome: Seq<u8>, more: Seq<u8>)
    requires
        answer_of(outcome) is Ok,
        answer_of(outcome) matches Ok(AnswerView::Records(records)) ==> records.suggestion is Some,
    ensures
        answer_of(outcome + more) == answer_of(outcome),
{
    lemma_byte_carries_over(outcome, more);
    if let Ok((_, rest)) = take_byte(outcome) {
        lemma_names_stay(rest, more);
        if let Ok((_, after)) = take_names(rest) {
            lemma_encoded_stays(after, more);
        }
        lemma_texts_stay(rest, more);
        lemma_u64_stays(rest, more);
        if outcome[0] == crate::wire::message::OUTCOME_RECORDS {
            lemma_records_of_stays(rest, more);
        }
    }
}

/// A bound value never becomes part of the script: the body of a request opens with the script
/// and its length, whoever it is from and whatever is bound.
pub proof fn law_script_comes_first(request: RequestView)
    requires
        counts(encode_utf8(request.script).len()),
    ensures
        take_text(request_bytes(request)) matches Ok((script, _)) && script == request.script,
        block(encode_utf8(request.script)).is_prefix_of(request_bytes(request)),
{
    let rest = request_bytes(request).skip(block(encode_utf8(request.script)).len() as int);
    assert(request_bytes(request) =~= block(encode_utf8(request.script)) + rest);
    lemma_text(request.script, rest);
}

/// Whether two runs of fields have the same names.
pub open spec fn same_names(
    a: Seq<(Seq<char>, ValueView)>,
    b: Seq<(Seq<char>, ValueView)>,
) -> bool {
    a.len() == b.len() && forall|i: int| 0 <= i < a.len() ==> (#[trigger] a[i]).0 == b[i].0
}

proof fn lemma_quoted_names(a: Seq<(Seq<char>, ValueView)>, b: Seq<(Seq<char>, ValueView)>)
    requires
        same_names(a, b),
    ensures
        quoted_names(a) == quoted_names(b),
    decreases a.len(),
{
    if a.len() > 1 {
        assert forall|i: int| 0 <= i < a.drop_last().len() implies (#[trigger] a.drop_last()[i]).0
            == b.drop_last()[i].0 by {
            assert(a[i].0 == b[i].0);
        }
        lemma_quoted_names(a.drop_last(), b.drop_last());
        assert(a[a.len() - 1].0 == b[b.len() - 1].0);
    } else if a.len() == 1 {
        assert(a[0].0 == b[0].0);
    }
}

/// Printing a request shows no secret: requests of the same script, from the same name, that
/// bind the same names print the same, whatever the password and the values are.
pub proof fn law_printing_shows_no_secret(request: RequestView, other: RequestView)
    requires
        request.script == other.script,
        claimed(request.credentials) == claimed(other.credentials),
        same_names(request.parameters, other.parameters),
    ensures
        shown_request(request) == shown_request(other),
{
    lemma_quoted_names(request.parameters, other.parameters);
}

/// Who a request is from, as a node reads it.
pub open spec fn take_credentials(bytes: Seq<u8>) -> Read<Option<(Seq<char>, Seq<char>)>> {
    match well_shaped(take_byte(bytes)) {
        Err(error) => Err(error),
        Ok((flag, rest)) => if flag == 0 {
            Ok((None, rest))
        } else {
            match well_shaped(take_text(rest)) {
                Err(error) => Err(error),
                Ok((name, rest)) => match well_shaped(take_text(rest)) {
                    Err(error) => Err(error),
                    Ok((password, rest)) => Ok((Some((name, password)), rest)),
                },
            }
        },
    }
}

/// What a node reads of a request frame's body: the script, who it is from, and the parameters,
/// each value in the codec.
pub open spec fn take_request(bytes: Seq<u8>) -> Read<RequestView> {
    match well_shaped(take_text(bytes)) {
        Err(error) => Err(error),
        Ok((script, rest)) => match take_credentials(rest) {
            Err(error) => Err(error),
            Ok((credentials, rest)) => match take_records(rest) {
                Err(error) => Err(error),
                Ok((parameters, rest)) => Ok(
                    (RequestView { script, credentials, parameters }, rest),
                ),
            },
        },
    }
}

/// Whether every value can be written down and nests no deeper than the limit.
pub open spec fn values_travel(parameters: Seq<(Seq<char>, ValueView)>) -> bool {
    forall|i: int|
        0 <= i < parameters.len() ==> is_sound((#[trigger] parameters[i]).1) && is_shallow(
            parameters[i].1,
            0,
        )
}

proof fn lemma_block_counts(bytes: Seq<u8>)
    ensures
        block(bytes).len() == bytes.len() + 4,
{
    lemma_big_endian_len(count(bytes.len()), 4);
}

/// Three runs of bytes before a rest are one before the next.
proof fn lemma_in_turn(first: Seq<u8>, second: Seq<u8>, third: Seq<u8>, rest: Seq<u8>)
    ensures
        first + second + third + rest == first + (second + (third + rest)),
{
    assert(first + second + third + rest =~= first + (second + (third + rest)));
}

/// A value in a block is read back.
pub proof fn lemma_encoded(value: ValueView, rest: Seq<u8>)
    requires
        counts(value_bytes(value).len()),
        is_sound(value),
        is_shallow(value, 0),
    ensures
        take_encoded(block(value_bytes(value)) + rest) == Ok::<(ValueView, Seq<u8>), Error>(
            (value, rest),
        ),
{
    lemma_block(value_bytes(value), rest);
    law_round_trip(value);
}

/// One parameter is read back before those that follow it.
proof fn lemma_parameter(
    parameter: (Seq<char>, ValueView),
    held: Seq<u8>,
    others: Seq<(Seq<char>, ValueView)>,
    rest: Seq<u8>,
)
    requires
        counts(encode_utf8(parameter.0).len()),
        counts(value_bytes(parameter.1).len()),
        is_sound(parameter.1),
        is_shallow(parameter.1, 0),
        take_each_record(held + rest, others.len()) == Ok::<
            (Seq<(Seq<char>, ValueView)>, Seq<u8>),
            Error,
        >((others, rest)),
    ensures
        take_each_record(
            block(encode_utf8(parameter.0)) + block(value_bytes(parameter.1)) + held + rest,
            others.len() + 1,
        ) == Ok::<(Seq<(Seq<char>, ValueView)>, Seq<u8>), Error>((seq![parameter] + others, rest)),
{
    let name = block(encode_utf8(parameter.0));
    let value = block(value_bytes(parameter.1));
    let after = held + rest;
    lemma_in_turn(name, value, held, rest);
    lemma_text(parameter.0, value + after);
    lemma_encoded(parameter.1, after);
}

proof fn lemma_each_parameter(parameters: Seq<(Seq<char>, ValueView)>, rest: Seq<u8>)
    requires
        each_parameter(parameters).len() <= CEILING,
        values_travel(parameters),
    ensures
        parameters.len() <= each_parameter(parameters).len(),
        take_each_record(each_parameter(parameters) + rest, parameters.len()) == Ok::<
            (Seq<(Seq<char>, ValueView)>, Seq<u8>),
            Error,
        >((parameters, rest)),
    decreases parameters.len(),
{
    if parameters.len() == 0 {
        assert(each_parameter(parameters) + rest =~= rest);
        assert(parameters =~= Seq::empty());
    } else {
        let first = parameters[0];
        let tail = parameters.drop_first();
        lemma_block_counts(encode_utf8(first.0));
        lemma_block_counts(value_bytes(first.1));
        assert(values_travel(tail)) by {
            assert forall|i: int| 0 <= i < tail.len() implies is_sound((#[trigger] tail[i]).1)
                && is_shallow(tail[i].1, 0) by {
                assert(tail[i] == parameters[i + 1]);
            }
        }
        lemma_each_parameter(tail, rest);
        lemma_parameter(first, each_parameter(tail), tail, rest);
        assert(seq![first] + tail =~= parameters);
    }
}

proof fn lemma_credentials(credentials: Option<(Seq<char>, Seq<char>)>, rest: Seq<u8>)
    requires
        credentials_bytes(credentials).len() <= CEILING,
    ensures
        take_credentials(credentials_bytes(credentials) + rest) == Ok::<
            (Option<(Seq<char>, Seq<char>)>, Seq<u8>),
            Error,
        >((credentials, rest)),
{
    let all = credentials_bytes(credentials) + rest;
    match credentials {
        None => {
            assert(all.drop_first() =~= rest);
        },
        Some((name, password)) => {
            let first = block(encode_utf8(name));
            let second = block(encode_utf8(password));
            lemma_block_counts(encode_utf8(name));
            lemma_block_counts(encode_utf8(password));
            assert(all.drop_first() =~= first + (second + rest));
            lemma_text(name, second + rest);
            lemma_text(password, rest);
        },
    }
}

/// What was asked is what a node reads: of every request that fits a frame, the script, who it is
/// from, and every value under its name cross unchanged.
pub proof fn law_requests_are_read_as_asked(request: RequestView)
    requires
        request_bytes(request).len() <= CEILING,
        values_travel(request.parameters),
    ensures
        take_request(request_bytes(request)) == Ok::<(RequestView, Seq<u8>), Error>(
            (request, Seq::empty()),
        ),
{
    let script = block(encode_utf8(request.script));
    let signed = credentials_bytes(request.credentials);
    let counted = plain32(count(request.parameters.len()));
    let held = each_parameter(request.parameters);
    lemma_block_counts(encode_utf8(request.script));
    lemma_big_endian_len(count(request.parameters.len()), 4);
    assert(request_bytes(request) =~= script + (signed + (counted + held)));
    lemma_text(request.script, signed + (counted + held));
    lemma_credentials(request.credentials, counted + held);
    lemma_each_parameter(request.parameters, Seq::empty());
    assert(held + Seq::empty() =~= held);
    lemma_u32(request.parameters.len(), held);
}

/// What a node reads of a subscribe frame's body.
pub open spec fn take_follow(bytes: Seq<u8>) -> Read<FollowView> {
    match take_u64(bytes) {
        Err(error) => Err(error),
        Ok((from, rest)) => match well_shaped(take_byte(rest)) {
            Err(error) => Err(error),
            Ok((flag, rest)) => if flag == 0 {
                Ok((FollowView { from, table: None }, rest))
            } else {
                match well_shaped(take_text(rest)) {
                    Err(error) => Err(error),
                    Ok((table, rest)) => Ok((FollowView { from, table: Some(table) }, rest)),
                }
            },
        },
    }
}

/// What was asked to be followed is what a node reads, of every subscription that fits a frame.
pub proof fn law_subscriptions_are_read_as_asked(follow: FollowView)
    requires
        follow_bytes(follow).len() <= CEILING,
    ensures
        take_follow(follow_bytes(follow)) == Ok::<(FollowView, Seq<u8>), Error>(
            (follow, Seq::empty()),
        ),
{
    let position = big_endian(follow.from as nat, 8);
    lemma_spans();
    lemma_magnitude_of_big_endian(follow.from as nat, 8);
    match follow.table {
        None => {
            let rest = seq![0u8];
            lemma_take(position, rest);
            assert(rest.drop_first() =~= Seq::empty());
        },
        Some(table) => {
            let name = block(encode_utf8(table));
            let rest = seq![1u8] + name;
            lemma_block_counts(encode_utf8(table));
            lemma_take(position, rest);
            assert(rest.drop_first() =~= name + Seq::empty());
            lemma_text(table, Seq::empty());
        },
    }
}

}
