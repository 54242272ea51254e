//! What the two ends of a connection make of each other: what is written is read, step by step, by
//! the calls that write it and the calls that read it.

use vstd::prelude::*;

use crate::client::{refusal_words, refuses_with, sends, Client};
use crate::codec::laws::{is_shallow, is_sound, law_escaped_blocks_are_read_back, law_round_trip};
use crate::codec::layout::terminated;
use crate::codec::read::{decode, Reader};
use crate::codec::write::{encode, put_varbytes};
use crate::error::{EncodingFault, Error};
use crate::feed::Feed;
use crate::fields::{field_of, lemma_with_field, ordered, with_fields};
use crate::mapping::fault::{fault_words, MappingFault};
use crate::query::BuildError;
use crate::text::{joined, lemma_assoc, quoted, IntoText};
use crate::value::{entries_view, IntoValue, Value, ValueView};
use crate::wire::frame::{
    check_magic, check_version, frame_bytes, frame_in, greet, law_frames_round_trip,
    law_frames_survive_any_split, law_no_more_is_wanted_than_the_frame, Heard, HeardView, Incoming,
    Kind,
};
use crate::wire::laws::{
    law_requests_are_read_as_asked, law_subscriptions_are_read_as_asked, take_follow, take_request,
    values_travel,
};
use crate::wire::message::{
    answers_of, answers_view, decode_answers, quoted_names, request_bytes, shown_request, Answer,
    AnswerView, Request, RequestView,
};
use crate::wire::push::{change_of, follow_bytes, Change, ChangeView, Follow, FollowView};

verus! {

/// A value that is encoded and decoded again is the same value, and there is one way to encode it.
pub proof fn law_decoding_undoes_encoding(
    value: &Value,
    bytes: Vec<u8>,
    again: Vec<u8>,
    read: &[u8],
    decoded: Result<Value, EncodingFault>,
)
    requires
        is_sound(value@),
        is_shallow(value@, 0),
        call_ensures(encode, (value,), bytes),
        call_ensures(encode, (value,), again),
        read@ == bytes@,
        call_ensures(decode, (read,), decoded),
    ensures
        decoded matches Ok(same) && same@ == value@,
        again@ == bytes@,
{
    law_round_trip(value@);
}

/// A frame that is written is read as the same frame, whatever follows it, and a body over the
/// ceiling is refused with its length and not written.
pub proof fn law_reading_undoes_writing(
    kind: Kind,
    body: &[u8],
    written: Result<Vec<u8>, Error>,
    said: &[u8],
    more: Seq<u8>,
    frame: Result<Option<(Kind, Vec<u8>)>, Error>,
)
    requires
        call_ensures(crate::wire::frame::write, (kind, body), written),
        written is Ok ==> said@ == written->Ok_0@ + more,
        call_ensures(crate::wire::frame::read, (said,), frame),
    ensures
        written is Ok <==> body@.len() <= 16 * 1024 * 1024,
        written is Ok ==> (frame matches Ok(Some((same, held))) && same == kind && held@ == body@),
        written matches Err(error) ==> (body@.len() <= 0xFFFF_FFFF ==> error == (Error::TooLarge {
            length: body@.len() as u32,
        })),
{
    if body@.len() <= 16 * 1024 * 1024 {
        law_frames_round_trip(kind, body@, more);
    }
}

/// A frame that arrives in pieces, each no larger than what is wanted, is heard whole with its last
/// piece and not before.
pub proof fn law_frames_are_heard_whole(
    kind: Kind,
    body: Seq<u8>,
    incoming: &mut Incoming,
    wanted: usize,
    chunk: &[u8],
    heard: Result<Heard, Error>,
)
    requires
        body.len() <= 16 * 1024 * 1024,
        old(incoming).held().len() + chunk@.len() <= 5 + body.len(),
        chunk@.len() > 0,
        old(incoming).held() + chunk@ == frame_bytes(kind, body).take(
            (old(incoming).held().len() + chunk@.len()) as int,
        ),
        call_ensures(Incoming::wanted, (&*old(incoming),), wanted),
        chunk@.len() <= wanted,
        call_ensures(Incoming::hear, (incoming, chunk), heard),
    ensures
        wanted == (if old(incoming).held().len() < 5 {
            5 - old(incoming).held().len()
        } else {
            5 + body.len() - old(incoming).held().len()
        }),
        old(incoming).held().len() + chunk@.len() < 5 + body.len() ==> {
            &&& heard matches Ok(said) && said@ == HeardView::More
            &&& final(incoming).held() == old(incoming).held() + chunk@
        },
        old(incoming).held().len() + chunk@.len() == 5 + body.len() ==> {
            &&& heard matches Ok(said) && said@ == HeardView::Frame(kind, body)
            &&& final(incoming).held().len() == 0
        },
{
    let frame = frame_bytes(kind, body);
    let held = old(incoming).held();
    let to = (held.len() + chunk@.len()) as nat;
    law_no_more_is_wanted_than_the_frame(kind, body, held.len());
    assert(frame.take(to as int).take(held.len() as int) =~= held);
    assert(frame.take(to as int).take(held.len() as int) =~= frame.take(held.len() as int));
    law_frames_survive_any_split(kind, body, held.len(), to);
    assert(frame.subrange(held.len() as int, to as int) =~= chunk@) by {
        assert((held + chunk@).subrange(held.len() as int, to as int) =~= chunk@);
        assert(frame.take(to as int).subrange(held.len() as int, to as int) =~= frame.subrange(
            held.len() as int,
            to as int,
        ));
    }
}

/// A request starts with its script, nobody signed in and nothing bound. Signing in and binding
/// each add what they are given and leave the rest; a name is bound to the value it was given last.
pub proof fn law_requests_hold_what_they_are_given<T: IntoText, P: IntoText, V: IntoValue>(
    text: T,
    password: P,
    value: V,
    request: Request,
    made: Request,
    other: Seq<char>,
)
    requires
        ordered(request@.parameters),
    ensures
        call_ensures(Request::new, (text,), made) ==> made@.script == text.text()
            && made@.credentials is None && made@.parameters.len() == 0,
        call_ensures(Request::as_user, (request, text, password), made) ==> made@.credentials
            == Some((text.text(), password.text())) && made@.script == request@.script
            && made@.parameters == request@.parameters,
        call_ensures(Request::bind, (request, text, value), made) ==> {
            &&& made@.script == request@.script
            &&& made@.credentials == request@.credentials
            &&& field_of(made@.parameters, text.text()) == Some(value.value())
            &&& other != text.text() ==> field_of(made@.parameters, other) == field_of(
                request@.parameters,
                other,
            )
        },
{
    lemma_with_field(request@.parameters, text.text(), value.value());
}

/// What a request says is what a node reads of its bytes.
pub proof fn law_encoded_requests_are_read(request: &Request, body: Vec<u8>)
    requires
        call_ensures(Request::encode, (request,), body),
        body@.len() <= 16 * 1024 * 1024,
        values_travel(request@.parameters),
    ensures
        take_request(body@) == Ok::<(RequestView, Seq<u8>), Error>((request@, Seq::empty())),
{
    law_requests_are_read_as_asked(request@);
}

/// A subscription follows everything from the start, or what comes after a commit; narrowing it
/// names the table and keeps the position. What it says is what a node reads of its bytes.
pub proof fn law_subscriptions_start_where_they_say<T: IntoText>(
    sequence: u64,
    table: T,
    follow: Follow,
    made: Follow,
    body: Vec<u8>,
)
    ensures
        call_ensures(Follow::everything, (), made) ==> made@.from == 0 && made@.table is None,
        call_ensures(Follow::resuming_after, (sequence,), made) ==> made@.table is None && (sequence
            < u64::MAX ==> made@.from == sequence + 1) && (sequence == u64::MAX ==> made@.from
            == sequence),
        call_ensures(Follow::to_table, (follow, table), made) ==> made@.table == Some(table.text())
            && made@.from == follow@.from,
        call_ensures(Follow::encode, (&made,), body) && body@.len() <= 16 * 1024 * 1024
            ==> take_follow(body@) == Ok::<(FollowView, Seq<u8>), Error>((made@, Seq::empty())),
{
    if call_ensures(Follow::encode, (&made,), body) && body@.len() <= 16 * 1024 * 1024 {
        law_subscriptions_are_read_as_asked(made@);
    }
}

/// What is sent to a node is one request with the script, the one who signs in and the parameters
/// that were given.
pub proof fn law_scripts_are_sent_as_requests<S>(
    client: &Client<S>,
    script: &str,
    credentials: Option<(&str, &str)>,
    parameters: Vec<(String, Value)>,
    request: &Request,
    sent: Result<Vec<u8>, Error>,
)
    ensures
        ({
            let named = match credentials {
                Some((name, password)) => Some((name@, password@)),
                None => None,
            };
            &&& call_ensures(Client::run, (client, script, credentials), sent) ==> sends(
                sent,
                Kind::Request,
                request_bytes(
                    RequestView {
                        script: script@,
                        credentials: named,
                        parameters: Seq::empty(),
                    },
                ),
            )
            &&& call_ensures(Client::run_with, (client, script, credentials, parameters), sent)
                ==> sends(
                sent,
                Kind::Request,
                request_bytes(
                    RequestView {
                        script: script@,
                        credentials: named,
                        parameters: with_fields(Seq::empty(), entries_view(parameters@)),
                    },
                ),
            )
            &&& call_ensures(Client::send, (client, request), sent) ==> sends(
                sent,
                Kind::Request,
                request_bytes(request@),
            )
        }),
{
}

/// An answer is read as answers, a refusal as the node's words, an end of the stream as truncation,
/// and every other frame is refused by the byte of its kind.
pub proof fn law_answers_are_told_apart<S>(
    frame: Option<(Kind, Vec<u8>)>,
    answered: Result<Vec<Answer>, Error>,
)
    requires
        call_ensures(Client::<S>::answered, (frame,), answered),
    ensures
        frame is None ==> (answered matches Err(error) && error == Error::Truncated),
        frame matches Some((Kind::Answer, body)) ==> match answered {
            Ok(answers) => answers_of(body@) == Ok::<Seq<AnswerView>, Error>(
                answers_view(answers@),
            ),
            Err(error) => answers_of(body@) == Err::<Seq<AnswerView>, Error>(error),
        },
        frame matches Some((Kind::Refusal, body)) ==> (answered matches Err(error) && refuses_with(
            error,
            refusal_words(body@),
        )),
        frame matches Some((Kind::Request, _)) ==> (answered matches Err(error) && error == (
        Error::UnknownFrame { tag: 1 })),
        frame matches Some((Kind::Subscribe, _)) ==> (answered matches Err(error) && error == (
        Error::UnknownFrame { tag: 4 })),
        frame matches Some((Kind::Change, _)) ==> (answered matches Err(error) && error == (
        Error::UnknownFrame { tag: 5 })),
{
}

/// Following takes the connection over and sends one subscription.
pub proof fn law_following_sends_a_subscription<S>(
    client: Client<S>,
    asked: &Follow,
    followed: Result<(Feed<S>, Vec<u8>), Error>,
)
    requires
        call_ensures(Client::follow, (client, asked), followed),
    ensures
        followed is Ok <==> follow_bytes(asked@).len() <= 16 * 1024 * 1024,
        followed matches Ok((feed, bytes)) ==> feed.connection() == client.connection()
            && !feed.has_ended() && frame_in(bytes@) == Ok::<Option<(Kind, Seq<u8>)>, Error>(
            Some((Kind::Subscribe, follow_bytes(asked@))),
        ),
{
    if follow_bytes(asked@).len() <= 16 * 1024 * 1024 {
        let frame = frame_bytes(Kind::Subscribe, follow_bytes(asked@));
        law_frames_round_trip(Kind::Subscribe, follow_bytes(asked@), Seq::empty());
        assert(frame + Seq::<u8>::empty() =~= frame);
    }
}

/// A feed gives each change as it arrives and goes on, whether or not it could be read. Anything
/// else ends it: the end of the stream without an error, a refusal with the node's words, and any
/// other frame by the byte of its kind. Once it has ended it gives nothing.
pub proof fn law_feeds_end_once<S>(
    feed: &mut Feed<S>,
    frame: Option<(Kind, Vec<u8>)>,
    next: Result<Option<Change>, Error>,
)
    requires
        call_ensures(Feed::heard, (feed, frame), next),
    ensures
        final(feed).connection() == old(feed).connection(),
        final(feed).has_ended() <==> old(feed).has_ended() || !(frame is Some && (frame->0).0
            is Change),
        old(feed).has_ended() ==> (next matches Ok(change) && change is None),
        !old(feed).has_ended() ==> {
            &&& frame is None ==> (next matches Ok(change) && change is None)
            &&& frame matches Some((Kind::Change, body)) ==> match next {
                Ok(change) => change is Some && change_of(body@) == Ok::<ChangeView, Error>(
                    change->0@,
                ),
                Err(error) => change_of(body@) == Err::<ChangeView, Error>(error),
            }
            &&& frame matches Some((Kind::Refusal, body)) ==> (next matches Err(error)
                && refuses_with(error, refusal_words(body@)))
            &&& frame matches Some((Kind::Request, _)) ==> (next matches Err(error) && error == (
            Error::UnknownFrame { tag: 1 }))
            &&& frame matches Some((Kind::Answer, _)) ==> (next matches Err(error) && error == (
            Error::UnknownFrame { tag: 2 }))
            &&& frame matches Some((Kind::Subscribe, _)) ==> (next matches Err(error) && error == (
            Error::UnknownFrame { tag: 4 }))
        },
{
}

/// What the calls that read a body give is what its bytes say.
pub proof fn law_bodies_are_read_as_they_are(
    body: &[u8],
    answers: Result<Vec<Answer>, Error>,
    change: Result<Change, Error>,
)
    requires
        call_ensures(decode_answers, (body,), answers),
        call_ensures(Change::decode, (body,), change),
    ensures
        match answers {
            Ok(answers) => answers_of(body@) == Ok::<Seq<AnswerView>, Error>(
                answers_view(answers@),
            ),
            Err(error) => answers_of(body@) == Err::<Seq<AnswerView>, Error>(error),
        },
        match change {
            Ok(change) => change_of(body@) == Ok::<ChangeView, Error>(change@),
            Err(error) => change_of(body@) == Err::<ChangeView, Error>(error),
        },
{
}

/// Seen from outside, answers are as many as there are, each as it is on its own.
pub proof fn law_each_answer_is_seen(answers: Seq<Answer>, at: int)
    requires
        0 <= at < answers.len(),
    ensures
        answers_view(answers).len() == answers.len(),
        answers_view(answers)[at] == answers[at]@,
{
}

/// A request is printed with its script, the one who signs in, and the names that are bound, in
/// this order; neither the password nor a value is.
pub proof fn law_requests_are_printed_in_order(request: RequestView)
    ensures
        shown_request(request) == "Request { script: "@ + (quoted(request.script) + (", as: "@ + ((
        match request.credentials {
            Some((name, _)) => quoted(name),
            None => "\"nobody\""@,
        }) + (", parameters: ["@ + (joined(
            request.parameters.map_values(|field: (Seq<char>, ValueView)| quoted(field.0)),
        ) + "], .. }"@))))),
{
    let claimed = match request.credentials {
        Some((name, _)) => quoted(name),
        None => "\"nobody\""@,
    };
    let names = joined(
        request.parameters.map_values(|field: (Seq<char>, ValueView)| quoted(field.0)),
    );
    lemma_names_are_joined(request.parameters);
    let (t1, t2, t3, t4) = ("Request { script: "@, ", as: "@, ", parameters: ["@, "], .. }"@);
    let h1 = t1 + quoted(request.script);
    let h2 = h1 + t2;
    let h3 = h2 + claimed;
    let h4 = h3 + t3;
    assert(shown_request(request) == h4 + names + t4);
    let r4 = names + t4;
    lemma_assoc(h4, names, t4);
    let r3 = t3 + r4;
    lemma_assoc(h3, t3, r4);
    let r2 = claimed + r3;
    lemma_assoc(h2, claimed, r3);
    lemma_assoc(h1, t2, r2);
    lemma_assoc(t1, quoted(request.script), t2 + r2);
}

proof fn lemma_names_are_joined(fields: Seq<(Seq<char>, ValueView)>)
    ensures
        quoted_names(fields) == joined(
            fields.map_values(|field: (Seq<char>, ValueView)| quoted(field.0)),
        ),
    decreases fields.len(),
{
    let names = fields.map_values(|field: (Seq<char>, ValueView)| quoted(field.0));
    if fields.len() > 1 {
        lemma_names_are_joined(fields.drop_last());
        assert(names.drop_last() =~= fields.drop_last().map_values(
            |field: (Seq<char>, ValueView)| quoted(field.0),
        ));
    }
}

/// A block that is escaped and appended is read back as it was, and what follows it is left.
pub proof fn law_appended_blocks_are_read_back(
    out: &mut Vec<u8>,
    bytes: &[u8],
    more: Seq<u8>,
    reader: &mut Reader,
    taken: Result<Vec<u8>, EncodingFault>,
)
    requires
        call_ensures(put_varbytes, (out, bytes), ()),
        old(out)@.len() == 0,
        old(reader).rest() == final(out)@ + more,
        call_ensures(Reader::take_varbytes, (reader,), taken),
    ensures
        taken matches Ok(same) && same@ == bytes@,
        final(reader).rest() == more,
{
    law_escaped_blocks_are_read_back(bytes@, more);
    assert(old(out)@ + terminated(bytes@) =~= terminated(bytes@));
}

/// A refusal, a fault and a reason are told in the words that stand for them.
pub proof fn law_failures_are_told_in_words(
    error: &Error,
    fault: &EncodingFault,
    mapping: &MappingFault,
    build: &BuildError,
    told: String,
    named: String,
    mapped: String,
    built: String,
)
    requires
        call_ensures(Error::to_string, (error,), told),
        call_ensures(EncodingFault::to_string, (fault,), named),
        call_ensures(MappingFault::to_string, (mapping,), mapped),
        call_ensures(BuildError::to_string, (build,), built),
    ensures
        error.is_told_by(told@),
        named@ == fault.words(),
        mapped@ == fault_words(mapping@),
        built@ == build@.words(),
{
}

/// A connection is held as it was handed over, by a client and by a feed, and a feed has not ended
/// before it heard anything.
pub proof fn law_connections_are_held<S>(
    stream: S,
    client: Client<S>,
    feed: Feed<S>,
    other: &Feed<S>,
    finished: bool,
)
    requires
        call_ensures(Client::with_stream, (stream,), client),
        call_ensures(Feed::new, (stream,), feed),
        call_ensures(Feed::is_finished, (other,), finished),
    ensures
        client.connection() == stream,
        feed.connection() == stream,
        !feed.has_ended(),
        finished == other.has_ended(),
{
}

/// A greeting is checked against the four bytes that name the protocol and the major version; of
/// the version that a node speaks the minor is told, and a major that is another is refused with
/// both.
pub proof fn law_greetings_are_checked(
    magic: [u8; 4],
    version: [u8; 2],
    said: Vec<u8>,
    known: Result<(), Error>,
    spoken: Result<u8, Error>,
)
    requires
        call_ensures(greet, (), said),
        call_ensures(check_magic, (magic,), known),
        call_ensures(check_version, (version,), spoken),
    ensures
        said@ == seq![0x54u8, 0x45u8, 0x53u8, 0x53u8, 1u8, 1u8],
        known is Ok <==> magic@ == seq![0x54u8, 0x45u8, 0x53u8, 0x53u8],
        known matches Err(error) ==> error == Error::NotThisProtocol,
        spoken is Ok <==> version@[0] == 1,
        spoken matches Ok(minor) ==> minor == version@[1],
        spoken matches Err(error) ==> error == (Error::WrongVersion {
            found: version@[0],
            supported: 1,
        }),
{
}

/// A kind is written as its byte and read of it.
pub proof fn law_kinds_are_written_as_their_bytes(
    kind: Kind,
    tag: u8,
    written: u8,
    read: Option<Kind>,
)
    requires
        call_ensures(Kind::tag, (kind,), written),
        call_ensures(Kind::from_tag, (tag,), read),
    ensures
        written == (match kind {
            Kind::Request => 1u8,
            Kind::Answer => 2u8,
            Kind::Refusal => 3u8,
            Kind::Subscribe => 4u8,
            Kind::Change => 5u8,
        }),
        read is Some <==> 1 <= tag <= 5,
        tag == written ==> read == Some(kind),
{
}

/// Nothing is held of a frame before anything was heard, and a body is being heard from the fifth
/// byte on.
pub proof fn law_bodies_are_heard_after_the_header(
    fresh: Incoming,
    incoming: &Incoming,
    in_body: bool,
)
    requires
        call_ensures(Incoming::new, (), fresh),
        call_ensures(Incoming::in_body, (incoming,), in_body),
    ensures
        fresh.held().len() == 0,
        in_body <==> incoming.held().len() >= 5,
{
}

}
