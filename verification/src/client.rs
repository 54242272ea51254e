//! The connection, and what you can ask it.

use vstd::prelude::*;
use vstd::utf8::{
    decode_utf8, encode_utf8, encode_utf8_decode_utf8, encode_utf8_valid_utf8, valid_utf8,
};

use crate::codec::layout::count;
use crate::error::Error;
use crate::feed::Feed;
use crate::fields::with_fields;
use crate::protocol::CEILING;
use crate::text::text_of_bytes;
use crate::value::{entries_view, Fields, Value};
use crate::wire::frame::{
    frame_bytes, frame_in, law_frames_round_trip, law_no_more_is_wanted_than_the_frame, Kind,
};
use crate::wire::message::{
    answers_of, answers_view, decode_answers, request_bytes, Answer, AnswerView, Request,
    RequestView,
};
use crate::wire::push::{follow_bytes, Follow};

verus! {

/// A connection to one node.
///
/// One connection is one session: `USE NAMESPACE prod;` is still in force in the next statement on
/// this client. Two clients are two sessions and share nothing but the store.
///
/// Each exchange is two halves: a method that gives the bytes to send, and
/// [`answered`](Self::answered), which says what the frame that came back comes to. What carries
/// the bytes is the caller's.
#[derive(Debug)]
pub struct Client<S> {
    stream: S,
}

/// Who a request is from, where anyone.
pub open spec fn signed_in(credentials: Option<(&str, &str)>) -> Option<(Seq<char>, Seq<char>)> {
    match credentials {
        Some((name, password)) => Some((name@, password@)),
        None => None,
    }
}

/// Whether `sent` is the frame that carries a body, or the refusal to send one that is too large.
pub open spec fn sends(sent: Result<Vec<u8>, Error>, kind: Kind, body: Seq<u8>) -> bool {
    match sent {
        Ok(bytes) => body.len() <= CEILING && bytes@ == frame_bytes(kind, body),
        Err(error) => body.len() > CEILING && error == (Error::TooLarge {
            length: count(body.len()) as u32,
        }),
    }
}

/// A script to run, signed in where there are credentials.
fn request(script: &str, credentials: Option<(&str, &str)>) -> (request: Request)
    ensures
        request@ == (RequestView {
            script: script@,
            credentials: signed_in(credentials),
            parameters: Seq::empty(),
        }),
{
    let request = Request::new(script);
    match credentials {
        Some((name, password)) => request.as_user(name, password),
        None => request,
    }
}

impl<S> Client<S> {
    /// The stream that this client drives.
    pub closed spec fn connection(&self) -> S {
        self.stream
    }

    /// Drive an already-connected, already-greeted stream.
    pub fn with_stream(stream: S) -> (client: Self)
        ensures
            client.connection() == stream,
    {
        Client { stream }
    }

    /// The stream to write to and read from.
    pub fn stream(&mut self) -> (stream: &mut S)
        ensures
            *stream == old(self).connection(),
            final(self).connection() == *final(stream),
    {
        &mut self.stream
    }

    /// The frame that asks to run a script.
    ///
    /// One [`Answer`] per statement comes back, in order.
    pub fn run(&self, script: &str, credentials: Option<(&str, &str)>) -> (sent: Result<
        Vec<u8>,
        Error,
    >)
        ensures
            sends(
                sent,
                Kind::Request,
                request_bytes(
                    (RequestView {
                        script: script@,
                        credentials: signed_in(credentials),
                        parameters: Seq::empty(),
                    }),
                ),
            ),
    {
        self.send(&request(script, credentials))
    }

    /// The frame that asks to run a script whose parameters take the values bound to them, a later
    /// value in place of an earlier one of the same name.
    ///
    /// The values travel in the store's own codec, so all seventeen types cross unchanged and the
    /// node never has to read one: a supplied value cannot become syntax.
    pub fn run_with(
        &self,
        script: &str,
        credentials: Option<(&str, &str)>,
        parameters: Vec<(String, Value)>,
    ) -> (sent: Result<Vec<u8>, Error>)
        ensures
            sends(
                sent,
                Kind::Request,
                request_bytes(
                    (RequestView {
                        script: script@,
                        credentials: signed_in(credentials),
                        parameters: with_fields(Seq::empty(), entries_view(parameters@)),
                    }),
                ),
            ),
    {
        let asked = request(script, credentials);
        let asked = Request {
            script: asked.script,
            credentials: asked.credentials,
            parameters: Fields::of(parameters),
        };
        self.send(&asked)
    }

    /// The frame of a request already built.
    pub fn send(&self, request: &Request) -> (sent: Result<Vec<u8>, Error>)
        ensures
            sends(sent, Kind::Request, request_bytes(request@)),
    {
        crate::wire::frame::write(Kind::Request, request.encode().as_slice())
    }

    /// What the frame that came back for a request comes to, nothing where the node hung up.
    ///
    /// A node does not send a request, and a change only arrives on a connection that asked to
    /// follow: both are refused.
    pub fn answered(frame: Option<(Kind, Vec<u8>)>) -> (answered: Result<Vec<Answer>, Error>)
        ensures
            match frame {
                None => answered matches Err(Error::Truncated),
                Some((kind, body)) => match kind {
                    Kind::Answer => match answered {
                        Ok(answers) => answers_of(body@) == Ok::<Seq<AnswerView>, Error>(
                            answers_view(answers@),
                        ),
                        Err(error) => answers_of(body@) == Err::<Seq<AnswerView>, Error>(error),
                    },
                    Kind::Refusal => answered matches Err(error) && refuses_with(
                        error,
                        refusal_words(body@),
                    ),
                    Kind::Request | Kind::Subscribe | Kind::Change => answered matches Err(
                        Error::UnknownFrame { tag },
                    ) && tag == kind.byte(),
                },
            },
    {
        let (kind, body) = match frame {
            None => return Err(Error::Truncated),
            Some(frame) => frame,
        };
        match kind {
            Kind::Answer => decode_answers(body.as_slice()),
            Kind::Refusal => Err(refusal(body)),
            Kind::Request | Kind::Subscribe | Kind::Change => {
                Err(Error::UnknownFrame { tag: kind.tag() })
            },
        }
    }

    /// Stop asking, and start being told: the feed, and the frame to send on its stream first.
    ///
    /// Consumes the client, because the connection stops being a conversation: a socket delivering
    /// changes is not also answering scripts. A caller that wants both opens two connections.
    pub fn follow(self, asked: &Follow) -> (followed: Result<(Feed<S>, Vec<u8>), Error>)
        ensures
            match followed {
                Ok((feed, bytes)) => feed.connection() == self.connection() && !feed.has_ended()
                    && follow_bytes(asked@).len() <= CEILING && bytes@ == frame_bytes(
                    Kind::Subscribe,
                    follow_bytes(asked@),
                ),
                Err(error) => follow_bytes(asked@).len() > CEILING && error == (Error::TooLarge {
                    length: count(follow_bytes(asked@).len()) as u32,
                }),
            },
    {
        let bytes = crate::wire::frame::write(Kind::Subscribe, asked.encode().as_slice())?;
        Ok((Feed::new(self.stream), bytes))
    }
}

/// The words of a refusal: its whole body, where that is text.
///
/// A refusal this client cannot read is still a refusal. Reporting it as malformed would hide the
/// one fact that is certain.
pub open spec fn refusal_words(body: Seq<u8>) -> Seq<char> {
    if valid_utf8(body) {
        decode_utf8(body)
    } else {
        "the node refused, in bytes this client could not read"@
    }
}

/// Whether an error is a refusal in these words.
pub open spec fn refuses_with(error: Error, words: Seq<char>) -> bool {
    error matches Error::Refused { message } && message@ == words
}

/// A refusal, in the node's own words.
///
/// Carried through verbatim: the node already writes messages that name the place in the script,
/// and rewording them here would make this crate a second author for one error.
pub(crate) fn refusal(body: Vec<u8>) -> (error: Error)
    ensures
        refuses_with(error, refusal_words(body@)),
{
    match text_of_bytes(body) {
        Some(message) => Error::Refused { message },
        None => Error::Refused {
            message: "the node refused, in bytes this client could not read".to_owned(),
        },
    }
}

/// What is sent is one frame of the kind and with the body that it was sent as, where the body is
/// no longer than sixteen mebibytes; a longer one is not sent, and its length is told.
pub proof fn law_what_is_sent_is_one_frame(
    sent: Result<Vec<u8>, Error>,
    kind: Kind,
    body: Seq<u8>,
)
    requires
        sends(sent, kind, body),
    ensures
        sent is Ok <==> body.len() <= 16 * 1024 * 1024,
        sent matches Ok(bytes) ==> frame_in(bytes@) == Ok::<Option<(Kind, Seq<u8>)>, Error>(
            Some((kind, body)),
        ) && bytes@.len() == 5 + body.len(),
        sent matches Err(error) ==> (body.len() <= 0xFFFF_FFFF ==> error == (Error::TooLarge {
            length: body.len() as u32,
        })),
{
    if body.len() <= 16 * 1024 * 1024 {
        let frame = frame_bytes(kind, body);
        law_frames_round_trip(kind, body, Seq::empty());
        law_no_more_is_wanted_than_the_frame(kind, body, 0);
        assert(frame + Seq::<u8>::empty() =~= frame);
    }
}

/// A refusal is told in the words that the node gave, whatever they are; only bytes that are no
/// text are told otherwise.
pub proof fn law_refusals_are_told_in_their_own_words(words: Seq<char>, bytes: Seq<u8>)
    ensures
        refusal_words(encode_utf8(words)) == words,
        !valid_utf8(bytes) ==> refusal_words(bytes)
            == "the node refused, in bytes this client could not read"@,
{
    encode_utf8_valid_utf8(words);
    encode_utf8_decode_utf8(words);
}

/// Who signs in is the name and the password that were given, or nobody.
pub proof fn law_the_one_who_signs_in_is_named(name: &str, password: &str)
    ensures
        signed_in(Some((name, password))) == Some((name@, password@)),
        signed_in(None) is None,
{
}

}
