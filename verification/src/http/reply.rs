//! Reading one HTTP/1.1 response, and refusing the shapes this build will not guess at.
//!
//! # The body length comes from `Content-Length` and from nothing else
//!
//! Every route answers with `Content-Length`, and none uses `Transfer-Encoding: chunked`. This
//! build therefore reads exactly that many bytes and refuses anything else rather than inferring
//! a length. A client that guessed at a chunked body would return a plausible wrong answer, the
//! chunk-size lines read as data, and nothing downstream could tell.

use vstd::prelude::*;
use vstd::slice::{slice_subrange, slice_to_vec};
use vstd::utf8::{decode_utf8, encode_utf8, valid_utf8};

use crate::error::Error;
use crate::http::line::{
    find, first_at, number_of, parse_number, part, strip_line_end, trim, trimmed, without_line_end,
};
use crate::text::{chars_of, lower_text, lowered, same_text, text_of_bytes};

verus! {

/// The largest header block this client will read.
///
/// A ceiling before an allocation, the same reason the wire protocol has one: a header stream
/// arriving from a stranger is not a promise.
pub const HEADER_CEILING: usize = 0x1_0000;

/// The largest body this client will read into memory.
///
/// Matches the wire protocol's frame ceiling so the two surfaces refuse at the same size.
pub const BODY_CEILING: u64 = 0x0100_0000;

/// What the node answered.
#[derive(Debug, Clone, PartialEq, Eq)]
pub struct Reply {
    /// The status code.
    pub status: u16,
    /// The body, which is empty when the response carries none.
    pub body: Vec<u8>,
    /// The length that the response declared, whether or not the body followed.
    pub length: Option<u64>,
}

/// What a node answered.
#[verifier::ext_equal]
pub struct ReplyView {
    /// The status code.
    pub status: u16,
    /// The body.
    pub body: Seq<u8>,
    /// The length that was declared.
    pub length: Option<u64>,
}

impl View for Reply {
    type V = ReplyView;

    open spec fn view(&self) -> ReplyView {
        ReplyView { status: self.status, body: self.body@, length: self.length }
    }
}

/// What stands before a body: the status, and the length declared where there was one.
#[derive(Debug, Clone, Copy, PartialEq, Eq)]
pub struct Head {
    /// The status code.
    pub status: u16,
    /// The length that was declared.
    pub length: Option<u64>,
}

/// What is read next of a response's head.
#[derive(Debug, Clone, Copy, PartialEq, Eq)]
pub enum Awaiting {
    /// The status line.
    Status,
    /// A header, or the blank line that ends them.
    Headers {
        /// The status code.
        status: u16,
        /// How many bytes of headers have been read.
        spent: usize,
        /// The length declared so far.
        length: Option<u64>,
    },
}

/// What a line of a response's head comes to.
#[derive(Debug, Clone, Copy, PartialEq, Eq)]
pub enum Heading {
    /// Another line is needed.
    More(Awaiting),
    /// The head is complete.
    Complete(Head),
}

/// The status code in a status line: `HTTP/1.1 <code> <reason>`.
///
/// A line that does not open with the protocol is not an unsupported version but not the protocol
/// at all.
pub open spec fn status_of(line: Seq<char>) -> Result<u16, Error> {
    let space = first_at(line, ' ') as int;
    if !"HTTP/1."@.is_prefix_of(line.take(space)) {
        Err(Error::NotThisProtocol)
    } else if space == line.len() {
        Err(Error::Malformed)
    } else {
        let rest = line.skip(space + 1);
        match number_of(rest.take(first_at(rest, ' ') as int), u16::MAX as nat) {
            Some(code) => Ok(code as u16),
            None => Err(Error::Malformed),
        }
    }
}

/// The name of a header, in lower case: field names are case-insensitive.
pub open spec fn header_name(line: Seq<char>) -> Seq<char> {
    lowered(trimmed(line.take(first_at(line, ':') as int)))
}

/// The value of a header.
pub open spec fn header_value(line: Seq<char>) -> Seq<char> {
    trimmed(line.skip(first_at(line, ':') as int + 1))
}

/// The length that a header leaves declared after `length` was.
pub open spec fn length_after(line: Seq<char>, length: Option<u64>) -> Result<Option<u64>, Error> {
    if first_at(line, ':') == line.len() {
        Err(Error::Malformed)
    } else if header_name(line) == "transfer-encoding"@ {
        Err(Error::Malformed)
    } else if header_name(line) == "content-length"@ {
        match number_of(header_value(line), u64::MAX as nat) {
            Some(number) => Ok(Some(number as u64)),
            None => Err(Error::Malformed),
        }
    } else {
        Ok(length)
    }
}

/// What a line comes to, as it was read: nothing where the stream ended or was not text.
pub open spec fn after_line(awaiting: Awaiting, raw: Option<Seq<char>>) -> Result<Heading, Error> {
    match raw {
        None => Err(Error::Truncated),
        Some(raw) => {
            let line = without_line_end(raw);
            match awaiting {
                Awaiting::Status => match status_of(line) {
                    Err(error) => Err(error),
                    Ok(status) => Ok(
                        Heading::More(Awaiting::Headers { status, spent: 0, length: None }),
                    ),
                },
                Awaiting::Headers { status, spent, length } => {
                    let total = spent + encode_utf8(line).len();
                    if line.len() == 0 {
                        Ok(Heading::Complete(Head { status, length }))
                    } else if total > HEADER_CEILING {
                        Err(Error::TooLarge { length: HEADER_CEILING as u32 })
                    } else {
                        match length_after(line, length) {
                            Err(error) => Err(error),
                            Ok(length) => Ok(
                                Heading::More(
                                    Awaiting::Headers { status, spent: total as usize, length },
                                ),
                            ),
                        }
                    }
                },
            }
        },
    }
}

fn starts_with_protocol(chars: &Vec<char>, to: usize) -> (starts: bool)
    requires
        to <= chars@.len(),
    ensures
        starts == "HTTP/1."@.is_prefix_of(chars@.take(to as int)),
{
    proof {
        reveal_strlit("HTTP/1.");
    }
    let ghost protocol = "HTTP/1."@;
    let ghost version = chars@.take(to as int);
    let starts = to >= 7 && chars[0] == 'H' && chars[1] == 'T' && chars[2] == 'T' && chars[3] == 'P'
        && chars[4] == '/' && chars[5] == '1' && chars[6] == '.';
    proof {
        if starts {
            assert(protocol =~= version.subrange(0, 7));
        } else if protocol.is_prefix_of(version) {
            assert forall|i: int| 0 <= i < 7 implies #[trigger] chars@[i] == protocol[i] by {
                assert(version[i] == protocol[i]);
            }
            assert(chars@[0] == 'H' && chars@[1] == 'T' && chars@[2] == 'T' && chars@[3] == 'P');
            assert(chars@[4] == '/' && chars@[5] == '1' && chars@[6] == '.');
            assert(false);
        }
    }
    starts
}

/// The status code in a status line.
fn read_status(line: &str) -> (read: Result<u16, Error>)
    ensures
        read == status_of(line@),
{
    let chars = chars_of(line);
    assert(chars@.skip(0) =~= chars@);
    let space: usize = find(&chars, 0, ' ');
    if !starts_with_protocol(&chars, space) {
        return Err(Error::NotThisProtocol);
    }
    if space == chars.len() {
        return Err(Error::Malformed);
    }
    let len: usize = find(&chars, space + 1, ' ');
    let ghost rest = line@.skip(space + 1);
    let code = part(&chars, space + 1, space + 1 + len);
    assert(code@ =~= rest.take(first_at(rest, ' ') as int));
    match parse_number(code.as_str(), 0xFFFF) {
        Some(code) => Ok(code as u16),
        None => Err(Error::Malformed),
    }
}

/// The length that a header leaves declared.
fn read_header(line: &str, length: Option<u64>) -> (read: Result<Option<u64>, Error>)
    ensures
        read == length_after(line@, length),
{
    let chars = chars_of(line);
    assert(chars@.skip(0) =~= chars@);
    let colon: usize = find(&chars, 0, ':');
    if colon == chars.len() {
        return Err(Error::Malformed);
    }
    let name = part(&chars, 0, colon);
    let value = part(&chars, colon + 1, chars.len());
    assert(name@ =~= line@.take(colon as int));
    assert(value@ =~= line@.skip(colon + 1));
    // Field names are case-insensitive, and a client that compares them literally works against
    // one server and mysteriously not against the next.
    let name = lower_text(trim(name.as_str()).as_str());
    proof {
        reveal_strlit("transfer-encoding");
        reveal_strlit("content-length");
    }
    if same_text(name.as_str(), "transfer-encoding") {
        // Refused, never guessed at.
        return Err(Error::Malformed);
    }
    if same_text(name.as_str(), "content-length") {
        return match parse_number(trim(value.as_str()).as_str(), u64::MAX) {
            Some(number) => Ok(Some(number)),
            None => Err(Error::Malformed),
        };
    }
    Ok(length)
}

impl Awaiting {
    /// What the next line comes to, as it was read: nothing where the stream ended, failed, or was
    /// not text.
    pub fn line(self, raw: Option<&str>) -> (heading: Result<Heading, Error>)
        ensures
            heading == after_line(
                self,
                match raw {
                    Some(raw) => Some(raw@),
                    None => None,
                },
            ),
    {
        let line = match raw {
            Some(raw) => strip_line_end(raw),
            None => return Err(Error::Truncated),
        };
        match self {
            Awaiting::Status => {
                let status: u16 = read_status(line.as_str())?;
                Ok(Heading::More(Awaiting::Headers { status, spent: 0, length: None }))
            },
            Awaiting::Headers { status, spent, length } => {
                let len: usize = line.as_str().as_bytes().len();
                proof {
                    lemma_empty_text(line@);
                }
                if len == 0 {
                    return Ok(Heading::Complete(Head { status, length }));
                }
                if spent > HEADER_CEILING || len > HEADER_CEILING - spent {
                    return Err(Error::TooLarge { length: HEADER_CEILING as u32 });
                }
                let length = read_header(line.as_str(), length)?;
                Ok(Heading::More(Awaiting::Headers { status, spent: spent + len, length }))
            },
        }
    }
}

proof fn lemma_empty_text(text: Seq<char>)
    ensures
        encode_utf8(text).len() == 0 <==> text.len() == 0,
{
    if encode_utf8(text).len() == 0 {
        assert(encode_utf8(text) =~= encode_utf8(Seq::<char>::empty()));
        crate::text::lemma_encoding_is_injective(text, Seq::empty());
    }
}

/// What follows a head.
#[derive(Debug, Clone, Copy, PartialEq, Eq)]
pub enum Following {
    /// Nothing, whatever length was declared.
    Nothing,
    /// So many bytes, to be held.
    Held(usize),
    /// So many bytes, to be passed on without being held.
    Streamed(u64),
}

/// Whether a status is defined to carry no body.
pub open spec fn is_bodyless(status: u16) -> bool {
    status == 204 || status == 304
}

/// A declared length, as a refusal tells it: as it was declared, or the most that thirty-two bits
/// hold where it was more.
pub open spec fn told_length(length: u64) -> u32 {
    if length <= 0xFFFF_FFFF {
        length as u32
    } else {
        0xFFFF_FFFF
    }
}

/// What follows a head and is held.
pub open spec fn held_body(head: Head, expects_body: bool) -> Result<Following, Error> {
    if !expects_body || is_bodyless(head.status) {
        Ok(Following::Nothing)
    } else {
        match head.length {
            None => Err(Error::Malformed),
            Some(length) => if length > BODY_CEILING {
                Err(Error::TooLarge { length: told_length(length) })
            } else {
                Ok(Following::Held(length as usize))
            },
        }
    }
}

/// What follows a head where a successful body is passed on. The status decides before any byte
/// moves, and a length is needed before one does.
pub open spec fn streamed_body(head: Head) -> Result<Following, Error> {
    if head.status == 200 {
        match head.length {
            None => Err(Error::Malformed),
            Some(length) => Ok(Following::Streamed(length)),
        }
    } else {
        held_body(head, true)
    }
}

impl Head {
    /// What follows, where the body is to be held in memory.
    ///
    /// A HEAD answers with the `Content-Length` the equivalent GET would carry and sends no body at
    /// all. The same holds for 204 and 304, which are defined to carry no body.
    pub fn following(self, expects_body: bool) -> (following: Result<Following, Error>)
        ensures
            following == held_body(self, expects_body),
    {
        if !expects_body || self.status == 204 || self.status == 304 {
            return Ok(Following::Nothing);
        }
        match self.length {
            None => Err(Error::Malformed),
            Some(length) => if length > BODY_CEILING {
                let told: u32 = if length <= 0xFFFF_FFFF {
                    length as u32
                } else {
                    0xFFFF_FFFF
                };
                Err(Error::TooLarge { length: told })
            } else {
                Ok(Following::Held(length as usize))
            },
        }
    }

    /// What follows, where a successful body is to be passed on as it arrives.
    ///
    /// No ceiling applies, because nothing is allocated in proportion to the answer. A refusal is
    /// held and never passed on.
    pub fn following_into(self) -> (following: Result<Following, Error>)
        ensures
            following == streamed_body(self),
    {
        if self.status == 200 {
            match self.length {
                None => Err(Error::Malformed),
                Some(length) => Ok(Following::Streamed(length)),
            }
        } else {
            self.following(true)
        }
    }

    /// The reply, once its body was read: nothing where the stream ended or failed before it was.
    pub fn reply(self, body: Option<Vec<u8>>) -> (reply: Result<Reply, Error>)
        ensures
            match body {
                Some(body) => reply matches Ok(reply) && reply@ == (ReplyView {
                    status: self.status,
                    body: body@,
                    length: self.length,
                }),
                None => reply matches Err(Error::Truncated),
            },
    {
        match body {
            Some(body) => Ok(Reply { status: self.status, body, length: self.length }),
            None => Err(Error::Truncated),
        }
    }
}

/// A body that is passed on as it arrives.
#[derive(Debug, Clone, Copy, PartialEq, Eq)]
pub struct Copying {
    /// How many bytes are still to come.
    pub left: u64,
}

impl Copying {
    /// How many bytes to read next, at most, into a buffer of `room`.
    #[must_use]
    pub fn wanted(&self, room: usize) -> (wanted: usize)
        ensures
            wanted as nat == (if self.left < room {
                self.left as nat
            } else {
                room as nat
            }),
    {
        if self.left < room as u64 {
            self.left as usize
        } else {
            room
        }
    }

    /// Takes note of what a read delivered, nothing where the stream ended: inside the body, that
    /// is truncation.
    pub fn took(&mut self, read: usize) -> (took: Result<(), Error>)
        requires
            read <= old(self).left,
        ensures
            final(self).left == old(self).left - read,
            match took {
                Ok(_) => read > 0 || old(self).left == 0,
                Err(error) => read == 0 && old(self).left > 0 && error == Error::Truncated,
            },
    {
        if read == 0 && self.left > 0 {
            return Err(Error::Truncated);
        }
        self.left = self.left - read as u64;
        Ok(())
    }
}

/// How many bytes the first line takes, its end included where there is one.
pub open spec fn line_len(bytes: Seq<u8>) -> nat
    decreases bytes.len(),
{
    if bytes.len() == 0 {
        0
    } else if bytes[0] == 0x0A {
        1
    } else {
        1 + line_len(bytes.drop_first())
    }
}

/// The text of some bytes, where they are text.
pub open spec fn text_in(bytes: Seq<u8>) -> Option<Seq<char>> {
    if valid_utf8(bytes) {
        Some(decode_utf8(bytes))
    } else {
        None
    }
}

/// The head that some bytes open with, and the bytes after it.
pub open spec fn head_in(awaiting: Awaiting, bytes: Seq<u8>) -> Result<(Head, Seq<u8>), Error>
    decreases bytes.len(),
{
    if bytes.len() == 0 {
        Err(Error::Truncated)
    } else {
        let len = line_len(bytes) as int;
        let rest = bytes.skip(len);
        match after_line(awaiting, text_in(bytes.take(len))) {
            Err(error) => Err(error),
            Ok(Heading::Complete(head)) => Ok((head, rest)),
            Ok(Heading::More(next)) => if 0 < len <= bytes.len() {
                head_in(next, rest)
            } else {
                Err(Error::Truncated)
            },
        }
    }
}

/// The reply that some bytes are.
pub open spec fn reply_in(bytes: Seq<u8>, expects_body: bool) -> Result<ReplyView, Error> {
    match head_in(Awaiting::Status, bytes) {
        Err(error) => Err(error),
        Ok((head, rest)) => match held_body(head, expects_body) {
            Err(error) => Err(error),
            Ok(Following::Held(length)) => if rest.len() < length {
                Err(Error::Truncated)
            } else {
                Ok(
                    ReplyView {
                        status: head.status,
                        body: rest.take(length as int),
                        length: head.length,
                    },
                )
            },
            Ok(_) => Ok(
                ReplyView { status: head.status, body: Seq::empty(), length: head.length },
            ),
        },
    }
}

/// The end of the line that starts at `from`.
fn find_line_end(bytes: &[u8], from: usize) -> (end: usize)
    requires
        from < bytes@.len(),
    ensures
        from < end <= bytes@.len(),
        end - from == line_len(bytes@.skip(from as int)),
{
    let mut at: usize = from;
    while at < bytes.len() && bytes[at] != 0x0A
        invariant
            from <= at <= bytes@.len(),
            line_len(bytes@.skip(from as int)) == (at - from) + line_len(bytes@.skip(at as int)),
        decreases bytes.len() - at,
    {
        assert(bytes@.skip(at as int).drop_first() =~= bytes@.skip(at + 1));
        at = at + 1;
    }
    if at < bytes.len() {
        at + 1
    } else {
        at
    }
}

/// The head that a response opens with, and where it ends.
fn read_head(response: &[u8]) -> (read: Result<(Head, usize), Error>)
    ensures
        match read {
            Ok((head, at)) => at <= response@.len() && head_in(Awaiting::Status, response@) == Ok::<
                (Head, Seq<u8>),
                Error,
            >((head, response@.skip(at as int))),
            Err(error) => head_in(Awaiting::Status, response@) == Err::<(Head, Seq<u8>), Error>(
                error,
            ),
        },
{
    let mut awaiting = Awaiting::Status;
    let mut at: usize = 0;
    assert(response@.skip(0) =~= response@);
    while at < response.len()
        invariant
            at <= response@.len(),
            head_in(Awaiting::Status, response@) == head_in(awaiting, response@.skip(at as int)),
        decreases response@.len() - at,
    {
        let ghost rest = response@.skip(at as int);
        let end: usize = find_line_end(response, at);
        let raw = slice_to_vec(slice_subrange(response, at, end));
        assert(raw@ =~= rest.take(end - at));
        assert(rest.skip(end - at) =~= response@.skip(end as int));
        let text = text_of_bytes(raw);
        let heading = match &text {
            Some(text) => awaiting.line(Some(text.as_str()))?,
            None => awaiting.line(None)?,
        };
        at = end;
        match heading {
            Heading::More(next) => {
                awaiting = next;
            },
            Heading::Complete(head) => {
                return Ok((head, at));
            },
        }
    }
    Err(Error::Truncated)
}

/// Read one response out of everything that a node sent before it closed the connection.
///
/// `expects_body` is the method's property, not the response's: a HEAD answers with the length a
/// GET would carry and sends nothing after the headers.
pub fn read(response: &[u8], expects_body: bool) -> (read: Result<Reply, Error>)
    ensures
        match read {
            Ok(reply) => reply_in(response@, expects_body) == Ok::<ReplyView, Error>(reply@),
            Err(error) => reply_in(response@, expects_body) == Err::<ReplyView, Error>(error),
        },
{
    let (head, at) = read_head(response)?;
    match head.following(expects_body)? {
        Following::Held(length) => {
            if response.len() - at < length {
                return head.reply(None);
            }
            let body = slice_to_vec(slice_subrange(response, at, at + length));
            assert(body@ =~= response@.skip(at as int).take(length as int));
            head.reply(Some(body))
        },
        _ => {
            let body: Vec<u8> = Vec::new();
            assert(body@ =~= Seq::empty());
            head.reply(Some(body))
        },
    }
}

/// A chunked body is refused rather than guessed at, however its header is spelled.
pub proof fn law_chunked_is_refused(status: u16, spent: usize, length: Option<u64>, raw: Seq<char>)
    requires
        without_line_end(raw).len() > 0,
        header_name(without_line_end(raw)) == "transfer-encoding"@,
    ensures
        after_line(Awaiting::Headers { status, spent, length }, Some(raw)) is Err,
{
}

/// The length is the one that a `Content-Length` header gave, and no other header changes it.
pub proof fn law_length_is_declared(
    status: u16,
    spent: usize,
    length: Option<u64>,
    raw: Seq<char>,
    after: Heading,
)
    requires
        after_line(Awaiting::Headers { status, spent, length }, Some(raw)) == Ok::<Heading, Error>(
            after,
        ),
    ensures
        match after {
            Heading::Complete(head) => head == (Head { status, length }),
            Heading::More(Awaiting::Headers { status: kept, length: now, .. }) => kept == status
                && (now == length || (header_name(without_line_end(raw)) == "content-length"@
                && now is Some && number_of(
                header_value(without_line_end(raw)),
                u64::MAX as nat,
            ) == Some(now->0 as nat))),
            Heading::More(Awaiting::Status) => false,
        },
{
}

/// A refusal is never passed on: only a success is.
pub proof fn law_refusals_are_not_passed_on(head: Head)
    requires
        head.status != 200,
    ensures
        !(streamed_body(head) matches Ok(Following::Streamed(_))),
{
}

}
