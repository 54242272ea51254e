//! What a line of a response means to this client, and what its head says of the body.

use vstd::prelude::*;
use vstd::utf8::encode_utf8;

use crate::error::Error;
use crate::http::line::{
    first_at, law_characters_are_found_where_they_first_stand, number_of, trimmed, without_line_end,
};
use crate::http::reply::{
    after_line, held_body, length_after, status_of, streamed_body, Awaiting, Following, Head,
    Heading, Reply, ReplyView,
};
use crate::text::{lemma_lowered_spells, spells};

verus! {

/// A header is a name and a value with a colon between, whatever case the name is in and whatever
/// white space stands around either. `Transfer-Encoding` is refused, `Content-Length` declares the
/// number that it holds and is refused where it holds none, every other header changes nothing, and
/// a line without a colon is no header.
pub proof fn law_headers_are_read_in_any_case(
    name: Seq<char>,
    value: Seq<char>,
    declared: Option<u64>,
)
    requires
        !name.contains(':'),
    ensures
        length_after(name, declared) == Err::<Option<u64>, Error>(Error::Malformed),
        spells(trimmed(name), "transfer-encoding"@) ==> length_after(
            name + (seq![':'] + value),
            declared,
        ) == Err::<Option<u64>, Error>(Error::Malformed),
        spells(trimmed(name), "content-length"@) ==> length_after(
            name + (seq![':'] + value),
            declared,
        ) == (match number_of(trimmed(value), 0xFFFF_FFFF_FFFF_FFFF) {
            Some(length) => Ok::<Option<u64>, Error>(Some(length as u64)),
            None => Err(Error::Malformed),
        }),
        !spells(trimmed(name), "transfer-encoding"@) && !spells(trimmed(name), "content-length"@)
            ==> length_after(name + (seq![':'] + value), declared) == Ok::<Option<u64>, Error>(
            declared,
        ),
{
    reveal_strlit("transfer-encoding");
    reveal_strlit("content-length");
    let line = name + (seq![':'] + value);
    lemma_parts(name, ':', value);
    law_characters_are_found_where_they_first_stand(name, ':');
    if first_at(name, ':') < name.len() {
        assert(name.contains(name[first_at(name, ':') as int]));
    }
    lemma_lowered_spells(trimmed(name), "transfer-encoding"@);
    lemma_lowered_spells(trimmed(name), "content-length"@);
    assert("transfer-encoding"@.len() != "content-length"@.len());
}

proof fn lemma_parts(part: Seq<char>, stop: char, rest: Seq<char>)
    requires
        !part.contains(stop),
    ensures
        first_at(part + (seq![stop] + rest), stop) == part.len(),
        (part + (seq![stop] + rest)).take(part.len() as int) == part,
        (part + (seq![stop] + rest)).skip(part.len() as int + 1) == rest,
{
    let text = part + (seq![stop] + rest);
    let at = first_at(text, stop) as int;
    law_characters_are_found_where_they_first_stand(text, stop);
    assert(text[part.len() as int] == stop);
    if at < part.len() {
        assert(text[at] == part[at]);
        assert(part.contains(part[at]));
    }
    assert(text.take(part.len() as int) =~= part);
    assert(text.skip(part.len() as int + 1) =~= rest);
}

proof fn lemma_no_part(text: Seq<char>, stop: char)
    requires
        !text.contains(stop),
    ensures
        first_at(text, stop) == text.len(),
        text.take(text.len() as int) == text,
{
    law_characters_are_found_where_they_first_stand(text, stop);
    if first_at(text, stop) < text.len() {
        assert(text.contains(text[first_at(text, stop) as int]));
    }
    assert(text.take(text.len() as int) =~= text);
}

/// A status line is a version and a code, with a reason after it or none. Another protocol than
/// HTTP/1 is not this one's, and a code that is no number sixteen bits hold is malformed.
pub proof fn law_statuses_are_read_as_sent(
    version: Seq<char>,
    code: Seq<char>,
    reason: Seq<char>,
)
    requires
        !version.contains(' '),
        !code.contains(' '),
    ensures
        ({
            let owed = if !"HTTP/1."@.is_prefix_of(version) {
                Err::<u16, Error>(Error::NotThisProtocol)
            } else {
                match number_of(code, 0xFFFF) {
                    Some(status) => Ok(status as u16),
                    None => Err(Error::Malformed),
                }
            };
            &&& status_of(version + (seq![' '] + code)) == owed
            &&& status_of(version + (seq![' '] + (code + (seq![' '] + reason)))) == owed
            &&& status_of(version) == (if "HTTP/1."@.is_prefix_of(version) {
                Err::<u16, Error>(Error::Malformed)
            } else {
                Err(Error::NotThisProtocol)
            })
        }),
{
    lemma_parts(version, ' ', code);
    lemma_parts(version, ' ', code + (seq![' '] + reason));
    lemma_parts(code, ' ', reason);
    lemma_no_part(code, ' ');
    lemma_no_part(version, ' ');
}

/// A head ends at its empty line and not before, an end of the stream before that is truncation,
/// and headers are read as long as their bytes come to no more than the ceiling.
pub proof fn law_heads_end_at_the_empty_line(
    status: u16,
    spent: usize,
    length: Option<u64>,
    raw: Seq<char>,
)
    ensures
        ({
            let awaiting = Awaiting::Headers { status, spent, length };
            let line = without_line_end(raw);
            let total = spent + encode_utf8(line).len();
            &&& after_line(Awaiting::Status, None) == Err::<Heading, Error>(Error::Truncated)
            &&& after_line(awaiting, None) == Err::<Heading, Error>(Error::Truncated)
            &&& line.len() == 0 ==> after_line(awaiting, Some(raw)) == Ok::<Heading, Error>(
                Heading::Complete(Head { status, length }),
            )
            &&& line.len() > 0 && total > 65536 ==> after_line(awaiting, Some(raw)) == Err::<
                Heading,
                Error,
            >(Error::TooLarge { length: 65536 })
            &&& line.len() > 0 && total <= 65536 ==> match length_after(line, length) {
                Ok(now) => after_line(awaiting, Some(raw)) == Ok::<Heading, Error>(
                    Heading::More(Awaiting::Headers { status, spent: total as usize, length: now }),
                ),
                Err(error) => after_line(awaiting, Some(raw)) == Err::<Heading, Error>(error),
            }
            &&& match status_of(line) {
                Ok(status) => after_line(Awaiting::Status, Some(raw)) == Ok::<Heading, Error>(
                    Heading::More(Awaiting::Headers { status, spent: 0, length: None }),
                ),
                Err(error) => after_line(Awaiting::Status, Some(raw)) == Err::<Heading, Error>(
                    error,
                ),
            }
        }),
{
}

/// A body follows where the call expects one and the status is neither 204 nor 304. It is held
/// where it is declared to be no longer than sixteen mebibytes, refused as too large with the
/// length that was declared, as far as thirty-two bits hold it, where it is longer, and malformed
/// where nothing declares it.
pub proof fn law_bodies_follow_as_declared(head: Head, length: u64)
    ensures
        held_body(head, false) == Ok::<Following, Error>(Following::Nothing),
        head.status == 204 || head.status == 304 ==> held_body(head, true) == Ok::<
            Following,
            Error,
        >(Following::Nothing),
        head.status != 204 && head.status != 304 ==> {
            &&& head.length is None ==> held_body(head, true) == Err::<Following, Error>(
                Error::Malformed,
            )
            &&& head.length == Some(length) && length <= 0x100_0000 ==> held_body(head, true)
                == Ok::<Following, Error>(Following::Held(length as usize))
            &&& head.length == Some(length) && 0x100_0000 < length <= 0xFFFF_FFFF ==> held_body(
                head,
                true,
            ) == Err::<Following, Error>(Error::TooLarge { length: length as u32 })
            &&& head.length == Some(length) && length > 0xFFFF_FFFF ==> held_body(head, true)
                == Err::<Following, Error>(Error::TooLarge { length: 0xFFFF_FFFF })
        },
        head.status == 200 && head.length == Some(length) ==> streamed_body(head) == Ok::<
            Following,
            Error,
        >(Following::Streamed(length)),
        head.status == 200 && head.length is None ==> streamed_body(head) == Err::<
            Following,
            Error,
        >(Error::Malformed),
        head.status != 200 ==> streamed_body(head) == held_body(head, true),
{
}

/// A reply is seen as it is.
pub proof fn law_replies_are_seen_as_they_are(reply: Reply)
    ensures
        reply@ == (ReplyView { status: reply.status, body: reply.body@, length: reply.length }),
{
}

}
