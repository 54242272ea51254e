//! A response, as a node writes one, is read as it was written.

use vstd::prelude::*;
use vstd::utf8::{
    encode_utf8, encode_utf8_decode_utf8, encode_utf8_valid_utf8, is_ascii_chars,
    is_ascii_chars_encode_utf8,
};

use crate::error::Error;
use crate::http::line::{
    digits_of, digits_value, first_at, is_space, number_of, trimmed, trimmed_end, trimmed_start,
    without_line_end,
};
use crate::http::reply::{
    after_line, head_in, header_name, header_value, is_bodyless, length_after, line_len, reply_in,
    status_of, Awaiting, Head, Heading, ReplyView, BODY_CEILING, HEADER_CEILING,
};
use crate::text::{decimal, digit, is_digit, lemma_decimal_digits, lower, lowered};

verus! {

/// Whether every character of a text can be printed and is ASCII.
pub open spec fn is_printable(text: Seq<char>) -> bool {
    forall|i: int| 0 <= i < text.len() ==> ' ' <= #[trigger] text[i] <= '~'
}

/// The bytes of a line, with what ends it.
pub open spec fn line_bytes(line: Seq<char>) -> Seq<u8> {
    encode_utf8(line + seq!['\r', '\n'])
}

/// The line that a response opens with.
pub open spec fn status_line(status: u16, reason: Seq<char>) -> Seq<char> {
    "HTTP/1.1 "@ + decimal(status as nat) + seq![' '] + reason
}

/// The header that declares a length.
pub open spec fn length_line(length: u64) -> Seq<char> {
    "Content-Length: "@ + decimal(length as nat)
}

/// Whether a line is a header that has nothing to do with the body.
pub open spec fn is_other_header(line: Seq<char>) -> bool {
    &&& is_printable(line)
    &&& first_at(line, ':') < line.len()
    &&& header_name(line) != "transfer-encoding"@
    &&& header_name(line) != "content-length"@
}

/// Whether every line is a header that has nothing to do with the body.
pub open spec fn are_other_headers(lines: Seq<Seq<char>>) -> bool {
    forall|i: int| 0 <= i < lines.len() ==> is_other_header(#[trigger] lines[i])
}

/// How many characters some lines have.
pub open spec fn lines_len(lines: Seq<Seq<char>>) -> nat
    decreases lines.len(),
{
    if lines.len() == 0 {
        0
    } else {
        lines[0].len() + lines_len(lines.drop_first())
    }
}

/// The bytes of some lines.
pub open spec fn lines_bytes(lines: Seq<Seq<char>>) -> Seq<u8>
    decreases lines.len(),
{
    if lines.len() == 0 {
        Seq::empty()
    } else {
        line_bytes(lines[0]) + lines_bytes(lines.drop_first())
    }
}

/// The head of a response: a status, headers, among them the length of the body, and a blank line.
pub open spec fn head_bytes(
    status: u16,
    reason: Seq<char>,
    before: Seq<Seq<char>>,
    length: u64,
    after: Seq<Seq<char>>,
) -> Seq<u8> {
    line_bytes(status_line(status, reason)) + lines_bytes(before) + line_bytes(length_line(length))
        + lines_bytes(after) + line_bytes(Seq::empty())
}

proof fn lemma_line_len(bytes: Seq<u8>, at: int)
    requires
        0 <= at < bytes.len(),
        bytes[at] == 0x0A,
        forall|i: int| 0 <= i < at ==> #[trigger] bytes[i] != 0x0A,
    ensures
        line_len(bytes) == at + 1,
    decreases at,
{
    if at > 0 {
        let rest = bytes.drop_first();
        assert forall|i: int| 0 <= i < at - 1 implies #[trigger] rest[i] != 0x0A by {
            assert(rest[i] == bytes[i + 1]);
        }
        lemma_line_len(rest, at - 1);
    }
}

proof fn lemma_first_at(text: Seq<char>, ch: char, at: int)
    requires
        0 <= at < text.len(),
        text[at] == ch,
        forall|i: int| 0 <= i < at ==> #[trigger] text[i] != ch,
    ensures
        first_at(text, ch) == at,
    decreases at,
{
    if at > 0 {
        let rest = text.drop_first();
        assert forall|i: int| 0 <= i < at - 1 implies #[trigger] rest[i] != ch by {
            assert(rest[i] == text[i + 1]);
        }
        lemma_first_at(rest, ch, at - 1);
    }
}

/// A line that is written is the first that is read.
proof fn lemma_line_is_read(awaiting: Awaiting, line: Seq<char>, rest: Seq<u8>)
    requires
        is_printable(line),
    ensures
        encode_utf8(line).len() == line.len(),
        without_line_end(line + seq!['\r', '\n']) == line,
        head_in(awaiting, line_bytes(line) + rest) == (match after_line(
            awaiting,
            Some(line + seq!['\r', '\n']),
        ) {
            Err(error) => Err(error),
            Ok(Heading::Complete(head)) => Ok((head, rest)),
            Ok(Heading::More(next)) => head_in(next, rest),
        }),
{
    let raw = line + seq!['\r', '\n'];
    let bytes = line_bytes(line);
    assert(is_ascii_chars(line));
    is_ascii_chars_encode_utf8(line);
    assert forall|i: int| 0 <= i < raw.len() implies '\0' <= #[trigger] raw[i] <= '\u{7f}' by {
        if i < line.len() {
            assert(raw[i] == line[i]);
        }
    }
    assert(is_ascii_chars(raw));
    is_ascii_chars_encode_utf8(raw);
    let last = line.len() as int + 1;
    assert(raw[last] == '\n');
    assert(bytes[last] == 0x0A);
    let all = bytes + rest;
    assert forall|i: int| 0 <= i < last implies #[trigger] all[i] != 0x0A by {
        assert(all[i] == bytes[i]);
        assert(bytes[i] == raw[i] as u8);
        if i < line.len() {
            assert(raw[i] == line[i]);
        } else {
            assert(raw[i] == '\r');
        }
    }
    assert(all[last] == 0x0A);
    lemma_line_len(all, last);
    assert(all.take(last + 1) =~= bytes);
    assert(all.skip(last + 1) =~= rest);
    encode_utf8_valid_utf8(raw);
    encode_utf8_decode_utf8(raw);
    assert(raw.drop_last() =~= line.push('\r'));
    assert(line.push('\r').drop_last() =~= line);
    assert(without_line_end(line) == line) by {
        if line.len() > 0 {
            assert(' ' <= line[line.len() - 1]);
        }
    }
    assert(without_line_end(line.push('\r')) == line);
}

/// Headers that have nothing to do with the body leave what was declared as it is.
proof fn lemma_other_headers_are_skipped(
    lines: Seq<Seq<char>>,
    status: u16,
    spent: usize,
    length: Option<u64>,
    rest: Seq<u8>,
)
    requires
        are_other_headers(lines),
        spent + lines_len(lines) <= HEADER_CEILING,
    ensures
        head_in(Awaiting::Headers { status, spent, length }, lines_bytes(lines) + rest) == head_in(
            Awaiting::Headers { status, spent: (spent + lines_len(lines)) as usize, length },
            rest,
        ),
    decreases lines.len(),
{
    if lines.len() == 0 {
        assert(lines_bytes(lines) + rest =~= rest);
    } else {
        let line = lines[0];
        let others = lines.drop_first();
        assert(is_other_header(line));
        assert forall|i: int| 0 <= i < others.len() implies is_other_header(
            #[trigger] others[i],
        ) by {
            assert(others[i] == lines[i + 1]);
        }
        let following = lines_bytes(others) + rest;
        assert(lines_bytes(lines) + rest =~= line_bytes(line) + following);
        lemma_line_is_read(Awaiting::Headers { status, spent, length }, line, following);
        let now = (spent + line.len()) as usize;
        lemma_other_headers_are_skipped(others, status, now, length, rest);
    }
}

proof fn lemma_decimal_value(value: nat)
    ensures
        digits_value(decimal(value)) == value,
    decreases value,
{
    let digits = decimal(value);
    assert(digits.last() == digit(value % 10));
    if value >= 10 {
        lemma_decimal_value(value / 10);
        assert(digits.drop_last() =~= decimal(value / 10));
    } else {
        assert(digits.drop_last() =~= Seq::empty());
        assert(digits_value(Seq::empty()) == 0);
    }
}

/// A number is read as it was written, wherever it is no more than the limit.
pub proof fn law_numbers_are_read_as_written(value: nat, limit: nat)
    requires
        value <= limit,
    ensures
        number_of(decimal(value), limit) == Some(value),
{
    lemma_decimal_digits(value);
    lemma_decimal_value(value);
    let digits = decimal(value);
    assert('0' <= digits[0] <= '9');
    assert(digits_of(digits) == digits);
    assert forall|i: int| 0 <= i < digits.len() implies is_digit(#[trigger] digits[i]) by {}
}

proof fn lemma_status_is_read(status: u16, reason: Seq<char>)
    requires
        is_printable(reason),
    ensures
        is_printable(status_line(status, reason)),
        status_of(status_line(status, reason)) == Ok::<u16, Error>(status),
{
    reveal_strlit("HTTP/1.1 ");
    reveal_strlit("HTTP/1.");
    let line = status_line(status, reason);
    let digits = decimal(status as nat);
    lemma_decimal_digits(status as nat);
    assert forall|i: int| 0 <= i < line.len() implies ' ' <= #[trigger] line[i] <= '~' by {
        if i < 9 {
            assert(line[i] == "HTTP/1.1 "@[i]);
        } else if i < 9 + digits.len() {
            assert(line[i] == digits[i - 9]);
        } else if i > 9 + digits.len() {
            assert(line[i] == reason[i - 10 - digits.len()]);
        }
    }
    assert forall|i: int| 0 <= i < 8 implies #[trigger] line[i] != ' ' by {
        assert(line[i] == "HTTP/1.1 "@[i]);
    }
    assert(line[8] == "HTTP/1.1 "@[8]);
    lemma_first_at(line, ' ', 8);
    assert("HTTP/1."@ =~= line.take(8).subrange(0, 7));
    let rest = line.skip(9);
    assert(rest =~= digits + seq![' '] + reason);
    assert forall|i: int| 0 <= i < digits.len() implies #[trigger] rest[i] != ' ' by {
        assert(rest[i] == digits[i]);
    }
    assert(rest[digits.len() as int] == ' ');
    lemma_first_at(rest, ' ', digits.len() as int);
    assert(rest.take(digits.len() as int) =~= digits);
    law_numbers_are_read_as_written(status as nat, u16::MAX as nat);
}

/// A text that no white space starts or ends is as it is once it is trimmed.
proof fn lemma_trimmed(text: Seq<char>)
    requires
        text.len() > 0,
        !is_space(text.first()),
        !is_space(text.last()),
    ensures
        trimmed(text) == text,
{
}

proof fn lemma_length_is_read(length: u64, declared: Option<u64>)
    ensures
        is_printable(length_line(length)),
        length_line(length).len() > 0,
        length_after(length_line(length), declared) == Ok::<Option<u64>, Error>(Some(length)),
{
    reveal_strlit("Content-Length: ");
    reveal_strlit("content-length");
    reveal_strlit("transfer-encoding");
    let line = length_line(length);
    let digits = decimal(length as nat);
    let label = "Content-Length: "@;
    lemma_decimal_digits(length as nat);
    assert forall|i: int| 0 <= i < line.len() implies ' ' <= #[trigger] line[i] <= '~' by {
        if i < 16 {
            assert(line[i] == label[i]);
        } else {
            assert(line[i] == digits[i - 16]);
        }
    }
    assert forall|i: int| 0 <= i < 14 implies #[trigger] line[i] != ':' by {
        assert(line[i] == label[i]);
    }
    assert(line[14] == label[14]);
    lemma_first_at(line, ':', 14);
    let name = line.take(14);
    assert forall|i: int| 0 <= i < 14 implies #[trigger] name[i] == label[i] by {}
    assert(name.first() == 'C' && name.last() == 'h');
    lemma_trimmed(name);
    assert(header_name(line) =~= "content-length"@) by {
        assert forall|i: int| 0 <= i < 14 implies #[trigger] lowered(name)[i]
            == "content-length"@[i] by {
            assert(lowered(name)[i] == lower(label[i]));
        }
    }
    let value = line.skip(15);
    assert(value =~= seq![' '] + digits);
    assert(value.drop_first() =~= digits);
    assert('0' <= digits[0] <= '9');
    assert('0' <= digits[digits.len() - 1] <= '9');
    assert(trimmed_start(digits) == digits);
    assert(trimmed_start(value) == digits);
    assert(trimmed_end(digits) == digits);
    assert(header_value(line) == digits);
    law_numbers_are_read_as_written(length as nat, u64::MAX as nat);
}

/// The head of a response is read as it was written: the status, the length that was declared,
/// whatever the other headers are, and nothing of what follows.
pub proof fn law_heads_are_read_as_sent(
    status: u16,
    reason: Seq<char>,
    before: Seq<Seq<char>>,
    length: u64,
    after: Seq<Seq<char>>,
    rest: Seq<u8>,
)
    requires
        is_printable(reason),
        are_other_headers(before),
        are_other_headers(after),
        lines_len(before) + length_line(length).len() + lines_len(after) <= HEADER_CEILING,
    ensures
        head_in(Awaiting::Status, head_bytes(status, reason, before, length, after) + rest) == Ok::<
            (Head, Seq<u8>),
            Error,
        >((Head { status, length: Some(length) }, rest)),
{
    let blank = line_bytes(Seq::empty()) + rest;
    let ending = lines_bytes(after) + blank;
    let declaring = line_bytes(length_line(length)) + ending;
    let headers = lines_bytes(before) + declaring;
    let opening = line_bytes(status_line(status, reason));
    assert(head_bytes(status, reason, before, length, after) + rest =~= opening + headers);
    lemma_status_is_read(status, reason);
    lemma_line_is_read(Awaiting::Status, status_line(status, reason), headers);
    lemma_other_headers_are_skipped(before, status, 0, None, declaring);
    let spent = lines_len(before) as usize;
    let awaiting = Awaiting::Headers { status, spent, length: None };
    lemma_length_is_read(length, None);
    lemma_line_is_read(awaiting, length_line(length), ending);
    let spent = (spent + length_line(length).len()) as usize;
    lemma_other_headers_are_skipped(after, status, spent, Some(length), blank);
    let spent = (spent + lines_len(after)) as usize;
    let awaiting = Awaiting::Headers { status, spent, length: Some(length) };
    lemma_line_is_read(awaiting, Seq::empty(), rest);
}

/// A response is read as it was written: its status and its whole body, and nothing of what follows
/// the body. Where no body is expected none is read, and the length that was declared stays.
pub proof fn law_replies_are_read_as_sent(
    status: u16,
    reason: Seq<char>,
    before: Seq<Seq<char>>,
    after: Seq<Seq<char>>,
    body: Seq<u8>,
    more: Seq<u8>,
)
    requires
        is_printable(reason),
        are_other_headers(before),
        are_other_headers(after),
        body.len() <= BODY_CEILING,
        lines_len(before) + length_line(body.len() as u64).len() + lines_len(after)
            <= HEADER_CEILING,
    ensures
        ({
            let length = body.len() as u64;
            let head = head_bytes(status, reason, before, length, after);
            &&& !is_bodyless(status) ==> reply_in(head + (body + more), true) == Ok::<
                ReplyView,
                Error,
            >(ReplyView { status, body, length: Some(length) })
            &&& reply_in(head + more, false) == Ok::<ReplyView, Error>(
                ReplyView { status, body: Seq::empty(), length: Some(length) },
            )
        }),
{
    let length = body.len() as u64;
    law_heads_are_read_as_sent(status, reason, before, length, after, body + more);
    law_heads_are_read_as_sent(status, reason, before, length, after, more);
    assert((body + more).take(length as int) =~= body);
}

/// A response whose body is cut short is truncation, and never a shorter body.
pub proof fn law_bodies_cut_short_are_truncation(
    status: u16,
    reason: Seq<char>,
    before: Seq<Seq<char>>,
    length: u64,
    after: Seq<Seq<char>>,
    body: Seq<u8>,
)
    requires
        is_printable(reason),
        are_other_headers(before),
        are_other_headers(after),
        !is_bodyless(status),
        body.len() < length <= BODY_CEILING,
        lines_len(before) + length_line(length).len() + lines_len(after) <= HEADER_CEILING,
    ensures
        reply_in(head_bytes(status, reason, before, length, after) + body, true) == Err::<
            ReplyView,
            Error,
        >(Error::Truncated),
{
    law_heads_are_read_as_sent(status, reason, before, length, after, body);
}

}
