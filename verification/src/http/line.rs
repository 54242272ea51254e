//! Lines of text: trimming them, splitting them, and reading numbers in them.

use vstd::arithmetic::power::{lemma_pow0, lemma_pow1, lemma_pow_adds, pow};
use vstd::prelude::*;

use crate::text::{chars_of, is_digit, numeral};

verus! {

/// Whether a character is white space, as Unicode has it.
pub open spec fn is_space(ch: char) -> bool {
    let code = ch as u32;
    ||| 0x09 <= code <= 0x0D
    ||| code == 0x20
    ||| code == 0x85
    ||| code == 0xA0
    ||| code == 0x1680
    ||| 0x2000 <= code <= 0x200A
    ||| code == 0x2028
    ||| code == 0x2029
    ||| code == 0x202F
    ||| code == 0x205F
    ||| code == 0x3000
}

/// Whether a character ends a line.
pub open spec fn is_line_end(ch: char) -> bool {
    ch == '\r' || ch == '\n'
}

/// A text without the white space it starts with.
pub open spec fn trimmed_start(text: Seq<char>) -> Seq<char>
    decreases text.len(),
{
    if text.len() > 0 && is_space(text.first()) {
        trimmed_start(text.drop_first())
    } else {
        text
    }
}

/// A text without the white space it ends with.
pub open spec fn trimmed_end(text: Seq<char>) -> Seq<char>
    decreases text.len(),
{
    if text.len() > 0 && is_space(text.last()) {
        trimmed_end(text.drop_last())
    } else {
        text
    }
}

/// A text without the white space around it.
pub open spec fn trimmed(text: Seq<char>) -> Seq<char> {
    trimmed_end(trimmed_start(text))
}

/// A line without what ends it.
pub open spec fn without_line_end(text: Seq<char>) -> Seq<char>
    decreases text.len(),
{
    if text.len() > 0 && is_line_end(text.last()) {
        without_line_end(text.drop_last())
    } else {
        text
    }
}

/// Where a character first stands in a text, which is the end where it does not.
pub open spec fn first_at(text: Seq<char>, ch: char) -> nat
    decreases text.len(),
{
    if text.len() == 0 || text.first() == ch {
        0
    } else {
        1 + first_at(text.drop_first(), ch)
    }
}

/// The number that some digits write.
pub open spec fn digits_value(digits: Seq<char>) -> nat
    decreases digits.len(),
{
    if digits.len() == 0 {
        0
    } else {
        10 * digits_value(digits.drop_last()) + ((digits.last() as u32 - 48) as nat)
    }
}

/// The digits of a number, after the plus sign where there is one.
pub open spec fn digits_of(text: Seq<char>) -> Seq<char> {
    if text.len() > 0 && text.first() == '+' {
        text.drop_first()
    } else {
        text
    }
}

/// The number that a text writes, where it writes one that is no more than `limit`: a plus sign or
/// none, and then one digit or more.
pub open spec fn number_of(text: Seq<char>, limit: nat) -> Option<nat> {
    let digits = digits_of(text);
    if digits.len() > 0 && (forall|i: int| 0 <= i < digits.len() ==> is_digit(#[trigger] digits[i]))
        && digits_value(digits) <= limit {
        Some(digits_value(digits))
    } else {
        None
    }
}

fn space(ch: char) -> (is: bool)
    ensures
        is == is_space(ch),
{
    let code: u32 = ch as u32;
    (0x09 <= code && code <= 0x0D) || code == 0x20 || code == 0x85 || code == 0xA0 || code == 0x1680
        || (0x2000 <= code && code <= 0x200A) || code == 0x2028 || code == 0x2029 || code == 0x202F
        || code == 0x205F || code == 0x3000
}

/// Part of a text.
pub(crate) fn part(chars: &Vec<char>, from: usize, to: usize) -> (text: String)
    requires
        from <= to <= chars@.len(),
    ensures
        text@ == chars@.subrange(from as int, to as int),
{
    let mut text = String::new();
    let mut at: usize = from;
    assert(text@ =~= chars@.subrange(from as int, from as int));
    while at < to
        invariant
            from <= at <= to <= chars@.len(),
            text@ == chars@.subrange(from as int, at as int),
        decreases to - at,
    {
        text.push(chars[at]);
        at = at + 1;
        assert(text@ =~= chars@.subrange(from as int, at as int));
    }
    text
}

/// A text without the white space around it.
#[must_use]
pub fn trim(text: &str) -> (inner: String)
    ensures
        inner@ == trimmed(text@),
{
    let chars = chars_of(text);
    let len: usize = chars.len();
    let mut from: usize = 0;
    assert(chars@.skip(0) =~= chars@);
    while from < len && space(chars[from])
        invariant
            from <= len == chars@.len(),
            trimmed_start(chars@) == trimmed_start(chars@.skip(from as int)),
        decreases len - from,
    {
        assert(chars@.skip(from as int).drop_first() =~= chars@.skip(from + 1));
        from = from + 1;
    }
    assert(trimmed_start(chars@) == chars@.skip(from as int));
    let mut to: usize = len;
    assert(chars@.subrange(from as int, len as int) =~= chars@.skip(from as int));
    while to > from && space(chars[to - 1])
        invariant
            from <= to <= len == chars@.len(),
            trimmed_end(chars@.skip(from as int)) == trimmed_end(
                chars@.subrange(from as int, to as int),
            ),
        decreases to - from,
    {
        assert(chars@.subrange(from as int, to as int).drop_last() =~= chars@.subrange(
            from as int,
            to - 1,
        ));
        to = to - 1;
    }
    part(&chars, from, to)
}

/// A line without what ends it.
#[must_use]
pub fn strip_line_end(text: &str) -> (line: String)
    ensures
        line@ == without_line_end(text@),
{
    let chars = chars_of(text);
    let mut to: usize = chars.len();
    assert(chars@.subrange(0, to as int) =~= chars@);
    while to > 0 && (chars[to - 1] == '\r' || chars[to - 1] == '\n')
        invariant
            to <= chars@.len(),
            without_line_end(chars@) == without_line_end(chars@.subrange(0, to as int)),
        decreases to,
    {
        assert(chars@.subrange(0, to as int).drop_last() =~= chars@.subrange(0, to - 1));
        to = to - 1;
    }
    part(&chars, 0, to)
}

/// Where `ch` first stands from `from` on, counted from there.
pub(crate) fn find(chars: &Vec<char>, from: usize, ch: char) -> (at: usize)
    requires
        from <= chars@.len(),
    ensures
        at as nat == first_at(chars@.skip(from as int), ch),
        from + at <= chars@.len(),
{
    let mut at: usize = from;
    while at < chars.len() && chars[at] != ch
        invariant
            from <= at <= chars@.len(),
            first_at(chars@.skip(from as int), ch) == (at - from) + first_at(
                chars@.skip(at as int),
                ch,
            ),
        decreases chars.len() - at,
    {
        assert(chars@.skip(at as int).drop_first() =~= chars@.skip(at + 1));
        at = at + 1;
    }
    at - from
}

proof fn lemma_more_digits_are_no_less(digits: Seq<char>, at: int)
    requires
        0 <= at <= digits.len(),
    ensures
        digits_value(digits.take(at)) <= digits_value(digits),
    decreases digits.len(),
{
    if at < digits.len() {
        assert(digits.drop_last().take(at) =~= digits.take(at));
        lemma_more_digits_are_no_less(digits.drop_last(), at);
    } else {
        assert(digits.take(at) =~= digits);
    }
}

/// The number that a text writes, where it writes one that is no more than `limit`.
#[must_use]
pub fn parse_number(text: &str, limit: u64) -> (number: Option<u64>)
    ensures
        match number {
            Some(number) => number_of(text@, limit as nat) == Some(number as nat),
            None => number_of(text@, limit as nat) is None,
        },
{
    let chars = chars_of(text);
    let len: usize = chars.len();
    let from: usize = if len > 0 && chars[0] == '+' {
        1
    } else {
        0
    };
    let ghost digits = digits_of(text@);
    assert(digits =~= chars@.skip(from as int));
    if from == len {
        return None;
    }
    let mut value: u128 = 0;
    let mut at: usize = from;
    assert(digits.take(0) =~= Seq::empty());
    while at < len
        invariant
            from <= at <= len == chars@.len(),
            digits == chars@.skip(from as int),
            digits == digits_of(text@),
            from < len,
            value as nat == digits_value(digits.take(at - from)),
            value <= limit,
            forall|i: int| 0 <= i < at - from ==> is_digit(#[trigger] digits[i]),
        decreases len - at,
    {
        let ch: char = chars[at];
        assert(digits[at - from] == ch);
        if !numeral(ch) {
            return None;
        }
        let ghost next = digits.take(at + 1 - from);
        assert(next.drop_last() =~= digits.take(at - from));
        value = value * 10 + (ch as u32 - 48) as u128;
        if value > limit as u128 {
            proof {
                lemma_more_digits_are_no_less(digits, at + 1 - from);
            }
            return None;
        }
        at = at + 1;
    }
    assert(digits.take(at - from) =~= digits);
    Some(value as u64)
}

/// White space is what Unicode calls so.
pub proof fn law_white_space_is_listed(ch: char)
    ensures
        is_space(ch) <==> seq![
            '\u{9}',
            '\u{a}',
            '\u{b}',
            '\u{c}',
            '\u{d}',
            '\u{20}',
            '\u{85}',
            '\u{a0}',
            '\u{1680}',
            '\u{2000}',
            '\u{2001}',
            '\u{2002}',
            '\u{2003}',
            '\u{2004}',
            '\u{2005}',
            '\u{2006}',
            '\u{2007}',
            '\u{2008}',
            '\u{2009}',
            '\u{200a}',
            '\u{2028}',
            '\u{2029}',
            '\u{202f}',
            '\u{205f}',
            '\u{3000}',
        ].contains(ch),
{
    let listed = seq![
        '\u{9}',
        '\u{a}',
        '\u{b}',
        '\u{c}',
        '\u{d}',
        '\u{20}',
        '\u{85}',
        '\u{a0}',
        '\u{1680}',
        '\u{2000}',
        '\u{2001}',
        '\u{2002}',
        '\u{2003}',
        '\u{2004}',
        '\u{2005}',
        '\u{2006}',
        '\u{2007}',
        '\u{2008}',
        '\u{2009}',
        '\u{200a}',
        '\u{2028}',
        '\u{2029}',
        '\u{202f}',
        '\u{205f}',
        '\u{3000}',
    ];
    let code = ch as u32 as int;
    if 0x09 <= code <= 0x0D {
        assert(listed[code - 0x09] == ch);
    } else if code == 0x20 {
        assert(listed[5] == ch);
    } else if code == 0x85 {
        assert(listed[6] == ch);
    } else if code == 0xA0 {
        assert(listed[7] == ch);
    } else if code == 0x1680 {
        assert(listed[8] == ch);
    } else if 0x2000 <= code <= 0x200A {
        assert(listed[9 + code - 0x2000] == ch);
    } else if code == 0x2028 {
        assert(listed[20] == ch);
    } else if code == 0x2029 {
        assert(listed[21] == ch);
    } else if code == 0x202F {
        assert(listed[22] == ch);
    } else if code == 0x205F {
        assert(listed[23] == ch);
    } else if code == 0x3000 {
        assert(listed[24] == ch);
    }
}

/// Whether a text without the white space around it is the part from one place to another.
pub open spec fn is_inner(text: Seq<char>, from: int, to: int) -> bool {
    &&& 0 <= from <= to <= text.len()
    &&& forall|i: int| 0 <= i < from ==> is_space(#[trigger] text[i])
    &&& forall|i: int| to <= i < text.len() ==> is_space(#[trigger] text[i])
    &&& from < to ==> !is_space(text[from]) && !is_space(text[to - 1])
}

proof fn lemma_trimmed_start(text: Seq<char>)
    ensures
        ({
            let from = text.len() - trimmed_start(text).len();
            &&& 0 <= from <= text.len()
            &&& trimmed_start(text) == text.skip(from)
            &&& forall|i: int| 0 <= i < from ==> is_space(#[trigger] text[i])
            &&& from < text.len() ==> !is_space(text[from])
        }),
    decreases text.len(),
{
    if text.len() > 0 && is_space(text.first()) {
        let fewer = text.drop_first();
        lemma_trimmed_start(fewer);
        let from = text.len() - trimmed_start(text).len();
        assert(text.skip(from) =~= fewer.skip(from - 1));
        assert forall|i: int| 0 <= i < from implies is_space(#[trigger] text[i]) by {
            if i > 0 {
                assert(fewer[i - 1] == text[i]);
            }
        }
    } else {
        assert(text.skip(0) =~= text);
    }
}

proof fn lemma_trimmed_end(text: Seq<char>)
    ensures
        ({
            let to = trimmed_end(text).len() as int;
            &&& 0 <= to <= text.len()
            &&& trimmed_end(text) == text.take(to)
            &&& forall|i: int| to <= i < text.len() ==> is_space(#[trigger] text[i])
            &&& 0 < to ==> !is_space(text[to - 1])
        }),
    decreases text.len(),
{
    if text.len() > 0 && is_space(text.last()) {
        let fewer = text.drop_last();
        lemma_trimmed_end(fewer);
        let to = trimmed_end(text).len() as int;
        assert(text.take(to) =~= fewer.take(to));
        assert forall|i: int| to <= i < text.len() implies is_space(#[trigger] text[i]) by {
            if i < fewer.len() {
                assert(fewer[i] == text[i]);
            }
        }
    } else {
        assert(text.take(text.len() as int) =~= text);
    }
}

/// Trimming takes the white space around a text away, all of it, and nothing else.
pub proof fn law_trimming_takes_white_space_away(text: Seq<char>)
    ensures
        exists|from: int, to: int| #[trigger]
            is_inner(text, from, to) && trimmed(text) == text.subrange(from, to),
{
    let held = trimmed_start(text);
    let from = text.len() - held.len();
    let to = from + trimmed(text).len();
    lemma_trimmed_start(text);
    lemma_trimmed_end(held);
    assert forall|i: int| to <= i < text.len() implies is_space(#[trigger] text[i]) by {
        assert(held[i - from] == text[i]);
    }
    assert(from < to ==> held[0] == text[from] && held[to - 1 - from] == text[to - 1]);
    assert(trimmed(text) =~= text.subrange(from, to));
    assert(is_inner(text, from, to));
}

/// A line is what stands before the carriage returns and line feeds that end it.
pub proof fn law_lines_end_where_their_ends_begin(text: Seq<char>)
    ensures
        without_line_end(text).len() <= text.len(),
        without_line_end(text) == text.take(without_line_end(text).len() as int),
        forall|i: int|
            without_line_end(text).len() <= i < text.len() ==> #[trigger] text[i] == '\r' || text[i]
                == '\n',
        without_line_end(text).len() > 0 ==> without_line_end(text).last() != '\r'
            && without_line_end(text).last() != '\n',
    decreases text.len(),
{
    if text.len() > 0 && is_line_end(text.last()) {
        let fewer = text.drop_last();
        law_lines_end_where_their_ends_begin(fewer);
        let to = without_line_end(text).len() as int;
        assert(text.take(to) =~= fewer.take(to));
        assert forall|i: int| to <= i < text.len() implies #[trigger] text[i] == '\r' || text[i]
            == '\n' by {
            if i < fewer.len() {
                assert(fewer[i] == text[i]);
            }
        }
    } else {
        assert(text.take(text.len() as int) =~= text);
    }
}

/// A character is found where it first stands, or at the end where it does not stand at all.
pub proof fn law_characters_are_found_where_they_first_stand(text: Seq<char>, ch: char)
    ensures
        first_at(text, ch) <= text.len(),
        first_at(text, ch) < text.len() ==> text[first_at(text, ch) as int] == ch,
        forall|i: int| 0 <= i < first_at(text, ch) ==> #[trigger] text[i] != ch,
    decreases text.len(),
{
    if text.len() > 0 && text.first() != ch {
        let fewer = text.drop_first();
        law_characters_are_found_where_they_first_stand(fewer, ch);
        assert forall|i: int| 0 <= i < first_at(text, ch) implies #[trigger] text[i] != ch by {
            if i > 0 {
                assert(fewer[i - 1] == text[i]);
            }
        }
    }
}

/// A digit more at the front weighs as much as the power of ten that the digits after it make.
pub proof fn law_digits_weigh_by_their_place(first: char, digits: Seq<char>)
    requires
        '0' <= first <= '9',
    ensures
        digits_value(Seq::empty()) == 0,
        digits_value(seq![first] + digits) as int == (first as int - '0' as int) * pow(
            10,
            digits.len(),
        ) + digits_value(digits) as int,
    decreases digits.len(),
{
    let all = seq![first] + digits;
    assert(digits_value(Seq::empty()) == 0);
    let worth = first as int - '0' as int;
    if digits.len() == 0 {
        lemma_pow0(10);
        assert(all.drop_last() =~= Seq::empty());
        assert(digits_value(all.drop_last()) == 0);
        assert(worth * 1 == worth);
    } else {
        let fewer = digits.drop_last();
        law_digits_weigh_by_their_place(first, fewer);
        assert(all.drop_last() =~= seq![first] + fewer);
        let weight = pow(10, fewer.len());
        lemma_pow1(10);
        lemma_pow_adds(10, 1, fewer.len());
        assert(pow(10, digits.len()) == 10 * weight);
        assert(10 * (worth * weight) == worth * (10 * weight)) by (nonlinear_arith);
    }
}

/// A text writes a number where it is digits, one or more, after a plus sign or none, and the
/// number that they make is no more than the limit; nothing else writes one.
pub proof fn law_numbers_are_digits(text: Seq<char>, limit: nat)
    ensures
        number_of(seq!['+'] + text, limit) is Some <==> text.len() > 0 && (forall|i: int|
            0 <= i < text.len() ==> '0' <= #[trigger] text[i] <= '9') && digits_value(text)
            <= limit,
        number_of(text, limit) is Some && text[0] != '+' ==> number_of(text, limit) == Some(
            digits_value(text),
        ) && number_of(seq!['+'] + text, limit) == number_of(text, limit),
        text.len() > 0 && text[0] != '+' && number_of(seq!['+'] + text, limit) is Some
            ==> number_of(text, limit) is Some,
        number_of(text, limit) is Some ==> text.len() > 0,
{
    assert((seq!['+'] + text).drop_first() =~= text);
    assert(digits_of(seq!['+'] + text) == text);
    if forall|i: int| 0 <= i < text.len() ==> '0' <= #[trigger] text[i] <= '9' {
        assert forall|i: int| 0 <= i < text.len() implies is_digit(#[trigger] text[i]) by {}
    }
}

}
