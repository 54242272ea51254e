//! Text: turning bytes into it, comparing it, and writing numbers in it.

use vstd::arithmetic::div_mod::lemma_div_denominator;
use vstd::arithmetic::power::{lemma_pow0, lemma_pow1, lemma_pow_adds, lemma_pow_positive, pow};
use vstd::prelude::*;
use vstd::string::StringExecFns;
use vstd::utf8::{
    decode_utf8, decode_utf8_encode_utf8, encode_utf8, encode_utf8_decode_utf8, valid_utf8,
};

verus! {

/// `String::push`: appends one character to the end of a string.
pub assume_specification[ std::string::String::push ](text: &mut std::string::String, ch: char)
    ensures
        final(text)@ == old(text)@.push(ch),
;

/// `String::from_utf8`: the text that `bytes` spell where they are UTF-8, and nothing where they
/// are not.
#[verifier::external_body]
pub(crate) fn text_of_bytes(bytes: Vec<u8>) -> (text: Option<String>)
    ensures
        match text {
            Some(text) => valid_utf8(bytes@) && text@ == decode_utf8(bytes@),
            None => !valid_utf8(bytes@),
        },
{
    String::from_utf8(bytes).ok()
}

/// A text in quotes, with what cannot be printed as it is escaped.
pub uninterp spec fn quoted(text: Seq<char>) -> Seq<char>;

/// `<str as Debug>::fmt`: a text in quotes and escaped, which is a function of the text alone.
#[verifier::external_body]
pub(crate) fn quoted_text(text: &str) -> (shown: String)
    ensures
        shown@ == quoted(text@),
{
    format!("{:?}", text)
}

/// The text of some bytes, with a mark in place of what is not UTF-8.
pub uninterp spec fn lossy(bytes: Seq<u8>) -> Seq<char>;

/// `String::from_utf8_lossy`: the text of some bytes, which is a function of the bytes alone, and
/// where they are UTF-8 the text they spell.
#[verifier::external_body]
pub(crate) fn lossy_text(bytes: &[u8]) -> (text: String)
    ensures
        text@ == lossy(bytes@),
        valid_utf8(bytes@) ==> text@ == decode_utf8(bytes@),
{
    String::from_utf8_lossy(bytes).into_owned()
}

/// What stands for text where a name or a script is asked for: a string, or a borrowed one.
pub trait IntoText: Sized {
    /// The characters it stands for.
    spec fn text(&self) -> Seq<char>;

    /// Those characters, owned.
    fn into_text(self) -> (text: String)
        ensures
            text@ == self.text(),
    ;
}

impl IntoText for String {
    open spec fn text(&self) -> Seq<char> {
        self@
    }

    fn into_text(self) -> (text: String) {
        self
    }
}

impl<'a> IntoText for &'a str {
    open spec fn text(&self) -> Seq<char> {
        self@
    }

    fn into_text(self) -> (text: String) {
        self.to_owned()
    }
}

impl<'a> IntoText for &'a String {
    open spec fn text(&self) -> Seq<char> {
        self@
    }

    fn into_text(self) -> (text: String) {
        self.clone()
    }
}

/// Different characters have different bytes.
pub proof fn lemma_encoding_is_injective(a: Seq<char>, b: Seq<char>)
    requires
        encode_utf8(a) == encode_utf8(b),
    ensures
        a == b,
{
    encode_utf8_decode_utf8(a);
    encode_utf8_decode_utf8(b);
}

/// The text that valid bytes spell has those bytes.
pub proof fn lemma_decoded_bytes(bytes: Seq<u8>)
    requires
        valid_utf8(bytes),
    ensures
        encode_utf8(decode_utf8(bytes)) == bytes,
{
    decode_utf8_encode_utf8(bytes);
}

/// Whether two runs of bytes are the same.
pub(crate) fn same_bytes(a: &[u8], b: &[u8]) -> (same: bool)
    ensures
        same == (a@ == b@),
{
    let len: usize = a.len();
    if len != b.len() {
        return false;
    }
    let mut at: usize = 0;
    while at < len
        invariant
            len == a@.len(),
            len == b@.len(),
            at <= len,
            forall|i: int| 0 <= i < at ==> a@[i] == b@[i],
        decreases len - at,
    {
        if a[at] != b[at] {
            return false;
        }
        at = at + 1;
    }
    assert(a@ =~= b@);
    true
}

/// Whether two texts are the same.
pub(crate) fn same_text(a: &str, b: &str) -> (same: bool)
    ensures
        same == (a@ == b@),
{
    let same = same_bytes(a.as_bytes(), b.as_bytes());
    proof {
        if same {
            lemma_encoding_is_injective(a@, b@);
        }
    }
    same
}

/// One decimal digit.
pub open spec fn digit(value: nat) -> char {
    (48 + value) as char
}

/// A number in decimal digits, with no leading zero and no separators.
pub open spec fn decimal(value: nat) -> Seq<char>
    decreases value,
{
    if value < 10 {
        seq![digit(value)]
    } else {
        decimal(value / 10).push(digit(value % 10))
    }
}

/// A number written out in decimal.
pub(crate) fn decimal_text(value: u64) -> (text: String)
    ensures
        text@ == decimal(value as nat),
    decreases value,
{
    let mut text = if value < 10 {
        String::new()
    } else {
        decimal_text(value / 10)
    };
    let last: u8 = 48 + (value % 10) as u8;
    text.push(last as char);
    text
}

/// One hexadecimal digit, in lower case.
pub open spec fn hex_digit(value: nat) -> char {
    if value < 10 {
        digit(value)
    } else {
        (87 + value) as char
    }
}

/// A byte in hexadecimal: `0x` and two digits.
pub open spec fn hex(byte: u8) -> Seq<char> {
    seq!['0', 'x', hex_digit((byte / 16) as nat), hex_digit((byte % 16) as nat)]
}

fn hex_char(value: u8) -> (ch: char)
    requires
        value < 16,
    ensures
        ch == hex_digit(value as nat),
{
    if value < 10 {
        (48 + value) as char
    } else {
        (87 + value) as char
    }
}

/// A byte written out in hexadecimal.
pub(crate) fn hex_text(byte: u8) -> (text: String)
    ensures
        text@ == hex(byte),
{
    let mut text = String::new();
    text.push('0');
    text.push('x');
    text.push(hex_char(byte / 16));
    text.push(hex_char(byte % 16));
    assert(text@ =~= hex(byte));
    text
}

/// A number in decimal has at least one character, and every one of them is a digit.
pub proof fn lemma_decimal_digits(value: nat)
    ensures
        decimal(value).len() >= 1,
        forall|i: int| 0 <= i < decimal(value).len() ==> '0' <= #[trigger] decimal(value)[i] <= '9',
    decreases value,
{
    if value >= 10 {
        lemma_decimal_digits(value / 10);
    }
}

/// Different numbers are written differently.
pub proof fn lemma_decimal_is_injective(a: nat, b: nat)
    requires
        decimal(a) == decimal(b),
    ensures
        a == b,
    decreases a,
{
    lemma_decimal_digits(a / 10);
    lemma_decimal_digits(b / 10);
    assert(decimal(a).last() == digit(a % 10));
    assert(decimal(b).last() == digit(b % 10));
    if a >= 10 {
        if b >= 10 {
            assert(decimal(a).drop_last() =~= decimal(a / 10));
            assert(decimal(b).drop_last() =~= decimal(b / 10));
            lemma_decimal_is_injective(a / 10, b / 10);
        } else {
            assert(decimal(a).len() >= 2);
        }
    } else if b >= 10 {
        assert(decimal(b).len() >= 2);
    }
}

/// The characters of a text.
pub(crate) fn chars_of(text: &str) -> (chars: Vec<char>)
    ensures
        chars@ == text@,
{
    let mut chars: Vec<char> = Vec::new();
    for ch in it: text.chars()
        invariant
            chars@ == it.seq().take(it.index() as int),
            it.seq() == text@,
    {
        chars.push(ch);
    }
    assert(chars@ =~= text@);
    chars
}

/// Whether a character is one of the letters `A` to `Z` or `a` to `z`.
pub open spec fn is_letter(ch: char) -> bool {
    'a' <= ch <= 'z' || 'A' <= ch <= 'Z'
}

/// Whether a character is one of the digits `0` to `9`.
pub open spec fn is_digit(ch: char) -> bool {
    '0' <= ch <= '9'
}

/// Whether a character is an ASCII letter.
pub(crate) fn letter(ch: char) -> (is: bool)
    ensures
        is == is_letter(ch),
{
    ('a' <= ch && ch <= 'z') || ('A' <= ch && ch <= 'Z')
}

/// Whether a character is an ASCII digit.
pub(crate) fn numeral(ch: char) -> (is: bool)
    ensures
        is == is_digit(ch),
{
    '0' <= ch && ch <= '9'
}

/// A character in lower case, where it is an ASCII letter.
pub open spec fn lower(ch: char) -> char {
    if 'A' <= ch <= 'Z' {
        ((ch as u32) + 32) as char
    } else {
        ch
    }
}

/// A text with its ASCII letters in lower case.
pub open spec fn lowered(text: Seq<char>) -> Seq<char> {
    text.map_values(|ch: char| lower(ch))
}

/// A text with its ASCII letters in lower case.
pub(crate) fn lower_text(text: &str) -> (low: String)
    ensures
        low@ == lowered(text@),
{
    let mut low = String::new();
    assert(low@ =~= lowered(text@.take(0)));
    for ch in it: text.chars()
        invariant
            it.seq() == text@,
            low@ == lowered(text@.take(it.index() as int)),
    {
        let folded: char = if 'A' <= ch && ch <= 'Z' {
            ((ch as u8) + 32) as char
        } else {
            ch
        };
        low.push(folded);
        assert(low@ =~= lowered(text@.take(it.index() + 1)));
    }
    assert(text@.take(text@.len() as int) =~= text@);
    low
}

/// Parts with a comma and a space between each two.
pub open spec fn joined(parts: Seq<Seq<char>>) -> Seq<char>
    decreases parts.len(),
{
    if parts.len() == 0 {
        seq![]
    } else if parts.len() == 1 {
        parts[0]
    } else {
        joined(parts.drop_last()) + ", "@ + parts.last()
    }
}

/// Adds one part more to those joined before.
pub(crate) fn join(text: &mut String, count: usize, part: &str, Ghost(parts): Ghost<Seq<Seq<char>>>)
    requires
        parts.len() == count,
        old(text)@ == joined(parts),
    ensures
        final(text)@ == joined(parts.push(part@)),
{
    assert(parts.push(part@).drop_last() =~= parts);
    if count > 0 {
        text.append(", ");
    } else {
        assert(text@ =~= Seq::empty());
    }
    text.append(part);
    assert(text@ =~= joined(parts.push(part@)));
}

/// The digit at a place weighs a power of ten, the first of them the most, and no digit is written
/// that the number does not reach: there is no leading zero.
pub proof fn law_decimal_digits_weigh_by_their_place(value: nat, at: nat)
    ensures
        decimal(value).len() >= 1,
        (value as int) < pow(10, decimal(value).len()),
        decimal(value).len() > 1 ==> value as int >= pow(10, (decimal(value).len() - 1) as nat),
        at < decimal(value).len() ==> decimal(value)[at as int] as int - '0' as int == (value as int
            / pow(10, (decimal(value).len() - 1 - at) as nat)) % 10,
    decreases value,
{
    let len = decimal(value).len();
    lemma_pow1(10);
    lemma_pow0(10);
    if value < 10 {
        assert(value as int / 1 == value as int);
    } else {
        let fewer = decimal(value / 10);
        law_decimal_digits_weigh_by_their_place(value / 10, at);
        lemma_pow_adds(10, 1, fewer.len());
        lemma_pow_adds(10, 1, (fewer.len() - 1) as nat);
        if at < fewer.len() {
            let weight = (fewer.len() - 1 - at) as nat;
            lemma_pow_positive(10, weight);
            lemma_div_denominator(value as int, 10, pow(10, weight));
            lemma_pow_adds(10, 1, weight);
            assert(pow(10, (weight + 1) as nat) == 10 * pow(10, weight));
            assert(decimal(value)[at as int] == fewer[at as int]);
        } else if at < len {
            assert(value as int / 1 == value as int);
        }
    }
}

/// A byte is told in hexadecimal by `0x` and two digits, the higher of them first, in lower case.
pub proof fn law_hexadecimal_tells_the_byte(byte: u8)
    ensures
        hex(byte).len() == 4,
        hex(byte)[0] == '0',
        hex(byte)[1] == 'x',
        exists|high: int, low: int|
            #![trigger "0123456789abcdef"@[high], "0123456789abcdef"@[low]]
            0 <= high < 16 && 0 <= low < 16 && byte == 16 * high + low && hex(byte)[2]
                == "0123456789abcdef"@[high] && hex(byte)[3] == "0123456789abcdef"@[low],
{
    let high = (byte / 16) as int;
    let low = (byte % 16) as int;
    lemma_hex_digits(high);
    lemma_hex_digits(low);
    assert("0123456789abcdef"@[high] == hex(byte)[2]);
    assert("0123456789abcdef"@[low] == hex(byte)[3]);
}

proof fn lemma_hex_digits(value: int)
    requires
        0 <= value < 16,
    ensures
        hex_digit(value as nat) == "0123456789abcdef"@[value],
{
    reveal_strlit("0123456789abcdef");
    if value < 4 {
        assert(value == 0 || value == 1 || value == 2 || value == 3);
    } else if value < 8 {
        assert(value == 4 || value == 5 || value == 6 || value == 7);
    } else if value < 12 {
        assert(value == 8 || value == 9 || value == 10 || value == 11);
    } else {
        assert(value == 12 || value == 13 || value == 14 || value == 15);
    }
}

/// Whether a text spells a word, with each of its letters in either case.
pub open spec fn spells(text: Seq<char>, word: Seq<char>) -> bool {
    text.len() == word.len() && forall|i: int|
        0 <= i < word.len() ==> #[trigger] text[i] == word[i] || ('a' <= word[i] <= 'z'
            && text[i] as int == word[i] as int - 32)
}

/// A text spells a word that has no capitals where it is that word in lower case.
pub proof fn lemma_lowered_spells(text: Seq<char>, word: Seq<char>)
    requires
        forall|i: int| 0 <= i < word.len() ==> !('A' <= #[trigger] word[i] <= 'Z'),
    ensures
        lowered(text) == word <==> spells(text, word),
{
    if lowered(text) == word {
        assert(lowered(text).len() == text.len());
        assert forall|i: int| 0 <= i < word.len() implies #[trigger] text[i] == word[i] || ('a'
            <= word[i] <= 'z' && text[i] as int == word[i] as int - 32) by {
            assert(lowered(text)[i] == lower(text[i]));
        }
    }
    if spells(text, word) {
        assert forall|i: int| 0 <= i < text.len() implies #[trigger] lowered(text)[i]
            == word[i] by {
            assert(text[i] == word[i] || ('a' <= word[i] <= 'z' && text[i] as int == word[i] as int
                - 32));
            assert(!('A' <= word[i] <= 'Z'));
            assert(lowered(text)[i] == lower(text[i]));
        }
        assert(lowered(text) =~= word);
    }
}

/// Texts that are put one after another are the same text, whichever two are put together first.
pub proof fn lemma_assoc(a: Seq<char>, b: Seq<char>, c: Seq<char>)
    ensures
        (a + b) + c == a + (b + c),
{
    assert((a + b) + c =~= a + (b + c));
}

/// Text is what is said, however it is handed over.
pub proof fn law_text_is_what_is_said(owned: String, borrowed: &str, lent: &String, text: String)
    ensures
        owned.text() == owned@,
        borrowed.text() == borrowed@,
        lent.text() == lent@,
        call_ensures(<String as IntoText>::into_text, (owned,), text) ==> text@ == owned@,
        call_ensures(<&str as IntoText>::into_text, (borrowed,), text) ==> text@ == borrowed@,
        call_ensures(<&String as IntoText>::into_text, (lent,), text) ==> text@ == lent@,
{
}

}
