//! The `Authorization` header, and the base64 underneath it.
//!
//! RFC 4648 is sixty-four symbols, one padding rule, and no content the encoder has to interpret:
//! a spelling of bytes. Only the encoder is here, because nothing in this client ever reads a
//! base64 value.

use vstd::prelude::*;
use vstd::string::StringExecFns;
use vstd::utf8::encode_utf8;

verus! {

/// The symbol of six bits: the standard alphabet of RFC 4648 §4, not the URL-safe one, since this
/// value goes in a header and not in a path.
pub open spec fn symbol_of(six: nat) -> char {
    if six < 26 {
        (65 + six) as char
    } else if six < 52 {
        (71 + six) as char
    } else if six < 62 {
        (six - 4) as char
    } else if six == 62 {
        '+'
    } else {
        '/'
    }
}

/// Bytes in base64, padded: four symbols for each three bytes, and where the last group is short,
/// `=` in place of each symbol that no byte reaches.
pub open spec fn base64(bytes: Seq<u8>) -> Seq<char>
    decreases bytes.len(),
{
    if bytes.len() == 0 {
        seq![]
    } else if bytes.len() == 1 {
        let a = bytes[0] as nat;
        seq![symbol_of(a / 4), symbol_of((a % 4) * 16), '=', '=']
    } else if bytes.len() == 2 {
        let a = bytes[0] as nat;
        let b = bytes[1] as nat;
        seq![symbol_of(a / 4), symbol_of((a % 4) * 16 + b / 16), symbol_of((b % 16) * 4), '=']
    } else {
        let a = bytes[0] as nat;
        let b = bytes[1] as nat;
        let c = bytes[2] as nat;
        seq![
            symbol_of(a / 4),
            symbol_of((a % 4) * 16 + b / 16),
            symbol_of((b % 16) * 4 + c / 64),
            symbol_of(c % 64),
        ] + base64(bytes.skip(3))
    }
}

/// The header value for a name and a password.
pub open spec fn basic_header(name: Seq<char>, password: Seq<char>) -> Seq<char> {
    "Basic "@ + base64(encode_utf8(name + ":"@ + password))
}

/// The whole header value for these credentials, ready to send.
///
/// The name and password are joined with a colon and encoded as bytes, so a password outside ASCII
/// travels as its UTF-8, which is what the node decodes. A name containing a colon is not rejected
/// here: RFC 7617 says the first colon separates, so such a name is unrepresentable in the scheme
/// itself, and the node is the party that decides what it makes of one.
#[must_use]
pub fn header(name: &str, password: &str) -> (value: String)
    ensures
        value@ == basic_header(name@, password@),
{
    let joined = name.to_owned().concat(":").concat(password);
    "Basic ".to_owned().concat(encode(joined.as_str().as_bytes()).as_str())
}

/// Base64 as RFC 4648 §4 spells it, padded.
#[must_use]
pub fn encode(bytes: &[u8]) -> (text: String)
    ensures
        text@ == base64(bytes@),
{
    let mut text = String::new();
    let mut at: usize = 0;
    assert(bytes@.skip(0) =~= bytes@);
    assert(text@ + base64(bytes@) =~= base64(bytes@));
    while bytes.len() - at >= 3
        invariant
            at <= bytes@.len(),
            text@ + base64(bytes@.skip(at as int)) == base64(bytes@),
        decreases bytes.len() - at,
    {
        let ghost before = text@;
        let ghost rest = bytes@.skip(at as int);
        let a: u8 = bytes[at];
        let b: u8 = bytes[at + 1];
        let c: u8 = bytes[at + 2];
        text.push(symbol(a / 4));
        text.push(symbol((a % 4) * 16 + b / 16));
        text.push(symbol((b % 16) * 4 + c / 64));
        text.push(symbol(c % 64));
        assert(rest.skip(3) =~= bytes@.skip(at + 3));
        at = at + 3;
        assert(text@ + base64(bytes@.skip(at as int)) =~= before + base64(rest));
    }
    let ghost before = text@;
    let ghost rest = bytes@.skip(at as int);
    if bytes.len() - at == 1 {
        let a: u8 = bytes[at];
        text.push(symbol(a / 4));
        text.push(symbol((a % 4) * 16));
        text.push('=');
        text.push('=');
    } else if bytes.len() - at == 2 {
        let a: u8 = bytes[at];
        let b: u8 = bytes[at + 1];
        text.push(symbol(a / 4));
        text.push(symbol((a % 4) * 16 + b / 16));
        text.push(symbol((b % 16) * 4));
        text.push('=');
    }
    assert(text@ =~= before + base64(rest));
    text
}

/// One symbol, for one six-bit group.
fn symbol(six: u8) -> (ch: char)
    requires
        six < 64,
    ensures
        ch == symbol_of(six as nat),
{
    if six < 26 {
        (65 + six) as char
    } else if six < 52 {
        (71 + six) as char
    } else if six < 62 {
        (six - 4) as char
    } else if six == 62 {
        '+'
    } else {
        '/'
    }
}

proof fn lemma_symbols_differ(a: nat, b: nat)
    requires
        a < 64,
        b < 64,
        symbol_of(a) == symbol_of(b),
    ensures
        a == b,
{
}

proof fn lemma_symbol_is_no_padding(a: nat)
    requires
        a < 64,
    ensures
        symbol_of(a) != '=',
{
}

/// Base64 is a spelling and not a disguise: different bytes are spelled differently.
pub proof fn law_base64_is_a_spelling(a: Seq<u8>, b: Seq<u8>)
    requires
        base64(a) == base64(b),
    ensures
        a == b,
    decreases a.len(),
{
    let spelled = base64(a);
    if a.len() == 0 || b.len() == 0 {
        assert(a.len() == 0 ==> spelled.len() == 0);
        assert(b.len() == 0 ==> spelled.len() == 0);
        assert(a.len() > 0 ==> spelled.len() >= 4);
        assert(b.len() > 0 ==> spelled.len() >= 4);
        assert(a =~= b);
    } else {
        let (a0, b0) = (a[0] as nat, b[0] as nat);
        let (a1, b1) = (
            if a.len() > 1 {
                a[1] as nat
            } else {
                0
            },
            if b.len() > 1 {
                b[1] as nat
            } else {
                0
            },
        );
        let (a2, b2) = (
            if a.len() > 2 {
                a[2] as nat
            } else {
                0
            },
            if b.len() > 2 {
                b[2] as nat
            } else {
                0
            },
        );
        assert(spelled[0] == symbol_of(a0 / 4));
        assert(base64(b)[0] == symbol_of(b0 / 4));
        assert(spelled[1] == symbol_of((a0 % 4) * 16 + a1 / 16));
        assert(base64(b)[1] == symbol_of((b0 % 4) * 16 + b1 / 16));
        lemma_symbols_differ(a0 / 4, b0 / 4);
        lemma_symbols_differ((a0 % 4) * 16 + a1 / 16, (b0 % 4) * 16 + b1 / 16);
        lemma_symbol_is_no_padding((a1 % 16) * 4 + a2 / 64);
        lemma_symbol_is_no_padding((b1 % 16) * 4 + b2 / 64);
        lemma_symbol_is_no_padding(a2 % 64);
        lemma_symbol_is_no_padding(b2 % 64);
        assert(spelled[2] == '=' <==> a.len() == 1);
        assert(spelled[2] == '=' <==> b.len() == 1);
        assert(spelled[3] == '=' <==> a.len() <= 2);
        assert(spelled[3] == '=' <==> b.len() <= 2);
        if a.len() > 1 {
            lemma_symbols_differ((a1 % 16) * 4 + a2 / 64, (b1 % 16) * 4 + b2 / 64);
        }
        if a.len() > 2 {
            lemma_symbols_differ(a2 % 64, b2 % 64);
            assert(spelled.skip(4) =~= base64(a.skip(3)));
            assert(spelled.skip(4) =~= base64(b.skip(3)));
            law_base64_is_a_spelling(a.skip(3), b.skip(3));
            assert(a =~= a.take(3) + a.skip(3));
            assert(b =~= b.take(3) + b.skip(3));
            assert(a.take(3) =~= b.take(3));
        } else {
            assert(a =~= b);
        }
    }
}

/// How many signs of padding end the base64 of so many bytes.
pub open spec fn padding(len: nat) -> nat {
    if len % 3 == 1 {
        2
    } else if len % 3 == 2 {
        1
    } else {
        0
    }
}

/// Base64 has four characters for each three bytes, the last group filled up: padding ends it where
/// that group is short, and stands nowhere else.
pub proof fn law_base64_is_padded(bytes: Seq<u8>)
    ensures
        base64(bytes).len() == 4 * ((bytes.len() + 2) / 3),
        padding(bytes.len()) <= base64(bytes).len(),
        forall|i: int|
            0 <= i < base64(bytes).len() ==> (#[trigger] base64(bytes)[i] == '=' <==> i
                >= base64(bytes).len() - padding(bytes.len())),
    decreases bytes.len(),
{
    let text = base64(bytes);
    let a = if bytes.len() > 0 {
        bytes[0] as nat
    } else {
        0
    };
    let b = if bytes.len() > 1 {
        bytes[1] as nat
    } else {
        0
    };
    let c = if bytes.len() > 2 {
        bytes[2] as nat
    } else {
        0
    };
    lemma_symbol_is_no_padding(a / 4);
    lemma_symbol_is_no_padding((a % 4) * 16 + b / 16);
    lemma_symbol_is_no_padding((b % 16) * 4 + c / 64);
    lemma_symbol_is_no_padding(c % 64);
    if bytes.len() >= 3 {
        let rest = bytes.skip(3);
        law_base64_is_padded(rest);
        assert forall|i: int| 0 <= i < text.len() implies (#[trigger] text[i] == '=' <==> i
            >= text.len() - padding(bytes.len())) by {
            if i >= 4 {
                assert(text[i] == base64(rest)[i - 4]);
            }
        }
    }
}

/// Whole groups of three bytes are spelled on their own: what follows them is spelled after them.
pub proof fn law_base64_goes_on(start: Seq<u8>, more: Seq<u8>)
    requires
        start.len() % 3 == 0,
    ensures
        base64(start + more) == base64(start) + base64(more),
    decreases start.len(),
{
    if start.len() == 0 {
        assert(start + more =~= more);
        assert(base64(start) + base64(more) =~= base64(more));
    } else {
        law_base64_goes_on(start.skip(3), more);
        assert((start + more).skip(3) =~= start.skip(3) + more);
        assert(base64(start + more) =~= base64(start) + base64(more));
    }
}

/// The six bits that a symbol stands for, with nothing for padding.
pub open spec fn six_of(symbol: char) -> int {
    if 'A' <= symbol <= 'Z' {
        symbol as int - 'A' as int
    } else if 'a' <= symbol <= 'z' {
        26 + symbol as int - 'a' as int
    } else if '0' <= symbol <= '9' {
        52 + symbol as int - '0' as int
    } else if symbol == '+' {
        62
    } else if symbol == '/' {
        63
    } else {
        0
    }
}

/// The byte at a place, which is nought beyond the end.
pub open spec fn byte_or_nought(bytes: Seq<u8>, at: int) -> int {
    if at < bytes.len() {
        bytes[at] as int
    } else {
        0
    }
}

/// Every four symbols hold the bits of three bytes, in the order in which they stand.
pub proof fn law_base64_keeps_the_bits(bytes: Seq<u8>, group: nat)
    requires
        3 * group < bytes.len(),
    ensures
        4 * group + 4 <= base64(bytes).len(),
        six_of(base64(bytes)[4 * group as int]) * 0x4_0000 + six_of(
            base64(bytes)[4 * group as int + 1],
        ) * 0x1000 + six_of(base64(bytes)[4 * group as int + 2]) * 0x40 + six_of(
            base64(bytes)[4 * group as int + 3],
        ) == byte_or_nought(bytes, 3 * group as int) * 0x1_0000 + byte_or_nought(
            bytes,
            3 * group as int + 1,
        ) * 0x100 + byte_or_nought(bytes, 3 * group as int + 2),
    decreases group,
{
    let text = base64(bytes);
    if group == 0 {
        let a = byte_or_nought(bytes, 0) as nat;
        let b = byte_or_nought(bytes, 1) as nat;
        let c = byte_or_nought(bytes, 2) as nat;
        lemma_six_of(a / 4);
        lemma_six_of((a % 4) * 16 + b / 16);
        lemma_six_of((b % 16) * 4 + c / 64);
        lemma_six_of(c % 64);
    } else {
        let rest = bytes.skip(3);
        let less = (group - 1) as nat;
        law_base64_keeps_the_bits(rest, less);
        let at = 4 * group as int;
        let further = base64(rest);
        assert(text[at] == further[4 * less as int]);
        assert(text[at + 1] == further[4 * less as int + 1]);
        assert(text[at + 2] == further[4 * less as int + 2]);
        assert(text[at + 3] == further[4 * less as int + 3]);
    }
}

proof fn lemma_six_of(six: nat)
    requires
        six < 64,
    ensures
        six_of(symbol_of(six)) == six,
        six_of('=') == 0,
{
}

/// A name and a password are presented as `Basic`, a space, and the base64 of the bytes of both
/// with a colon between.
pub proof fn law_passwords_are_presented_as_basic(name: Seq<char>, password: Seq<char>)
    ensures
        basic_header(name, password) == seq!['B', 'a', 's', 'i', 'c', ' '] + base64(
            encode_utf8(name + (seq![':'] + password)),
        ),
{
    reveal_strlit("Basic ");
    reveal_strlit(":");
    assert("Basic "@ =~= seq!['B', 'a', 's', 'i', 'c', ' ']);
    assert(name + ":"@ + password =~= name + (seq![':'] + password));
}

}
