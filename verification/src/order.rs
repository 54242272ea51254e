//! The order that names are held in: by their bytes, from the first that differs.

use vstd::prelude::*;
use vstd::utf8::encode_utf8;

use crate::text::lemma_encoding_is_injective;

verus! {

/// Whether `a` sorts before `b`, byte by byte.
pub open spec fn bytes_before(a: Seq<u8>, b: Seq<u8>) -> bool
    decreases a.len(),
{
    if b.len() == 0 {
        false
    } else if a.len() == 0 {
        true
    } else if a[0] != b[0] {
        a[0] < b[0]
    } else {
        bytes_before(a.drop_first(), b.drop_first())
    }
}

/// Whether the text `a` sorts before the text `b`.
pub open spec fn text_before(a: Seq<char>, b: Seq<char>) -> bool {
    bytes_before(encode_utf8(a), encode_utf8(b))
}

proof fn lemma_bytes_total(a: Seq<u8>, b: Seq<u8>)
    ensures
        bytes_before(a, b) || bytes_before(b, a) || a == b,
        !(bytes_before(a, b) && bytes_before(b, a)),
        a == b ==> !bytes_before(a, b),
    decreases a.len(),
{
    if a.len() > 0 && b.len() > 0 && a[0] == b[0] {
        lemma_bytes_total(a.drop_first(), b.drop_first());
        if a.drop_first() == b.drop_first() {
            assert(a =~= seq![a[0]] + a.drop_first());
            assert(b =~= seq![b[0]] + b.drop_first());
        }
    } else if a.len() == 0 && b.len() == 0 {
        assert(a =~= b);
    }
}

proof fn lemma_bytes_transitive(a: Seq<u8>, b: Seq<u8>, c: Seq<u8>)
    requires
        bytes_before(a, b),
        bytes_before(b, c),
    ensures
        bytes_before(a, c),
    decreases a.len(),
{
    if a.len() > 0 && b.len() > 0 && c.len() > 0 && a[0] == b[0] && b[0] == c[0] {
        lemma_bytes_transitive(a.drop_first(), b.drop_first(), c.drop_first());
    }
}

/// Of two texts exactly one of three holds: the first sorts before, the second does, or they are
/// the same.
pub proof fn lemma_order_is_total(a: Seq<char>, b: Seq<char>)
    ensures
        text_before(a, b) || text_before(b, a) || a == b,
        !(text_before(a, b) && text_before(b, a)),
        a == b ==> !text_before(a, b),
{
    lemma_bytes_total(encode_utf8(a), encode_utf8(b));
    if encode_utf8(a) == encode_utf8(b) {
        lemma_encoding_is_injective(a, b);
    }
}

/// The order carries over a chain.
pub proof fn lemma_order_is_transitive(a: Seq<char>, b: Seq<char>, c: Seq<char>)
    requires
        text_before(a, b),
        text_before(b, c),
    ensures
        text_before(a, c),
{
    lemma_bytes_transitive(encode_utf8(a), encode_utf8(b), encode_utf8(c));
}

/// Whether `a` sorts before `b`.
pub fn sorts_before(a: &str, b: &str) -> (before: bool)
    ensures
        before == text_before(a@, b@),
{
    let left = a.as_bytes();
    let right = b.as_bytes();
    let mut at: usize = 0;
    assert(left@.skip(0) =~= left@);
    assert(right@.skip(0) =~= right@);
    while at < left.len() && at < right.len()
        invariant
            at <= left@.len(),
            at <= right@.len(),
            left@ == encode_utf8(a@),
            right@ == encode_utf8(b@),
            text_before(a@, b@) == bytes_before(left@.skip(at as int), right@.skip(at as int)),
        decreases left.len() - at,
    {
        if left[at] != right[at] {
            return left[at] < right[at];
        }
        assert(left@.skip(at as int).drop_first() =~= left@.skip(at + 1));
        assert(right@.skip(at as int).drop_first() =~= right@.skip(at + 1));
        at = at + 1;
    }
    at < right.len()
}

/// Bytes sort by the first place in which they differ, whatever follows it, and where one run is
/// the start of the other the shorter sorts first.
pub proof fn law_the_first_difference_decides(
    start: Seq<u8>,
    a: u8,
    b: u8,
    after: Seq<u8>,
    other: Seq<u8>,
)
    requires
        a != b,
    ensures
        bytes_before(start + seq![a] + after, start + seq![b] + other) == (a < b),
        bytes_before(start, start + seq![a] + after),
        !bytes_before(start + seq![a] + after, start),
        !bytes_before(start, start),
    decreases start.len(),
{
    let left = start + seq![a] + after;
    let right = start + seq![b] + other;
    if start.len() > 0 {
        let fewer = start.drop_first();
        law_the_first_difference_decides(fewer, a, b, after, other);
        assert(left.drop_first() =~= fewer + seq![a] + after);
        assert(right.drop_first() =~= fewer + seq![b] + other);
        assert(left[0] == start[0] && right[0] == start[0]);
    } else {
        assert(left[0] == a && right[0] == b);
    }
}

/// Texts sort as the bytes they are in UTF-8.
pub proof fn law_texts_sort_as_their_bytes(a: Seq<char>, b: Seq<char>)
    ensures
        text_before(a, b) == bytes_before(encode_utf8(a), encode_utf8(b)),
{
}

}
