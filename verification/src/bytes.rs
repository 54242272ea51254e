//! Whole numbers as bytes, the most significant first.

use vstd::arithmetic::div_mod::lemma_div_denominator;
use vstd::arithmetic::power::{lemma_pow0, lemma_pow1, lemma_pow_adds, lemma_pow_positive, pow};
use vstd::prelude::*;

verus! {

/// How many values `width` bytes can tell apart.
pub open spec fn span(width: nat) -> nat
    decreases width,
{
    if width == 0 {
        1
    } else {
        256 * span((width - 1) as nat)
    }
}

/// The low `width` bytes of a number, the most significant first.
pub open spec fn big_endian(value: nat, width: nat) -> Seq<u8>
    decreases width,
{
    if width == 0 {
        seq![]
    } else {
        big_endian(value / 256, (width - 1) as nat).push((value % 256) as u8)
    }
}

/// The number that bytes write, the most significant first.
pub open spec fn magnitude(bytes: Seq<u8>) -> nat
    decreases bytes.len(),
{
    if bytes.len() == 0 {
        0
    } else {
        256 * magnitude(bytes.drop_last()) + bytes.last() as nat
    }
}

/// The spans of the widths that are in use.
pub proof fn lemma_spans()
    ensures
        span(1) == 0x100,
        span(2) == 0x1_0000,
        span(4) == 0x1_0000_0000,
        span(8) == 0x1_0000_0000_0000_0000,
        span(16) == 0x1_0000_0000_0000_0000_0000_0000_0000_0000,
{
    reveal_with_fuel(span, 17);
}

/// A number takes as many bytes as it is given.
pub proof fn lemma_big_endian_len(value: nat, width: nat)
    ensures
        big_endian(value, width).len() == width,
    decreases width,
{
    if width > 0 {
        lemma_big_endian_len(value / 256, (width - 1) as nat);
    }
}

/// A number that fits is read back from its bytes.
pub proof fn lemma_magnitude_of_big_endian(value: nat, width: nat)
    requires
        value < span(width),
    ensures
        magnitude(big_endian(value, width)) == value,
        big_endian(value, width).len() == width,
    decreases width,
{
    if width > 0 {
        lemma_magnitude_of_big_endian(value / 256, (width - 1) as nat);
        let bytes = big_endian(value, width);
        assert(bytes.drop_last() =~= big_endian(value / 256, (width - 1) as nat));
    }
}

/// Bytes write a number that fits them.
pub proof fn lemma_magnitude_fits(bytes: Seq<u8>)
    ensures
        magnitude(bytes) < span(bytes.len()),
    decreases bytes.len(),
{
    if bytes.len() > 0 {
        lemma_magnitude_fits(bytes.drop_last());
    }
}

/// Bytes are written back from the number they write.
pub proof fn lemma_big_endian_of_magnitude(bytes: Seq<u8>)
    ensures
        big_endian(magnitude(bytes), bytes.len()) == bytes,
    decreases bytes.len(),
{
    if bytes.len() > 0 {
        lemma_big_endian_of_magnitude(bytes.drop_last());
        assert(magnitude(bytes) / 256 == magnitude(bytes.drop_last()));
        assert(bytes =~= bytes.drop_last().push(bytes.last()));
    }
}

/// Writes the low `width` bytes of a number, the most significant first.
pub(crate) fn put_big_endian(out: &mut Vec<u8>, value: u128, width: u8)
    ensures
        final(out)@ == old(out)@ + big_endian(value as nat, width as nat),
    decreases width,
{
    if width > 0 {
        put_big_endian(out, value / 256, width - 1);
        out.push((value % 256) as u8);
    }
    assert(out@ =~= old(out)@ + big_endian(value as nat, width as nat));
}

/// Reads a number from at most sixteen bytes, the most significant first.
pub(crate) fn read_big_endian(bytes: &[u8]) -> (value: u128)
    requires
        bytes@.len() <= 16,
    ensures
        value as nat == magnitude(bytes@),
{
    let mut value: u128 = 0;
    let mut at: usize = 0;
    while at < bytes.len()
        invariant
            at <= bytes@.len() <= 16,
            value as nat == magnitude(bytes@.take(at as int)),
        decreases bytes.len() - at,
    {
        proof {
            let next = bytes@.take(at + 1);
            assert(next.drop_last() =~= bytes@.take(at as int));
            lemma_magnitude_fits(next);
            assert(span(next.len()) <= span(16)) by {
                lemma_spans_grow(next.len(), 16);
            }
            lemma_spans();
        }
        value = value * 256 + bytes[at] as u128;
        at = at + 1;
    }
    assert(bytes@.take(at as int) =~= bytes@);
    value
}

proof fn lemma_spans_grow(a: nat, b: nat)
    requires
        a <= b,
    ensures
        span(a) <= span(b),
    decreases b,
{
    if a < b {
        lemma_spans_grow(a, (b - 1) as nat);
    }
}

/// The byte at a place weighs a power of 256, the first of them the most: what stands there is what
/// is left of the number once everything of less weight is taken away, and of that the low byte.
pub proof fn law_the_most_significant_byte_is_first(value: nat, width: nat, at: nat)
    requires
        at < width,
    ensures
        big_endian(value, width).len() == width,
        big_endian(value, width)[at as int] as int == (value as int / pow(
            256,
            (width - 1 - at) as nat,
        )) % 256,
    decreases width,
{
    let less = (width - 1) as nat;
    lemma_big_endian_len(value, width);
    lemma_big_endian_len(value / 256, less);
    if at == less {
        lemma_pow0(256);
        assert(value as int / 1 == value as int);
    } else {
        let weight = (less - 1 - at) as nat;
        law_the_most_significant_byte_is_first(value / 256, less, at);
        lemma_pow_positive(256, weight);
        lemma_div_denominator(value as int, 256, pow(256, weight));
        lemma_pow1(256);
        lemma_pow_adds(256, 1, weight);
        assert(pow(256, (weight + 1) as nat) == 256 * pow(256, weight));
    }
}

/// A byte more at the front weighs as much as the power of 256 that the bytes after it make.
pub proof fn law_bytes_weigh_by_their_place(first: u8, bytes: Seq<u8>)
    ensures
        magnitude(Seq::empty()) == 0,
        magnitude(seq![first] + bytes) as int == first as int * pow(256, bytes.len()) + magnitude(
            bytes,
        ) as int,
    decreases bytes.len(),
{
    let all = seq![first] + bytes;
    if bytes.len() == 0 {
        lemma_pow0(256);
        assert(all.drop_last() =~= Seq::empty());
        assert(magnitude(Seq::empty()) == 0);
        assert(first as int * 1 == first as int);
    } else {
        let fewer = bytes.drop_last();
        law_bytes_weigh_by_their_place(first, fewer);
        assert(all.drop_last() =~= seq![first] + fewer);
        let weight = pow(256, fewer.len());
        lemma_pow1(256);
        lemma_pow_adds(256, 1, fewer.len());
        assert(pow(256, bytes.len()) == 256 * weight);
        assert(256 * (first as int * weight) == first as int * (256 * weight)) by (nonlinear_arith);
    }
}

}
