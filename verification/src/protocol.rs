//! The protocol constants.
//!
//! [`GREETING`] is four bytes that happen to spell the product's short name. They are not required
//! to: they are an arbitrary magic number whose only job is to make "this is not one of ours" a
//! clear answer at the first read. They live here and only here, so that a rename of the product
//! does not become a protocol break.

use vstd::prelude::*;

verus! {

/// What every connection says first, in both directions.
pub const GREETING: [u8; 4] = [0x54, 0x45, 0x53, 0x53];

/// The protocol major this client speaks.
///
/// Checked at the greeting so a mismatch is one clear refusal at the start rather than a decode
/// failure somewhere in the middle that reads like corruption. A differing major means the bodies
/// are not the same protocol and no conversation is possible.
pub const MAJOR: u8 = 1;

/// The protocol minor this client speaks.
///
/// A differing minor is not a refusal. Each side learns the other's and uses it for one thing
/// only: declining to send what an older peer cannot read.
pub const MINOR: u8 = 1;

/// The largest frame this client will read, or send.
///
/// A declared length above this is refused before anything is allocated, because a length from a
/// stranger is not a promise. The ceiling applies outbound as well: a peer that emits what it
/// would refuse to read is running two protocols.
pub const CEILING: u32 = 0x0100_0000;

/// The fixed size of a frame header: one kind byte and a `u32` length.
pub const HEADER: usize = 5;

/// The size of the greeting: the magic, then major, then minor.
///
/// Its own constant rather than a reuse of [`HEADER`].
pub const GREETING_BYTES: usize = 6;

}
