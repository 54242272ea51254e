//! The value codec.
//!
//! # This module's integers are not the frame layer's
//!
//! The protocol has two primitive sets and they disagree about signed integers. Here, an `i64` is
//! written big-endian with the top bit of the first byte inverted; in [`crate::wire::frame`] every
//! integer is plain big-endian.
//!
//! The inversion exists because the node writes these values with a primitive shared with an
//! order-preserving key encoder, where a set sign bit would sort negatives above positives. The
//! two sets live in two modules on purpose: one shared helper serving both layers does not fail
//! to compile, it returns wrong numbers.
//!
//! # Every value starts with its type
//!
//! An unknown tag is refused, never guessed at. A codec that infers a type from what follows reads
//! a newer format as a plausible wrong value, and nothing downstream can tell.

use vstd::prelude::*;

pub mod decoded;
pub mod extent;
pub mod layout;
pub mod laws;
pub mod parse;
pub mod published;
pub mod read;
pub mod write;

pub use crate::codec::read::decode;
pub use crate::codec::write::encode;

verus! {

// The type tag that opens every value. Permanent: a tag is never reused for a different type and
// never renumbered, because data already written carries them.

/// An absent field.
pub const TAG_NONE: u8 = 0x01;
/// A field that holds nothing.
pub const TAG_NULL: u8 = 0x02;
/// A boolean.
pub const TAG_BOOL: u8 = 0x03;
/// A number.
pub const TAG_NUMBER: u8 = 0x04;
/// Text.
pub const TAG_STRING: u8 = 0x05;
/// Opaque bytes.
pub const TAG_BYTES: u8 = 0x06;
/// A span of time.
pub const TAG_DURATION: u8 = 0x07;
/// A point in time.
pub const TAG_DATETIME: u8 = 0x08;
/// A universally unique identifier.
pub const TAG_UUID: u8 = 0x09;
/// A reference to a table.
pub const TAG_TABLE: u8 = 0x0a;
/// A reference to a record.
pub const TAG_RECORD: u8 = 0x0b;
/// An ordered sequence.
pub const TAG_ARRAY: u8 = 0x0c;
/// Values by name.
pub const TAG_OBJECT: u8 = 0x0d;
/// A span between two values.
pub const TAG_RANGE: u8 = 0x0e;
/// A collection without order.
pub const TAG_SET: u8 = 0x0f;
/// A shape.
pub const TAG_GEOMETRY: u8 = 0x10;
/// A pattern.
pub const TAG_REGEX: u8 = 0x11;

// Which shape a geometry is. Permanent for the reason the value tags are.

/// One position.
pub const SHAPE_POINT: u8 = 0x01;
/// A path.
pub const SHAPE_LINE: u8 = 0x02;
/// An area.
pub const SHAPE_POLYGON: u8 = 0x03;
/// Several points.
pub const SHAPE_MULTI_POINT: u8 = 0x04;
/// Several paths.
pub const SHAPE_MULTI_LINE: u8 = 0x05;
/// Several areas.
pub const SHAPE_MULTI_POLYGON: u8 = 0x06;
/// Shapes of mixed kinds.
pub const SHAPE_COLLECTION: u8 = 0x07;

// Which of the three shapes a number takes.

/// A 64-bit signed integer.
pub const NUMBER_INTEGER: u8 = 0x01;
/// A double.
pub const NUMBER_FLOAT: u8 = 0x02;
/// An exact decimal.
pub const NUMBER_DECIMAL: u8 = 0x03;

// Which end a range bound is.

/// No end.
pub const BOUND_UNBOUNDED: u8 = 0x01;
/// An end that belongs to the span.
pub const BOUND_INCLUDED: u8 = 0x02;
/// An end that the span stops short of.
pub const BOUND_EXCLUDED: u8 = 0x03;

// The discriminant that opens a record identity.

/// An integer identity.
pub const RECORD_ID_INT: u8 = 0x01;
/// A textual identity.
pub const RECORD_ID_TEXT: u8 = 0x02;
/// A UUID identity.
pub const RECORD_ID_UUID: u8 = 0x03;
/// An opaque byte identity.
pub const RECORD_ID_BYTES: u8 = 0x04;

/// A zero byte, which opens both an escape and a terminator.
pub const ESCAPE: u8 = 0x00;
/// The second byte of a terminator.
pub const TERMINATOR: u8 = 0x01;
/// The second byte of an escaped zero.
pub const ESCAPED_ZERO: u8 = 0xFF;

/// How many nanoseconds a second holds.
pub const NANOS_PER_SECOND: u32 = 1_000_000_000;

/// How deep a nested value may go before it is refused.
///
/// Nothing in the encoding bounds the nesting, so without a limit a few hundred bytes of crafted
/// input would recurse until the stack ends. The limit makes such an input an ordinary refusal.
pub const MAX_DEPTH: u32 = 128;

}
