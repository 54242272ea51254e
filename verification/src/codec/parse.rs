//! What bytes are read as: the value and the bytes that follow it, or why there is none.

use vstd::prelude::*;
use vstd::utf8::{decode_utf8, valid_utf8};

use crate::bytes::magnitude;
use crate::codec::{
    BOUND_EXCLUDED, BOUND_INCLUDED, BOUND_UNBOUNDED, ESCAPE, ESCAPED_ZERO, MAX_DEPTH,
    NANOS_PER_SECOND, NUMBER_DECIMAL, NUMBER_FLOAT, NUMBER_INTEGER, RECORD_ID_BYTES, RECORD_ID_INT,
    RECORD_ID_TEXT, RECORD_ID_UUID, SHAPE_COLLECTION, SHAPE_LINE, SHAPE_MULTI_LINE,
    SHAPE_MULTI_POINT, SHAPE_MULTI_POLYGON, SHAPE_POINT, SHAPE_POLYGON, TAG_ARRAY, TAG_BOOL,
    TAG_BYTES, TAG_DATETIME, TAG_DURATION, TAG_GEOMETRY, TAG_NONE, TAG_NULL, TAG_NUMBER, TAG_OBJECT,
    TAG_RANGE, TAG_RECORD, TAG_REGEX, TAG_SET, TAG_STRING, TAG_TABLE, TAG_UUID, TERMINATOR,
};
use crate::double::Double;
use crate::error::EncodingFault;
use crate::fields::with_fields;
use crate::geometry::{GeometryView, PolygonView, Position};
use crate::value::{Bound, Number, RangeView, RecordIdView, RecordRefView, ValueView};

verus! {

/// What was read and the bytes after it, or why nothing was.
pub type Parsed<T> = Result<(T, Seq<u8>), EncodingFault>;

/// Whether `value` was read, with `rest` after it.
pub open spec fn yields<T>(parsed: Parsed<T>, value: T, rest: Seq<u8>) -> bool {
    parsed == Ok::<(T, Seq<u8>), EncodingFault>((value, rest))
}

/// Whether nothing was read, because of `fault`.
pub open spec fn fails<T>(parsed: Parsed<T>, fault: EncodingFault) -> bool {
    parsed == Err::<(T, Seq<u8>), EncodingFault>(fault)
}

/// The first `len` bytes.
pub open spec fn take(bytes: Seq<u8>, len: nat) -> Parsed<Seq<u8>> {
    if bytes.len() < len {
        Err(EncodingFault::Truncated)
    } else {
        Ok((bytes.take(len as int), bytes.skip(len as int)))
    }
}

/// One byte.
pub open spec fn take_byte(bytes: Seq<u8>) -> Parsed<u8> {
    if bytes.len() == 0 {
        Err(EncodingFault::Truncated)
    } else {
        Ok((bytes[0], bytes.drop_first()))
    }
}

/// A plain number of `width` bytes.
pub open spec fn take_plain(bytes: Seq<u8>, width: nat) -> Parsed<nat> {
    match take(bytes, width) {
        Err(fault) => Err(fault),
        Ok((taken, rest)) => Ok((magnitude(taken), rest)),
    }
}

/// A number of four bytes.
pub open spec fn take_u32(bytes: Seq<u8>) -> Parsed<u32> {
    match take_plain(bytes, 4) {
        Err(fault) => Err(fault),
        Ok((value, rest)) => Ok((value as u32, rest)),
    }
}

/// A signed integer with its sign bit inverted.
pub open spec fn take_i64(bytes: Seq<u8>) -> Parsed<i64> {
    match take_plain(bytes, 8) {
        Err(fault) => Err(fault),
        Ok((distance, rest)) => Ok(((distance + i64::MIN) as i64, rest)),
    }
}

/// The signed integer that sixteen bytes are in two's complement.
pub open spec fn signed_of(bits: nat) -> i128 {
    if bits <= i128::MAX {
        bits as i128
    } else {
        (bits - 0x1_0000_0000_0000_0000_0000_0000_0000_0000) as i128
    }
}

/// A double, by its bits.
pub open spec fn take_double(bytes: Seq<u8>) -> Parsed<Double> {
    match take_plain(bytes, 8) {
        Err(fault) => Err(fault),
        Ok((bits, rest)) => Ok((Double { bits: bits as u64 }, rest)),
    }
}

/// A length-prefixed block.
pub open spec fn take_block(bytes: Seq<u8>) -> Parsed<Seq<u8>> {
    match take_u32(bytes) {
        Err(fault) => Err(fault),
        Ok((len, rest)) => take(rest, len as nat),
    }
}

/// The text that some bytes are, where they are text.
pub open spec fn as_text(bytes: Seq<u8>, rest: Seq<u8>) -> Parsed<Seq<char>> {
    if valid_utf8(bytes) {
        Ok((decode_utf8(bytes), rest))
    } else {
        Err(EncodingFault::InvalidUtf8)
    }
}

/// Length-prefixed text.
pub open spec fn take_text(bytes: Seq<u8>) -> Parsed<Seq<char>> {
    match take_block(bytes) {
        Err(fault) => Err(fault),
        Ok((taken, rest)) => as_text(taken, rest),
    }
}

/// What was read, with one byte before it.
pub open spec fn after_byte(byte: u8, parsed: Parsed<Seq<u8>>) -> Parsed<Seq<u8>> {
    match parsed {
        Err(fault) => Err(fault),
        Ok((taken, rest)) => Ok((seq![byte] + taken, rest)),
    }
}

/// An escaped, terminated block.
pub open spec fn take_terminated(bytes: Seq<u8>) -> Parsed<Seq<u8>>
    decreases bytes.len(),
{
    if bytes.len() == 0 {
        Err(EncodingFault::Unterminated)
    } else if bytes[0] != ESCAPE {
        after_byte(bytes[0], take_terminated(bytes.drop_first()))
    } else if bytes.len() == 1 {
        Err(EncodingFault::Unterminated)
    } else if bytes[1] == TERMINATOR {
        Ok((seq![], bytes.skip(2)))
    } else if bytes[1] == ESCAPED_ZERO {
        after_byte(ESCAPE, take_terminated(bytes.skip(2)))
    } else {
        Err(EncodingFault::InvalidEscape { found: bytes[1] })
    }
}

/// Seconds and nanoseconds, of which a second holds a billion.
pub open spec fn take_time(bytes: Seq<u8>) -> Parsed<(i64, u32)> {
    match take_i64(bytes) {
        Err(fault) => Err(fault),
        Ok((seconds, rest)) => match take_u32(rest) {
            Err(fault) => Err(fault),
            Ok((nanos, rest)) => if nanos >= NANOS_PER_SECOND {
                Err(EncodingFault::InvalidSubSecond { nanos })
            } else {
                Ok(((seconds, nanos), rest))
            },
        },
    }
}

/// A number.
pub open spec fn take_number(bytes: Seq<u8>) -> Parsed<Number> {
    match take_byte(bytes) {
        Err(fault) => Err(fault),
        Ok((kind, rest)) => if kind == NUMBER_INTEGER {
            match take_i64(rest) {
                Err(fault) => Err(fault),
                Ok((value, rest)) => Ok((Number::Integer(value), rest)),
            }
        } else if kind == NUMBER_FLOAT {
            match take_double(rest) {
                Err(fault) => Err(fault),
                Ok((double, rest)) => Ok((Number::Float(double), rest)),
            }
        } else if kind == NUMBER_DECIMAL {
            match take_plain(rest, 16) {
                Err(fault) => Err(fault),
                Ok((bits, rest)) => match take_u32(rest) {
                    Err(fault) => Err(fault),
                    Ok((scale, rest)) => Ok(
                        (Number::Decimal { mantissa: signed_of(bits), scale }, rest),
                    ),
                },
            }
        } else {
            Err(EncodingFault::UnknownTag { tag: kind })
        },
    }
}

/// A record's identity.
pub open spec fn take_record_id(bytes: Seq<u8>) -> Parsed<RecordIdView> {
    match take_byte(bytes) {
        Err(fault) => Err(fault),
        Ok((kind, rest)) => if kind == RECORD_ID_INT {
            match take_i64(rest) {
                Err(fault) => Err(fault),
                Ok((value, rest)) => Ok((RecordIdView::Int(value), rest)),
            }
        } else if kind == RECORD_ID_TEXT {
            match take_terminated(rest) {
                Err(fault) => Err(fault),
                Ok((taken, rest)) => match as_text(taken, rest) {
                    Err(fault) => Err(fault),
                    Ok((text, rest)) => Ok((RecordIdView::Text(text), rest)),
                },
            }
        } else if kind == RECORD_ID_UUID {
            match take(rest, 16) {
                Err(fault) => Err(fault),
                Ok((taken, rest)) => Ok((RecordIdView::Uuid(taken), rest)),
            }
        } else if kind == RECORD_ID_BYTES {
            match take_terminated(rest) {
                Err(fault) => Err(fault),
                Ok((taken, rest)) => Ok((RecordIdView::Bytes(taken), rest)),
            }
        } else {
            Err(EncodingFault::UnknownTag { tag: kind })
        },
    }
}

/// A reference to a record.
pub open spec fn take_record_ref(bytes: Seq<u8>) -> Parsed<RecordRefView> {
    match take_u32(bytes) {
        Err(fault) => Err(fault),
        Ok((table, rest)) => match take_record_id(rest) {
            Err(fault) => Err(fault),
            Ok((id, rest)) => Ok((RecordRefView { table, id }, rest)),
        },
    }
}

/// What was read, with one item before it.
pub open spec fn after_item<T>(item: T, parsed: Parsed<Seq<T>>) -> Parsed<Seq<T>> {
    match parsed {
        Err(fault) => Err(fault),
        Ok((items, rest)) => Ok((seq![item] + items, rest)),
    }
}

/// A coordinate pair, longitude first.
pub open spec fn take_position(bytes: Seq<u8>) -> Parsed<Position> {
    match take_double(bytes) {
        Err(fault) => Err(fault),
        Ok((longitude, rest)) => match take_double(rest) {
            Err(fault) => Err(fault),
            Ok((latitude, rest)) => Ok((Position { longitude, latitude }, rest)),
        },
    }
}

/// So many positions.
pub open spec fn take_each_position(bytes: Seq<u8>, count: nat) -> Parsed<Seq<Position>>
    decreases count,
{
    if count == 0 {
        Ok((seq![], bytes))
    } else {
        match take_position(bytes) {
            Err(fault) => Err(fault),
            Ok((position, rest)) => after_item(
                position,
                take_each_position(rest, (count - 1) as nat),
            ),
        }
    }
}

/// Positions, and before them how many there are.
pub open spec fn take_positions(bytes: Seq<u8>) -> Parsed<Seq<Position>> {
    match take_u32(bytes) {
        Err(fault) => Err(fault),
        Ok((count, rest)) => take_each_position(rest, count as nat),
    }
}

/// So many runs of positions.
pub open spec fn take_each_run(bytes: Seq<u8>, count: nat) -> Parsed<Seq<Seq<Position>>>
    decreases count,
{
    if count == 0 {
        Ok((seq![], bytes))
    } else {
        match take_positions(bytes) {
            Err(fault) => Err(fault),
            Ok((run, rest)) => after_item(run, take_each_run(rest, (count - 1) as nat)),
        }
    }
}

/// Runs of positions, and before them how many there are.
pub open spec fn take_runs(bytes: Seq<u8>) -> Parsed<Seq<Seq<Position>>> {
    match take_u32(bytes) {
        Err(fault) => Err(fault),
        Ok((count, rest)) => take_each_run(rest, count as nat),
    }
}

/// A polygon.
pub open spec fn take_polygon(bytes: Seq<u8>) -> Parsed<PolygonView> {
    match take_positions(bytes) {
        Err(fault) => Err(fault),
        Ok((exterior, rest)) => match take_runs(rest) {
            Err(fault) => Err(fault),
            Ok((interiors, rest)) => Ok((PolygonView { exterior, interiors }, rest)),
        },
    }
}

/// So many polygons.
pub open spec fn take_each_polygon(bytes: Seq<u8>, count: nat) -> Parsed<Seq<PolygonView>>
    decreases count,
{
    if count == 0 {
        Ok((seq![], bytes))
    } else {
        match take_polygon(bytes) {
            Err(fault) => Err(fault),
            Ok((polygon, rest)) => after_item(
                polygon,
                take_each_polygon(rest, (count - 1) as nat),
            ),
        }
    }
}

/// Polygons, and before them how many there are.
pub open spec fn take_polygons(bytes: Seq<u8>) -> Parsed<Seq<PolygonView>> {
    match take_u32(bytes) {
        Err(fault) => Err(fault),
        Ok((count, rest)) => take_each_polygon(rest, count as nat),
    }
}

/// A shape that stands `depth` levels down.
pub open spec fn take_geometry(bytes: Seq<u8>, depth: nat) -> Parsed<GeometryView>
    decreases MAX_DEPTH + 1 - depth, 0nat,
{
    if depth > MAX_DEPTH {
        Err(EncodingFault::Truncated)
    } else {
        match take_byte(bytes) {
            Err(fault) => Err(fault),
            Ok((kind, rest)) => if kind == SHAPE_POINT {
                match take_position(rest) {
                    Err(fault) => Err(fault),
                    Ok((position, rest)) => Ok((GeometryView::Point(position), rest)),
                }
            } else if kind == SHAPE_LINE {
                match take_positions(rest) {
                    Err(fault) => Err(fault),
                    Ok((positions, rest)) => Ok((GeometryView::Line(positions), rest)),
                }
            } else if kind == SHAPE_POLYGON {
                match take_polygon(rest) {
                    Err(fault) => Err(fault),
                    Ok((polygon, rest)) => Ok((GeometryView::Polygon(polygon), rest)),
                }
            } else if kind == SHAPE_MULTI_POINT {
                match take_positions(rest) {
                    Err(fault) => Err(fault),
                    Ok((positions, rest)) => Ok((GeometryView::MultiPoint(positions), rest)),
                }
            } else if kind == SHAPE_MULTI_LINE {
                match take_runs(rest) {
                    Err(fault) => Err(fault),
                    Ok((lines, rest)) => Ok((GeometryView::MultiLine(lines), rest)),
                }
            } else if kind == SHAPE_MULTI_POLYGON {
                match take_polygons(rest) {
                    Err(fault) => Err(fault),
                    Ok((polygons, rest)) => Ok((GeometryView::MultiPolygon(polygons), rest)),
                }
            } else if kind == SHAPE_COLLECTION {
                match take_shapes(rest, depth + 1) {
                    Err(fault) => Err(fault),
                    Ok((shapes, rest)) => Ok((GeometryView::Collection(shapes), rest)),
                }
            } else {
                Err(EncodingFault::UnknownTag { tag: kind })
            },
        }
    }
}

/// Shapes, and before them how many there are.
pub open spec fn take_shapes(bytes: Seq<u8>, depth: nat) -> Parsed<Seq<GeometryView>>
    decreases MAX_DEPTH + 1 - depth, 0x1_0000_0001nat,
{
    match take_u32(bytes) {
        Err(fault) => Err(fault),
        Ok((count, rest)) => take_each_shape(rest, count as nat, depth),
    }
}

/// So many shapes.
pub open spec fn take_each_shape(bytes: Seq<u8>, count: nat, depth: nat) -> Parsed<
    Seq<GeometryView>,
>
    decreases MAX_DEPTH + 1 - depth, count + 1,
{
    if count == 0 {
        Ok((seq![], bytes))
    } else {
        match take_geometry(bytes, depth) {
            Err(fault) => Err(fault),
            Ok((shape, rest)) => after_item(
                shape,
                take_each_shape(rest, (count - 1) as nat, depth),
            ),
        }
    }
}

/// A value that stands `depth` levels down.
pub open spec fn take_value(bytes: Seq<u8>, depth: nat) -> Parsed<ValueView>
    decreases MAX_DEPTH + 1 - depth, 0nat,
{
    if depth > MAX_DEPTH {
        Err(EncodingFault::Truncated)
    } else {
        match take_byte(bytes) {
            Err(fault) => Err(fault),
            Ok((tag, rest)) => if tag == TAG_ARRAY {
                match take_values(rest, depth + 1) {
                    Err(fault) => Err(fault),
                    Ok((items, rest)) => Ok((ValueView::Array(items), rest)),
                }
            } else if tag == TAG_OBJECT {
                match take_fields(rest, depth + 1) {
                    Err(fault) => Err(fault),
                    Ok((fields, rest)) => Ok((ValueView::Object(fields), rest)),
                }
            } else if tag == TAG_RANGE {
                match take_bound(rest, depth + 1) {
                    Err(fault) => Err(fault),
                    Ok((start, rest)) => match take_bound(rest, depth + 1) {
                        Err(fault) => Err(fault),
                        Ok((end, rest)) => Ok(
                            (ValueView::Range(Box::new(RangeView { start, end })), rest),
                        ),
                    },
                }
            } else if tag == TAG_SET {
                match take_values(rest, depth + 1) {
                    Err(fault) => Err(fault),
                    Ok((items, rest)) => Ok((ValueView::SetOf(items), rest)),
                }
            } else if tag == TAG_GEOMETRY {
                match take_geometry(rest, depth + 1) {
                    Err(fault) => Err(fault),
                    Ok((shape, rest)) => Ok((ValueView::Geometry(shape), rest)),
                }
            } else {
                take_flat(tag, rest)
            },
        }
    }
}

/// A value that holds no other, after its tag.
pub open spec fn take_flat(tag: u8, bytes: Seq<u8>) -> Parsed<ValueView> {
    if tag == TAG_NONE {
        Ok((ValueView::Absent, bytes))
    } else if tag == TAG_NULL {
        Ok((ValueView::Null, bytes))
    } else if tag == TAG_BOOL {
        match take_byte(bytes) {
            Err(fault) => Err(fault),
            Ok((flag, rest)) => Ok((ValueView::Bool(flag != 0), rest)),
        }
    } else if tag == TAG_NUMBER {
        match take_number(bytes) {
            Err(fault) => Err(fault),
            Ok((number, rest)) => Ok((ValueView::Number(number), rest)),
        }
    } else if tag == TAG_STRING {
        match take_text(bytes) {
            Err(fault) => Err(fault),
            Ok((text, rest)) => Ok((ValueView::String(text), rest)),
        }
    } else if tag == TAG_BYTES {
        match take_block(bytes) {
            Err(fault) => Err(fault),
            Ok((taken, rest)) => Ok((ValueView::Bytes(taken), rest)),
        }
    } else if tag == TAG_DURATION {
        match take_time(bytes) {
            Err(fault) => Err(fault),
            Ok(((seconds, nanos), rest)) => Ok((ValueView::Duration { seconds, nanos }, rest)),
        }
    } else if tag == TAG_DATETIME {
        match take_time(bytes) {
            Err(fault) => Err(fault),
            Ok(((seconds, nanos), rest)) => Ok((ValueView::Datetime { seconds, nanos }, rest)),
        }
    } else if tag == TAG_UUID {
        match take(bytes, 16) {
            Err(fault) => Err(fault),
            Ok((taken, rest)) => Ok((ValueView::Uuid(taken), rest)),
        }
    } else if tag == TAG_TABLE {
        match take_u32(bytes) {
            Err(fault) => Err(fault),
            Ok((table, rest)) => Ok((ValueView::Table(table), rest)),
        }
    } else if tag == TAG_RECORD {
        match take_record_ref(bytes) {
            Err(fault) => Err(fault),
            Ok((reference, rest)) => Ok((ValueView::Record(reference), rest)),
        }
    } else if tag == TAG_REGEX {
        match take_text(bytes) {
            Err(fault) => Err(fault),
            Ok((pattern, rest)) => Ok((ValueView::Regex(pattern), rest)),
        }
    } else {
        Err(EncodingFault::UnknownTag { tag })
    }
}

/// Values, and before them how many there are.
pub open spec fn take_values(bytes: Seq<u8>, depth: nat) -> Parsed<Seq<ValueView>>
    decreases MAX_DEPTH + 1 - depth, 0x1_0000_0001nat,
{
    match take_u32(bytes) {
        Err(fault) => Err(fault),
        Ok((count, rest)) => take_each_value(rest, count as nat, depth),
    }
}

/// So many values.
pub open spec fn take_each_value(bytes: Seq<u8>, count: nat, depth: nat) -> Parsed<Seq<ValueView>>
    decreases MAX_DEPTH + 1 - depth, count + 1,
{
    if count == 0 {
        Ok((seq![], bytes))
    } else {
        match take_value(bytes, depth) {
            Err(fault) => Err(fault),
            Ok((value, rest)) => after_item(
                value,
                take_each_value(rest, (count - 1) as nat, depth),
            ),
        }
    }
}

/// Fields, and before them how many there are: held by name, a later one in place of an earlier.
pub open spec fn take_fields(bytes: Seq<u8>, depth: nat) -> Parsed<Seq<(Seq<char>, ValueView)>>
    decreases MAX_DEPTH + 1 - depth, 0x1_0000_0001nat,
{
    match take_u32(bytes) {
        Err(fault) => Err(fault),
        Ok((count, rest)) => match take_each_field(rest, count as nat, depth) {
            Err(fault) => Err(fault),
            Ok((fields, rest)) => Ok((with_fields(seq![], fields), rest)),
        },
    }
}

/// So many fields, in the order of the bytes.
pub open spec fn take_each_field(bytes: Seq<u8>, count: nat, depth: nat) -> Parsed<
    Seq<(Seq<char>, ValueView)>,
>
    decreases MAX_DEPTH + 1 - depth, count + 1,
{
    if count == 0 {
        Ok((seq![], bytes))
    } else {
        match take_text(bytes) {
            Err(fault) => Err(fault),
            Ok((name, rest)) => match take_value(rest, depth) {
                Err(fault) => Err(fault),
                Ok((value, rest)) => after_item(
                    (name, value),
                    take_each_field(rest, (count - 1) as nat, depth),
                ),
            },
        }
    }
}

/// One end of a span.
pub open spec fn take_bound(bytes: Seq<u8>, depth: nat) -> Parsed<Bound<ValueView>>
    decreases MAX_DEPTH + 1 - depth, 1nat,
{
    match take_byte(bytes) {
        Err(fault) => Err(fault),
        Ok((kind, rest)) => if kind == BOUND_UNBOUNDED {
            Ok((Bound::Unbounded, rest))
        } else if kind == BOUND_INCLUDED {
            match take_value(rest, depth) {
                Err(fault) => Err(fault),
                Ok((value, rest)) => Ok((Bound::Included(value), rest)),
            }
        } else if kind == BOUND_EXCLUDED {
            match take_value(rest, depth) {
                Err(fault) => Err(fault),
                Ok((value, rest)) => Ok((Bound::Excluded(value), rest)),
            }
        } else {
            Err(EncodingFault::UnknownTag { tag: kind })
        },
    }
}

/// A value that the bytes hold, and nothing else.
pub open spec fn whole_value(bytes: Seq<u8>) -> Result<ValueView, EncodingFault> {
    match take_value(bytes, 0) {
        Err(fault) => Err(fault),
        Ok((value, rest)) => if rest.len() == 0 {
            Ok(value)
        } else {
            Err(EncodingFault::TrailingBytes { count: rest.len() as usize })
        },
    }
}

}
