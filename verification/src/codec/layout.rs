//! The bytes of every value.

use vstd::prelude::*;
use vstd::utf8::encode_utf8;

use crate::bytes::big_endian;
use crate::codec::{
    BOUND_EXCLUDED, BOUND_INCLUDED, BOUND_UNBOUNDED, ESCAPE, ESCAPED_ZERO, NUMBER_DECIMAL,
    NUMBER_FLOAT, NUMBER_INTEGER, RECORD_ID_BYTES, RECORD_ID_INT, RECORD_ID_TEXT, RECORD_ID_UUID,
    SHAPE_COLLECTION, SHAPE_LINE, SHAPE_MULTI_LINE, SHAPE_MULTI_POINT, SHAPE_MULTI_POLYGON,
    SHAPE_POINT, SHAPE_POLYGON, TAG_ARRAY, TAG_BOOL, TAG_BYTES, TAG_DATETIME, TAG_DURATION,
    TAG_GEOMETRY, TAG_NONE, TAG_NULL, TAG_NUMBER, TAG_OBJECT, TAG_RANGE, TAG_RECORD, TAG_REGEX,
    TAG_SET, TAG_STRING, TAG_TABLE, TAG_UUID, TERMINATOR,
};
use crate::geometry::{GeometryView, PolygonView, Position};
use crate::value::{Bound, Number, RecordIdView, RecordRefView, ValueView};

verus! {

/// A length or item count as it is written: the largest that four bytes hold stands for any that
/// is larger.
pub open spec fn count(len: nat) -> nat {
    if len <= u32::MAX {
        len
    } else {
        u32::MAX as nat
    }
}

/// Four bytes, big-endian and plain.
pub open spec fn plain32(value: nat) -> Seq<u8> {
    big_endian(value, 4)
}

/// A signed integer, big-endian with the sign bit inverted: the distance from the least one.
pub open spec fn signed64(value: i64) -> Seq<u8> {
    big_endian((value - i64::MIN) as nat, 8)
}

/// A signed integer of sixteen bytes, in two's complement.
pub open spec fn signed128(value: i128) -> Seq<u8> {
    big_endian(
        if value >= 0 {
            value as nat
        } else {
            (value + 0x1_0000_0000_0000_0000_0000_0000_0000_0000) as nat
        },
        16,
    )
}

/// A length-prefixed block.
pub open spec fn block(bytes: Seq<u8>) -> Seq<u8> {
    plain32(count(bytes.len())) + bytes
}

/// Bytes with every zero escaped.
pub open spec fn escaped(bytes: Seq<u8>) -> Seq<u8>
    decreases bytes.len(),
{
    if bytes.len() == 0 {
        seq![]
    } else if bytes[0] == ESCAPE {
        seq![ESCAPE, ESCAPED_ZERO] + escaped(bytes.drop_first())
    } else {
        seq![bytes[0]] + escaped(bytes.drop_first())
    }
}

/// An escaped, terminated block.
pub open spec fn terminated(bytes: Seq<u8>) -> Seq<u8> {
    escaped(bytes) + seq![ESCAPE, TERMINATOR]
}

/// A number.
pub open spec fn number_bytes(number: Number) -> Seq<u8> {
    match number {
        Number::Integer(value) => seq![NUMBER_INTEGER] + signed64(value),
        Number::Float(double) => seq![NUMBER_FLOAT] + big_endian(double.bits as nat, 8),
        Number::Decimal { mantissa, scale } => seq![NUMBER_DECIMAL] + signed128(mantissa)
            + plain32(scale as nat),
    }
}

/// A record's identity.
pub open spec fn record_id_bytes(id: RecordIdView) -> Seq<u8> {
    match id {
        RecordIdView::Int(value) => seq![RECORD_ID_INT] + signed64(value),
        RecordIdView::Text(text) => seq![RECORD_ID_TEXT] + terminated(encode_utf8(text)),
        RecordIdView::Uuid(bytes) => seq![RECORD_ID_UUID] + bytes,
        RecordIdView::Bytes(bytes) => seq![RECORD_ID_BYTES] + terminated(bytes),
    }
}

/// A reference to a record.
pub open spec fn record_ref_bytes(reference: RecordRefView) -> Seq<u8> {
    plain32(reference.table as nat) + record_id_bytes(reference.id)
}

/// Seconds and nanoseconds.
pub open spec fn time_bytes(seconds: i64, nanos: u32) -> Seq<u8> {
    signed64(seconds) + plain32(nanos as nat)
}

/// A coordinate pair, longitude first, each as the double's bits.
pub open spec fn position_bytes(position: Position) -> Seq<u8> {
    big_endian(position.longitude.bits as nat, 8) + big_endian(position.latitude.bits as nat, 8)
}

/// Positions, one after the other.
pub open spec fn each_position(positions: Seq<Position>) -> Seq<u8>
    decreases positions.len(),
{
    if positions.len() == 0 {
        seq![]
    } else {
        position_bytes(positions[0]) + each_position(positions.drop_first())
    }
}

/// Positions, and before them how many there are.
pub open spec fn positions_bytes(positions: Seq<Position>) -> Seq<u8> {
    plain32(count(positions.len())) + each_position(positions)
}

/// Runs of positions, one after the other.
pub open spec fn each_run(runs: Seq<Seq<Position>>) -> Seq<u8>
    decreases runs.len(),
{
    if runs.len() == 0 {
        seq![]
    } else {
        positions_bytes(runs[0]) + each_run(runs.drop_first())
    }
}

/// A polygon: its boundary, then its holes.
pub open spec fn polygon_bytes(polygon: PolygonView) -> Seq<u8> {
    positions_bytes(polygon.exterior) + plain32(count(polygon.interiors.len())) + each_run(
        polygon.interiors,
    )
}

/// Polygons, one after the other.
pub open spec fn each_polygon(polygons: Seq<PolygonView>) -> Seq<u8>
    decreases polygons.len(),
{
    if polygons.len() == 0 {
        seq![]
    } else {
        polygon_bytes(polygons[0]) + each_polygon(polygons.drop_first())
    }
}

/// A shape. One inside a collection is a whole shape, kind byte included, which is what lets a
/// collection hold a collection.
pub open spec fn geometry_bytes(shape: GeometryView) -> Seq<u8>
    decreases shape,
{
    match shape {
        GeometryView::Point(position) => seq![SHAPE_POINT] + position_bytes(position),
        GeometryView::Line(positions) => seq![SHAPE_LINE] + positions_bytes(positions),
        GeometryView::Polygon(polygon) => seq![SHAPE_POLYGON] + polygon_bytes(polygon),
        GeometryView::MultiPoint(positions) => seq![SHAPE_MULTI_POINT] + positions_bytes(positions),
        GeometryView::MultiLine(lines) => seq![SHAPE_MULTI_LINE] + plain32(count(lines.len()))
            + each_run(lines),
        GeometryView::MultiPolygon(polygons) => seq![SHAPE_MULTI_POLYGON] + plain32(
            count(polygons.len()),
        ) + each_polygon(polygons),
        GeometryView::Collection(shapes) => seq![SHAPE_COLLECTION] + plain32(count(shapes.len()))
            + each_shape(shapes),
    }
}

/// Shapes, one after the other.
pub open spec fn each_shape(shapes: Seq<GeometryView>) -> Seq<u8>
    decreases shapes,
{
    if shapes.len() == 0 {
        seq![]
    } else {
        geometry_bytes(shapes[0]) + each_shape(shapes.drop_first())
    }
}

/// A value, opened by its type.
pub open spec fn value_bytes(value: ValueView) -> Seq<u8>
    decreases value,
{
    match value {
        ValueView::Absent => seq![TAG_NONE],
        ValueView::Null => seq![TAG_NULL],
        ValueView::Bool(flag) => seq![
            TAG_BOOL,
            if flag {
                1u8
            } else {
                0u8
            },
        ],
        ValueView::Number(number) => seq![TAG_NUMBER] + number_bytes(number),
        ValueView::String(text) => seq![TAG_STRING] + block(encode_utf8(text)),
        ValueView::Bytes(bytes) => seq![TAG_BYTES] + block(bytes),
        ValueView::Duration { seconds, nanos } => seq![TAG_DURATION] + time_bytes(seconds, nanos),
        ValueView::Datetime { seconds, nanos } => seq![TAG_DATETIME] + time_bytes(seconds, nanos),
        ValueView::Uuid(bytes) => seq![TAG_UUID] + bytes,
        ValueView::Table(table) => seq![TAG_TABLE] + plain32(table as nat),
        ValueView::Record(reference) => seq![TAG_RECORD] + record_ref_bytes(reference),
        ValueView::Array(items) => seq![TAG_ARRAY] + plain32(count(items.len())) + each_value(
            items,
        ),
        ValueView::Object(fields) => seq![TAG_OBJECT] + plain32(count(fields.len())) + each_field(
            fields,
        ),
        ValueView::Range(range) => seq![TAG_RANGE] + bound_bytes(range.start) + bound_bytes(
            range.end,
        ),
        ValueView::SetOf(items) => seq![TAG_SET] + plain32(count(items.len())) + each_value(items),
        ValueView::Geometry(shape) => seq![TAG_GEOMETRY] + geometry_bytes(shape),
        ValueView::Regex(pattern) => seq![TAG_REGEX] + block(encode_utf8(pattern)),
    }
}

/// One end of a span.
pub open spec fn bound_bytes(bound: Bound<ValueView>) -> Seq<u8>
    decreases bound,
{
    match bound {
        Bound::Unbounded => seq![BOUND_UNBOUNDED],
        Bound::Included(value) => seq![BOUND_INCLUDED] + value_bytes(value),
        Bound::Excluded(value) => seq![BOUND_EXCLUDED] + value_bytes(value),
    }
}

/// Values, one after the other.
pub open spec fn each_value(items: Seq<ValueView>) -> Seq<u8>
    decreases items,
{
    if items.len() == 0 {
        seq![]
    } else {
        value_bytes(items[0]) + each_value(items.drop_first())
    }
}

/// Named values, one after the other.
pub open spec fn each_field(fields: Seq<(Seq<char>, ValueView)>) -> Seq<u8>
    decreases fields,
{
    if fields.len() == 0 {
        seq![]
    } else {
        block(encode_utf8(fields[0].0)) + value_bytes(fields[0].1) + each_field(
            fields.drop_first(),
        )
    }
}

}
