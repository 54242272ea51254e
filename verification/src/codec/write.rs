//! Encoding a value into the bytes the protocol carries.

use vstd::prelude::*;

use crate::bytes::put_big_endian;
use crate::codec::{
    BOUND_EXCLUDED, BOUND_INCLUDED, BOUND_UNBOUNDED, ESCAPE, ESCAPED_ZERO, NUMBER_DECIMAL,
    NUMBER_FLOAT, NUMBER_INTEGER, RECORD_ID_BYTES, RECORD_ID_INT, RECORD_ID_TEXT, RECORD_ID_UUID,
    SHAPE_COLLECTION, SHAPE_LINE, SHAPE_MULTI_LINE, SHAPE_MULTI_POINT, SHAPE_MULTI_POLYGON,
    SHAPE_POINT, SHAPE_POLYGON, TAG_ARRAY, TAG_BOOL, TAG_BYTES, TAG_DATETIME, TAG_DURATION,
    TAG_GEOMETRY, TAG_NONE, TAG_NULL, TAG_NUMBER, TAG_OBJECT, TAG_RANGE, TAG_RECORD, TAG_REGEX,
    TAG_SET, TAG_STRING, TAG_TABLE, TAG_UUID, TERMINATOR,
};
use crate::codec::layout::{
    block, bound_bytes, count, each_field, each_polygon, each_position, each_run, each_shape,
    each_value, escaped, geometry_bytes, number_bytes, plain32, polygon_bytes, position_bytes,
    positions_bytes, record_id_bytes, record_ref_bytes, signed128, signed64, terminated, time_bytes,
    value_bytes,
};
use crate::geometry::{lines_view, polygons_view, Geometry, Polygon, Position};
use crate::value::{
    bound_view, entries_view, values_view, Bound, Fields, Number, RecordId, RecordRef, Value,
};

verus! {

/// Encode one value.
#[must_use]
pub fn encode(value: &Value) -> (bytes: Vec<u8>)
    ensures
        bytes@ == value_bytes(value@),
{
    let mut out: Vec<u8> = Vec::with_capacity(16);
    put_value(&mut out, value);
    assert(out@ =~= value_bytes(value@));
    out
}

/// Bytes as they are.
pub(crate) fn put_bytes(out: &mut Vec<u8>, bytes: &[u8])
    ensures
        final(out)@ == old(out)@ + bytes@,
{
    out.extend_from_slice(bytes);
    assert(out@ =~= old(out)@ + bytes@);
}

/// An `i64`, big-endian, with the sign bit inverted.
///
/// Not two's-complement big-endian: `1` becomes `80 00 00 00 00 00 00 01`.
pub(crate) fn put_i64(out: &mut Vec<u8>, value: i64)
    ensures
        final(out)@ == old(out)@ + signed64(value),
{
    let distance: i128 = value as i128 + 0x8000_0000_0000_0000;
    put_big_endian(out, distance as u128, 8);
}

/// An `i128` in two's complement, big-endian and plain.
fn put_i128(out: &mut Vec<u8>, value: i128)
    ensures
        final(out)@ == old(out)@ + signed128(value),
{
    let bits: u128 = if value >= 0 {
        value as u128
    } else {
        let above: i128 = value - i128::MIN;
        above as u128 + 0x8000_0000_0000_0000_0000_0000_0000_0000
    };
    put_big_endian(out, bits, 16);
}

/// A `u32`, big-endian and plain: no inversion at this width.
pub(crate) fn put_u32(out: &mut Vec<u8>, value: u32)
    ensures
        final(out)@ == old(out)@ + plain32(value as nat),
{
    put_big_endian(out, value as u128, 4);
}

/// A length or item count, as it is written.
pub(crate) fn count_of(len: usize) -> (written: u32)
    ensures
        written as nat == count(len as nat),
{
    if len <= 0xFFFF_FFFF {
        len as u32
    } else {
        0xFFFF_FFFF
    }
}

/// A length-prefixed block.
pub(crate) fn put_lenbytes(out: &mut Vec<u8>, bytes: &[u8])
    ensures
        final(out)@ == old(out)@ + block(bytes@),
{
    put_u32(out, count_of(bytes.len()));
    put_bytes(out, bytes);
    assert(out@ =~= old(out)@ + block(bytes@));
}

/// An escaped, terminated block: a zero becomes `00 FF`, and the block ends with `00 01`.
pub fn put_varbytes(out: &mut Vec<u8>, bytes: &[u8])
    ensures
        final(out)@ == old(out)@ + terminated(bytes@),
{
    let mut at: usize = 0;
    assert(bytes@.skip(0) =~= bytes@);
    while at < bytes.len()
        invariant
            at <= bytes@.len(),
            out@ + escaped(bytes@.skip(at as int)) == old(out)@ + escaped(bytes@),
        decreases bytes.len() - at,
    {
        let ghost before = out@;
        let ghost rest = bytes@.skip(at as int);
        assert(rest.drop_first() =~= bytes@.skip(at + 1));
        let byte: u8 = bytes[at];
        if byte == ESCAPE {
            out.push(ESCAPE);
            out.push(ESCAPED_ZERO);
        } else {
            out.push(byte);
        }
        at = at + 1;
        assert(out@ + escaped(bytes@.skip(at as int)) =~= before + escaped(rest));
    }
    assert(out@ =~= old(out)@ + escaped(bytes@));
    out.push(ESCAPE);
    out.push(TERMINATOR);
    assert(out@ =~= old(out)@ + terminated(bytes@));
}

fn put_time(out: &mut Vec<u8>, seconds: i64, nanos: u32)
    ensures
        final(out)@ == old(out)@ + time_bytes(seconds, nanos),
{
    put_i64(out, seconds);
    put_u32(out, nanos);
    assert(out@ =~= old(out)@ + time_bytes(seconds, nanos));
}

fn put_number(out: &mut Vec<u8>, number: &Number)
    ensures
        final(out)@ == old(out)@ + number_bytes(*number),
{
    match number {
        Number::Integer(value) => {
            out.push(NUMBER_INTEGER);
            put_i64(out, *value);
        },
        Number::Float(double) => {
            out.push(NUMBER_FLOAT);
            // The bits, plain big-endian and not the inverted form: three numeric shapes, two
            // conventions.
            put_big_endian(out, double.bits as u128, 8);
        },
        Number::Decimal { mantissa, scale } => {
            out.push(NUMBER_DECIMAL);
            put_i128(out, *mantissa);
            put_u32(out, *scale);
        },
    }
    assert(out@ =~= old(out)@ + number_bytes(*number));
}

fn put_record_ref(out: &mut Vec<u8>, reference: &RecordRef)
    ensures
        final(out)@ == old(out)@ + record_ref_bytes(reference@),
{
    put_u32(out, reference.table);
    put_record_id(out, &reference.id);
    assert(out@ =~= old(out)@ + record_ref_bytes(reference@));
}

pub(crate) fn put_record_id(out: &mut Vec<u8>, id: &RecordId)
    ensures
        final(out)@ == old(out)@ + record_id_bytes(id@),
{
    match id {
        RecordId::Int(value) => {
            out.push(RECORD_ID_INT);
            put_i64(out, *value);
        },
        RecordId::Text(text) => {
            out.push(RECORD_ID_TEXT);
            put_varbytes(out, text.as_str().as_bytes());
        },
        RecordId::Uuid(bytes) => {
            out.push(RECORD_ID_UUID);
            put_bytes(out, bytes.as_slice());
        },
        RecordId::Bytes(bytes) => {
            out.push(RECORD_ID_BYTES);
            put_varbytes(out, bytes.as_slice());
        },
    }
    assert(out@ =~= old(out)@ + record_id_bytes(id@));
}

/// A coordinate pair, longitude first, each as the double's bits.
fn put_position(out: &mut Vec<u8>, position: &Position)
    ensures
        final(out)@ == old(out)@ + position_bytes(*position),
{
    put_big_endian(out, position.longitude.bits as u128, 8);
    put_big_endian(out, position.latitude.bits as u128, 8);
    assert(out@ =~= old(out)@ + position_bytes(*position));
}

fn put_positions(out: &mut Vec<u8>, positions: &Vec<Position>)
    ensures
        final(out)@ == old(out)@ + positions_bytes(positions@),
{
    put_u32(out, count_of(positions.len()));
    let mut at: usize = 0;
    assert(positions@.skip(0) =~= positions@);
    assert(out@ + each_position(positions@) =~= old(out)@ + positions_bytes(positions@));
    while at < positions.len()
        invariant
            at <= positions@.len(),
            out@ + each_position(positions@.skip(at as int)) == old(out)@ + positions_bytes(
                positions@,
            ),
        decreases positions.len() - at,
    {
        let ghost before = out@;
        let ghost rest = positions@.skip(at as int);
        assert(rest.drop_first() =~= positions@.skip(at + 1));
        put_position(out, &positions[at]);
        at = at + 1;
        assert(out@ + each_position(positions@.skip(at as int)) =~= before + each_position(rest));
    }
    assert(out@ =~= old(out)@ + positions_bytes(positions@));
}

fn put_polygon(out: &mut Vec<u8>, polygon: &Polygon)
    ensures
        final(out)@ == old(out)@ + polygon_bytes(polygon@),
{
    let ghost runs = polygon@.interiors;
    put_positions(out, &polygon.exterior.0);
    put_u32(out, count_of(polygon.interiors.len()));
    let mut at: usize = 0;
    assert(runs.skip(0) =~= runs);
    assert(out@ + each_run(runs) =~= old(out)@ + polygon_bytes(polygon@));
    while at < polygon.interiors.len()
        invariant
            at <= polygon.interiors@.len(),
            runs == polygon@.interiors,
            out@ + each_run(runs.skip(at as int)) == old(out)@ + polygon_bytes(polygon@),
        decreases polygon.interiors.len() - at,
    {
        let ghost before = out@;
        let ghost rest = runs.skip(at as int);
        assert(rest.drop_first() =~= runs.skip(at + 1));
        put_positions(out, &polygon.interiors[at].0);
        at = at + 1;
        assert(out@ + each_run(runs.skip(at as int)) =~= before + each_run(rest));
    }
    assert(out@ =~= old(out)@ + polygon_bytes(polygon@));
}

fn put_lines(out: &mut Vec<u8>, lines: &Vec<Vec<Position>>)
    ensures
        final(out)@ == old(out)@ + plain32(count(lines@.len())) + each_run(
            lines_view(lines@),
        ),
{
    let ghost runs = lines_view(lines@);
    put_u32(out, count_of(lines.len()));
    let ghost start = out@;
    let mut at: usize = 0;
    assert(runs.skip(0) =~= runs);
    while at < lines.len()
        invariant
            at <= lines@.len(),
            runs == lines_view(lines@),
            out@ + each_run(runs.skip(at as int)) == start + each_run(runs),
        decreases lines.len() - at,
    {
        let ghost before = out@;
        let ghost rest = runs.skip(at as int);
        assert(rest.drop_first() =~= runs.skip(at + 1));
        put_positions(out, &lines[at]);
        at = at + 1;
        assert(out@ + each_run(runs.skip(at as int)) =~= before + each_run(rest));
    }
    assert(out@ =~= start + each_run(runs));
}

fn put_polygons(out: &mut Vec<u8>, polygons: &Vec<Polygon>)
    ensures
        final(out)@ == old(out)@ + plain32(count(polygons@.len())) + each_polygon(
            polygons_view(polygons@),
        ),
{
    let ghost held = polygons_view(polygons@);
    put_u32(out, count_of(polygons.len()));
    let ghost start = out@;
    let mut at: usize = 0;
    assert(held.skip(0) =~= held);
    while at < polygons.len()
        invariant
            at <= polygons@.len(),
            held == polygons_view(polygons@),
            out@ + each_polygon(held.skip(at as int)) == start + each_polygon(held),
        decreases polygons.len() - at,
    {
        let ghost before = out@;
        let ghost rest = held.skip(at as int);
        assert(rest.drop_first() =~= held.skip(at + 1));
        put_polygon(out, &polygons[at]);
        at = at + 1;
        assert(out@ + each_polygon(held.skip(at as int)) =~= before + each_polygon(rest));
    }
    assert(out@ =~= start + each_polygon(held));
}

fn put_geometry(out: &mut Vec<u8>, shape: &Geometry)
    ensures
        final(out)@ == old(out)@ + geometry_bytes(shape@),
    decreases shape,
{
    let ghost before = out@;
    match shape {
        Geometry::Point(position) => {
            out.push(SHAPE_POINT);
            put_position(out, position);
        },
        Geometry::Line(positions) => {
            out.push(SHAPE_LINE);
            put_positions(out, positions);
        },
        Geometry::Polygon(polygon) => {
            out.push(SHAPE_POLYGON);
            put_polygon(out, polygon);
        },
        Geometry::MultiPoint(positions) => {
            out.push(SHAPE_MULTI_POINT);
            put_positions(out, positions);
        },
        Geometry::MultiLine(lines) => {
            out.push(SHAPE_MULTI_LINE);
            put_lines(out, lines);
        },
        Geometry::MultiPolygon(polygons) => {
            out.push(SHAPE_MULTI_POLYGON);
            put_polygons(out, polygons);
        },
        Geometry::Collection(shapes) => {
            let ghost held = shape@->Collection_0;
            out.push(SHAPE_COLLECTION);
            put_u32(out, count_of(shapes.len()));
            let ghost start = out@;
            let mut at: usize = 0;
            assert(held.skip(0) =~= held);
            while at < shapes.len()
                invariant
                    at <= shapes@.len(),
                    decreases_to!(*shape => *shapes),
                    held.len() == shapes@.len(),
                    forall|i: int| 0 <= i < held.len() ==> held[i] == shapes@[i]@,
                    out@ + each_shape(held.skip(at as int)) == start + each_shape(held),
                decreases shapes.len() - at,
            {
                let ghost so_far = out@;
                let ghost rest = held.skip(at as int);
                assert(rest.drop_first() =~= held.skip(at + 1));
                let inner: &Geometry = &*shapes[at];
                assert(decreases_to!(*shape => *inner));
                put_geometry(out, inner);
                at = at + 1;
                assert(out@ + each_shape(held.skip(at as int)) =~= so_far + each_shape(rest));
            }
            assert(out@ =~= start + each_shape(held));
        },
    }
    assert(out@ =~= before + geometry_bytes(shape@));
}

/// Any value.
pub(crate) fn put_value(out: &mut Vec<u8>, value: &Value)
    ensures
        final(out)@ == old(out)@ + value_bytes(value@),
    decreases value@,
{
    let ghost before = out@;
    match value {
        Value::Absent => out.push(TAG_NONE),
        Value::Null => out.push(TAG_NULL),
        Value::Bool(flag) => {
            out.push(TAG_BOOL);
            out.push(if *flag { 1 } else { 0 });
        },
        Value::Number(number) => {
            out.push(TAG_NUMBER);
            put_number(out, number);
        },
        Value::String(text) => {
            out.push(TAG_STRING);
            put_lenbytes(out, text.as_str().as_bytes());
        },
        Value::Bytes(bytes) => {
            out.push(TAG_BYTES);
            put_lenbytes(out, bytes.as_slice());
        },
        Value::Duration { seconds, nanos } => {
            out.push(TAG_DURATION);
            put_time(out, *seconds, *nanos);
        },
        Value::Datetime { seconds, nanos } => {
            out.push(TAG_DATETIME);
            put_time(out, *seconds, *nanos);
        },
        Value::Uuid(bytes) => {
            out.push(TAG_UUID);
            put_bytes(out, bytes.as_slice());
        },
        Value::Table(table) => {
            out.push(TAG_TABLE);
            put_u32(out, *table);
        },
        Value::Record(reference) => {
            out.push(TAG_RECORD);
            put_record_ref(out, reference);
        },
        Value::Array(items) => {
            out.push(TAG_ARRAY);
            assert(decreases_to!(value@ => value@->Array_0));
            put_values(out, items);
        },
        Value::Object(fields) => {
            out.push(TAG_OBJECT);
            assert(decreases_to!(value@ => value@->Object_0));
            put_fields(out, fields);
        },
        Value::Range(range) => {
            out.push(TAG_RANGE);
            let ghost span = value@->Range_0;
            assert(decreases_to!(value@ => span));
            assert(decreases_to!(span => span.start) && decreases_to!(span => span.end));
            put_bound(out, &range.start);
            put_bound(out, &range.end);
        },
        Value::SetOf(items) => {
            out.push(TAG_SET);
            assert(decreases_to!(value@ => value@->SetOf_0));
            put_values(out, items);
        },
        Value::Geometry(shape) => {
            out.push(TAG_GEOMETRY);
            put_geometry(out, shape);
        },
        Value::Regex(pattern) => {
            out.push(TAG_REGEX);
            // The pattern as written: dialects disagree about what is valid, so a client that
            // checks rejects patterns the node would have accepted.
            put_lenbytes(out, pattern.as_str().as_bytes());
        },
    }
    assert(out@ =~= before + value_bytes(value@));
}

fn put_bound(out: &mut Vec<u8>, bound: &Bound<Value>)
    ensures
        final(out)@ == old(out)@ + bound_bytes(bound_view(*bound)),
    decreases bound_view(*bound),
{
    match bound {
        Bound::Unbounded => out.push(BOUND_UNBOUNDED),
        Bound::Included(value) => {
            out.push(BOUND_INCLUDED);
            assert(decreases_to!(bound_view(*bound) => bound_view(*bound)->Included_0));
            put_value(out, value);
        },
        Bound::Excluded(value) => {
            out.push(BOUND_EXCLUDED);
            assert(decreases_to!(bound_view(*bound) => bound_view(*bound)->Excluded_0));
            put_value(out, value);
        },
    }
    assert(out@ =~= old(out)@ + bound_bytes(bound_view(*bound)));
}

fn put_values(out: &mut Vec<u8>, items: &Vec<Value>)
    ensures
        final(out)@ == old(out)@ + plain32(count(items@.len())) + each_value(values_view(items@)),
    decreases values_view(items@),
{
    let ghost held = values_view(items@);
    put_u32(out, count_of(items.len()));
    let ghost start = out@;
    let mut at: usize = 0;
    assert(held.skip(0) =~= held);
    while at < items.len()
        invariant
            at <= items@.len(),
            held == values_view(items@),
            out@ + each_value(held.skip(at as int)) == start + each_value(held),
        decreases items.len() - at,
    {
        let ghost so_far = out@;
        let ghost rest = held.skip(at as int);
        assert(rest.drop_first() =~= held.skip(at + 1));
        assert(items@[at as int]@ == held[at as int]);
        put_value(out, &items[at]);
        at = at + 1;
        assert(out@ + each_value(held.skip(at as int)) =~= so_far + each_value(rest));
    }
    assert(out@ =~= start + each_value(held));
}

/// Named values, as they are held: in the order of their names, so equal objects encode to equal
/// bytes without a sorting step.
pub(crate) fn put_fields(out: &mut Vec<u8>, fields: &Fields)
    ensures
        final(out)@ == old(out)@ + plain32(count(fields@.len())) + each_field(fields@),
    decreases fields@,
{
    let ghost held = fields@;
    let entries = fields.entries();
    put_u32(out, count_of(entries.len()));
    let ghost start = out@;
    let mut at: usize = 0;
    assert(held.skip(0) =~= held);
    while at < entries.len()
        invariant
            at <= entries@.len(),
            held == fields@,
            held == entries_view(entries@),
            out@ + each_field(held.skip(at as int)) == start + each_field(held),
        decreases entries.len() - at,
    {
        let ghost so_far = out@;
        let ghost rest = held.skip(at as int);
        assert(rest.drop_first() =~= held.skip(at + 1));
        let entry = &entries[at];
        assert(entry.1@ == held[at as int].1);
        put_lenbytes(out, entry.0.as_str().as_bytes());
        put_value(out, &entry.1);
        at = at + 1;
        assert(out@ + each_field(held.skip(at as int)) =~= so_far + each_field(rest));
    }
    assert(out@ =~= start + each_field(held));
}

}
