//! What holds of the codec as a whole.

use vstd::prelude::*;
use vstd::utf8::{encode_utf8, encode_utf8_decode_utf8, encode_utf8_valid_utf8};

use crate::bytes::{
    big_endian, lemma_big_endian_len, lemma_magnitude_of_big_endian, lemma_spans, span,
};
use crate::codec::{
    BOUND_EXCLUDED, BOUND_INCLUDED, BOUND_UNBOUNDED, ESCAPE, ESCAPED_ZERO, MAX_DEPTH,
    NANOS_PER_SECOND, NUMBER_DECIMAL, NUMBER_FLOAT, NUMBER_INTEGER, RECORD_ID_BYTES, RECORD_ID_INT,
    RECORD_ID_TEXT, RECORD_ID_UUID, SHAPE_COLLECTION, SHAPE_LINE, SHAPE_MULTI_LINE,
    SHAPE_MULTI_POINT, SHAPE_MULTI_POLYGON, SHAPE_POINT, SHAPE_POLYGON, TAG_ARRAY, TAG_GEOMETRY,
    TAG_NONE, TAG_OBJECT, TAG_RANGE, TAG_REGEX, TAG_SET, TERMINATOR,
};
use crate::codec::layout::{
    block, bound_bytes, count, each_field, each_polygon, each_position, each_run, each_shape,
    each_value, escaped, geometry_bytes, number_bytes, plain32, polygon_bytes, position_bytes,
    positions_bytes, record_id_bytes, record_ref_bytes, signed128, signed64, terminated, time_bytes,
    value_bytes,
};
use crate::codec::parse::{
    as_text, signed_of, take, take_block, take_bound, take_byte, take_double, take_each_field,
    take_each_polygon, take_each_position, take_each_run, take_each_shape, take_each_value,
    take_flat, take_geometry, take_i64, take_number, take_plain, take_polygon, take_position,
    take_positions, take_record_id, take_record_ref, take_runs, take_terminated, take_text,
    take_time, take_u32, take_value, whole_value, yields, Parsed,
};
use crate::double::Double;
use crate::error::EncodingFault;
use crate::fields::{ordered, with_field, with_fields};
use crate::geometry::{GeometryView, PolygonView, Position};
use crate::order::bytes_before;
use crate::value::{Bound, Number, RangeView, RecordIdView, RecordRefView, ValueView};

verus! {

/// Whether four bytes hold a length.
pub open spec fn counts(len: nat) -> bool {
    len <= u32::MAX
}

/// Whether four bytes hold the length of every one of some runs.
pub open spec fn runs_count(runs: Seq<Seq<Position>>) -> bool {
    counts(runs.len()) && forall|i: int| 0 <= i < runs.len() ==> counts((#[trigger] runs[i]).len())
}

/// Whether four bytes hold every length in a polygon.
pub open spec fn polygon_counts(polygon: PolygonView) -> bool {
    counts(polygon.exterior.len()) && runs_count(polygon.interiors)
}

/// Whether four bytes hold every length in some polygons.
pub open spec fn polygons_count(polygons: Seq<PolygonView>) -> bool {
    counts(polygons.len()) && forall|i: int|
        0 <= i < polygons.len() ==> polygon_counts(#[trigger] polygons[i])
}

/// Whether a shape can be written down: four bytes hold every length in it.
pub open spec fn shape_is_sound(shape: GeometryView) -> bool
    decreases shape,
{
    match shape {
        GeometryView::Point(_) => true,
        GeometryView::Line(positions) => counts(positions.len()),
        GeometryView::Polygon(polygon) => polygon_counts(polygon),
        GeometryView::MultiPoint(positions) => counts(positions.len()),
        GeometryView::MultiLine(lines) => runs_count(lines),
        GeometryView::MultiPolygon(polygons) => polygons_count(polygons),
        GeometryView::Collection(shapes) => shapes_are_sound(shapes),
    }
}

/// Whether some shapes can be written down.
pub open spec fn shapes_are_sound(shapes: Seq<GeometryView>) -> bool
    decreases shapes,
{
    counts(shapes.len()) && forall|i: int|
        0 <= i < shapes.len() ==> shape_is_sound(#[trigger] shapes[i])
}

/// Whether a shape that stands `depth` levels down nests no deeper than the limit.
pub open spec fn shape_is_shallow(shape: GeometryView, depth: nat) -> bool
    decreases shape,
{
    depth <= MAX_DEPTH && match shape {
        GeometryView::Collection(shapes) => shapes_are_shallow(shapes, depth + 1),
        _ => true,
    }
}

/// Whether shapes that stand `depth` levels down nest no deeper than the limit.
pub open spec fn shapes_are_shallow(shapes: Seq<GeometryView>, depth: nat) -> bool
    decreases shapes,
{
    forall|i: int| 0 <= i < shapes.len() ==> shape_is_shallow(#[trigger] shapes[i], depth)
}

/// Whether an identity can be written down: a UUID has sixteen bytes.
pub open spec fn id_is_sound(id: RecordIdView) -> bool {
    id matches RecordIdView::Uuid(bytes) ==> bytes.len() == 16
}

/// Whether a value can be written down: four bytes hold every length in it, a UUID has sixteen
/// bytes, a sub-second part is under a second, and names are in order, each once.
pub open spec fn is_sound(value: ValueView) -> bool
    decreases value,
{
    match value {
        ValueView::String(text) => counts(encode_utf8(text).len()),
        ValueView::Bytes(bytes) => counts(bytes.len()),
        ValueView::Duration { seconds, nanos } => nanos < NANOS_PER_SECOND,
        ValueView::Datetime { seconds, nanos } => nanos < NANOS_PER_SECOND,
        ValueView::Uuid(bytes) => bytes.len() == 16,
        ValueView::Record(reference) => id_is_sound(reference.id),
        ValueView::Array(items) => values_are_sound(items),
        ValueView::Object(fields) => fields_are_sound(fields),
        ValueView::Range(range) => bound_is_sound(range.start) && bound_is_sound(range.end),
        ValueView::SetOf(items) => values_are_sound(items),
        ValueView::Geometry(shape) => shape_is_sound(shape),
        ValueView::Regex(pattern) => counts(encode_utf8(pattern).len()),
        _ => true,
    }
}

/// Whether one end of a span can be written down.
pub open spec fn bound_is_sound(bound: Bound<ValueView>) -> bool
    decreases bound,
{
    match bound {
        Bound::Included(value) => is_sound(value),
        Bound::Excluded(value) => is_sound(value),
        Bound::Unbounded => true,
    }
}

/// Whether some values can be written down.
pub open spec fn values_are_sound(items: Seq<ValueView>) -> bool
    decreases items,
{
    counts(items.len()) && forall|i: int| 0 <= i < items.len() ==> is_sound(#[trigger] items[i])
}

/// Whether some fields can be written down.
pub open spec fn fields_are_sound(fields: Seq<(Seq<char>, ValueView)>) -> bool
    decreases fields,
{
    counts(fields.len()) && ordered(fields) && forall|i: int|
        0 <= i < fields.len() ==> counts(encode_utf8((#[trigger] fields[i]).0).len()) && is_sound(
            fields[i].1,
        )
}

/// Whether a value that stands `depth` levels down nests no deeper than the limit.
pub open spec fn is_shallow(value: ValueView, depth: nat) -> bool
    decreases value,
{
    depth <= MAX_DEPTH && match value {
        ValueView::Array(items) => values_are_shallow(items, depth + 1),
        ValueView::Object(fields) => fields_are_shallow(fields, depth + 1),
        ValueView::Range(range) => bound_is_shallow(range.start, depth + 1) && bound_is_shallow(
            range.end,
            depth + 1,
        ),
        ValueView::SetOf(items) => values_are_shallow(items, depth + 1),
        ValueView::Geometry(shape) => shape_is_shallow(shape, depth + 1),
        _ => true,
    }
}

/// Whether one end of a span nests no deeper than the limit.
pub open spec fn bound_is_shallow(bound: Bound<ValueView>, depth: nat) -> bool
    decreases bound,
{
    match bound {
        Bound::Included(value) => is_shallow(value, depth),
        Bound::Excluded(value) => is_shallow(value, depth),
        Bound::Unbounded => true,
    }
}

/// Whether values that stand `depth` levels down nest no deeper than the limit.
pub open spec fn values_are_shallow(items: Seq<ValueView>, depth: nat) -> bool
    decreases items,
{
    forall|i: int| 0 <= i < items.len() ==> is_shallow(#[trigger] items[i], depth)
}

/// Whether fields that stand `depth` levels down nest no deeper than the limit.
pub open spec fn fields_are_shallow(fields: Seq<(Seq<char>, ValueView)>, depth: nat) -> bool
    decreases fields,
{
    forall|i: int| 0 <= i < fields.len() ==> is_shallow((#[trigger] fields[i]).1, depth)
}

pub proof fn lemma_take(bytes: Seq<u8>, rest: Seq<u8>)
    ensures
        yields(take(bytes + rest, bytes.len()), bytes, rest),
{
    assert((bytes + rest).take(bytes.len() as int) =~= bytes);
    assert((bytes + rest).skip(bytes.len() as int) =~= rest);
}

proof fn lemma_byte(byte: u8, rest: Seq<u8>)
    ensures
        yields(take_byte(seq![byte] + rest), byte, rest),
{
    assert((seq![byte] + rest).drop_first() =~= rest);
}

proof fn lemma_joined(tag: u8, first: Seq<u8>, second: Seq<u8>, rest: Seq<u8>)
    ensures
        seq![tag] + first + second + rest == seq![tag] + (first + (second + rest)),
{
    assert(seq![tag] + first + second + rest =~= seq![tag] + (first + (second + rest)));
}

/// A byte, what it opens, and the rest.
proof fn lemma_tagged(tag: u8, held: Seq<u8>, rest: Seq<u8>)
    ensures
        yields(take_byte(seq![tag] + held + rest), tag, held + rest),
{
    assert(seq![tag] + held + rest =~= seq![tag] + (held + rest));
    lemma_byte(tag, held + rest);
}

/// A byte, how many items it opens, those, and the rest.
proof fn lemma_counted(tag: u8, len: nat, items: Seq<u8>, rest: Seq<u8>)
    requires
        counts(len),
    ensures
        yields(
            take_byte(seq![tag] + plain32(count(len)) + items + rest),
            tag,
            plain32(count(len)) + (items + rest),
        ),
        yields(take_u32(plain32(count(len)) + (items + rest)), len as u32, items + rest),
{
    lemma_joined(tag, plain32(count(len)), items, rest);
    lemma_byte(tag, plain32(count(len)) + (items + rest));
    lemma_u32(len, items + rest);
}

proof fn lemma_plain(value: nat, width: nat, rest: Seq<u8>)
    requires
        value < span(width),
    ensures
        yields(take_plain(big_endian(value, width) + rest, width), value, rest),
{
    lemma_magnitude_of_big_endian(value, width);
    lemma_take(big_endian(value, width), rest);
}

pub proof fn lemma_u32(value: nat, rest: Seq<u8>)
    requires
        value <= u32::MAX,
    ensures
        yields(take_u32(plain32(value) + rest), value as u32, rest),
{
    lemma_spans();
    lemma_plain(value, 4, rest);
}

proof fn lemma_i64(value: i64, rest: Seq<u8>)
    ensures
        yields(take_i64(signed64(value) + rest), value, rest),
{
    lemma_spans();
    lemma_plain((value - i64::MIN) as nat, 8, rest);
}

proof fn lemma_double(double: Double, rest: Seq<u8>)
    ensures
        yields(take_double(big_endian(double.bits as nat, 8) + rest), double, rest),
{
    lemma_spans();
    lemma_plain(double.bits as nat, 8, rest);
}

pub proof fn lemma_block(bytes: Seq<u8>, rest: Seq<u8>)
    requires
        counts(bytes.len()),
    ensures
        yields(take_block(block(bytes) + rest), bytes, rest),
{
    assert(block(bytes) + rest =~= plain32(count(bytes.len())) + (bytes + rest));
    lemma_u32(bytes.len(), bytes + rest);
    lemma_take(bytes, rest);
}

proof fn lemma_as_text(text: Seq<char>, rest: Seq<u8>)
    ensures
        yields(as_text(encode_utf8(text), rest), text, rest),
{
    encode_utf8_valid_utf8(text);
    encode_utf8_decode_utf8(text);
}

pub proof fn lemma_text(text: Seq<char>, rest: Seq<u8>)
    requires
        counts(encode_utf8(text).len()),
    ensures
        yields(take_text(block(encode_utf8(text)) + rest), text, rest),
{
    lemma_block(encode_utf8(text), rest);
    lemma_as_text(text, rest);
}

proof fn lemma_terminated(bytes: Seq<u8>, rest: Seq<u8>)
    ensures
        yields(take_terminated(terminated(bytes) + rest), bytes, rest),
    decreases bytes.len(),
{
    let all = terminated(bytes) + rest;
    if bytes.len() == 0 {
        assert(all =~= seq![ESCAPE, TERMINATOR] + rest);
        assert(all.skip(2) =~= rest);
        assert(bytes =~= Seq::empty());
    } else {
        let tail = bytes.drop_first();
        lemma_terminated(tail, rest);
        assert(seq![bytes[0]] + tail =~= bytes);
        if bytes[0] == ESCAPE {
            assert(all =~= seq![ESCAPE, ESCAPED_ZERO] + (terminated(tail) + rest));
            assert(all.skip(2) =~= terminated(tail) + rest);
        } else {
            assert(all =~= seq![bytes[0]] + (terminated(tail) + rest));
            assert(all.drop_first() =~= terminated(tail) + rest);
        }
    }
}

proof fn lemma_time(seconds: i64, nanos: u32, rest: Seq<u8>)
    requires
        nanos < NANOS_PER_SECOND,
    ensures
        yields(take_time(time_bytes(seconds, nanos) + rest), (seconds, nanos), rest),
{
    assert(time_bytes(seconds, nanos) + rest =~= signed64(seconds) + (plain32(nanos as nat)
        + rest));
    lemma_i64(seconds, plain32(nanos as nat) + rest);
    lemma_u32(nanos as nat, rest);
}

proof fn lemma_number(number: Number, rest: Seq<u8>)
    ensures
        yields(take_number(number_bytes(number) + rest), number, rest),
{
    match number {
        Number::Integer(value) => {
            lemma_tagged(NUMBER_INTEGER, signed64(value), rest);
            lemma_i64(value, rest);
        },
        Number::Float(double) => {
            let bits = big_endian(double.bits as nat, 8);
            lemma_tagged(NUMBER_FLOAT, bits, rest);
            lemma_double(double, rest);
        },
        Number::Decimal { mantissa, scale } => {
            let tail = plain32(scale as nat) + rest;
            lemma_joined(NUMBER_DECIMAL, signed128(mantissa), plain32(scale as nat), rest);
            lemma_byte(NUMBER_DECIMAL, signed128(mantissa) + tail);
            let bits = if mantissa >= 0 {
                mantissa as nat
            } else {
                (mantissa + 0x1_0000_0000_0000_0000_0000_0000_0000_0000) as nat
            };
            lemma_spans();
            lemma_plain(bits, 16, tail);
            lemma_u32(scale as nat, rest);
            assert(signed_of(bits) == mantissa);
        },
    }
}

proof fn lemma_record_id(id: RecordIdView, rest: Seq<u8>)
    requires
        id_is_sound(id),
    ensures
        yields(take_record_id(record_id_bytes(id) + rest), id, rest),
{
    match id {
        RecordIdView::Int(value) => {
            lemma_tagged(RECORD_ID_INT, signed64(value), rest);
            lemma_i64(value, rest);
        },
        RecordIdView::Text(text) => {
            let held = terminated(encode_utf8(text));
            lemma_tagged(RECORD_ID_TEXT, held, rest);
            lemma_terminated(encode_utf8(text), rest);
            lemma_as_text(text, rest);
        },
        RecordIdView::Uuid(bytes) => {
            lemma_tagged(RECORD_ID_UUID, bytes, rest);
            lemma_take(bytes, rest);
        },
        RecordIdView::Bytes(bytes) => {
            lemma_tagged(RECORD_ID_BYTES, terminated(bytes), rest);
            lemma_terminated(bytes, rest);
        },
    }
}

proof fn lemma_record_ref(reference: RecordRefView, rest: Seq<u8>)
    requires
        id_is_sound(reference.id),
    ensures
        yields(take_record_ref(record_ref_bytes(reference) + rest), reference, rest),
{
    let id = record_id_bytes(reference.id);
    assert(record_ref_bytes(reference) + rest =~= plain32(reference.table as nat) + (id + rest));
    lemma_u32(reference.table as nat, id + rest);
    lemma_record_id(reference.id, rest);
}

proof fn lemma_position(position: Position, rest: Seq<u8>)
    ensures
        yields(take_position(position_bytes(position) + rest), position, rest),
{
    let second = big_endian(position.latitude.bits as nat, 8);
    assert(position_bytes(position) + rest =~= big_endian(position.longitude.bits as nat, 8) + (
    second + rest));
    lemma_double(position.longitude, second + rest);
    lemma_double(position.latitude, rest);
}

proof fn lemma_each_position(positions: Seq<Position>, rest: Seq<u8>)
    ensures
        yields(
            take_each_position(each_position(positions) + rest, positions.len()),
            positions,
            rest,
        ),
    decreases positions.len(),
{
    if positions.len() == 0 {
        assert(each_position(positions) + rest =~= rest);
        assert(positions =~= Seq::empty());
    } else {
        let tail = positions.drop_first();
        assert(each_position(positions) + rest =~= position_bytes(positions[0]) + (each_position(
            tail,
        ) + rest));
        lemma_position(positions[0], each_position(tail) + rest);
        lemma_each_position(tail, rest);
        assert(seq![positions[0]] + tail =~= positions);
    }
}

proof fn lemma_positions(positions: Seq<Position>, rest: Seq<u8>)
    requires
        counts(positions.len()),
    ensures
        yields(take_positions(positions_bytes(positions) + rest), positions, rest),
{
    assert(positions_bytes(positions) + rest =~= plain32(count(positions.len())) + (each_position(
        positions,
    ) + rest));
    lemma_u32(positions.len(), each_position(positions) + rest);
    lemma_each_position(positions, rest);
}

proof fn lemma_each_run(runs: Seq<Seq<Position>>, rest: Seq<u8>)
    requires
        runs_count(runs),
    ensures
        yields(take_each_run(each_run(runs) + rest, runs.len()), runs, rest),
    decreases runs.len(),
{
    if runs.len() == 0 {
        assert(each_run(runs) + rest =~= rest);
        assert(runs =~= Seq::empty());
    } else {
        let tail = runs.drop_first();
        assert(each_run(runs) + rest =~= positions_bytes(runs[0]) + (each_run(tail) + rest));
        assert(runs_count(tail)) by {
            assert forall|i: int| 0 <= i < tail.len() implies counts(
                (#[trigger] tail[i]).len(),
            ) by {
                assert(tail[i] == runs[i + 1]);
            }
        }
        lemma_positions(runs[0], each_run(tail) + rest);
        lemma_each_run(tail, rest);
        assert(seq![runs[0]] + tail =~= runs);
    }
}

proof fn lemma_runs(runs: Seq<Seq<Position>>, rest: Seq<u8>)
    requires
        runs_count(runs),
    ensures
        yields(take_runs(plain32(count(runs.len())) + each_run(runs) + rest), runs, rest),
{
    assert(plain32(count(runs.len())) + each_run(runs) + rest =~= plain32(count(runs.len())) + (
    each_run(runs) + rest));
    lemma_u32(runs.len(), each_run(runs) + rest);
    lemma_each_run(runs, rest);
}

proof fn lemma_polygon(polygon: PolygonView, rest: Seq<u8>)
    requires
        polygon_counts(polygon),
    ensures
        yields(take_polygon(polygon_bytes(polygon) + rest), polygon, rest),
{
    let holes = plain32(count(polygon.interiors.len())) + each_run(polygon.interiors);
    assert(polygon_bytes(polygon) + rest =~= positions_bytes(polygon.exterior) + (holes + rest));
    lemma_positions(polygon.exterior, holes + rest);
    lemma_runs(polygon.interiors, rest);
}

proof fn lemma_each_polygon(polygons: Seq<PolygonView>, rest: Seq<u8>)
    requires
        polygons_count(polygons),
    ensures
        yields(take_each_polygon(each_polygon(polygons) + rest, polygons.len()), polygons, rest),
    decreases polygons.len(),
{
    if polygons.len() == 0 {
        assert(each_polygon(polygons) + rest =~= rest);
        assert(polygons =~= Seq::empty());
    } else {
        let tail = polygons.drop_first();
        assert(each_polygon(polygons) + rest =~= polygon_bytes(polygons[0]) + (each_polygon(tail)
            + rest));
        assert(polygons_count(tail)) by {
            assert forall|i: int| 0 <= i < tail.len() implies polygon_counts(
                #[trigger] tail[i],
            ) by {
                assert(tail[i] == polygons[i + 1]);
            }
        }
        lemma_polygon(polygons[0], each_polygon(tail) + rest);
        lemma_each_polygon(tail, rest);
        assert(seq![polygons[0]] + tail =~= polygons);
    }
}

/// What reading comes to: the value where it is shallow enough, and truncation where it is not.
spec fn read_or_refused<T>(shallow: bool, value: T, rest: Seq<u8>) -> Parsed<T> {
    if shallow {
        Ok((value, rest))
    } else {
        Err(EncodingFault::Truncated)
    }
}

proof fn lemma_simple_geometry(shape: GeometryView, rest: Seq<u8>, depth: nat)
    requires
        shape_is_sound(shape),
        depth <= MAX_DEPTH,
        shape is Point || shape is Line || shape is Polygon,
    ensures
        yields(take_geometry(geometry_bytes(shape) + rest, depth), shape, rest),
{
    match shape {
        GeometryView::Point(position) => {
            lemma_tagged(SHAPE_POINT, position_bytes(position), rest);
            lemma_position(position, rest);
        },
        GeometryView::Line(positions) => {
            lemma_tagged(SHAPE_LINE, positions_bytes(positions), rest);
            lemma_positions(positions, rest);
        },
        GeometryView::Polygon(polygon) => {
            lemma_tagged(SHAPE_POLYGON, polygon_bytes(polygon), rest);
            lemma_polygon(polygon, rest);
        },
        _ => {},
    }
}

proof fn lemma_multiple_geometry(shape: GeometryView, rest: Seq<u8>, depth: nat)
    requires
        shape_is_sound(shape),
        depth <= MAX_DEPTH,
        shape is MultiPoint || shape is MultiLine || shape is MultiPolygon,
    ensures
        yields(take_geometry(geometry_bytes(shape) + rest, depth), shape, rest),
{
    match shape {
        GeometryView::MultiPoint(positions) => {
            lemma_tagged(SHAPE_MULTI_POINT, positions_bytes(positions), rest);
            lemma_positions(positions, rest);
        },
        GeometryView::MultiLine(lines) => {
            lemma_counted(SHAPE_MULTI_LINE, lines.len(), each_run(lines), rest);
            lemma_each_run(lines, rest);
        },
        GeometryView::MultiPolygon(polygons) => {
            lemma_counted(SHAPE_MULTI_POLYGON, polygons.len(), each_polygon(polygons), rest);
            lemma_each_polygon(polygons, rest);
        },
        _ => {},
    }
}

proof fn lemma_collection_geometry(shapes: Seq<GeometryView>, rest: Seq<u8>, depth: nat)
    requires
        counts(shapes.len()),
        depth <= MAX_DEPTH,
        take_each_shape(each_shape(shapes) + rest, shapes.len(), depth + 1) == read_or_refused(
            shapes_are_shallow(shapes, depth + 1),
            shapes,
            rest,
        ),
    ensures
        take_geometry(geometry_bytes(GeometryView::Collection(shapes)) + rest, depth)
            == read_or_refused(
            shape_is_shallow(GeometryView::Collection(shapes), depth),
            GeometryView::Collection(shapes),
            rest,
        ),
{
    lemma_counted(SHAPE_COLLECTION, shapes.len(), each_shape(shapes), rest);
}

proof fn lemma_geometry(shape: GeometryView, rest: Seq<u8>, depth: nat)
    requires
        shape_is_sound(shape),
    ensures
        take_geometry(geometry_bytes(shape) + rest, depth) == read_or_refused(
            shape_is_shallow(shape, depth),
            shape,
            rest,
        ),
    decreases shape,
{
    if depth <= MAX_DEPTH {
        match shape {
            GeometryView::Point(_) | GeometryView::Line(_) | GeometryView::Polygon(_) => {
                lemma_simple_geometry(shape, rest, depth);
            },
            GeometryView::Collection(shapes) => {
                lemma_each_shape(shapes, rest, depth + 1);
                lemma_collection_geometry(shapes, rest, depth);
            },
            _ => lemma_multiple_geometry(shape, rest, depth),
        }
    }
}

proof fn lemma_each_shape(shapes: Seq<GeometryView>, rest: Seq<u8>, depth: nat)
    requires
        shapes_are_sound(shapes),
    ensures
        take_each_shape(each_shape(shapes) + rest, shapes.len(), depth) == read_or_refused(
            shapes_are_shallow(shapes, depth),
            shapes,
            rest,
        ),
    decreases shapes,
{
    if shapes.len() == 0 {
        assert(each_shape(shapes) + rest =~= rest);
        assert(shapes =~= Seq::empty());
    } else {
        let tail = shapes.drop_first();
        assert(each_shape(shapes) + rest =~= geometry_bytes(shapes[0]) + (each_shape(tail) + rest));
        assert(shapes_are_sound(tail)) by {
            assert forall|i: int| 0 <= i < tail.len() implies shape_is_sound(
                #[trigger] tail[i],
            ) by {
                assert(tail[i] == shapes[i + 1]);
            }
        }
        assert(shapes_are_shallow(shapes, depth) == (shape_is_shallow(shapes[0], depth)
            && shapes_are_shallow(tail, depth))) by {
            if shape_is_shallow(shapes[0], depth) && shapes_are_shallow(tail, depth) {
                assert forall|i: int| 0 <= i < shapes.len() implies shape_is_shallow(
                    #[trigger] shapes[i],
                    depth,
                ) by {
                    if i > 0 {
                        assert(shapes[i] == tail[i - 1]);
                    }
                }
            }
            if shapes_are_shallow(shapes, depth) {
                assert forall|i: int| 0 <= i < tail.len() implies shape_is_shallow(
                    #[trigger] tail[i],
                    depth,
                ) by {
                    assert(tail[i] == shapes[i + 1]);
                }
            }
        }
        lemma_geometry(shapes[0], each_shape(tail) + rest, depth);
        lemma_each_shape(tail, rest, depth);
        assert(seq![shapes[0]] + tail =~= shapes);
    }
}

proof fn lemma_flat(value: ValueView, rest: Seq<u8>)
    requires
        is_sound(value),
        !(value is Array || value is Object || value is Range || value is SetOf
            || value is Geometry),
    ensures
        value_bytes(value).len() > 0,
        yields(
            take_flat(value_bytes(value)[0], value_bytes(value).drop_first() + rest),
            value,
            rest,
        ),
{
    let tail = value_bytes(value).drop_first();
    match value {
        ValueView::Absent => {
            assert(tail + rest =~= rest);
        },
        ValueView::Null => {
            assert(tail + rest =~= rest);
        },
        ValueView::Bool(flag) => {
            assert(tail =~= seq![tail[0]]);
            lemma_byte(tail[0], rest);
        },
        ValueView::Number(number) => {
            assert(tail =~= number_bytes(number));
            lemma_number(number, rest);
        },
        ValueView::String(text) => {
            assert(tail =~= block(encode_utf8(text)));
            lemma_text(text, rest);
        },
        ValueView::Bytes(bytes) => {
            assert(tail =~= block(bytes));
            lemma_block(bytes, rest);
        },
        ValueView::Duration { seconds, nanos } => {
            assert(tail =~= time_bytes(seconds, nanos));
            lemma_time(seconds, nanos, rest);
        },
        ValueView::Datetime { seconds, nanos } => {
            assert(tail =~= time_bytes(seconds, nanos));
            lemma_time(seconds, nanos, rest);
        },
        ValueView::Uuid(bytes) => {
            assert(tail =~= bytes);
            lemma_take(bytes, rest);
        },
        ValueView::Table(table) => {
            assert(tail =~= plain32(table as nat));
            lemma_u32(table as nat, rest);
        },
        ValueView::Record(reference) => {
            assert(tail =~= record_ref_bytes(reference));
            lemma_record_ref(reference, rest);
        },
        ValueView::Regex(pattern) => {
            assert(tail =~= block(encode_utf8(pattern)));
            lemma_text(pattern, rest);
        },
        _ => {},
    }
}

proof fn lemma_flat_value(value: ValueView, rest: Seq<u8>, depth: nat)
    requires
        is_sound(value),
        depth <= MAX_DEPTH,
        !(value is Array || value is Object || value is Range || value is SetOf
            || value is Geometry),
    ensures
        yields(take_value(value_bytes(value) + rest, depth), value, rest),
{
    let all = value_bytes(value) + rest;
    lemma_flat(value, rest);
    assert(all.drop_first() =~= value_bytes(value).drop_first() + rest);
    assert(all[0] == value_bytes(value)[0]);
}

proof fn lemma_sequence_value(value: ValueView, items: Seq<ValueView>, rest: Seq<u8>, depth: nat)
    requires
        value == ValueView::Array(items) || value == ValueView::SetOf(items),
        counts(items.len()),
        depth <= MAX_DEPTH,
        take_each_value(each_value(items) + rest, items.len(), depth + 1) == read_or_refused(
            values_are_shallow(items, depth + 1),
            items,
            rest,
        ),
    ensures
        take_value(value_bytes(value) + rest, depth) == read_or_refused(
            is_shallow(value, depth),
            value,
            rest,
        ),
{
    lemma_counted(TAG_ARRAY, items.len(), each_value(items), rest);
    lemma_counted(TAG_SET, items.len(), each_value(items), rest);
}

proof fn lemma_object_value(fields: Seq<(Seq<char>, ValueView)>, rest: Seq<u8>, depth: nat)
    requires
        counts(fields.len()),
        ordered(fields),
        depth <= MAX_DEPTH,
        take_each_field(each_field(fields) + rest, fields.len(), depth + 1) == read_or_refused(
            fields_are_shallow(fields, depth + 1),
            fields,
            rest,
        ),
    ensures
        take_value(value_bytes(ValueView::Object(fields)) + rest, depth) == read_or_refused(
            is_shallow(ValueView::Object(fields), depth),
            ValueView::Object(fields),
            rest,
        ),
{
    lemma_counted(TAG_OBJECT, fields.len(), each_field(fields), rest);
    assert(Seq::<(Seq<char>, ValueView)>::empty() + fields =~= fields);
    lemma_fields_in_order(Seq::empty(), fields);
}

proof fn lemma_range_read(bytes: Seq<u8>, depth: nat)
    requires
        depth <= MAX_DEPTH,
    ensures
        take_value(seq![TAG_RANGE] + bytes, depth) == (match take_bound(bytes, depth + 1) {
            Err(fault) => Err(fault),
            Ok((start, rest)) => match take_bound(rest, depth + 1) {
                Err(fault) => Err(fault),
                Ok((end, rest)) => Ok((ValueView::Range(Box::new(RangeView { start, end })), rest)),
            },
        }),
{
    lemma_byte(TAG_RANGE, bytes);
}

proof fn lemma_range_value(range: RangeView, rest: Seq<u8>, depth: nat)
    requires
        depth <= MAX_DEPTH,
        take_bound(bound_bytes(range.start) + (bound_bytes(range.end) + rest), depth + 1)
            == read_or_refused(
            bound_is_shallow(range.start, depth + 1),
            range.start,
            bound_bytes(range.end) + rest,
        ),
        take_bound(bound_bytes(range.end) + rest, depth + 1) == read_or_refused(
            bound_is_shallow(range.end, depth + 1),
            range.end,
            rest,
        ),
    ensures
        take_value(value_bytes(ValueView::Range(Box::new(range))) + rest, depth)
            == read_or_refused(
            is_shallow(ValueView::Range(Box::new(range)), depth),
            ValueView::Range(Box::new(range)),
            rest,
        ),
{
    let start = bound_bytes(range.start);
    let end = bound_bytes(range.end);
    assert(value_bytes(ValueView::Range(Box::new(range))) == seq![TAG_RANGE] + start + end);
    lemma_joined(TAG_RANGE, start, end, rest);
    lemma_range_read(start + (end + rest), depth);
}

proof fn lemma_geometry_value(shape: GeometryView, rest: Seq<u8>, depth: nat)
    requires
        shape_is_sound(shape),
        depth <= MAX_DEPTH,
    ensures
        take_value(value_bytes(ValueView::Geometry(shape)) + rest, depth) == read_or_refused(
            is_shallow(ValueView::Geometry(shape), depth),
            ValueView::Geometry(shape),
            rest,
        ),
{
    lemma_tagged(TAG_GEOMETRY, geometry_bytes(shape), rest);
    lemma_geometry(shape, rest, depth + 1);
}

proof fn lemma_value(value: ValueView, rest: Seq<u8>, depth: nat)
    requires
        is_sound(value),
    ensures
        take_value(value_bytes(value) + rest, depth) == read_or_refused(
            is_shallow(value, depth),
            value,
            rest,
        ),
    decreases value,
{
    if depth <= MAX_DEPTH {
        match value {
            ValueView::Array(items) => {
                lemma_each_value(items, rest, depth + 1);
                lemma_sequence_value(value, items, rest, depth);
            },
            ValueView::SetOf(items) => {
                lemma_each_value(items, rest, depth + 1);
                lemma_sequence_value(value, items, rest, depth);
            },
            ValueView::Object(fields) => {
                lemma_each_field(fields, rest, depth + 1);
                lemma_object_value(fields, rest, depth);
            },
            ValueView::Range(range) => {
                lemma_bound(range.start, bound_bytes(range.end) + rest, depth + 1);
                lemma_bound(range.end, rest, depth + 1);
                lemma_range_value(*range, rest, depth);
            },
            ValueView::Geometry(shape) => lemma_geometry_value(shape, rest, depth),
            _ => lemma_flat_value(value, rest, depth),
        }
    }
}

proof fn lemma_bound(bound: Bound<ValueView>, rest: Seq<u8>, depth: nat)
    requires
        bound_is_sound(bound),
    ensures
        take_bound(bound_bytes(bound) + rest, depth) == read_or_refused(
            bound_is_shallow(bound, depth),
            bound,
            rest,
        ),
    decreases bound,
{
    match bound {
        Bound::Unbounded => {
            lemma_byte(BOUND_UNBOUNDED, rest);
        },
        Bound::Included(value) => {
            lemma_tagged(BOUND_INCLUDED, value_bytes(value), rest);
            lemma_value(value, rest, depth);
        },
        Bound::Excluded(value) => {
            lemma_tagged(BOUND_EXCLUDED, value_bytes(value), rest);
            lemma_value(value, rest, depth);
        },
    }
}

proof fn lemma_each_value(items: Seq<ValueView>, rest: Seq<u8>, depth: nat)
    requires
        values_are_sound(items),
    ensures
        take_each_value(each_value(items) + rest, items.len(), depth) == read_or_refused(
            values_are_shallow(items, depth),
            items,
            rest,
        ),
    decreases items,
{
    if items.len() == 0 {
        assert(each_value(items) + rest =~= rest);
        assert(items =~= Seq::empty());
    } else {
        let tail = items.drop_first();
        assert(each_value(items) + rest =~= value_bytes(items[0]) + (each_value(tail) + rest));
        assert(values_are_sound(tail)) by {
            assert forall|i: int| 0 <= i < tail.len() implies is_sound(#[trigger] tail[i]) by {
                assert(tail[i] == items[i + 1]);
            }
        }
        assert(values_are_shallow(items, depth) == (is_shallow(items[0], depth)
            && values_are_shallow(tail, depth))) by {
            if is_shallow(items[0], depth) && values_are_shallow(tail, depth) {
                assert forall|i: int| 0 <= i < items.len() implies is_shallow(
                    #[trigger] items[i],
                    depth,
                ) by {
                    if i > 0 {
                        assert(items[i] == tail[i - 1]);
                    }
                }
            }
            if values_are_shallow(items, depth) {
                assert forall|i: int| 0 <= i < tail.len() implies is_shallow(
                    #[trigger] tail[i],
                    depth,
                ) by {
                    assert(tail[i] == items[i + 1]);
                }
            }
        }
        lemma_value(items[0], each_value(tail) + rest, depth);
        lemma_each_value(tail, rest, depth);
        assert(seq![items[0]] + tail =~= items);
    }
}

proof fn lemma_each_field(fields: Seq<(Seq<char>, ValueView)>, rest: Seq<u8>, depth: nat)
    requires
        fields_are_sound(fields),
    ensures
        take_each_field(each_field(fields) + rest, fields.len(), depth) == read_or_refused(
            fields_are_shallow(fields, depth),
            fields,
            rest,
        ),
    decreases fields,
{
    if fields.len() == 0 {
        assert(each_field(fields) + rest =~= rest);
        assert(fields =~= Seq::empty());
    } else {
        let tail = fields.drop_first();
        let name = block(encode_utf8(fields[0].0));
        let after = each_field(tail) + rest;
        assert(each_field(fields) + rest =~= name + (value_bytes(fields[0].1) + after));
        assert(fields_are_sound(tail)) by {
            assert forall|i: int| 0 <= i < tail.len() implies counts(
                encode_utf8((#[trigger] tail[i]).0).len(),
            ) && is_sound(tail[i].1) by {
                assert(tail[i] == fields[i + 1]);
            }
            assert(ordered(tail));
        }
        assert(fields_are_shallow(fields, depth) == (is_shallow(fields[0].1, depth)
            && fields_are_shallow(tail, depth))) by {
            if is_shallow(fields[0].1, depth) && fields_are_shallow(tail, depth) {
                assert forall|i: int| 0 <= i < fields.len() implies is_shallow(
                    (#[trigger] fields[i]).1,
                    depth,
                ) by {
                    if i > 0 {
                        assert(fields[i] == tail[i - 1]);
                    }
                }
            }
            if fields_are_shallow(fields, depth) {
                assert forall|i: int| 0 <= i < tail.len() implies is_shallow(
                    (#[trigger] tail[i]).1,
                    depth,
                ) by {
                    assert(tail[i] == fields[i + 1]);
                }
            }
        }
        lemma_text(fields[0].0, value_bytes(fields[0].1) + after);
        lemma_value(fields[0].1, after, depth);
        lemma_each_field(tail, rest, depth);
        assert(seq![fields[0]] + tail =~= fields);
    }
}

/// Fields set in the order of their names stand in that order.
proof fn lemma_fields_in_order(
    fields: Seq<(Seq<char>, ValueView)>,
    more: Seq<(Seq<char>, ValueView)>,
)
    requires
        ordered(fields + more),
    ensures
        with_fields(fields, more) == fields + more,
    decreases more.len(),
{
    let all = fields + more;
    if more.len() == 0 {
        assert(all =~= fields);
    } else {
        let next = more[0];
        assert(all[fields.len() as int] == next);
        if fields.len() > 0 {
            assert(all[fields.len() - 1] == fields.last());
        }
        assert(with_field(fields, next.0, next.1) =~= fields.push(next));
        assert(fields.push(next) + more.drop_first() =~= all);
        lemma_fields_in_order(fields.push(next), more.drop_first());
    }
}

/// A value that stands `depth` levels down is read back, and nothing of what follows it.
pub proof fn lemma_value_is_read(value: ValueView, rest: Seq<u8>, depth: nat)
    requires
        is_sound(value),
        is_shallow(value, depth),
    ensures
        yields(take_value(value_bytes(value) + rest, depth), value, rest),
{
    lemma_value(value, rest, depth);
}

/// What a read gives back of a write: every value that can be written down and nests no deeper
/// than the limit is read back from its own bytes, unchanged.
pub proof fn law_round_trip(value: ValueView)
    requires
        is_sound(value),
        is_shallow(value, 0),
    ensures
        whole_value(value_bytes(value)) == Ok::<ValueView, EncodingFault>(value),
{
    lemma_value(value, Seq::empty(), 0);
    assert(value_bytes(value) + Seq::empty() =~= value_bytes(value));
}

/// Excessive nesting is an ordinary refusal: a value that nests deeper than the limit is refused
/// as truncated.
pub proof fn law_deep_values_are_refused(value: ValueView)
    requires
        is_sound(value),
        !is_shallow(value, 0),
    ensures
        whole_value(value_bytes(value)) == Err::<ValueView, EncodingFault>(
            EncodingFault::Truncated,
        ),
{
    lemma_value(value, Seq::empty(), 0);
    assert(value_bytes(value) + Seq::empty() =~= value_bytes(value));
}

/// Bytes after a complete value are an error, and the error counts them.
pub proof fn law_trailing_bytes_are_refused(value: ValueView, extra: Seq<u8>)
    requires
        is_sound(value),
        is_shallow(value, 0),
        0 < extra.len() <= usize::MAX,
    ensures
        whole_value(value_bytes(value) + extra) == Err::<ValueView, EncodingFault>(
            EncodingFault::TrailingBytes { count: extra.len() as usize },
        ),
{
    lemma_value(value, extra, 0);
}

/// Different values have different bytes.
pub proof fn law_values_have_their_own_bytes(value: ValueView, other: ValueView)
    requires
        is_sound(value),
        is_shallow(value, 0),
        is_sound(other),
        is_shallow(other, 0),
        value_bytes(value) == value_bytes(other),
    ensures
        value == other,
{
    law_round_trip(value);
    law_round_trip(other);
}

/// An unknown tag is refused by name, whatever follows it.
pub proof fn law_unknown_tags_are_refused(tag: u8, rest: Seq<u8>)
    requires
        !(TAG_NONE <= tag <= TAG_REGEX),
    ensures
        whole_value(seq![tag] + rest) == Err::<ValueView, EncodingFault>(
            EncodingFault::UnknownTag { tag },
        ),
{
    lemma_byte(tag, rest);
}

/// Bytes of one length sort as all but their last byte do, and by the last where those agree.
proof fn lemma_before_with_last(a: Seq<u8>, b: Seq<u8>, p: u8, q: u8)
    requires
        a.len() == b.len(),
    ensures
        bytes_before(a.push(p), b.push(q)) == (bytes_before(a, b) || (a == b && p < q)),
    decreases a.len(),
{
    if a.len() == 0 {
        assert(a =~= b);
        assert(!bytes_before(a.push(p).drop_first(), b.push(q).drop_first()));
    } else {
        assert(a.push(p).drop_first() =~= a.drop_first().push(p));
        assert(b.push(q).drop_first() =~= b.drop_first().push(q));
        lemma_before_with_last(a.drop_first(), b.drop_first(), p, q);
        if a[0] == b[0] && a.drop_first() == b.drop_first() {
            assert(a =~= seq![a[0]] + a.drop_first());
            assert(b =~= seq![b[0]] + b.drop_first());
        }
    }
}

proof fn lemma_big_endian_order(a: nat, b: nat, width: nat)
    requires
        a < span(width),
        b < span(width),
    ensures
        bytes_before(big_endian(a, width), big_endian(b, width)) == (a < b),
    decreases width,
{
    if width > 0 {
        let less = (width - 1) as nat;
        lemma_big_endian_order(a / 256, b / 256, less);
        lemma_big_endian_len(a / 256, less);
        lemma_big_endian_len(b / 256, less);
        lemma_before_with_last(
            big_endian(a / 256, less),
            big_endian(b / 256, less),
            (a % 256) as u8,
            (b % 256) as u8,
        );
        if big_endian(a / 256, less) == big_endian(b / 256, less) {
            lemma_magnitude_of_big_endian(a / 256, less);
            lemma_magnitude_of_big_endian(b / 256, less);
        }
    }
}

/// Integers sort as their bytes do: with the sign bit inverted, no negative one sorts above a
/// positive one.
pub proof fn law_integers_sort_as_their_bytes(a: i64, b: i64)
    ensures
        bytes_before(signed64(a), signed64(b)) == (a < b),
{
    lemma_spans();
    lemma_big_endian_order((a - i64::MIN) as nat, (b - i64::MIN) as nat, 8);
}

/// The escape is byte-local: the escaped form of a prefix is a prefix of the escaped form of the
/// whole, so a block without what ends it is a prefix of every block that goes on from there.
pub proof fn law_escaping_keeps_prefixes(start: Seq<u8>, more: Seq<u8>)
    ensures
        escaped(start + more) == escaped(start) + escaped(more),
        terminated(start) == escaped(start) + seq![ESCAPE, TERMINATOR],
        escaped(start).is_prefix_of(terminated(start + more)),
    decreases start.len(),
{
    if start.len() == 0 {
        assert(start + more =~= more);
        assert(escaped(start) + escaped(more) =~= escaped(more));
    } else {
        assert((start + more).drop_first() =~= start.drop_first() + more);
        law_escaping_keeps_prefixes(start.drop_first(), more);
        assert(escaped(start + more) =~= escaped(start) + escaped(more));
    }
    let opening = escaped(start);
    assert(terminated(start + more).subrange(0, opening.len() as int) =~= opening);
}

/// An escaped block is read back as the bytes it holds, and nothing of what follows it is read.
pub proof fn law_escaped_blocks_are_read_back(bytes: Seq<u8>, rest: Seq<u8>)
    ensures
        take_terminated(terminated(bytes) + rest) == Ok::<(Seq<u8>, Seq<u8>), EncodingFault>(
            (bytes, rest),
        ),
{
    lemma_terminated(bytes, rest);
}

/// Escaped blocks sort as the bytes they hold: an escaped zero sorts above the end of a block and
/// below every other byte.
pub proof fn law_escaped_blocks_sort_as_their_bytes(a: Seq<u8>, b: Seq<u8>)
    ensures
        bytes_before(terminated(a), terminated(b)) == bytes_before(a, b),
    decreases a.len(),
{
    reveal_with_fuel(bytes_before, 3);
    let x = terminated(a);
    let y = terminated(b);
    if a.len() > 0 && b.len() > 0 && a[0] == b[0] {
        let tail = a.drop_first();
        let other = b.drop_first();
        law_escaped_blocks_sort_as_their_bytes(tail, other);
        if a[0] == ESCAPE {
            assert(x =~= seq![ESCAPE, ESCAPED_ZERO] + terminated(tail));
            assert(y =~= seq![ESCAPE, ESCAPED_ZERO] + terminated(other));
            assert(x.drop_first().drop_first() =~= terminated(tail));
            assert(y.drop_first().drop_first() =~= terminated(other));
        } else {
            assert(x =~= seq![a[0]] + terminated(tail));
            assert(y =~= seq![b[0]] + terminated(other));
            assert(x.drop_first() =~= terminated(tail));
            assert(y.drop_first() =~= terminated(other));
        }
    } else {
        lemma_block_opens(a);
        lemma_block_opens(b);
        assert(x.drop_first()[0] == x[1] && y.drop_first()[0] == y[1]);
        if a.len() == 0 && b.len() == 0 {
            assert(x.drop_first().drop_first() =~= Seq::empty());
            assert(y.drop_first().drop_first() =~= Seq::empty());
        }
    }
}

/// What an escaped block opens with.
proof fn lemma_block_opens(bytes: Seq<u8>)
    ensures
        terminated(bytes).len() >= 2,
        bytes.len() == 0 ==> terminated(bytes) == seq![ESCAPE, TERMINATOR],
        bytes.len() > 0 ==> terminated(bytes)[0] == bytes[0],
        bytes.len() > 0 && bytes[0] == ESCAPE ==> terminated(bytes)[1] == ESCAPED_ZERO,
{
}

}
