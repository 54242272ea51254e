//! The format as it is published: the byte that opens each type, each shape, each identity and each
//! bound, what follows it, and what becomes of bytes that are none of these.

use vstd::prelude::*;
use vstd::utf8::{decode_utf8, encode_utf8, valid_utf8};

use crate::bytes::{big_endian, lemma_magnitude_fits, lemma_spans, magnitude};
use crate::codec::laws::{is_shallow, is_sound, lemma_text, lemma_u32, lemma_value_is_read};
use crate::codec::layout::{
    block, bound_bytes, count, each_field, each_polygon, each_position, each_run, each_shape,
    each_value, geometry_bytes, plain32, polygon_bytes, record_id_bytes, terminated, value_bytes,
};
use crate::codec::parse::{
    take_bound, take_each_field, take_geometry, take_number, take_record_id, take_terminated,
    take_value, whole_value,
};
use crate::error::EncodingFault;
use crate::fields::{given_last, law_the_last_value_given_is_held, with_fields};
use crate::geometry::{GeometryView, PolygonView, Position};
use crate::order::text_before;
use crate::value::{Bound, Number, RangeView, RecordIdView, RecordRefView, ValueView};

verus! {

/// The byte that a value of each type opens with.
pub open spec fn published_tag(value: ValueView) -> u8 {
    match value {
        ValueView::Absent => 0x01,
        ValueView::Null => 0x02,
        ValueView::Bool(_) => 0x03,
        ValueView::Number(_) => 0x04,
        ValueView::String(_) => 0x05,
        ValueView::Bytes(_) => 0x06,
        ValueView::Duration { .. } => 0x07,
        ValueView::Datetime { .. } => 0x08,
        ValueView::Uuid(_) => 0x09,
        ValueView::Table(_) => 0x0a,
        ValueView::Record(_) => 0x0b,
        ValueView::Array(_) => 0x0c,
        ValueView::Object(_) => 0x0d,
        ValueView::Range(_) => 0x0e,
        ValueView::SetOf(_) => 0x0f,
        ValueView::Geometry(_) => 0x10,
        ValueView::Regex(_) => 0x11,
    }
}

/// The byte that a number of each shape opens with.
pub open spec fn published_number(number: Number) -> u8 {
    match number {
        Number::Integer(_) => 0x01,
        Number::Float(_) => 0x02,
        Number::Decimal { .. } => 0x03,
    }
}

/// The byte that an identity of each kind opens with.
pub open spec fn published_id(id: RecordIdView) -> u8 {
    match id {
        RecordIdView::Int(_) => 0x01,
        RecordIdView::Text(_) => 0x02,
        RecordIdView::Uuid(_) => 0x03,
        RecordIdView::Bytes(_) => 0x04,
    }
}

/// The byte that each end of a span opens with.
pub open spec fn published_bound(bound: Bound<ValueView>) -> u8 {
    match bound {
        Bound::Unbounded => 0x01,
        Bound::Included(_) => 0x02,
        Bound::Excluded(_) => 0x03,
    }
}

/// The byte that a shape of each kind opens with.
pub open spec fn published_shape(shape: GeometryView) -> u8 {
    match shape {
        GeometryView::Point(_) => 0x01,
        GeometryView::Line(_) => 0x02,
        GeometryView::Polygon(_) => 0x03,
        GeometryView::MultiPoint(_) => 0x04,
        GeometryView::MultiLine(_) => 0x05,
        GeometryView::MultiPolygon(_) => 0x06,
        GeometryView::Collection(_) => 0x07,
    }
}

/// The bytes of every value open with the tag of its type, and so do a number, an identity, an end
/// of a span and a shape with the byte of theirs.
pub proof fn law_bytes_open_with_the_published_tag(
    value: ValueView,
    number: Number,
    id: RecordIdView,
    bound: Bound<ValueView>,
    shape: GeometryView,
)
    ensures
        value_bytes(value).len() > 0 && value_bytes(value)[0] == published_tag(value),
        value_bytes(ValueView::Number(number)).len() > 1,
        value_bytes(ValueView::Number(number))[1] == published_number(number),
        record_id_bytes(id).len() > 0 && record_id_bytes(id)[0] == published_id(id),
        bound_bytes(bound).len() > 0 && bound_bytes(bound)[0] == published_bound(bound),
        geometry_bytes(shape).len() > 0 && geometry_bytes(shape)[0] == published_shape(shape),
{
}

/// Whatever bytes are read as a value, at any depth, the first of them is the tag of its type; and
/// so it is of a number, an identity, an end of a span and a shape.
pub proof fn law_bytes_are_read_as_what_they_open_with(bytes: Seq<u8>, depth: nat)
    ensures
        take_value(bytes, depth) matches Ok((value, _)) ==> bytes.len() > 0 && bytes[0]
            == published_tag(value),
        take_number(bytes) matches Ok((number, _)) ==> bytes.len() > 0 && bytes[0]
            == published_number(number),
        take_record_id(bytes) matches Ok((id, _)) ==> bytes.len() > 0 && bytes[0] == published_id(
            id,
        ),
        take_bound(bytes, depth) matches Ok((bound, _)) ==> bytes.len() > 0 && bytes[0]
            == published_bound(bound),
        take_geometry(bytes, depth) matches Ok((shape, _)) ==> bytes.len() > 0 && bytes[0]
            == published_shape(shape),
{
}

/// A byte that opens no type, no number, no identity, no end of a span and no shape is refused by
/// name where one of these is due.
pub proof fn law_unknown_bytes_are_refused_by_name(byte: u8, rest: Seq<u8>, depth: nat)
    requires
        depth <= 128,
    ensures
        byte == 0 || byte > 0x11 ==> take_value(seq![byte] + rest, depth) == Err::<
            (ValueView, Seq<u8>),
            EncodingFault,
        >(EncodingFault::UnknownTag { tag: byte }),
        byte == 0 || byte > 3 ==> take_number(seq![byte] + rest) == Err::<
            (Number, Seq<u8>),
            EncodingFault,
        >(EncodingFault::UnknownTag { tag: byte }),
        byte == 0 || byte > 4 ==> take_record_id(seq![byte] + rest) == Err::<
            (RecordIdView, Seq<u8>),
            EncodingFault,
        >(EncodingFault::UnknownTag { tag: byte }),
        byte == 0 || byte > 3 ==> take_bound(seq![byte] + rest, depth) == Err::<
            (Bound<ValueView>, Seq<u8>),
            EncodingFault,
        >(EncodingFault::UnknownTag { tag: byte }),
        byte == 0 || byte > 7 ==> take_geometry(seq![byte] + rest, depth) == Err::<
            (GeometryView, Seq<u8>),
            EncodingFault,
        >(EncodingFault::UnknownTag { tag: byte }),
{
    let bytes = seq![byte] + rest;
    assert(bytes[0] == byte);
}

/// An integer of sixty-four bits is its distance from the least one, so that the first bit of the
/// eight bytes is set where the integer is not negative.
pub open spec fn inverted(value: i64) -> Seq<u8> {
    big_endian((value + 0x8000_0000_0000_0000) as nat, 8)
}

/// Sixteen bytes in two's complement.
pub open spec fn complement(value: i128) -> Seq<u8> {
    if value >= 0 {
        big_endian(value as nat, 16)
    } else {
        big_endian((0x1_0000_0000_0000_0000_0000_0000_0000_0000 + value) as nat, 16)
    }
}

/// Bytes behind their length in four bytes.
pub open spec fn measured(bytes: Seq<u8>) -> Seq<u8> {
    big_endian(bytes.len(), 4) + bytes
}

/// What holds no other value is laid out so: a tag, and then numbers the most significant byte
/// first, texts and bytes behind their length, and identifiers as they are.
pub proof fn law_plain_values_are_laid_out(
    flag: bool,
    integer: i64,
    double: crate::double::Double,
    mantissa: i128,
    scale: u32,
    text: Seq<char>,
    bytes: Seq<u8>,
    seconds: i64,
    nanos: u32,
    table: u32,
)
    requires
        encode_utf8(text).len() <= 0xFFFF_FFFF,
        bytes.len() <= 0xFFFF_FFFF,
    ensures
        value_bytes(ValueView::Absent) == seq![0x01u8],
        value_bytes(ValueView::Null) == seq![0x02u8],
        value_bytes(ValueView::Bool(flag)) == seq![
            0x03u8,
            if flag {
                1u8
            } else {
                0u8
            },
        ],
        value_bytes(ValueView::Number(Number::Integer(integer))) == seq![0x04u8, 0x01u8] + inverted(
            integer,
        ),
        value_bytes(ValueView::Number(Number::Float(double))) == seq![0x04u8, 0x02u8] + big_endian(
            double.bits as nat,
            8,
        ),
        value_bytes(ValueView::Number(Number::Decimal { mantissa, scale })) == seq![0x04u8, 0x03u8]
            + complement(mantissa) + big_endian(scale as nat, 4),
        value_bytes(ValueView::String(text)) == seq![0x05u8] + measured(encode_utf8(text)),
        value_bytes(ValueView::Bytes(bytes)) == seq![0x06u8] + measured(bytes),
        value_bytes(ValueView::Duration { seconds, nanos }) == seq![0x07u8] + inverted(seconds)
            + big_endian(nanos as nat, 4),
        value_bytes(ValueView::Datetime { seconds, nanos }) == seq![0x08u8] + inverted(seconds)
            + big_endian(nanos as nat, 4),
        value_bytes(ValueView::Uuid(bytes)) == seq![0x09u8] + bytes,
        value_bytes(ValueView::Table(table)) == seq![0x0au8] + big_endian(table as nat, 4),
        value_bytes(ValueView::Regex(text)) == seq![0x11u8] + measured(encode_utf8(text)),
{
    let number = value_bytes(ValueView::Number(Number::Integer(integer)));
    assert(number =~= seq![0x04u8, 0x01u8] + inverted(integer));
    let number = value_bytes(ValueView::Number(Number::Float(double)));
    assert(number =~= seq![0x04u8, 0x02u8] + big_endian(double.bits as nat, 8));
    let number = value_bytes(ValueView::Number(Number::Decimal { mantissa, scale }));
    assert(number =~= seq![0x04u8, 0x03u8] + complement(mantissa) + big_endian(scale as nat, 4));
    let time = inverted(seconds) + big_endian(nanos as nat, 4);
    assert(seq![0x07u8] + time =~= seq![0x07u8] + inverted(seconds) + big_endian(nanos as nat, 4));
    assert(seq![0x08u8] + time =~= seq![0x08u8] + inverted(seconds) + big_endian(nanos as nat, 4));
}

/// An escaped block is its bytes one by one, a zero as `00 FF`, and then `00 01`.
pub proof fn law_escaped_blocks_are_laid_out(first: u8, bytes: Seq<u8>)
    ensures
        terminated(Seq::empty()) == seq![0x00u8, 0x01u8],
        terminated(seq![first] + bytes) == (if first == 0 {
            seq![0x00u8, 0xFFu8]
        } else {
            seq![first]
        }) + terminated(bytes),
{
    let all = seq![first] + bytes;
    assert(all.drop_first() =~= bytes);
    assert(terminated(Seq::empty()) =~= seq![0x00u8, 0x01u8]);
    assert(terminated(all) =~= (if first == 0 {
        seq![0x00u8, 0xFFu8]
    } else {
        seq![first]
    }) + terminated(bytes));
}

/// A reference is the table in four bytes and then the identity: an integer by its distance from
/// the least one, a text or bytes as an escaped block, and a UUID as it is.
pub proof fn law_references_are_laid_out(table: u32, integer: i64, text: Seq<char>, bytes: Seq<u8>)
    ensures
        value_bytes(ValueView::Record(RecordRefView { table, id: RecordIdView::Int(integer) }))
            == seq![0x0bu8] + big_endian(table as nat, 4) + seq![0x01u8] + inverted(integer),
        value_bytes(ValueView::Record(RecordRefView { table, id: RecordIdView::Text(text) }))
            == seq![0x0bu8] + big_endian(table as nat, 4) + seq![0x02u8] + terminated(
            encode_utf8(text),
        ),
        value_bytes(ValueView::Record(RecordRefView { table, id: RecordIdView::Uuid(bytes) }))
            == seq![0x0bu8] + big_endian(table as nat, 4) + seq![0x03u8] + bytes,
        value_bytes(ValueView::Record(RecordRefView { table, id: RecordIdView::Bytes(bytes) }))
            == seq![0x0bu8] + big_endian(table as nat, 4) + seq![0x04u8] + terminated(bytes),
{
    let head = seq![0x0bu8] + big_endian(table as nat, 4);
    lemma_opened(table, 0x01, inverted(integer));
    lemma_opened(table, 0x02, terminated(encode_utf8(text)));
    lemma_opened(table, 0x03, bytes);
    lemma_opened(table, 0x04, terminated(bytes));
}

proof fn lemma_opened(table: u32, kind: u8, held: Seq<u8>)
    ensures
        seq![0x0bu8] + (big_endian(table as nat, 4) + (seq![kind] + held)) == seq![0x0bu8]
            + big_endian(table as nat, 4) + seq![kind] + held,
{
    assert(seq![0x0bu8] + (big_endian(table as nat, 4) + (seq![kind] + held)) =~= seq![0x0bu8]
        + big_endian(table as nat, 4) + seq![kind] + held);
}

/// The bytes of each of some values.
pub open spec fn bytes_of_each(items: Seq<ValueView>) -> Seq<Seq<u8>> {
    items.map_values(|item: ValueView| value_bytes(item))
}

/// The bytes of each of some named values: the name behind its length, and then the value.
pub open spec fn bytes_of_fields(fields: Seq<(Seq<char>, ValueView)>) -> Seq<Seq<u8>> {
    fields.map_values(
        |field: (Seq<char>, ValueView)| measured(encode_utf8(field.0)) + value_bytes(field.1),
    )
}

/// The bytes of one end of a span.
pub open spec fn bytes_of_bound(bound: Bound<ValueView>) -> Seq<u8> {
    match bound {
        Bound::Unbounded => seq![0x01u8],
        Bound::Included(value) => seq![0x02u8] + value_bytes(value),
        Bound::Excluded(value) => seq![0x03u8] + value_bytes(value),
    }
}

proof fn lemma_each_value_is_flat(items: Seq<ValueView>)
    ensures
        each_value(items) == bytes_of_each(items).flatten(),
    decreases items.len(),
{
    if items.len() > 0 {
        lemma_each_value_is_flat(items.drop_first());
        assert(bytes_of_each(items).drop_first() =~= bytes_of_each(items.drop_first()));
    }
}

proof fn lemma_each_field_is_flat(fields: Seq<(Seq<char>, ValueView)>)
    requires
        forall|i: int|
            0 <= i < fields.len() ==> encode_utf8((#[trigger] fields[i]).0).len() <= 0xFFFF_FFFF,
    ensures
        each_field(fields) == bytes_of_fields(fields).flatten(),
    decreases fields.len(),
{
    if fields.len() > 0 {
        let fewer = fields.drop_first();
        assert forall|i: int| 0 <= i < fewer.len() implies encode_utf8((#[trigger] fewer[i]).0).len()
            <= 0xFFFF_FFFF by {
            assert(fewer[i] == fields[i + 1]);
        }
        lemma_each_field_is_flat(fewer);
        assert(bytes_of_fields(fields).drop_first() =~= bytes_of_fields(fewer));
        assert(encode_utf8(fields[0].0).len() <= 0xFFFF_FFFF);
    }
}

/// What holds other values is how many they are in four bytes, and the bytes of each of them in
/// turn; a span is its two ends, the start first.
pub proof fn law_containers_are_laid_out(
    items: Seq<ValueView>,
    fields: Seq<(Seq<char>, ValueView)>,
    start: Bound<ValueView>,
    end: Bound<ValueView>,
)
    requires
        items.len() <= 0xFFFF_FFFF,
        fields.len() <= 0xFFFF_FFFF,
        forall|i: int|
            0 <= i < fields.len() ==> encode_utf8((#[trigger] fields[i]).0).len() <= 0xFFFF_FFFF,
    ensures
        value_bytes(ValueView::Array(items)) == seq![0x0cu8] + big_endian(items.len(), 4)
            + bytes_of_each(items).flatten(),
        value_bytes(ValueView::SetOf(items)) == seq![0x0fu8] + big_endian(items.len(), 4)
            + bytes_of_each(items).flatten(),
        value_bytes(ValueView::Object(fields)) == seq![0x0du8] + big_endian(fields.len(), 4)
            + bytes_of_fields(fields).flatten(),
        value_bytes(ValueView::Range(Box::new(RangeView { start, end }))) == seq![0x0eu8]
            + bytes_of_bound(start) + bytes_of_bound(end),
{
    lemma_each_value_is_flat(items);
    lemma_each_field_is_flat(fields);
}

/// A position: the bits of the longitude in eight bytes, and then those of the latitude.
pub open spec fn bytes_of_position(position: Position) -> Seq<u8> {
    big_endian(position.longitude.bits as nat, 8) + big_endian(position.latitude.bits as nat, 8)
}

/// A run of positions: how many they are, and each of them in turn.
pub open spec fn bytes_of_run(run: Seq<Position>) -> Seq<u8> {
    big_endian(run.len(), 4) + run.map_values(
        |position: Position| bytes_of_position(position),
    ).flatten()
}

/// Runs of positions: how many they are, and each of them in turn.
pub open spec fn bytes_of_runs(runs: Seq<Seq<Position>>) -> Seq<u8> {
    big_endian(runs.len(), 4) + runs.map_values(|run: Seq<Position>| bytes_of_run(run)).flatten()
}

/// A polygon: the boundary, and then the holes.
pub open spec fn bytes_of_polygon(polygon: PolygonView) -> Seq<u8> {
    bytes_of_run(polygon.exterior) + bytes_of_runs(polygon.interiors)
}

proof fn lemma_run_is_flat(run: Seq<Position>)
    ensures
        each_position(run) == run.map_values(
            |position: Position| bytes_of_position(position),
        ).flatten(),
    decreases run.len(),
{
    if run.len() > 0 {
        let parts = |items: Seq<Position>|
            items.map_values(|position: Position| bytes_of_position(position));
        lemma_run_is_flat(run.drop_first());
        assert(parts(run).drop_first() =~= parts(run.drop_first()));
    }
}

/// Whether four bytes hold the length of every run.
pub open spec fn runs_are_short(runs: Seq<Seq<Position>>) -> bool {
    runs.len() <= 0xFFFF_FFFF && forall|i: int|
        0 <= i < runs.len() ==> (#[trigger] runs[i]).len() <= 0xFFFF_FFFF
}

proof fn lemma_runs_are_flat(runs: Seq<Seq<Position>>)
    requires
        runs_are_short(runs),
    ensures
        each_run(runs) == runs.map_values(|run: Seq<Position>| bytes_of_run(run)).flatten(),
    decreases runs.len(),
{
    if runs.len() > 0 {
        let parts = |items: Seq<Seq<Position>>|
            items.map_values(|run: Seq<Position>| bytes_of_run(run));
        let fewer = runs.drop_first();
        assert forall|i: int| 0 <= i < fewer.len() implies (#[trigger] fewer[i]).len()
            <= 0xFFFF_FFFF by {
            assert(fewer[i] == runs[i + 1]);
        }
        lemma_runs_are_flat(fewer);
        assert(runs[0].len() <= 0xFFFF_FFFF);
        lemma_run_is_flat(runs[0]);
        assert(parts(runs).drop_first() =~= parts(fewer));
    }
}

/// Whether four bytes hold every length in a polygon.
pub open spec fn polygon_is_short(polygon: PolygonView) -> bool {
    polygon.exterior.len() <= 0xFFFF_FFFF && runs_are_short(polygon.interiors)
}

proof fn lemma_polygon_is_flat(polygon: PolygonView)
    requires
        polygon_is_short(polygon),
    ensures
        polygon_bytes(polygon) == bytes_of_polygon(polygon),
{
    lemma_run_is_flat(polygon.exterior);
    lemma_runs_are_flat(polygon.interiors);
    assert(polygon_bytes(polygon) =~= bytes_of_polygon(polygon));
}

proof fn lemma_polygons_are_flat(polygons: Seq<PolygonView>)
    requires
        forall|i: int| 0 <= i < polygons.len() ==> polygon_is_short(#[trigger] polygons[i]),
    ensures
        each_polygon(polygons) == polygons.map_values(
            |polygon: PolygonView| bytes_of_polygon(polygon),
        ).flatten(),
    decreases polygons.len(),
{
    if polygons.len() > 0 {
        let parts = |items: Seq<PolygonView>|
            items.map_values(|polygon: PolygonView| bytes_of_polygon(polygon));
        let fewer = polygons.drop_first();
        assert forall|i: int| 0 <= i < fewer.len() implies polygon_is_short(
            #[trigger] fewer[i],
        ) by {
            assert(fewer[i] == polygons[i + 1]);
        }
        lemma_polygons_are_flat(fewer);
        assert(polygon_is_short(polygons[0]));
        lemma_polygon_is_flat(polygons[0]);
        assert(parts(polygons).drop_first() =~= parts(fewer));
    }
}

proof fn lemma_shapes_are_flat(shapes: Seq<GeometryView>)
    ensures
        each_shape(shapes) == shapes.map_values(
            |shape: GeometryView| geometry_bytes(shape),
        ).flatten(),
    decreases shapes.len(),
{
    if shapes.len() > 0 {
        let parts = |items: Seq<GeometryView>|
            items.map_values(|shape: GeometryView| geometry_bytes(shape));
        lemma_shapes_are_flat(shapes.drop_first());
        assert(parts(shapes).drop_first() =~= parts(shapes.drop_first()));
    }
}

/// A shape is its kind and then its positions, longitude before latitude, each run behind how many
/// it holds; a polygon's boundary stands before its holes, and a collection holds whole shapes.
pub proof fn law_shapes_are_laid_out(
    position: Position,
    run: Seq<Position>,
    runs: Seq<Seq<Position>>,
    polygon: PolygonView,
    polygons: Seq<PolygonView>,
    shapes: Seq<GeometryView>,
)
    requires
        run.len() <= 0xFFFF_FFFF,
        runs_are_short(runs),
        polygon_is_short(polygon),
        polygons.len() <= 0xFFFF_FFFF,
        forall|i: int| 0 <= i < polygons.len() ==> polygon_is_short(#[trigger] polygons[i]),
        shapes.len() <= 0xFFFF_FFFF,
    ensures
        forall|shape: GeometryView| #[trigger]
            value_bytes(ValueView::Geometry(shape)) == seq![0x10u8] + geometry_bytes(shape),
        geometry_bytes(GeometryView::Point(position)) == seq![0x01u8] + bytes_of_position(position),
        geometry_bytes(GeometryView::Line(run)) == seq![0x02u8] + bytes_of_run(run),
        geometry_bytes(GeometryView::Polygon(polygon)) == seq![0x03u8] + bytes_of_polygon(polygon),
        geometry_bytes(GeometryView::MultiPoint(run)) == seq![0x04u8] + bytes_of_run(run),
        geometry_bytes(GeometryView::MultiLine(runs)) == seq![0x05u8] + bytes_of_runs(runs),
        geometry_bytes(GeometryView::MultiPolygon(polygons)) == seq![0x06u8] + big_endian(
            polygons.len(),
            4,
        ) + polygons.map_values(|polygon: PolygonView| bytes_of_polygon(polygon)).flatten(),
        geometry_bytes(GeometryView::Collection(shapes)) == seq![0x07u8] + big_endian(
            shapes.len(),
            4,
        ) + shapes.map_values(|shape: GeometryView| geometry_bytes(shape)).flatten(),
{
    lemma_run_is_flat(run);
    lemma_runs_are_flat(runs);
    lemma_polygon_is_flat(polygon);
    lemma_polygons_are_flat(polygons);
    lemma_shapes_are_flat(shapes);
    assert(geometry_bytes(GeometryView::MultiLine(runs)) =~= seq![0x05u8] + bytes_of_runs(runs));
}

/// The seconds that eight bytes tell: their distance from the least there are.
pub open spec fn seconds_in(bytes: Seq<u8>) -> int {
    magnitude(bytes.take(8)) - 0x8000_0000_0000_0000
}

/// The nanoseconds that the four bytes after those tell.
pub open spec fn nanos_in(bytes: Seq<u8>) -> nat {
    magnitude(bytes.skip(8))
}

/// Twelve bytes after the tag of a point in time are read as a point in time, and after the tag of
/// a span as a span, wherever the nanoseconds are under a second; where they are not, that is the
/// fault.
pub proof fn law_times_are_read_by_their_tag(bytes: Seq<u8>)
    requires
        bytes.len() == 12,
    ensures
        nanos_in(bytes) < 1_000_000_000 ==> whole_value(seq![0x08u8] + bytes) == Ok::<
            ValueView,
            EncodingFault,
        >(
            ValueView::Datetime {
                seconds: seconds_in(bytes) as i64,
                nanos: nanos_in(bytes) as u32,
            },
        ),
        nanos_in(bytes) < 1_000_000_000 ==> whole_value(seq![0x07u8] + bytes) == Ok::<
            ValueView,
            EncodingFault,
        >(
            ValueView::Duration {
                seconds: seconds_in(bytes) as i64,
                nanos: nanos_in(bytes) as u32,
            },
        ),
        nanos_in(bytes) >= 1_000_000_000 ==> whole_value(seq![0x08u8] + bytes) == Err::<
            ValueView,
            EncodingFault,
        >(EncodingFault::InvalidSubSecond { nanos: nanos_in(bytes) as u32 }),
        nanos_in(bytes) >= 1_000_000_000 ==> whole_value(seq![0x07u8] + bytes) == Err::<
            ValueView,
            EncodingFault,
        >(EncodingFault::InvalidSubSecond { nanos: nanos_in(bytes) as u32 }),
        i64::MIN <= seconds_in(bytes) <= i64::MAX,
        nanos_in(bytes) <= u32::MAX,
{
    let point = seq![0x08u8] + bytes;
    let span = seq![0x07u8] + bytes;
    assert(point.drop_first() =~= bytes);
    assert(span.drop_first() =~= bytes);
    lemma_spans();
    lemma_magnitude_fits(bytes.take(8));
    lemma_magnitude_fits(bytes.skip(8));
    assert(bytes.skip(8).take(4) =~= bytes.skip(8));
    assert(bytes.skip(8).skip(4) =~= Seq::empty());
}

/// Any byte after the tag of a boolean is a boolean, and only a zero is false.
pub proof fn law_booleans_are_read_of_any_byte(byte: u8)
    ensures
        whole_value(seq![0x03u8, byte]) == Ok::<ValueView, EncodingFault>(
            ValueView::Bool(byte != 0),
        ),
{
    let bytes = seq![0x03u8, byte];
    assert(bytes.drop_first() =~= seq![byte]);
    assert(bytes.drop_first().drop_first() =~= Seq::empty());
}

/// Bytes where text is due are that text where they are UTF-8, and a fault that says so where they
/// are not: in a text, in a pattern and in an identity.
pub proof fn law_text_is_what_the_bytes_spell(bytes: Seq<u8>)
    requires
        bytes.len() <= 0xFFFF_FFFF,
    ensures
        whole_value(seq![0x05u8] + measured(bytes)) == (if valid_utf8(bytes) {
            Ok::<ValueView, EncodingFault>(ValueView::String(decode_utf8(bytes)))
        } else {
            Err(EncodingFault::InvalidUtf8)
        }),
        whole_value(seq![0x11u8] + measured(bytes)) == (if valid_utf8(bytes) {
            Ok::<ValueView, EncodingFault>(ValueView::Regex(decode_utf8(bytes)))
        } else {
            Err(EncodingFault::InvalidUtf8)
        }),
        take_record_id(seq![0x02u8] + terminated(bytes)) == (if valid_utf8(bytes) {
            Ok::<(RecordIdView, Seq<u8>), EncodingFault>(
                (RecordIdView::Text(decode_utf8(bytes)), Seq::empty()),
            )
        } else {
            Err(EncodingFault::InvalidUtf8)
        }),
{
    let text = seq![0x05u8] + measured(bytes);
    let pattern = seq![0x11u8] + measured(bytes);
    let id = seq![0x02u8] + terminated(bytes);
    assert(text.drop_first() =~= measured(bytes));
    assert(pattern.drop_first() =~= measured(bytes));
    assert(id.drop_first() =~= terminated(bytes));
    crate::codec::laws::lemma_block(bytes, Seq::empty());
    assert(block(bytes) + Seq::empty() =~= measured(bytes));
    crate::codec::laws::law_escaped_blocks_are_read_back(bytes, Seq::empty());
    assert(terminated(bytes) + Seq::empty() =~= terminated(bytes));
}

/// After a zero in an escaped block only `01` and `FF` may stand, and a block that ends before it
/// is terminated is a fault of its own.
pub proof fn law_wrong_escapes_are_named(found: u8, rest: Seq<u8>)
    ensures
        found != 0x01 && found != 0xFF ==> take_terminated(seq![0x00u8, found] + rest) == Err::<
            (Seq<u8>, Seq<u8>),
            EncodingFault,
        >(EncodingFault::InvalidEscape { found }),
        take_terminated(Seq::empty()) == Err::<(Seq<u8>, Seq<u8>), EncodingFault>(
            EncodingFault::Unterminated,
        ),
        take_terminated(seq![0x00u8]) == Err::<(Seq<u8>, Seq<u8>), EncodingFault>(
            EncodingFault::Unterminated,
        ),
{
    let bytes = seq![0x00u8, found] + rest;
    assert(bytes[0] == 0 && bytes[1] == found);
}

/// So many arrays, each in the one before it and nothing in the last.
pub open spec fn nested(levels: nat) -> ValueView
    decreases levels,
{
    if levels == 0 {
        ValueView::Array(Seq::empty())
    } else {
        ValueView::Array(seq![nested((levels - 1) as nat)])
    }
}

proof fn lemma_nested(levels: nat, depth: nat)
    ensures
        is_sound(nested(levels)),
        is_shallow(nested(levels), depth) <==> levels + depth <= 128,
    decreases levels,
{
    if levels > 0 {
        let inner = nested((levels - 1) as nat);
        let items = seq![inner];
        lemma_nested((levels - 1) as nat, depth + 1);
        assert(items[0] == inner);
        assert(crate::codec::laws::values_are_sound(items));
        assert(crate::codec::laws::values_are_shallow(items, depth + 1) <==> is_shallow(
            inner,
            depth + 1,
        ));
    } else {
        assert(crate::codec::laws::values_are_sound(Seq::empty()));
        assert(crate::codec::laws::values_are_shallow(Seq::empty(), depth + 1));
    }
}

/// A value may stand 128 levels down and no further: so many arrays in one another are read, and
/// with one more they are refused.
pub proof fn law_nesting_ends_at_the_limit(levels: nat)
    ensures
        whole_value(value_bytes(nested(levels))) == (if levels <= 128 {
            Ok::<ValueView, EncodingFault>(nested(levels))
        } else {
            Err(EncodingFault::Truncated)
        }),
{
    lemma_nested(levels, 0);
    if levels <= 128 {
        crate::codec::laws::law_round_trip(nested(levels));
    } else {
        crate::codec::laws::law_deep_values_are_refused(nested(levels));
    }
}

proof fn lemma_fields_are_read(given: Seq<(Seq<char>, ValueView)>, rest: Seq<u8>)
    requires
        forall|i: int|
            0 <= i < given.len() ==> encode_utf8((#[trigger] given[i]).0).len() <= 0xFFFF_FFFF
                && is_sound(given[i].1) && is_shallow(given[i].1, 1),
    ensures
        take_each_field(bytes_of_fields(given).flatten() + rest, given.len(), 1) == Ok::<
            (Seq<(Seq<char>, ValueView)>, Seq<u8>),
            EncodingFault,
        >((given, rest)),
    decreases given.len(),
{
    let bytes = bytes_of_fields(given).flatten() + rest;
    if given.len() == 0 {
        assert(bytes =~= rest);
        assert(given =~= Seq::empty());
    } else {
        let fewer = given.drop_first();
        let first = given[0];
        assert forall|i: int| 0 <= i < fewer.len() implies encode_utf8((#[trigger] fewer[i]).0).len()
            <= 0xFFFF_FFFF && is_sound(fewer[i].1) && is_shallow(fewer[i].1, 1) by {
            assert(fewer[i] == given[i + 1]);
        }
        lemma_fields_are_read(fewer, rest);
        let after = bytes_of_fields(fewer).flatten() + rest;
        assert(bytes_of_fields(given).drop_first() =~= bytes_of_fields(fewer));
        assert(encode_utf8(first.0).len() <= 0xFFFF_FFFF);
        assert(bytes =~= block(encode_utf8(first.0)) + (value_bytes(first.1) + after));
        lemma_text(first.0, value_bytes(first.1) + after);
        lemma_value_is_read(first.1, after, 1);
        assert(seq![first] + fewer =~= given);
    }
}

/// An object is read whatever order its fields arrive in and however often a name does: its names
/// are held in order, each once, and under each the value that arrived last.
pub proof fn law_objects_are_read_in_any_order(given: Seq<(Seq<char>, ValueView)>)
    requires
        given.len() <= 0xFFFF_FFFF,
        forall|i: int|
            0 <= i < given.len() ==> encode_utf8((#[trigger] given[i]).0).len() <= 0xFFFF_FFFF
                && is_sound(given[i].1) && is_shallow(given[i].1, 1),
    ensures
        whole_value(seq![0x0du8] + big_endian(given.len(), 4) + bytes_of_fields(given).flatten())
            matches Ok(ValueView::Object(held)) && (forall|i: int, j: int|
            0 <= i < j < held.len() ==> text_before(
                (#[trigger] held[i]).0,
                (#[trigger] held[j]).0,
            )) && (forall|i: int|
            0 <= i < held.len() ==> given_last(given, (#[trigger] held[i]).0) == Some(held[i].1))
            && (forall|at: int|
            0 <= at < given.len() ==> exists|i: int|
                0 <= i < held.len() && (#[trigger] held[i]).0 == (#[trigger] given[at]).0),
{
    let items = bytes_of_fields(given).flatten();
    let counted = big_endian(given.len(), 4) + items;
    let bytes = seq![0x0du8] + big_endian(given.len(), 4) + items;
    assert(bytes.drop_first() =~= counted);
    lemma_u32(given.len(), items);
    lemma_fields_are_read(given, Seq::empty());
    assert(items + Seq::empty() =~= items);
    let held = with_fields(Seq::empty(), given);
    law_the_last_value_given_is_held(given, 0);
    assert forall|i: int| 0 <= i < held.len() implies given_last(given, (#[trigger] held[i]).0)
        == Some(held[i].1) by {
        law_the_last_value_given_is_held(given, i);
    }
    assert forall|at: int| 0 <= at < given.len() implies exists|i: int|
        0 <= i < held.len() && (#[trigger] held[i]).0 == (#[trigger] given[at]).0 by {
        law_the_last_value_given_is_held(given, at);
    }
}

/// A count is written in four bytes, and one that they do not hold as the largest that they do.
pub proof fn law_counts_stop_at_the_largest(len: nat)
    ensures
        len <= 0xFFFF_FFFF ==> count(len) == len,
        len > 0xFFFF_FFFF ==> count(len) == 0xFFFF_FFFF,
        plain32(len) == big_endian(len, 4),
{
}

}
