//! Whatever was decoded can be written down again, and is read back as the same value.

use vstd::prelude::*;
use vstd::utf8::encode_utf8;

use crate::codec::MAX_DEPTH;
use crate::codec::laws::{
    bound_is_shallow, bound_is_sound, counts, fields_are_shallow, fields_are_sound, is_shallow,
    is_sound, law_round_trip, polygon_counts, polygons_count, runs_count, shape_is_shallow,
    shape_is_sound, shapes_are_shallow, shapes_are_sound, values_are_shallow, values_are_sound,
};
use crate::codec::layout::value_bytes;
use crate::codec::parse::{
    take_block, take_bound, take_byte, take_each_field, take_each_polygon, take_each_position,
    take_each_run, take_each_shape, take_each_value, take_fields, take_flat, take_geometry,
    take_polygon, take_polygons, take_positions, take_runs, take_text, take_u32, take_value,
    take_values, whole_value,
};
use crate::error::EncodingFault;
use crate::fields::{lemma_with_field, ordered, with_field, with_fields};
use crate::text::lemma_decoded_bytes;
use crate::value::ValueView;

verus! {

proof fn lemma_text_counts(bytes: Seq<u8>)
    ensures
        take_text(bytes) matches Ok((text, _)) ==> counts(encode_utf8(text).len()),
{
    if let Ok((taken, _)) = take_block(bytes) {
        if take_text(bytes) is Ok {
            lemma_decoded_bytes(taken);
        }
    }
}

proof fn lemma_each_position_len(bytes: Seq<u8>, count: nat)
    ensures
        take_each_position(bytes, count) matches Ok((positions, _)) ==> positions.len() == count,
    decreases count,
{
    if count > 0 {
        if let Ok((_, rest)) = crate::codec::parse::take_position(bytes) {
            lemma_each_position_len(rest, (count - 1) as nat);
        }
    }
}

proof fn lemma_positions_count(bytes: Seq<u8>)
    ensures
        take_positions(bytes) matches Ok((positions, _)) ==> counts(positions.len()),
{
    if let Ok((count, rest)) = take_u32(bytes) {
        lemma_each_position_len(rest, count as nat);
    }
}

proof fn lemma_each_run_counts(bytes: Seq<u8>, count: nat)
    ensures
        take_each_run(bytes, count) matches Ok((runs, _)) ==> runs.len() == count && forall|i: int|
            0 <= i < runs.len() ==> counts((#[trigger] runs[i]).len()),
    decreases count,
{
    if count > 0 {
        lemma_positions_count(bytes);
        if let Ok((_, rest)) = take_positions(bytes) {
            lemma_each_run_counts(rest, (count - 1) as nat);
        }
    }
}

proof fn lemma_runs_count(bytes: Seq<u8>)
    ensures
        take_runs(bytes) matches Ok((runs, _)) ==> runs_count(runs),
{
    if let Ok((count, rest)) = take_u32(bytes) {
        lemma_each_run_counts(rest, count as nat);
    }
}

proof fn lemma_polygon_counts(bytes: Seq<u8>)
    ensures
        take_polygon(bytes) matches Ok((polygon, _)) ==> polygon_counts(polygon),
{
    lemma_positions_count(bytes);
    if let Ok((_, rest)) = take_positions(bytes) {
        lemma_runs_count(rest);
    }
}

proof fn lemma_each_polygon_counts(bytes: Seq<u8>, count: nat)
    ensures
        take_each_polygon(bytes, count) matches Ok((polygons, _)) ==> polygons.len() == count
            && forall|i: int| 0 <= i < polygons.len() ==> polygon_counts(#[trigger] polygons[i]),
    decreases count,
{
    if count > 0 {
        lemma_polygon_counts(bytes);
        if let Ok((_, rest)) = take_polygon(bytes) {
            lemma_each_polygon_counts(rest, (count - 1) as nat);
        }
    }
}

proof fn lemma_polygons_count(bytes: Seq<u8>)
    ensures
        take_polygons(bytes) matches Ok((polygons, _)) ==> polygons_count(polygons),
{
    if let Ok((count, rest)) = take_u32(bytes) {
        lemma_each_polygon_counts(rest, count as nat);
    }
}

proof fn lemma_geometry_is_sound(bytes: Seq<u8>, depth: nat)
    ensures
        take_geometry(bytes, depth) matches Ok((shape, _)) ==> shape_is_sound(shape)
            && shape_is_shallow(shape, depth),
    decreases MAX_DEPTH + 1 - depth, 0nat,
{
    if depth <= MAX_DEPTH {
        if let Ok((_, rest)) = take_byte(bytes) {
            lemma_positions_count(rest);
            lemma_polygon_counts(rest);
            lemma_runs_count(rest);
            lemma_polygons_count(rest);
            if let Ok((count, after)) = take_u32(rest) {
                lemma_each_shape_is_sound(after, count as nat, depth + 1);
            }
        }
    }
}

proof fn lemma_each_shape_is_sound(bytes: Seq<u8>, count: nat, depth: nat)
    requires
        counts(count),
    ensures
        take_each_shape(bytes, count, depth) matches Ok((shapes, _)) ==> shapes.len() == count
            && shapes_are_sound(shapes) && shapes_are_shallow(shapes, depth),
    decreases MAX_DEPTH + 1 - depth, count + 1,
{
    if count > 0 {
        lemma_geometry_is_sound(bytes, depth);
        if let Ok((shape, rest)) = take_geometry(bytes, depth) {
            lemma_each_shape_is_sound(rest, (count - 1) as nat, depth);
            if let Ok((tail, _)) = take_each_shape(rest, (count - 1) as nat, depth) {
                let shapes = seq![shape] + tail;
                assert forall|i: int| 0 <= i < shapes.len() implies shape_is_sound(
                    #[trigger] shapes[i],
                ) && shape_is_shallow(shapes[i], depth) by {
                    if i > 0 {
                        assert(shapes[i] == tail[i - 1]);
                    }
                }
                assert(shapes_are_sound(shapes));
                assert(shapes_are_shallow(shapes, depth));
            }
        }
    }
}

proof fn lemma_flat_is_sound(tag: u8, bytes: Seq<u8>)
    ensures
        take_flat(tag, bytes) matches Ok((value, _)) ==> is_sound(value) && forall|depth: nat|
            depth <= MAX_DEPTH ==> #[trigger] is_shallow(value, depth),
{
    lemma_text_counts(bytes);
}

/// Whether a named value can be written down and nests no deeper than the limit.
spec fn field_fits(field: (Seq<char>, ValueView), depth: nat) -> bool {
    counts(encode_utf8(field.0).len()) && is_sound(field.1) && is_shallow(field.1, depth)
}

proof fn lemma_with_field_fits(
    fields: Seq<(Seq<char>, ValueView)>,
    field: (Seq<char>, ValueView),
    depth: nat,
)
    requires
        field_fits(field, depth),
        forall|i: int| 0 <= i < fields.len() ==> field_fits(#[trigger] fields[i], depth),
    ensures
        with_field(fields, field.0, field.1).len() <= fields.len() + 1,
        forall|i: int|
            0 <= i < with_field(fields, field.0, field.1).len() ==> field_fits(
                #[trigger] with_field(fields, field.0, field.1)[i],
                depth,
            ),
    decreases fields.len(),
{
    if fields.len() > 0 {
        let fewer = fields.drop_last();
        assert forall|i: int| 0 <= i < fewer.len() implies field_fits(
            #[trigger] fewer[i],
            depth,
        ) by {
            assert(fewer[i] == fields[i]);
        }
        lemma_with_field_fits(fewer, field, depth);
    }
}

proof fn lemma_with_fields_fit(
    fields: Seq<(Seq<char>, ValueView)>,
    more: Seq<(Seq<char>, ValueView)>,
    depth: nat,
)
    requires
        ordered(fields),
        forall|i: int| 0 <= i < fields.len() ==> field_fits(#[trigger] fields[i], depth),
        forall|i: int| 0 <= i < more.len() ==> field_fits(#[trigger] more[i], depth),
    ensures
        ordered(with_fields(fields, more)),
        with_fields(fields, more).len() <= fields.len() + more.len(),
        forall|i: int|
            0 <= i < with_fields(fields, more).len() ==> field_fits(
                #[trigger] with_fields(fields, more)[i],
                depth,
            ),
    decreases more.len(),
{
    if more.len() > 0 {
        lemma_with_field(fields, more[0].0, more[0].1);
        lemma_with_field_fits(fields, more[0], depth);
        let tail = more.drop_first();
        assert forall|i: int| 0 <= i < tail.len() implies field_fits(#[trigger] tail[i], depth) by {
            assert(tail[i] == more[i + 1]);
        }
        lemma_with_fields_fit(with_field(fields, more[0].0, more[0].1), tail, depth);
    }
}

/// Whatever was read can be written down, and nests no deeper than the limit.
pub proof fn lemma_value_is_sound(bytes: Seq<u8>, depth: nat)
    ensures
        take_value(bytes, depth) matches Ok((value, _)) ==> is_sound(value) && is_shallow(
            value,
            depth,
        ),
    decreases MAX_DEPTH + 1 - depth, 0nat,
{
    if depth <= MAX_DEPTH {
        if let Ok((tag, rest)) = take_byte(bytes) {
            lemma_flat_is_sound(tag, rest);
            lemma_values_are_sound(rest, depth + 1);
            lemma_fields_are_sound(rest, depth + 1);
            lemma_geometry_is_sound(rest, depth + 1);
            lemma_bound_is_sound(rest, depth + 1);
            if let Ok((_, after)) = take_bound(rest, depth + 1) {
                lemma_bound_is_sound(after, depth + 1);
            }
        }
    }
}

proof fn lemma_bound_is_sound(bytes: Seq<u8>, depth: nat)
    ensures
        take_bound(bytes, depth) matches Ok((bound, _)) ==> bound_is_sound(bound)
            && bound_is_shallow(bound, depth),
    decreases MAX_DEPTH + 1 - depth, 1nat,
{
    if let Ok((_, rest)) = take_byte(bytes) {
        lemma_value_is_sound(rest, depth);
    }
}

proof fn lemma_values_are_sound(bytes: Seq<u8>, depth: nat)
    ensures
        take_values(bytes, depth) matches Ok((items, _)) ==> values_are_sound(items)
            && values_are_shallow(items, depth),
    decreases MAX_DEPTH + 1 - depth, 0x1_0000_0001nat,
{
    if let Ok((count, rest)) = take_u32(bytes) {
        lemma_each_value_is_sound(rest, count as nat, depth);
    }
}

proof fn lemma_each_value_is_sound(bytes: Seq<u8>, count: nat, depth: nat)
    requires
        counts(count),
    ensures
        take_each_value(bytes, count, depth) matches Ok((items, _)) ==> items.len() == count
            && values_are_sound(items) && values_are_shallow(items, depth),
    decreases MAX_DEPTH + 1 - depth, count + 1,
{
    if count > 0 {
        lemma_value_is_sound(bytes, depth);
        if let Ok((value, rest)) = take_value(bytes, depth) {
            lemma_each_value_is_sound(rest, (count - 1) as nat, depth);
            if let Ok((tail, _)) = take_each_value(rest, (count - 1) as nat, depth) {
                let items = seq![value] + tail;
                assert forall|i: int| 0 <= i < items.len() implies is_sound(#[trigger] items[i])
                    && is_shallow(items[i], depth) by {
                    if i > 0 {
                        assert(items[i] == tail[i - 1]);
                    }
                }
                assert(values_are_sound(items));
                assert(values_are_shallow(items, depth));
            }
        }
    }
}

proof fn lemma_fields_are_sound(bytes: Seq<u8>, depth: nat)
    ensures
        take_fields(bytes, depth) matches Ok((fields, _)) ==> fields_are_sound(fields)
            && fields_are_shallow(fields, depth),
    decreases MAX_DEPTH + 1 - depth, 0x1_0000_0001nat,
{
    if let Ok((count, rest)) = take_u32(bytes) {
        lemma_each_field_fits(rest, count as nat, depth);
        if let Ok((listed, _)) = take_each_field(rest, count as nat, depth) {
            let fields = with_fields(Seq::empty(), listed);
            lemma_with_fields_fit(Seq::empty(), listed, depth);
            assert forall|i: int| 0 <= i < fields.len() implies counts(
                encode_utf8((#[trigger] fields[i]).0).len(),
            ) && is_sound(fields[i].1) && is_shallow(fields[i].1, depth) by {
                assert(field_fits(fields[i], depth));
            }
            assert(fields_are_sound(fields));
            assert(fields_are_shallow(fields, depth));
        }
    }
}

proof fn lemma_each_field_fits(bytes: Seq<u8>, count: nat, depth: nat)
    ensures
        take_each_field(bytes, count, depth) matches Ok((fields, _)) ==> fields.len() == count
            && forall|i: int| 0 <= i < fields.len() ==> field_fits(#[trigger] fields[i], depth),
    decreases MAX_DEPTH + 1 - depth, count + 1,
{
    if count > 0 {
        lemma_text_counts(bytes);
        if let Ok((name, rest)) = take_text(bytes) {
            lemma_value_is_sound(rest, depth);
            if let Ok((value, after)) = take_value(rest, depth) {
                lemma_each_field_fits(after, (count - 1) as nat, depth);
                if let Ok((tail, _)) = take_each_field(after, (count - 1) as nat, depth) {
                    let fields = seq![(name, value)] + tail;
                    assert forall|i: int| 0 <= i < fields.len() implies field_fits(
                        #[trigger] fields[i],
                        depth,
                    ) by {
                        if i > 0 {
                            assert(fields[i] == tail[i - 1]);
                        }
                    }
                }
            }
        }
    }
}

/// Whatever bytes a value was decoded from, writing the value down gives bytes that decode to it
/// again.
pub proof fn law_decoded_values_survive(bytes: Seq<u8>)
    ensures
        whole_value(bytes) matches Ok(value) ==> whole_value(value_bytes(value)) == Ok::<
            ValueView,
            EncodingFault,
        >(value),
{
    lemma_value_is_sound(bytes, 0);
    if let Ok(value) = whole_value(bytes) {
        law_round_trip(value);
    }
}

}
