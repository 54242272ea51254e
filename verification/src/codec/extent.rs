//! The bytes of a value say where it ends: what follows them changes nothing, and without the
//! last of them there is no value.

use vstd::prelude::*;

use crate::codec::{ESCAPE, MAX_DEPTH};
use crate::codec::laws::{is_shallow, is_sound, law_round_trip};
use crate::codec::layout::value_bytes;
use crate::codec::parse::{
    fails, take, take_block, take_bound, take_byte, take_double, take_each_field, take_each_polygon,
    take_each_position, take_each_run, take_each_shape, take_each_value, take_fields, take_flat,
    take_geometry, take_i64, take_number, take_polygon, take_polygons, take_position,
    take_positions, take_record_id, take_record_ref, take_runs, take_terminated, take_text,
    take_time, take_u32, take_value, take_values, whole_value, yields, Parsed,
};
use crate::error::EncodingFault;
use crate::value::ValueView;

verus! {

/// Whether a fault says that the bytes ended too soon.
pub open spec fn is_running_out(fault: EncodingFault) -> bool {
    fault == EncodingFault::Truncated || fault == EncodingFault::Unterminated
}

/// Whether what was read is read again, with `more` after what followed it, and a fault that is
/// not about where the bytes end is found again.
pub open spec fn carries_over<T>(parsed: Parsed<T>, longer: Parsed<T>, more: Seq<u8>) -> bool {
    match parsed {
        Ok((value, rest)) => yields(longer, value, rest + more),
        Err(fault) => is_running_out(fault) || fails(longer, fault),
    }
}

pub proof fn lemma_take_carries_over(bytes: Seq<u8>, len: nat, more: Seq<u8>)
    ensures
        carries_over(take(bytes, len), take(bytes + more, len), more),
{
    if bytes.len() >= len {
        assert((bytes + more).take(len as int) =~= bytes.take(len as int));
        assert((bytes + more).skip(len as int) =~= bytes.skip(len as int) + more);
    }
}

pub proof fn lemma_byte_carries_over(bytes: Seq<u8>, more: Seq<u8>)
    ensures
        carries_over(take_byte(bytes), take_byte(bytes + more), more),
{
    if bytes.len() > 0 {
        assert((bytes + more).drop_first() =~= bytes.drop_first() + more);
    }
}

pub proof fn lemma_u32_carries_over(bytes: Seq<u8>, more: Seq<u8>)
    ensures
        carries_over(take_u32(bytes), take_u32(bytes + more), more),
{
    lemma_take_carries_over(bytes, 4, more);
}

proof fn lemma_i64_carries_over(bytes: Seq<u8>, more: Seq<u8>)
    ensures
        carries_over(take_i64(bytes), take_i64(bytes + more), more),
{
    lemma_take_carries_over(bytes, 8, more);
}

proof fn lemma_double_carries_over(bytes: Seq<u8>, more: Seq<u8>)
    ensures
        carries_over(take_double(bytes), take_double(bytes + more), more),
{
    lemma_take_carries_over(bytes, 8, more);
}

pub proof fn lemma_block_carries_over(bytes: Seq<u8>, more: Seq<u8>)
    ensures
        carries_over(take_block(bytes), take_block(bytes + more), more),
{
    lemma_u32_carries_over(bytes, more);
    if let Ok((len, rest)) = take_u32(bytes) {
        lemma_take_carries_over(rest, len as nat, more);
    }
}

pub proof fn lemma_text_carries_over(bytes: Seq<u8>, more: Seq<u8>)
    ensures
        carries_over(take_text(bytes), take_text(bytes + more), more),
{
    lemma_block_carries_over(bytes, more);
}

proof fn lemma_terminated_carries_over(bytes: Seq<u8>, more: Seq<u8>)
    ensures
        carries_over(take_terminated(bytes), take_terminated(bytes + more), more),
    decreases bytes.len(),
{
    if bytes.len() > 0 {
        assert((bytes + more).drop_first() =~= bytes.drop_first() + more);
        if bytes[0] != ESCAPE {
            lemma_terminated_carries_over(bytes.drop_first(), more);
        } else if bytes.len() > 1 {
            assert((bytes + more).skip(2) =~= bytes.skip(2) + more);
            lemma_terminated_carries_over(bytes.skip(2), more);
        }
    }
}

proof fn lemma_time_carries_over(bytes: Seq<u8>, more: Seq<u8>)
    ensures
        carries_over(take_time(bytes), take_time(bytes + more), more),
{
    lemma_i64_carries_over(bytes, more);
    if let Ok((_, rest)) = take_i64(bytes) {
        lemma_u32_carries_over(rest, more);
    }
}

proof fn lemma_number_carries_over(bytes: Seq<u8>, more: Seq<u8>)
    ensures
        carries_over(take_number(bytes), take_number(bytes + more), more),
{
    lemma_byte_carries_over(bytes, more);
    if let Ok((_, rest)) = take_byte(bytes) {
        lemma_i64_carries_over(rest, more);
        lemma_double_carries_over(rest, more);
        lemma_take_carries_over(rest, 16, more);
        if let Ok((_, after)) = take(rest, 16) {
            lemma_u32_carries_over(after, more);
        }
    }
}

pub proof fn lemma_record_id_carries_over(bytes: Seq<u8>, more: Seq<u8>)
    ensures
        carries_over(take_record_id(bytes), take_record_id(bytes + more), more),
{
    lemma_byte_carries_over(bytes, more);
    if let Ok((_, rest)) = take_byte(bytes) {
        lemma_i64_carries_over(rest, more);
        lemma_terminated_carries_over(rest, more);
        lemma_take_carries_over(rest, 16, more);
    }
}

proof fn lemma_record_ref_carries_over(bytes: Seq<u8>, more: Seq<u8>)
    ensures
        carries_over(take_record_ref(bytes), take_record_ref(bytes + more), more),
{
    lemma_u32_carries_over(bytes, more);
    if let Ok((_, rest)) = take_u32(bytes) {
        lemma_record_id_carries_over(rest, more);
    }
}

proof fn lemma_position_carries_over(bytes: Seq<u8>, more: Seq<u8>)
    ensures
        carries_over(take_position(bytes), take_position(bytes + more), more),
{
    lemma_double_carries_over(bytes, more);
    if let Ok((_, rest)) = take_double(bytes) {
        lemma_double_carries_over(rest, more);
    }
}

proof fn lemma_each_position_carries_over(bytes: Seq<u8>, count: nat, more: Seq<u8>)
    ensures
        carries_over(
            take_each_position(bytes, count),
            take_each_position(bytes + more, count),
            more,
        ),
    decreases count,
{
    if count > 0 {
        lemma_position_carries_over(bytes, more);
        if let Ok((_, rest)) = take_position(bytes) {
            lemma_each_position_carries_over(rest, (count - 1) as nat, more);
        }
    }
}

proof fn lemma_positions_carries_over(bytes: Seq<u8>, more: Seq<u8>)
    ensures
        carries_over(take_positions(bytes), take_positions(bytes + more), more),
{
    lemma_u32_carries_over(bytes, more);
    if let Ok((count, rest)) = take_u32(bytes) {
        lemma_each_position_carries_over(rest, count as nat, more);
    }
}

proof fn lemma_each_run_carries_over(bytes: Seq<u8>, count: nat, more: Seq<u8>)
    ensures
        carries_over(take_each_run(bytes, count), take_each_run(bytes + more, count), more),
    decreases count,
{
    if count > 0 {
        lemma_positions_carries_over(bytes, more);
        if let Ok((_, rest)) = take_positions(bytes) {
            lemma_each_run_carries_over(rest, (count - 1) as nat, more);
        }
    }
}

proof fn lemma_runs_carries_over(bytes: Seq<u8>, more: Seq<u8>)
    ensures
        carries_over(take_runs(bytes), take_runs(bytes + more), more),
{
    lemma_u32_carries_over(bytes, more);
    if let Ok((count, rest)) = take_u32(bytes) {
        lemma_each_run_carries_over(rest, count as nat, more);
    }
}

proof fn lemma_polygon_carries_over(bytes: Seq<u8>, more: Seq<u8>)
    ensures
        carries_over(take_polygon(bytes), take_polygon(bytes + more), more),
{
    lemma_positions_carries_over(bytes, more);
    if let Ok((_, rest)) = take_positions(bytes) {
        lemma_runs_carries_over(rest, more);
    }
}

proof fn lemma_each_polygon_carries_over(bytes: Seq<u8>, count: nat, more: Seq<u8>)
    ensures
        carries_over(take_each_polygon(bytes, count), take_each_polygon(bytes + more, count), more),
    decreases count,
{
    if count > 0 {
        lemma_polygon_carries_over(bytes, more);
        if let Ok((_, rest)) = take_polygon(bytes) {
            lemma_each_polygon_carries_over(rest, (count - 1) as nat, more);
        }
    }
}

proof fn lemma_polygons_carries_over(bytes: Seq<u8>, more: Seq<u8>)
    ensures
        carries_over(take_polygons(bytes), take_polygons(bytes + more), more),
{
    lemma_u32_carries_over(bytes, more);
    if let Ok((count, rest)) = take_u32(bytes) {
        lemma_each_polygon_carries_over(rest, count as nat, more);
    }
}

proof fn lemma_geometry_carries_over(bytes: Seq<u8>, depth: nat, more: Seq<u8>)
    ensures
        carries_over(take_geometry(bytes, depth), take_geometry(bytes + more, depth), more),
    decreases MAX_DEPTH + 1 - depth, 0nat,
{
    if depth <= MAX_DEPTH {
        lemma_byte_carries_over(bytes, more);
        if let Ok((_, rest)) = take_byte(bytes) {
            lemma_position_carries_over(rest, more);
            lemma_positions_carries_over(rest, more);
            lemma_polygon_carries_over(rest, more);
            lemma_runs_carries_over(rest, more);
            lemma_polygons_carries_over(rest, more);
            lemma_u32_carries_over(rest, more);
            if let Ok((count, after)) = take_u32(rest) {
                lemma_each_shape_carries_over(after, count as nat, depth + 1, more);
            }
        }
    }
}

proof fn lemma_each_shape_carries_over(bytes: Seq<u8>, count: nat, depth: nat, more: Seq<u8>)
    ensures
        carries_over(
            take_each_shape(bytes, count, depth),
            take_each_shape(bytes + more, count, depth),
            more,
        ),
    decreases MAX_DEPTH + 1 - depth, count + 1,
{
    if count > 0 {
        lemma_geometry_carries_over(bytes, depth, more);
        if let Ok((_, rest)) = take_geometry(bytes, depth) {
            lemma_each_shape_carries_over(rest, (count - 1) as nat, depth, more);
        }
    }
}

proof fn lemma_flat_carries_over(tag: u8, bytes: Seq<u8>, more: Seq<u8>)
    ensures
        carries_over(take_flat(tag, bytes), take_flat(tag, bytes + more), more),
{
    lemma_byte_carries_over(bytes, more);
    lemma_number_carries_over(bytes, more);
    lemma_text_carries_over(bytes, more);
    lemma_block_carries_over(bytes, more);
    lemma_time_carries_over(bytes, more);
    lemma_take_carries_over(bytes, 16, more);
    lemma_u32_carries_over(bytes, more);
    lemma_record_ref_carries_over(bytes, more);
}

/// What follows a value changes nothing about it.
pub proof fn lemma_value_carries_over(bytes: Seq<u8>, depth: nat, more: Seq<u8>)
    ensures
        carries_over(take_value(bytes, depth), take_value(bytes + more, depth), more),
    decreases MAX_DEPTH + 1 - depth, 0nat,
{
    if depth <= MAX_DEPTH {
        lemma_byte_carries_over(bytes, more);
        if let Ok((tag, rest)) = take_byte(bytes) {
            lemma_flat_carries_over(tag, rest, more);
            lemma_values_carries_over(rest, depth + 1, more);
            lemma_fields_carries_over(rest, depth + 1, more);
            lemma_geometry_carries_over(rest, depth + 1, more);
            lemma_bound_carries_over(rest, depth + 1, more);
            if let Ok((_, after)) = take_bound(rest, depth + 1) {
                lemma_bound_carries_over(after, depth + 1, more);
            }
        }
    }
}

proof fn lemma_values_carries_over(bytes: Seq<u8>, depth: nat, more: Seq<u8>)
    ensures
        carries_over(take_values(bytes, depth), take_values(bytes + more, depth), more),
    decreases MAX_DEPTH + 1 - depth, 0x1_0000_0001nat,
{
    lemma_u32_carries_over(bytes, more);
    if let Ok((count, rest)) = take_u32(bytes) {
        lemma_each_value_carries_over(rest, count as nat, depth, more);
    }
}

proof fn lemma_each_value_carries_over(bytes: Seq<u8>, count: nat, depth: nat, more: Seq<u8>)
    ensures
        carries_over(
            take_each_value(bytes, count, depth),
            take_each_value(bytes + more, count, depth),
            more,
        ),
    decreases MAX_DEPTH + 1 - depth, count + 1,
{
    if count > 0 {
        lemma_value_carries_over(bytes, depth, more);
        if let Ok((_, rest)) = take_value(bytes, depth) {
            lemma_each_value_carries_over(rest, (count - 1) as nat, depth, more);
        }
    }
}

proof fn lemma_fields_carries_over(bytes: Seq<u8>, depth: nat, more: Seq<u8>)
    ensures
        carries_over(take_fields(bytes, depth), take_fields(bytes + more, depth), more),
    decreases MAX_DEPTH + 1 - depth, 0x1_0000_0001nat,
{
    lemma_u32_carries_over(bytes, more);
    if let Ok((count, rest)) = take_u32(bytes) {
        lemma_each_field_carries_over(rest, count as nat, depth, more);
    }
}

proof fn lemma_each_field_carries_over(bytes: Seq<u8>, count: nat, depth: nat, more: Seq<u8>)
    ensures
        carries_over(
            take_each_field(bytes, count, depth),
            take_each_field(bytes + more, count, depth),
            more,
        ),
    decreases MAX_DEPTH + 1 - depth, count + 1,
{
    if count > 0 {
        lemma_text_carries_over(bytes, more);
        if let Ok((_, rest)) = take_text(bytes) {
            lemma_value_carries_over(rest, depth, more);
            if let Ok((_, after)) = take_value(rest, depth) {
                lemma_each_field_carries_over(after, (count - 1) as nat, depth, more);
            }
        }
    }
}

proof fn lemma_bound_carries_over(bytes: Seq<u8>, depth: nat, more: Seq<u8>)
    ensures
        carries_over(take_bound(bytes, depth), take_bound(bytes + more, depth), more),
    decreases MAX_DEPTH + 1 - depth, 1nat,
{
    lemma_byte_carries_over(bytes, more);
    if let Ok((_, rest)) = take_byte(bytes) {
        lemma_value_carries_over(rest, depth, more);
    }
}

/// A truncated value is an error that says so: no value that can be written down decodes without
/// its last bytes, and what is found is that the bytes, or a block in them, end too soon.
pub proof fn law_truncated_values_are_refused(value: ValueView, kept: nat)
    requires
        is_sound(value),
        is_shallow(value, 0),
        kept < value_bytes(value).len(),
    ensures
        whole_value(value_bytes(value).take(kept as int)) matches Err(fault) && is_running_out(
            fault,
        ),
{
    let all = value_bytes(value);
    let part = all.take(kept as int);
    let missing = all.skip(kept as int);
    assert(part + missing =~= all);
    lemma_value_carries_over(part, 0, missing);
    law_round_trip(value);
}

}
