//! Decoding a value out of the bytes the protocol carries.
//!
//! Every read is bounds-checked against the remaining input, and every unknown discriminant is an
//! error rather than a default: these bytes come from the network.

use vstd::prelude::*;
use vstd::slice::{slice_subrange, slice_to_vec};

use crate::bytes::{lemma_magnitude_fits, lemma_spans, read_big_endian};
use crate::codec::{
    BOUND_EXCLUDED, BOUND_INCLUDED, BOUND_UNBOUNDED, ESCAPE, ESCAPED_ZERO, MAX_DEPTH,
    NANOS_PER_SECOND, NUMBER_DECIMAL, NUMBER_FLOAT, NUMBER_INTEGER, RECORD_ID_BYTES, RECORD_ID_INT,
    RECORD_ID_TEXT, RECORD_ID_UUID, SHAPE_COLLECTION, SHAPE_LINE, SHAPE_MULTI_LINE,
    SHAPE_MULTI_POINT, SHAPE_MULTI_POLYGON, SHAPE_POINT, SHAPE_POLYGON, TAG_ARRAY, TAG_BOOL,
    TAG_BYTES, TAG_DATETIME, TAG_DURATION, TAG_GEOMETRY, TAG_NONE, TAG_NULL, TAG_NUMBER, TAG_OBJECT,
    TAG_RANGE, TAG_RECORD, TAG_REGEX, TAG_SET, TAG_STRING, TAG_TABLE, TAG_UUID, TERMINATOR,
};
use crate::codec::parse::{
    after_byte, after_item, fails, take, take_block, take_bound, take_byte, take_double,
    take_each_field, take_each_polygon, take_each_position, take_each_run, take_each_shape,
    take_each_value, take_fields, take_flat, take_geometry, take_i64, take_number, take_polygon,
    take_polygons, take_position, take_positions, take_record_id, take_runs, take_shapes,
    take_terminated, take_text, take_time, take_u32, take_value, take_values, whole_value, yields,
    Parsed,
};
use crate::double::Double;
use crate::error::EncodingFault;
use crate::fields::{with_field, with_fields};
use crate::geometry::{
    lines_view, polygons_view, rings_view, shapes_view, Geometry, GeometryView, Polygon, Position,
    Ring,
};
use crate::text::text_of_bytes;
use crate::value::{
    bound_view, values_view, Bound, Fields, Number, RecordId, RecordRef, Value, ValueRange,
    ValueView,
};

verus! {

/// Decode one value, and require that it consumed everything.
///
/// Trailing bytes are an error rather than something to ignore: they mean this build and the
/// sender disagree about the value's shape, and continuing would hand a caller a value that is
/// right only by luck.
pub fn decode(bytes: &[u8]) -> (decoded: Result<Value, EncodingFault>)
    ensures
        match decoded {
            Ok(value) => whole_value(bytes@) == Ok::<ValueView, EncodingFault>(value@),
            Err(fault) => whole_value(bytes@) == Err::<ValueView, EncodingFault>(fault),
        },
{
    let mut reader = Reader::new(bytes);
    let value = reader.take_value(0)?;
    let left: usize = reader.remaining();
    if left == 0 {
        Ok(value)
    } else {
        Err(EncodingFault::TrailingBytes { count: left })
    }
}

/// A bounds-checked cursor over a value's bytes.
pub struct Reader<'a> {
    bytes: &'a [u8],
    at: usize,
}

impl<'a> Reader<'a> {
    /// Whether the cursor is within the bytes.
    pub closed spec fn well_formed(&self) -> bool {
        self.at <= self.bytes@.len()
    }

    /// The bytes not read yet.
    pub closed spec fn rest(&self) -> Seq<u8> {
        self.bytes@.skip(self.at as int)
    }

    /// A cursor at the first of `bytes`.
    pub fn new(bytes: &'a [u8]) -> (reader: Self)
        ensures
            reader.well_formed(),
            reader.rest() == bytes@,
    {
        assert(bytes@.skip(0) =~= bytes@);
        Reader { bytes, at: 0 }
    }

    /// How many bytes are left.
    #[must_use]
    pub fn remaining(&self) -> (left: usize)
        requires
            self.well_formed(),
        ensures
            left == self.rest().len(),
    {
        self.bytes.len() - self.at
    }

    pub(crate) fn take(&mut self, count: usize) -> (taken: Result<&'a [u8], EncodingFault>)
        requires
            old(self).well_formed(),
        ensures
            final(self).well_formed(),
            match taken {
                Ok(value) => yields(
                    take(old(self).rest(), count as nat),
                    value@,
                    final(self).rest(),
                ),
                Err(fault) => fails(take(old(self).rest(), count as nat), fault)
                    && final(self).rest() == old(self).rest(),
            },
    {
        if count > self.bytes.len() - self.at {
            return Err(EncodingFault::Truncated);
        }
        let end: usize = self.at + count;
        let slice = slice_subrange(self.bytes, self.at, end);
        assert(slice@ =~= self.rest().take(count as int));
        assert(self.bytes@.skip(end as int) =~= self.rest().skip(count as int));
        self.at = end;
        Ok(slice)
    }

    pub(crate) fn take_u8(&mut self) -> (taken: Result<u8, EncodingFault>)
        requires
            old(self).well_formed(),
        ensures
            final(self).well_formed(),
            match taken {
                Ok(value) => yields(take_byte(old(self).rest()), value, final(self).rest()),
                Err(fault) => fails(take_byte(old(self).rest()), fault) && final(self).rest()
                    == old(self).rest(),
            },
    {
        if self.at == self.bytes.len() {
            return Err(EncodingFault::Truncated);
        }
        let byte: u8 = self.bytes[self.at];
        assert(self.bytes@.skip(self.at + 1) =~= self.rest().drop_first());
        self.at = self.at + 1;
        Ok(byte)
    }

    fn take_uuid(&mut self) -> (taken: Result<[u8; 16], EncodingFault>)
        requires
            old(self).well_formed(),
        ensures
            final(self).well_formed(),
            match taken {
                Ok(value) => yields(take(old(self).rest(), 16), value@, final(self).rest()),
                Err(fault) => fails(take(old(self).rest(), 16), fault) && final(self).rest()
                    == old(self).rest(),
            },
    {
        let slice = self.take(16)?;
        let mut bytes: [u8; 16] = [0; 16];
        let mut at: usize = 0;
        while at < 16
            invariant
                at <= 16,
                slice@.len() == 16,
                forall|i: int| 0 <= i < at ==> bytes@[i] == slice@[i],
            decreases 16 - at,
        {
            bytes[at] = slice[at];
            at = at + 1;
        }
        assert(bytes@ =~= slice@);
        Ok(bytes)
    }

    pub(crate) fn take_u32(&mut self) -> (taken: Result<u32, EncodingFault>)
        requires
            old(self).well_formed(),
        ensures
            final(self).well_formed(),
            match taken {
                Ok(value) => yields(take_u32(old(self).rest()), value, final(self).rest()),
                Err(fault) => fails(take_u32(old(self).rest()), fault) && final(self).rest()
                    == old(self).rest(),
            },
    {
        let slice = self.take(4)?;
        proof {
            lemma_magnitude_fits(slice@);
            lemma_spans();
        }
        Ok(read_big_endian(slice) as u32)
    }

    /// An `i64` written with its sign bit inverted.
    fn take_i64(&mut self) -> (taken: Result<i64, EncodingFault>)
        requires
            old(self).well_formed(),
        ensures
            final(self).well_formed(),
            match taken {
                Ok(value) => yields(take_i64(old(self).rest()), value, final(self).rest()),
                Err(fault) => fails(take_i64(old(self).rest()), fault) && final(self).rest()
                    == old(self).rest(),
            },
    {
        let slice = self.take(8)?;
        proof {
            lemma_magnitude_fits(slice@);
            lemma_spans();
        }
        let distance: i128 = read_big_endian(slice) as i128;
        Ok((distance - 0x8000_0000_0000_0000) as i64)
    }

    fn take_double(&mut self) -> (taken: Result<Double, EncodingFault>)
        requires
            old(self).well_formed(),
        ensures
            final(self).well_formed(),
            match taken {
                Ok(value) => yields(take_double(old(self).rest()), value, final(self).rest()),
                Err(fault) => fails(take_double(old(self).rest()), fault) && final(self).rest()
                    == old(self).rest(),
            },
    {
        let slice = self.take(8)?;
        proof {
            lemma_magnitude_fits(slice@);
            lemma_spans();
        }
        Ok(Double { bits: read_big_endian(slice) as u64 })
    }

    pub(crate) fn take_lenbytes(&mut self) -> (taken: Result<Vec<u8>, EncodingFault>)
        requires
            old(self).well_formed(),
        ensures
            final(self).well_formed(),
            match taken {
                Ok(value) => yields(take_block(old(self).rest()), value@, final(self).rest()),
                Err(fault) => fails(take_block(old(self).rest()), fault),
            },
    {
        let len: u32 = self.take_u32()?;
        let slice = self.take(len as usize)?;
        Ok(slice_to_vec(slice))
    }

    pub(crate) fn take_text(&mut self) -> (taken: Result<String, EncodingFault>)
        requires
            old(self).well_formed(),
        ensures
            final(self).well_formed(),
            match taken {
                Ok(value) => yields(take_text(old(self).rest()), value@, final(self).rest()),
                Err(fault) => fails(take_text(old(self).rest()), fault),
            },
    {
        let bytes = self.take_lenbytes()?;
        match text_of_bytes(bytes) {
            Some(text) => Ok(text),
            None => Err(EncodingFault::InvalidUtf8),
        }
    }

    /// An escaped, terminated block.
    pub fn take_varbytes(&mut self) -> (taken: Result<Vec<u8>, EncodingFault>)
        requires
            old(self).well_formed(),
        ensures
            final(self).well_formed(),
            match taken {
                Ok(value) => yields(take_terminated(old(self).rest()), value@, final(self).rest()),
                Err(fault) => fails(take_terminated(old(self).rest()), fault),
            },
    {
        let mut out: Vec<u8> = Vec::new();
        let ghost whole = take_terminated(self.rest());
        assert(after_bytes(out@, whole) == whole);
        loop
            invariant
                self.well_formed(),
                whole == take_terminated(old(self).rest()),
                whole == after_bytes(out@, take_terminated(self.rest())),
            decreases self.rest().len(),
        {
            let ghost bytes = self.rest();
            let ghost had = out@;
            let byte: u8 = match self.take_u8() {
                Ok(byte) => byte,
                Err(_) => return Err(EncodingFault::Unterminated),
            };
            if byte != ESCAPE {
                out.push(byte);
                assert(whole == after_bytes(out@, take_terminated(self.rest()))) by {
                    lemma_after_bytes(had, byte, take_terminated(self.rest()));
                }
                continue;
            }
            let next: u8 = match self.take_u8() {
                Ok(byte) => byte,
                Err(_) => return Err(EncodingFault::Unterminated),
            };
            assert(self.rest() =~= bytes.skip(2));
            if next == TERMINATOR {
                assert(out@ + Seq::<u8>::empty() =~= out@);
                return Ok(out);
            }
            if next != ESCAPED_ZERO {
                return Err(EncodingFault::InvalidEscape { found: next });
            }
            out.push(ESCAPE);
            assert(whole == after_bytes(out@, take_terminated(self.rest()))) by {
                lemma_after_bytes(had, ESCAPE, take_terminated(self.rest()));
            }
        }
    }

    fn take_time(&mut self) -> (taken: Result<(i64, u32), EncodingFault>)
        requires
            old(self).well_formed(),
        ensures
            final(self).well_formed(),
            match taken {
                Ok(value) => yields(take_time(old(self).rest()), value, final(self).rest()),
                Err(fault) => fails(take_time(old(self).rest()), fault),
            },
    {
        let seconds: i64 = self.take_i64()?;
        let nanos: u32 = self.take_u32()?;
        // A second holds a billion nanoseconds; anything above is a value this client will not
        // hand to a caller as if it meant something.
        if nanos >= NANOS_PER_SECOND {
            return Err(EncodingFault::InvalidSubSecond { nanos });
        }
        Ok((seconds, nanos))
    }

    fn take_number(&mut self) -> (taken: Result<Number, EncodingFault>)
        requires
            old(self).well_formed(),
        ensures
            final(self).well_formed(),
            match taken {
                Ok(value) => yields(take_number(old(self).rest()), value, final(self).rest()),
                Err(fault) => fails(take_number(old(self).rest()), fault),
            },
    {
        let kind: u8 = self.take_u8()?;
        if kind == NUMBER_INTEGER {
            Ok(Number::Integer(self.take_i64()?))
        } else if kind == NUMBER_FLOAT {
            Ok(Number::Float(self.take_double()?))
        } else if kind == NUMBER_DECIMAL {
            let slice = self.take(16)?;
            proof {
                lemma_magnitude_fits(slice@);
                lemma_spans();
            }
            let bits: u128 = read_big_endian(slice);
            let scale: u32 = self.take_u32()?;
            let mantissa: i128 = if bits <= 0x7FFF_FFFF_FFFF_FFFF_FFFF_FFFF_FFFF_FFFF {
                bits as i128
            } else {
                let above: u128 = bits - 0x8000_0000_0000_0000_0000_0000_0000_0000;
                above as i128 + i128::MIN
            };
            Ok(Number::Decimal { mantissa, scale })
        } else {
            Err(EncodingFault::UnknownTag { tag: kind })
        }
    }

    pub(crate) fn take_record_id(&mut self) -> (taken: Result<RecordId, EncodingFault>)
        requires
            old(self).well_formed(),
        ensures
            final(self).well_formed(),
            match taken {
                Ok(value) => yields(take_record_id(old(self).rest()), value@, final(self).rest()),
                Err(fault) => fails(take_record_id(old(self).rest()), fault),
            },
    {
        let kind: u8 = self.take_u8()?;
        if kind == RECORD_ID_INT {
            Ok(RecordId::Int(self.take_i64()?))
        } else if kind == RECORD_ID_TEXT {
            let bytes = self.take_varbytes()?;
            match text_of_bytes(bytes) {
                Some(text) => Ok(RecordId::Text(text)),
                None => Err(EncodingFault::InvalidUtf8),
            }
        } else if kind == RECORD_ID_UUID {
            Ok(RecordId::Uuid(self.take_uuid()?))
        } else if kind == RECORD_ID_BYTES {
            Ok(RecordId::Bytes(self.take_varbytes()?))
        } else {
            Err(EncodingFault::UnknownTag { tag: kind })
        }
    }

    /// A coordinate pair, longitude first.
    fn take_position(&mut self) -> (taken: Result<Position, EncodingFault>)
        requires
            old(self).well_formed(),
        ensures
            final(self).well_formed(),
            match taken {
                Ok(value) => yields(take_position(old(self).rest()), value, final(self).rest()),
                Err(fault) => fails(take_position(old(self).rest()), fault),
            },
    {
        let longitude = self.take_double()?;
        let latitude = self.take_double()?;
        Ok(Position { longitude, latitude })
    }

    fn take_positions(&mut self) -> (taken: Result<Vec<Position>, EncodingFault>)
        requires
            old(self).well_formed(),
        ensures
            final(self).well_formed(),
            match taken {
                Ok(value) => yields(take_positions(old(self).rest()), value@, final(self).rest()),
                Err(fault) => fails(take_positions(old(self).rest()), fault),
            },
    {
        let count: u32 = self.take_u32()?;
        let mut items: Vec<Position> = Vec::new();
        let ghost whole = take_each_position(self.rest(), count as nat);
        proof {
            lemma_after_none(take_each_position(self.rest(), count as nat));
        }
        let mut left: u32 = count;
        assert(items@ =~= Seq::empty());
        while left > 0
            invariant
                self.well_formed(),
                whole == take_positions(old(self).rest()),
                whole == after_items(items@, take_each_position(self.rest(), left as nat)),
            decreases left,
        {
            let ghost had = items@;
            let item = self.take_position()?;
            proof {
                lemma_after_items(had, item, take_each_position(self.rest(), (left - 1) as nat));
            }
            items.push(item);
            left = left - 1;
            assert(items@ =~= had.push(item));
        }
        assert(items@ + Seq::empty() =~= items@);
        Ok(items)
    }

    fn take_rings(&mut self) -> (taken: Result<Vec<Ring>, EncodingFault>)
        requires
            old(self).well_formed(),
        ensures
            final(self).well_formed(),
            match taken {
                Ok(value) => yields(
                    take_runs(old(self).rest()),
                    rings_view(value@),
                    final(self).rest(),
                ),
                Err(fault) => fails(take_runs(old(self).rest()), fault),
            },
    {
        let count: u32 = self.take_u32()?;
        let mut items: Vec<Ring> = Vec::new();
        let ghost whole = take_each_run(self.rest(), count as nat);
        proof {
            lemma_after_none(take_each_run(self.rest(), count as nat));
        }
        let mut left: u32 = count;
        assert(rings_view(items@) =~= Seq::empty());
        while left > 0
            invariant
                self.well_formed(),
                whole == take_runs(old(self).rest()),
                whole == after_items(rings_view(items@), take_each_run(self.rest(), left as nat)),
            decreases left,
        {
            let ghost had = rings_view(items@);
            let item = self.take_ring()?;
            proof {
                lemma_after_items(had, item@, take_each_run(self.rest(), (left - 1) as nat));
            }
            items.push(item);
            left = left - 1;
            assert(rings_view(items@) =~= had.push(item@));
        }
        assert(rings_view(items@) + Seq::empty() =~= rings_view(items@));
        Ok(items)
    }

    fn take_ring(&mut self) -> (taken: Result<Ring, EncodingFault>)
        requires
            old(self).well_formed(),
        ensures
            final(self).well_formed(),
            match taken {
                Ok(value) => yields(take_positions(old(self).rest()), value@, final(self).rest()),
                Err(fault) => fails(take_positions(old(self).rest()), fault),
            },
    {
        Ok(Ring(self.take_positions()?))
    }

    fn take_lines(&mut self) -> (taken: Result<Vec<Vec<Position>>, EncodingFault>)
        requires
            old(self).well_formed(),
        ensures
            final(self).well_formed(),
            match taken {
                Ok(value) => yields(
                    take_runs(old(self).rest()),
                    lines_view(value@),
                    final(self).rest(),
                ),
                Err(fault) => fails(take_runs(old(self).rest()), fault),
            },
    {
        let count: u32 = self.take_u32()?;
        let mut items: Vec<Vec<Position>> = Vec::new();
        let ghost whole = take_each_run(self.rest(), count as nat);
        proof {
            lemma_after_none(take_each_run(self.rest(), count as nat));
        }
        let mut left: u32 = count;
        assert(lines_view(items@) =~= Seq::empty());
        while left > 0
            invariant
                self.well_formed(),
                whole == take_runs(old(self).rest()),
                whole == after_items(lines_view(items@), take_each_run(self.rest(), left as nat)),
            decreases left,
        {
            let ghost had = lines_view(items@);
            let item = self.take_positions()?;
            proof {
                lemma_after_items(had, item@, take_each_run(self.rest(), (left - 1) as nat));
            }
            items.push(item);
            left = left - 1;
            assert(lines_view(items@) =~= had.push(item@));
        }
        assert(lines_view(items@) + Seq::empty() =~= lines_view(items@));
        Ok(items)
    }

    fn take_polygon(&mut self) -> (taken: Result<Polygon, EncodingFault>)
        requires
            old(self).well_formed(),
        ensures
            final(self).well_formed(),
            match taken {
                Ok(value) => yields(take_polygon(old(self).rest()), value@, final(self).rest()),
                Err(fault) => fails(take_polygon(old(self).rest()), fault),
            },
    {
        let exterior = self.take_ring()?;
        let interiors = self.take_rings()?;
        Ok(Polygon { exterior, interiors })
    }

    fn take_polygons(&mut self) -> (taken: Result<Vec<Polygon>, EncodingFault>)
        requires
            old(self).well_formed(),
        ensures
            final(self).well_formed(),
            match taken {
                Ok(value) => yields(
                    take_polygons(old(self).rest()),
                    polygons_view(value@),
                    final(self).rest(),
                ),
                Err(fault) => fails(take_polygons(old(self).rest()), fault),
            },
    {
        let count: u32 = self.take_u32()?;
        let mut items: Vec<Polygon> = Vec::new();
        let ghost whole = take_each_polygon(self.rest(), count as nat);
        proof {
            lemma_after_none(take_each_polygon(self.rest(), count as nat));
        }
        let mut left: u32 = count;
        assert(polygons_view(items@) =~= Seq::empty());
        while left > 0
            invariant
                self.well_formed(),
                whole == take_polygons(old(self).rest()),
                whole == after_items(
                    polygons_view(items@),
                    take_each_polygon(self.rest(), left as nat),
                ),
            decreases left,
        {
            let ghost had = polygons_view(items@);
            let item = self.take_polygon()?;
            proof {
                lemma_after_items(had, item@, take_each_polygon(self.rest(), (left - 1) as nat));
            }
            items.push(item);
            left = left - 1;
            assert(polygons_view(items@) =~= had.push(item@));
        }
        assert(polygons_view(items@) + Seq::empty() =~= polygons_view(items@));
        Ok(items)
    }

    /// A shape that stands `depth` levels down.
    fn take_geometry(&mut self, depth: u32) -> (taken: Result<Geometry, EncodingFault>)
        requires
            old(self).well_formed(),
        ensures
            final(self).well_formed(),
            match taken {
                Ok(value) => yields(
                    take_geometry(old(self).rest(), depth as nat),
                    value@,
                    final(self).rest(),
                ),
                Err(fault) => fails(take_geometry(old(self).rest(), depth as nat), fault),
            },
        decreases MAX_DEPTH + 1 - depth, 0nat,
    {
        if depth > MAX_DEPTH {
            return Err(EncodingFault::Truncated);
        }
        let deeper: u32 = depth + 1;
        let kind: u8 = self.take_u8()?;
        if kind == SHAPE_POINT {
            Ok(Geometry::Point(self.take_position()?))
        } else if kind == SHAPE_LINE {
            Ok(Geometry::Line(self.take_positions()?))
        } else if kind == SHAPE_POLYGON {
            Ok(Geometry::Polygon(self.take_polygon()?))
        } else if kind == SHAPE_MULTI_POINT {
            Ok(Geometry::MultiPoint(self.take_positions()?))
        } else if kind == SHAPE_MULTI_LINE {
            Ok(Geometry::MultiLine(self.take_lines()?))
        } else if kind == SHAPE_MULTI_POLYGON {
            Ok(Geometry::MultiPolygon(self.take_polygons()?))
        } else if kind == SHAPE_COLLECTION {
            let shapes = self.take_shapes(deeper)?;
            let shape = Geometry::Collection(shapes);
            assert(shape@ == GeometryView::Collection(shapes_view(shapes@)));
            Ok(shape)
        } else {
            Err(EncodingFault::UnknownTag { tag: kind })
        }
    }

    fn take_shapes(&mut self, depth: u32) -> (taken: Result<Vec<Box<Geometry>>, EncodingFault>)
        requires
            old(self).well_formed(),
            depth <= MAX_DEPTH + 1,
        ensures
            final(self).well_formed(),
            match taken {
                Ok(value) => yields(
                    take_shapes(old(self).rest(), depth as nat),
                    shapes_view(value@),
                    final(self).rest(),
                ),
                Err(fault) => fails(take_shapes(old(self).rest(), depth as nat), fault),
            },
        decreases MAX_DEPTH + 1 - depth, 2nat,
    {
        let count: u32 = self.take_u32()?;
        let mut items: Vec<Box<Geometry>> = Vec::new();
        let ghost whole = take_each_shape(self.rest(), count as nat, depth as nat);
        proof {
            lemma_after_none(take_each_shape(self.rest(), count as nat, depth as nat));
        }
        let mut left: u32 = count;
        assert(shapes_view(items@) =~= Seq::empty());
        while left > 0
            invariant
                self.well_formed(),
                depth <= MAX_DEPTH + 1,
                whole == take_shapes(old(self).rest(), depth as nat),
                whole == after_items(
                    shapes_view(items@),
                    take_each_shape(self.rest(), left as nat, depth as nat),
                ),
            decreases left,
        {
            let ghost had = shapes_view(items@);
            let item = self.take_boxed_geometry(depth)?;
            proof {
                lemma_after_items(
                    had,
                    item@,
                    take_each_shape(self.rest(), (left - 1) as nat, depth as nat),
                );
            }
            items.push(item);
            left = left - 1;
            assert(shapes_view(items@) =~= had.push(item@));
        }
        assert(shapes_view(items@) + Seq::empty() =~= shapes_view(items@));
        Ok(items)
    }

    fn take_boxed_geometry(&mut self, depth: u32) -> (taken: Result<Box<Geometry>, EncodingFault>)
        requires
            old(self).well_formed(),
            depth <= MAX_DEPTH + 1,
        ensures
            final(self).well_formed(),
            match taken {
                Ok(value) => yields(
                    take_geometry(old(self).rest(), depth as nat),
                    value@,
                    final(self).rest(),
                ),
                Err(fault) => fails(take_geometry(old(self).rest(), depth as nat), fault),
            },
        decreases MAX_DEPTH + 1 - depth, 1nat,
    {
        let shape = self.take_geometry(depth)?;
        Ok(Box::new(shape))
    }

    /// A value that holds no other, after its tag.
    fn take_flat(&mut self, tag: u8) -> (taken: Result<Value, EncodingFault>)
        requires
            old(self).well_formed(),
        ensures
            final(self).well_formed(),
            match taken {
                Ok(value) => yields(take_flat(tag, old(self).rest()), value@, final(self).rest()),
                Err(fault) => fails(take_flat(tag, old(self).rest()), fault),
            },
    {
        if tag == TAG_NONE {
            Ok(Value::Absent)
        } else if tag == TAG_NULL {
            Ok(Value::Null)
        } else if tag == TAG_BOOL {
            Ok(Value::Bool(self.take_u8()? != 0))
        } else if tag == TAG_NUMBER {
            Ok(Value::Number(self.take_number()?))
        } else if tag == TAG_STRING {
            Ok(Value::String(self.take_text()?))
        } else if tag == TAG_BYTES {
            Ok(Value::Bytes(self.take_lenbytes()?))
        } else if tag == TAG_DURATION {
            let (seconds, nanos) = self.take_time()?;
            Ok(Value::Duration { seconds, nanos })
        } else if tag == TAG_DATETIME {
            let (seconds, nanos) = self.take_time()?;
            Ok(Value::Datetime { seconds, nanos })
        } else if tag == TAG_UUID {
            Ok(Value::Uuid(self.take_uuid()?))
        } else if tag == TAG_TABLE {
            Ok(Value::Table(self.take_u32()?))
        } else if tag == TAG_RECORD {
            let table: u32 = self.take_u32()?;
            let id = self.take_record_id()?;
            Ok(Value::Record(RecordRef::new(table, id)))
        } else if tag == TAG_REGEX {
            Ok(Value::Regex(self.take_text()?))
        } else {
            Err(EncodingFault::UnknownTag { tag })
        }
    }

    /// A value that stands `depth` levels down.
    pub(crate) fn take_value(&mut self, depth: u32) -> (taken: Result<Value, EncodingFault>)
        requires
            old(self).well_formed(),
        ensures
            final(self).well_formed(),
            match taken {
                Ok(value) => yields(
                    take_value(old(self).rest(), depth as nat),
                    value@,
                    final(self).rest(),
                ),
                Err(fault) => fails(take_value(old(self).rest(), depth as nat), fault),
            },
        decreases MAX_DEPTH + 1 - depth, 0nat,
    {
        if depth > MAX_DEPTH {
            return Err(EncodingFault::Truncated);
        }
        let deeper: u32 = depth + 1;
        let tag: u8 = self.take_u8()?;
        if tag == TAG_ARRAY {
            let items = self.take_values(deeper)?;
            Ok(Value::Array(items))
        } else if tag == TAG_OBJECT {
            let fields = self.take_fields(deeper)?;
            Ok(Value::Object(fields))
        } else if tag == TAG_RANGE {
            let start = self.take_bound(deeper)?;
            let end = self.take_bound(deeper)?;
            Ok(Value::Range(Box::new(ValueRange::new(start, end))))
        } else if tag == TAG_SET {
            let items = self.take_values(deeper)?;
            Ok(Value::SetOf(items))
        } else if tag == TAG_GEOMETRY {
            Ok(Value::Geometry(self.take_geometry(deeper)?))
        } else {
            self.take_flat(tag)
        }
    }

    /// Values, and before them how many there are.
    ///
    /// The count is not used to pre-allocate. A four-byte field can claim four billion items, and
    /// reserving that on a stranger's word is the allocation the frame ceiling exists to prevent,
    /// one layer down. The items are pushed as they decode, so a lie costs a truncation error
    /// rather than the process.
    fn take_values(&mut self, depth: u32) -> (taken: Result<Vec<Value>, EncodingFault>)
        requires
            old(self).well_formed(),
            depth <= MAX_DEPTH + 1,
        ensures
            final(self).well_formed(),
            match taken {
                Ok(value) => yields(
                    take_values(old(self).rest(), depth as nat),
                    values_view(value@),
                    final(self).rest(),
                ),
                Err(fault) => fails(take_values(old(self).rest(), depth as nat), fault),
            },
        decreases MAX_DEPTH + 1 - depth, 1nat,
    {
        let count: u32 = self.take_u32()?;
        let mut items: Vec<Value> = Vec::new();
        let ghost whole = take_each_value(self.rest(), count as nat, depth as nat);
        proof {
            lemma_after_none(take_each_value(self.rest(), count as nat, depth as nat));
        }
        let mut left: u32 = count;
        assert(values_view(items@) =~= Seq::empty());
        while left > 0
            invariant
                self.well_formed(),
                depth <= MAX_DEPTH + 1,
                whole == take_values(old(self).rest(), depth as nat),
                whole == after_items(
                    values_view(items@),
                    take_each_value(self.rest(), left as nat, depth as nat),
                ),
            decreases left,
        {
            let ghost had = values_view(items@);
            let item = self.take_value(depth)?;
            proof {
                lemma_after_items(
                    had,
                    item@,
                    take_each_value(self.rest(), (left - 1) as nat, depth as nat),
                );
            }
            items.push(item);
            left = left - 1;
            assert(values_view(items@) =~= had.push(item@));
        }
        assert(values_view(items@) + Seq::empty() =~= values_view(items@));
        Ok(items)
    }

    fn take_fields(&mut self, depth: u32) -> (taken: Result<Fields, EncodingFault>)
        requires
            old(self).well_formed(),
            depth <= MAX_DEPTH + 1,
        ensures
            final(self).well_formed(),
            match taken {
                Ok(value) => yields(
                    take_fields(old(self).rest(), depth as nat),
                    value@,
                    final(self).rest(),
                ),
                Err(fault) => fails(take_fields(old(self).rest(), depth as nat), fault),
            },
        decreases MAX_DEPTH + 1 - depth, 1nat,
    {
        let count: u32 = self.take_u32()?;
        let mut fields = Fields::new();
        let ghost whole = take_each_field(self.rest(), count as nat, depth as nat);
        let mut left: u32 = count;
        while left > 0
            invariant
                self.well_formed(),
                depth <= MAX_DEPTH + 1,
                held_of(whole, Seq::empty()) == take_fields(old(self).rest(), depth as nat),
                held_of(whole, Seq::empty()) == held_of(
                    take_each_field(self.rest(), left as nat, depth as nat),
                    fields@,
                ),
            decreases left,
        {
            let ghost had = fields@;
            let name = self.take_text()?;
            let value = self.take_value(depth)?;
            proof {
                lemma_held_of(
                    (name@, value@),
                    take_each_field(self.rest(), (left - 1) as nat, depth as nat),
                    had,
                );
            }
            fields.insert(name, value);
            left = left - 1;
        }
        Ok(fields)
    }

    fn take_bound(&mut self, depth: u32) -> (taken: Result<Bound<Value>, EncodingFault>)
        requires
            old(self).well_formed(),
            depth <= MAX_DEPTH + 1,
        ensures
            final(self).well_formed(),
            match taken {
                Ok(value) => yields(
                    take_bound(old(self).rest(), depth as nat),
                    bound_view(value),
                    final(self).rest(),
                ),
                Err(fault) => fails(take_bound(old(self).rest(), depth as nat), fault),
            },
        decreases MAX_DEPTH + 1 - depth, 1nat,
    {
        let kind: u8 = self.take_u8()?;
        if kind == BOUND_UNBOUNDED {
            Ok(Bound::Unbounded)
        } else if kind == BOUND_INCLUDED {
            Ok(Bound::Included(self.take_value(depth)?))
        } else if kind == BOUND_EXCLUDED {
            Ok(Bound::Excluded(self.take_value(depth)?))
        } else {
            Err(EncodingFault::UnknownTag { tag: kind })
        }
    }
}

/// What was read, with some bytes before it.
spec fn after_bytes(bytes: Seq<u8>, parsed: Parsed<Seq<u8>>) -> Parsed<Seq<u8>> {
    match parsed {
        Err(fault) => Err(fault),
        Ok((taken, rest)) => Ok((bytes + taken, rest)),
    }
}

proof fn lemma_after_bytes(bytes: Seq<u8>, byte: u8, parsed: Parsed<Seq<u8>>)
    ensures
        after_bytes(bytes, after_byte(byte, parsed)) == after_bytes(bytes.push(byte), parsed),
{
    if let Ok((taken, _)) = parsed {
        assert(bytes + (seq![byte] + taken) =~= bytes.push(byte) + taken);
    }
}

/// What was read, with some items before it.
spec fn after_items<T>(items: Seq<T>, parsed: Parsed<Seq<T>>) -> Parsed<Seq<T>> {
    match parsed {
        Err(fault) => Err(fault),
        Ok((more, rest)) => Ok((items + more, rest)),
    }
}

proof fn lemma_after_none<T>(parsed: Parsed<Seq<T>>)
    ensures
        after_items(Seq::empty(), parsed) == parsed,
{
    if let Ok((more, _)) = parsed {
        assert(Seq::<T>::empty() + more =~= more);
    }
}

proof fn lemma_after_items<T>(items: Seq<T>, item: T, parsed: Parsed<Seq<T>>)
    ensures
        after_items(items, after_item(item, parsed)) == after_items(items.push(item), parsed),
{
    if let Ok((more, _)) = parsed {
        assert(items + (seq![item] + more) =~= items.push(item) + more);
    }
}

/// The fields that are held once those read are set among some others.
spec fn held_of(
    parsed: Parsed<Seq<(Seq<char>, ValueView)>>,
    fields: Seq<(Seq<char>, ValueView)>,
) -> Parsed<Seq<(Seq<char>, ValueView)>> {
    match parsed {
        Err(fault) => Err(fault),
        Ok((more, rest)) => Ok((with_fields(fields, more), rest)),
    }
}

proof fn lemma_held_of(
    field: (Seq<char>, ValueView),
    parsed: Parsed<Seq<(Seq<char>, ValueView)>>,
    fields: Seq<(Seq<char>, ValueView)>,
)
    ensures
        held_of(after_item(field, parsed), fields) == held_of(
            parsed,
            with_field(fields, field.0, field.1),
        ),
{
    if let Ok((more, _)) = parsed {
        assert((seq![field] + more).drop_first() =~= more);
    }
}

}
