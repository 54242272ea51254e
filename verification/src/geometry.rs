//! Shapes on a sphere.
//!
//! The set is RFC 7946's: point, line, polygon, the multi- forms, and a collection.
//!
//! A position is longitude first, the order the bytes are in. Swapping the pair is the most
//! common bug in geospatial code and the least visible one, so the constructor takes its
//! arguments in that order and the fields are named rather than positional.
//!
//! The codec does not judge a shape. A ring that does not close, a coordinate off the sphere, a
//! line with one position: all of them decode. [`Geometry::is_well_formed`] is for a caller that
//! wants to check before sending.

use vstd::prelude::*;
use vstd::std_specs::cmp::PartialEqSpec;

use crate::double::{law_bounds_are_compared_by_their_bits, Double};

verus! {

/// One position on the sphere: longitude first, then latitude, in degrees.
///
/// Equality is on bits, as the node compares coordinates: the two zeros are different
/// coordinates, and a NaN coordinate equals itself.
#[derive(Debug, Clone, Copy)]
pub struct Position {
    /// Degrees east of the prime meridian, in `[-180, 180]`.
    pub longitude: Double,
    /// Degrees north of the equator, in `[-90, 90]`.
    pub latitude: Double,
}

impl Position {
    /// Whether both coordinates are numbers within their ranges.
    pub open spec fn on_the_sphere(self) -> bool {
        self.longitude.is_within(180) && self.latitude.is_within(90)
    }

    /// A position, longitude first: the order the bytes are in.
    #[must_use]
    pub fn new(longitude: Double, latitude: Double) -> (position: Self)
        ensures
            position == (Position { longitude, latitude }),
    {
        Position { longitude, latitude }
    }

    /// Whether this position is on the sphere at all.
    #[must_use]
    pub fn is_on_the_sphere(&self) -> (on: bool)
        ensures
            on == self.on_the_sphere(),
    {
        self.longitude.is_within_180() && self.latitude.is_within_90()
    }
}

impl PartialEq for Position {
    fn eq(&self, other: &Self) -> (same: bool) {
        self.longitude.bits == other.longitude.bits && self.latitude.bits == other.latitude.bits
    }
}

impl vstd::std_specs::cmp::PartialEqSpecImpl for Position {
    open spec fn obeys_eq_spec() -> bool {
        true
    }

    open spec fn eq_spec(&self, other: &Self) -> bool {
        self.longitude.bits == other.longitude.bits && self.latitude.bits == other.latitude.bits
    }
}

/// A closed ring of positions, as a polygon's boundary.
///
/// The first and last position are to be the same one. Not enforced here; see
/// [`Ring::is_closed`].
#[derive(Debug, PartialEq)]
pub struct Ring(pub Vec<Position>);

/// A polygon: an outer ring, then any number of holes.
#[derive(Debug, PartialEq)]
pub struct Polygon {
    /// The boundary.
    pub exterior: Ring,
    /// Rings cut out of it.
    pub interiors: Vec<Ring>,
}

/// A shape.
#[derive(Debug, PartialEq)]
#[non_exhaustive]
pub enum Geometry {
    /// One position.
    Point(Position),
    /// An open path through positions.
    Line(Vec<Position>),
    /// A bounded area, possibly with holes.
    Polygon(Polygon),
    /// Several points as one shape.
    MultiPoint(Vec<Position>),
    /// Several paths as one shape.
    MultiLine(Vec<Vec<Position>>),
    /// Several areas as one shape.
    MultiPolygon(Vec<Polygon>),
    /// Shapes of mixed kinds, as one.
    ///
    /// Boxed because a collection holds geometries and a geometry may be a collection.
    Collection(Vec<Box<Geometry>>),
}

/// What a polygon holds.
#[verifier::ext_equal]
pub struct PolygonView {
    /// The boundary.
    pub exterior: Seq<Position>,
    /// Rings cut out of it.
    pub interiors: Seq<Seq<Position>>,
}

/// What a shape holds.
#[verifier::ext_equal]
pub enum GeometryView {
    /// One position.
    Point(Position),
    /// An open path through positions.
    Line(Seq<Position>),
    /// A bounded area, possibly with holes.
    Polygon(PolygonView),
    /// Several points as one shape.
    MultiPoint(Seq<Position>),
    /// Several paths as one shape.
    MultiLine(Seq<Seq<Position>>),
    /// Several areas as one shape.
    MultiPolygon(Seq<PolygonView>),
    /// Shapes of mixed kinds, as one.
    Collection(Seq<GeometryView>),
}

impl View for Ring {
    type V = Seq<Position>;

    open spec fn view(&self) -> Seq<Position> {
        self.0@
    }
}

impl View for Polygon {
    type V = PolygonView;

    open spec fn view(&self) -> PolygonView {
        PolygonView {
            exterior: self.exterior@,
            interiors: rings_view(self.interiors@),
        }
    }
}

/// What each of some rings holds.
pub open spec fn rings_view(rings: Seq<Ring>) -> Seq<Seq<Position>> {
    Seq::new(rings.len(), |i: int| rings[i]@)
}

/// What each of some lines holds.
pub open spec fn lines_view(lines: Seq<Vec<Position>>) -> Seq<Seq<Position>> {
    Seq::new(lines.len(), |i: int| lines[i]@)
}

/// What each of some polygons holds.
pub open spec fn polygons_view(polygons: Seq<Polygon>) -> Seq<PolygonView> {
    Seq::new(polygons.len(), |i: int| polygons[i]@)
}

/// What a shape holds, its own shapes included.
pub open spec fn geometry_view(shape: Geometry) -> GeometryView
    decreases shape,
{
    match shape {
        Geometry::Point(position) => GeometryView::Point(position),
        Geometry::Line(positions) => GeometryView::Line(positions@),
        Geometry::Polygon(polygon) => GeometryView::Polygon(polygon@),
        Geometry::MultiPoint(positions) => GeometryView::MultiPoint(positions@),
        Geometry::MultiLine(lines) => GeometryView::MultiLine(lines_view(lines@)),
        Geometry::MultiPolygon(polygons) => GeometryView::MultiPolygon(polygons_view(polygons@)),
        Geometry::Collection(shapes) => GeometryView::Collection(shapes_view(shapes@)),
    }
}

/// What each of some shapes holds.
pub open spec fn shapes_view(shapes: Seq<Box<Geometry>>) -> Seq<GeometryView>
    decreases shapes,
{
    Seq::new(
        shapes.len(),
        |i: int|
            if 0 <= i < shapes.len() {
                geometry_view(*shapes[i])
            } else {
                arbitrary()
            },
    )
}

impl View for Geometry {
    type V = GeometryView;

    open spec fn view(&self) -> GeometryView {
        geometry_view(*self)
    }
}

impl PolygonView {
    /// Every position, the boundary's first and then each hole's.
    pub open spec fn positions(self) -> Seq<Position> {
        self.exterior + self.interiors.flatten()
    }

    /// Whether the boundary and every hole close.
    pub open spec fn is_closed(self) -> bool {
        ring_closes(self.exterior) && forall|i: int|
            0 <= i < self.interiors.len() ==> ring_closes(#[trigger] self.interiors[i])
    }
}

/// Whether a ring closes: it ends where it began, after the three corners that bound any area.
pub open spec fn ring_closes(ring: Seq<Position>) -> bool {
    ring.len() >= 4 && ring.first() == ring.last()
}

impl GeometryView {
    /// Every position the shape is made of, in the order the bytes carry them.
    pub open spec fn positions(self) -> Seq<Position>
        decreases self,
    {
        match self {
            GeometryView::Point(position) => seq![position],
            GeometryView::Line(positions) => positions,
            GeometryView::Polygon(polygon) => polygon.positions(),
            GeometryView::MultiPoint(positions) => positions,
            GeometryView::MultiLine(lines) => lines.flatten(),
            GeometryView::MultiPolygon(polygons) => positions_of_polygons(polygons).flatten(),
            GeometryView::Collection(shapes) => positions_of_each(shapes).flatten(),
        }
    }

    /// Whether every ring closes and every line is a path, whatever the positions are.
    pub open spec fn is_sound(self) -> bool
        decreases self,
    {
        match self {
            GeometryView::Point(_) => true,
            GeometryView::Line(positions) => positions.len() >= 2,
            GeometryView::Polygon(polygon) => polygon.is_closed(),
            GeometryView::MultiPoint(_) => true,
            GeometryView::MultiLine(lines) => lines_are_paths(lines),
            GeometryView::MultiPolygon(polygons) => polygons_close(polygons),
            GeometryView::Collection(shapes) => each_is_sound(shapes),
        }
    }

    /// Whether every position is on the sphere, every ring closes and every line is a path.
    pub open spec fn well_formed(self) -> bool {
        self.is_sound() && forall|i: int|
            0 <= i < self.positions().len() ==> (#[trigger] self.positions()[i]).on_the_sphere()
    }
}

/// The positions of each of some polygons.
pub open spec fn positions_of_polygons(polygons: Seq<PolygonView>) -> Seq<Seq<Position>> {
    Seq::new(polygons.len(), |i: int| polygons[i].positions())
}

/// The positions of each of some shapes.
pub open spec fn positions_of_each(shapes: Seq<GeometryView>) -> Seq<Seq<Position>>
    decreases shapes,
{
    Seq::new(
        shapes.len(),
        |i: int|
            if 0 <= i < shapes.len() {
                shapes[i].positions()
            } else {
                seq![]
            },
    )
}

/// Whether every line has two ends.
pub open spec fn lines_are_paths(lines: Seq<Seq<Position>>) -> bool {
    forall|i: int| 0 <= i < lines.len() ==> (#[trigger] lines[i]).len() >= 2
}

/// Whether every polygon closes.
pub open spec fn polygons_close(polygons: Seq<PolygonView>) -> bool {
    forall|i: int| 0 <= i < polygons.len() ==> (#[trigger] polygons[i]).is_closed()
}

/// Whether every shape is sound.
pub open spec fn each_is_sound(shapes: Seq<GeometryView>) -> bool
    decreases shapes,
{
    forall|i: int| 0 <= i < shapes.len() ==> (#[trigger] shapes[i]).is_sound()
}

/// Joining one part more.
proof fn lemma_flatten_step<A>(parts: Seq<Seq<A>>, at: int)
    requires
        0 <= at < parts.len(),
    ensures
        parts.take(at + 1).flatten() == parts.take(at).flatten() + parts[at],
{
    assert(parts.take(at + 1) =~= parts.take(at).push(parts[at]));
    parts.take(at).lemma_flatten_push(parts[at]);
}

impl Ring {
    /// Whether the ring closes, which a polygon boundary must.
    #[must_use]
    pub fn is_closed(&self) -> (closed: bool)
        ensures
            closed == ring_closes(self@),
    {
        let len: usize = self.0.len();
        len >= 4 && self.0[0] == self.0[len - 1]
    }
}

impl Polygon {
    fn is_closed(&self) -> (closed: bool)
        ensures
            closed == self@.is_closed(),
    {
        if !self.exterior.is_closed() {
            return false;
        }
        let mut at: usize = 0;
        while at < self.interiors.len()
            invariant
                at <= self.interiors@.len(),
                ring_closes(self@.exterior),
                forall|i: int| 0 <= i < at ==> ring_closes(#[trigger] self@.interiors[i]),
            decreases self.interiors.len() - at,
        {
            if !self.interiors[at].is_closed() {
                assert(!ring_closes(self@.interiors[at as int]));
                return false;
            }
            at = at + 1;
        }
        true
    }

    fn collect_positions(&self, into: &mut Vec<Position>)
        ensures
            final(into)@ == old(into)@ + self@.positions(),
    {
        let ghost before = into@;
        append_positions(into, &self.exterior.0);
        let mut at: usize = 0;
        assert(self@.interiors.take(0).flatten() =~= Seq::<Position>::empty());
        while at < self.interiors.len()
            invariant
                at <= self.interiors@.len(),
                into@ == before + self@.exterior + self@.interiors.take(at as int).flatten(),
            decreases self.interiors.len() - at,
        {
            append_positions(into, &self.interiors[at].0);
            proof {
                lemma_flatten_step(self@.interiors, at as int);
                assert(into@ =~= before + self@.exterior + self@.interiors.take(at + 1).flatten());
            }
            at = at + 1;
        }
        assert(self@.interiors.take(at as int) =~= self@.interiors);
        assert(into@ =~= before + self@.positions());
    }
}

fn append_positions(into: &mut Vec<Position>, positions: &Vec<Position>)
    ensures
        final(into)@ == old(into)@ + positions@,
{
    let mut at: usize = 0;
    assert(into@ =~= old(into)@ + positions@.take(0));
    while at < positions.len()
        invariant
            at <= positions@.len(),
            into@ == old(into)@ + positions@.take(at as int),
        decreases positions.len() - at,
    {
        into.push(positions[at]);
        at = at + 1;
        assert(into@ =~= old(into)@ + positions@.take(at as int));
    }
    assert(positions@.take(at as int) =~= positions@);
}

impl Geometry {
    /// The name that a shape of this kind carries in a message.
    pub open spec fn name_of_kind(self) -> Seq<char> {
        match self {
            Geometry::Point(_) => "point"@,
            Geometry::Line(_) => "line"@,
            Geometry::Polygon(_) => "polygon"@,
            Geometry::MultiPoint(_) => "multipoint"@,
            Geometry::MultiLine(_) => "multiline"@,
            Geometry::MultiPolygon(_) => "multipolygon"@,
            Geometry::Collection(_) => "collection"@,
        }
    }

    /// The name this shape carries in a message.
    #[must_use]
    pub fn kind_name(&self) -> (name: &'static str)
        ensures
            name@ == self.name_of_kind(),
    {
        match self {
            Geometry::Point(_) => "point",
            Geometry::Line(_) => "line",
            Geometry::Polygon(_) => "polygon",
            Geometry::MultiPoint(_) => "multipoint",
            Geometry::MultiLine(_) => "multiline",
            Geometry::MultiPolygon(_) => "multipolygon",
            Geometry::Collection(_) => "collection",
        }
    }

    /// Every position this shape is made of, in the order the bytes carry them.
    #[must_use]
    pub fn positions(&self) -> (positions: Vec<Position>)
        ensures
            positions@ == self@.positions(),
    {
        let mut out: Vec<Position> = Vec::new();
        self.collect_positions(&mut out);
        assert(out@ =~= self@.positions());
        out
    }

    fn collect_positions(&self, into: &mut Vec<Position>)
        ensures
            final(into)@ == old(into)@ + self@.positions(),
        decreases self,
    {
        let ghost before = into@;
        match self {
            Geometry::Point(position) => {
                into.push(*position);
                assert(into@ =~= before + self@.positions());
            },
            Geometry::Line(positions) | Geometry::MultiPoint(positions) => {
                append_positions(into, positions);
            },
            Geometry::Polygon(polygon) => polygon.collect_positions(into),
            Geometry::MultiLine(lines) => {
                let ghost parts = lines_view(lines@);
                let mut at: usize = 0;
                assert(into@ =~= before + parts.take(0).flatten());
                while at < lines.len()
                    invariant
                        at <= lines@.len(),
                        parts == lines_view(lines@),
                        into@ == before + parts.take(at as int).flatten(),
                    decreases lines.len() - at,
                {
                    append_positions(into, &lines[at]);
                    proof {
                        lemma_flatten_step(parts, at as int);
                        assert(into@ =~= before + parts.take(at + 1).flatten());
                    }
                    at = at + 1;
                }
                assert(parts.take(at as int) =~= parts);
            },
            Geometry::MultiPolygon(polygons) => {
                let ghost held = polygons_view(polygons@);
                let ghost parts = positions_of_polygons(held);
                let mut at: usize = 0;
                assert(into@ =~= before + parts.take(0).flatten());
                while at < polygons.len()
                    invariant
                        at <= polygons@.len(),
                        held == polygons_view(polygons@),
                        parts == positions_of_polygons(held),
                        into@ == before + parts.take(at as int).flatten(),
                    decreases polygons.len() - at,
                {
                    polygons[at].collect_positions(into);
                    proof {
                        lemma_flatten_step(parts, at as int);
                        assert(into@ =~= before + parts.take(at + 1).flatten());
                    }
                    at = at + 1;
                }
                assert(parts.take(at as int) =~= parts);
            },
            Geometry::Collection(shapes) => {
                let ghost held = self@->Collection_0;
                let ghost parts = positions_of_each(held);
                let mut at: usize = 0;
                assert(into@ =~= before + parts.take(0).flatten());
                while at < shapes.len()
                    invariant
                        at <= shapes@.len(),
                        decreases_to!(*self => *shapes),
                        held.len() == shapes@.len(),
                        forall|i: int| 0 <= i < held.len() ==> held[i] == shapes@[i]@,
                        parts.len() == held.len(),
                        forall|i: int| 0 <= i < held.len() ==> parts[i] == held[i].positions(),
                        into@ == before + parts.take(at as int).flatten(),
                    decreases shapes.len() - at,
                {
                    let shape: &Geometry = &*shapes[at];
                    assert(decreases_to!(*self => *shape));
                    shape.collect_positions(into);
                    proof {
                        lemma_flatten_step(parts, at as int);
                        assert(into@ =~= before + parts.take(at + 1).flatten());
                    }
                    at = at + 1;
                }
                assert(parts.take(at as int) =~= parts);
            },
        }
    }

    /// Whether every position is on the sphere and every ring closes.
    ///
    /// Offered to a caller, never applied by the codec.
    #[must_use]
    pub fn is_well_formed(&self) -> (well_formed: bool)
        ensures
            well_formed == self@.well_formed(),
    {
        let positions = self.positions();
        let mut at: usize = 0;
        while at < positions.len()
            invariant
                at <= positions@.len(),
                positions@ == self@.positions(),
                forall|i: int| 0 <= i < at ==> (#[trigger] self@.positions()[i]).on_the_sphere(),
            decreases positions.len() - at,
        {
            if !positions[at].is_on_the_sphere() {
                assert(!self@.positions()[at as int].on_the_sphere());
                return false;
            }
            at = at + 1;
        }
        self.is_sound()
    }

    fn is_sound(&self) -> (sound: bool)
        ensures
            sound == self@.is_sound(),
        decreases self,
    {
        match self {
            Geometry::Point(_) | Geometry::MultiPoint(_) => true,
            Geometry::Line(positions) => positions.len() >= 2,
            Geometry::Polygon(polygon) => polygon.is_closed(),
            Geometry::MultiLine(lines) => {
                let ghost held = self@->MultiLine_0;
                let mut at: usize = 0;
                while at < lines.len()
                    invariant
                        at <= lines@.len(),
                        self@ == GeometryView::MultiLine(held),
                        held == lines_view(lines@),
                        forall|i: int| 0 <= i < at ==> (#[trigger] held[i]).len() >= 2,
                    decreases lines.len() - at,
                {
                    if lines[at].len() < 2 {
                        assert(held[at as int].len() < 2);
                        return false;
                    }
                    at = at + 1;
                }
                true
            },
            Geometry::MultiPolygon(polygons) => {
                let ghost held = self@->MultiPolygon_0;
                let mut at: usize = 0;
                while at < polygons.len()
                    invariant
                        at <= polygons@.len(),
                        self@ == GeometryView::MultiPolygon(held),
                        held == polygons_view(polygons@),
                        forall|i: int| 0 <= i < at ==> (#[trigger] held[i]).is_closed(),
                    decreases polygons.len() - at,
                {
                    if !polygons[at].is_closed() {
                        assert(!held[at as int].is_closed());
                        return false;
                    }
                    at = at + 1;
                }
                true
            },
            Geometry::Collection(shapes) => {
                let ghost held = self@->Collection_0;
                let mut at: usize = 0;
                while at < shapes.len()
                    invariant
                        at <= shapes@.len(),
                        decreases_to!(*self => *shapes),
                        self@ == GeometryView::Collection(held),
                        held.len() == shapes@.len(),
                        forall|i: int| 0 <= i < held.len() ==> held[i] == shapes@[i]@,
                        forall|i: int| 0 <= i < at ==> (#[trigger] held[i]).is_sound(),
                    decreases shapes.len() - at,
                {
                    let shape: &Geometry = &*shapes[at];
                    assert(decreases_to!(*self => *shape));
                    if !shape.is_sound() {
                        assert(!held[at as int].is_sound());
                        return false;
                    }
                    at = at + 1;
                }
                true
            },
        }
    }
}

fn copy_positions(positions: &Vec<Position>) -> (copy: Vec<Position>)
    ensures
        copy@ == positions@,
{
    let mut copy: Vec<Position> = Vec::new();
    append_positions(&mut copy, positions);
    assert(copy@ =~= positions@);
    copy
}

impl Clone for Ring {
    fn clone(&self) -> (copy: Self)
        ensures
            copy@ == self@,
    {
        Ring(copy_positions(&self.0))
    }
}

impl Clone for Polygon {
    fn clone(&self) -> (copy: Self)
        ensures
            copy@ == self@,
    {
        let mut interiors: Vec<Ring> = Vec::new();
        let mut at: usize = 0;
        while at < self.interiors.len()
            invariant
                at <= self.interiors@.len(),
                interiors@.len() == at,
                forall|i: int| 0 <= i < at ==> (#[trigger] interiors@[i])@ == self.interiors@[i]@,
            decreases self.interiors.len() - at,
        {
            interiors.push(self.interiors[at].clone());
            at = at + 1;
        }
        let copy = Polygon { exterior: self.exterior.clone(), interiors };
        assert(copy@.interiors =~= self@.interiors);
        copy
    }
}

impl Clone for Geometry {
    fn clone(&self) -> (copy: Self)
        ensures
            copy@ == self@,
    {
        copy_geometry(self)
    }
}

fn copy_geometry(shape: &Geometry) -> (copy: Geometry)
    ensures
        copy@ == shape@,
    decreases shape,
{
    match shape {
        Geometry::Point(position) => Geometry::Point(*position),
        Geometry::Line(positions) => Geometry::Line(copy_positions(positions)),
        Geometry::Polygon(polygon) => Geometry::Polygon(polygon.clone()),
        Geometry::MultiPoint(positions) => Geometry::MultiPoint(copy_positions(positions)),
        Geometry::MultiLine(lines) => {
            let mut copies: Vec<Vec<Position>> = Vec::new();
            let mut at: usize = 0;
            while at < lines.len()
                invariant
                    at <= lines@.len(),
                    copies@.len() == at,
                    forall|i: int| 0 <= i < at ==> (#[trigger] copies@[i])@ == lines@[i]@,
                decreases lines.len() - at,
            {
                copies.push(copy_positions(&lines[at]));
                at = at + 1;
            }
            let copy = Geometry::MultiLine(copies);
            assert(copy@->MultiLine_0 =~= shape@->MultiLine_0);
            copy
        },
        Geometry::MultiPolygon(polygons) => {
            let mut copies: Vec<Polygon> = Vec::new();
            let mut at: usize = 0;
            while at < polygons.len()
                invariant
                    at <= polygons@.len(),
                    copies@.len() == at,
                    forall|i: int| 0 <= i < at ==> (#[trigger] copies@[i])@ == polygons@[i]@,
                decreases polygons.len() - at,
            {
                copies.push(polygons[at].clone());
                at = at + 1;
            }
            let copy = Geometry::MultiPolygon(copies);
            assert(copy@->MultiPolygon_0 =~= shape@->MultiPolygon_0);
            copy
        },
        Geometry::Collection(shapes) => {
            let mut copies: Vec<Box<Geometry>> = Vec::new();
            let mut at: usize = 0;
            while at < shapes.len()
                invariant
                    at <= shapes@.len(),
                    decreases_to!(*shape => *shapes),
                    copies@.len() == at,
                    forall|i: int| 0 <= i < at ==> (#[trigger] copies@[i])@ == shapes@[i]@,
                decreases shapes.len() - at,
            {
                let held: &Geometry = &*shapes[at];
                assert(decreases_to!(*shape => *held));
                copies.push(Box::new(copy_geometry(held)));
                at = at + 1;
            }
            let copy = Geometry::Collection(copies);
            assert(copy@->Collection_0 =~= shape@->Collection_0);
            copy
        },
    }
}

/// What is seen of a shape is what it holds: the same kind, the same positions in the same order,
/// the boundary of a polygon before its holes, and shape for shape what a collection holds.
pub proof fn law_shapes_are_seen_as_they_are(shape: Geometry)
    ensures
        match shape {
            Geometry::Point(position) => shape@ == GeometryView::Point(position),
            Geometry::Line(positions) => shape@ == GeometryView::Line(positions@),
            Geometry::MultiPoint(positions) => shape@ == GeometryView::MultiPoint(positions@),
            Geometry::Polygon(polygon) => shape@ matches GeometryView::Polygon(held)
                && polygon_is_seen(polygon, held),
            Geometry::MultiLine(lines) => shape@ matches GeometryView::MultiLine(held) && held.len()
                == lines@.len() && forall|i: int|
                0 <= i < held.len() ==> #[trigger] held[i] == lines@[i]@,
            Geometry::MultiPolygon(polygons) => shape@ matches GeometryView::MultiPolygon(held)
                && held.len() == polygons@.len() && forall|i: int|
                0 <= i < held.len() ==> polygon_is_seen(polygons@[i], #[trigger] held[i]),
            Geometry::Collection(shapes) => shape@ matches GeometryView::Collection(held)
                && held.len() == shapes@.len() && forall|i: int|
                0 <= i < held.len() ==> #[trigger] held[i] == (*shapes@[i])@,
        },
{
}

/// Whether what is seen of a polygon is its boundary and each of its holes.
pub open spec fn polygon_is_seen(polygon: Polygon, held: PolygonView) -> bool {
    &&& held.exterior == polygon.exterior.0@
    &&& held.interiors.len() == polygon.interiors@.len()
    &&& forall|i: int|
        0 <= i < held.interiors.len() ==> #[trigger] held.interiors[i] == polygon.interiors@[i].0@
}

/// A ring closes where it ends where it began, after three corners at least: the bits of both
/// coordinates are the same at both ends.
pub proof fn law_rings_close_where_they_began(ring: Seq<Position>)
    ensures
        ring_closes(ring) <==> ring.len() >= 4 && ring[0].longitude.bits == ring[ring.len()
            - 1].longitude.bits && ring[0].latitude.bits == ring[ring.len() - 1].latitude.bits,
{
}

/// What makes a shape well formed: every position on the sphere, at most 180 degrees east or west
/// and at most 90 north or south; a line of two positions or more; rings that close; and in a
/// collection every shape well formed in turn.
pub proof fn law_well_formed_shapes(
    position: Position,
    run: Seq<Position>,
    runs: Seq<Seq<Position>>,
    polygon: PolygonView,
    polygons: Seq<PolygonView>,
    shapes: Seq<GeometryView>,
)
    ensures
        position.on_the_sphere() <==> position.longitude.is_within(180)
            && position.latitude.is_within(90),
        GeometryView::Point(position).well_formed() <==> position.on_the_sphere(),
        GeometryView::MultiPoint(run).well_formed() <==> run_is_on_the_sphere(run),
        GeometryView::Line(run).well_formed() <==> run.len() >= 2 && run_is_on_the_sphere(run),
        GeometryView::MultiLine(runs).well_formed() <==> forall|i: int|
            0 <= i < runs.len() ==> (#[trigger] runs[i]).len() >= 2 && run_is_on_the_sphere(
                runs[i],
            ),
        GeometryView::Polygon(polygon).well_formed() <==> rings_are_well_formed(polygon),
        GeometryView::MultiPolygon(polygons).well_formed() <==> forall|i: int|
            0 <= i < polygons.len() ==> rings_are_well_formed(#[trigger] polygons[i]),
        GeometryView::Collection(shapes).well_formed() <==> forall|i: int|
            0 <= i < shapes.len() ==> (#[trigger] shapes[i]).well_formed(),
{
    assert(GeometryView::Point(position).positions()[0] == position);
    lemma_flat_on_the_sphere(runs);
    lemma_polygon_on_the_sphere(polygon);
    let parts = positions_of_polygons(polygons);
    lemma_flat_on_the_sphere(parts);
    assert forall|i: int| 0 <= i < polygons.len() implies (run_is_on_the_sphere(parts[i])
        && polygons[i].is_closed() <==> rings_are_well_formed(#[trigger] polygons[i])) by {
        lemma_polygon_on_the_sphere(polygons[i]);
    }
    let shape = GeometryView::MultiPolygon(polygons);
    assert(shape.positions() == parts.flatten());
    assert(shape.is_sound() == polygons_close(polygons));
    assert(shape.well_formed() <==> polygons_close(polygons) && run_is_on_the_sphere(
        parts.flatten(),
    ));
    let line = GeometryView::MultiLine(runs);
    assert(line.positions() == runs.flatten());
    assert(line.is_sound() == lines_are_paths(runs));
    assert(line.well_formed() <==> lines_are_paths(runs) && run_is_on_the_sphere(runs.flatten()));
    let held = positions_of_each(shapes);
    lemma_flat_on_the_sphere(held);
    let all = GeometryView::Collection(shapes);
    assert(all.positions() == held.flatten());
    assert(all.is_sound() == each_is_sound(shapes));
    assert(GeometryView::MultiPoint(run).positions() == run);
    assert(GeometryView::Line(run).positions() == run);
    assert(GeometryView::Polygon(polygon).positions() == polygon.positions());
    assert(GeometryView::Polygon(polygon).is_sound() == polygon.is_closed());
    assert(all.well_formed() <==> each_is_sound(shapes) && run_is_on_the_sphere(held.flatten()));
    assert forall|i: int| 0 <= i < shapes.len() implies (#[trigger] shapes[i].well_formed()
        <==> shapes[i].is_sound() && run_is_on_the_sphere(held[i])) by {
        assert(held[i] == shapes[i].positions());
    }
    if forall|i: int| 0 <= i < shapes.len() ==> (#[trigger] shapes[i]).well_formed() {
        assert forall|i: int| 0 <= i < held.len() implies run_is_on_the_sphere(
            #[trigger] held[i],
        ) by {
            assert(shapes[i].well_formed());
        }
        assert forall|i: int| 0 <= i < shapes.len() implies (#[trigger] shapes[i]).is_sound() by {
            assert(shapes[i].well_formed());
        }
    }
    if all.well_formed() {
        assert forall|i: int| 0 <= i < shapes.len() implies (#[trigger] shapes[i]).well_formed() by {
            assert(run_is_on_the_sphere(held[i]));
        }
    }
    if forall|i: int| 0 <= i < polygons.len() ==> rings_are_well_formed(#[trigger] polygons[i]) {
        assert forall|i: int| 0 <= i < parts.len() implies run_is_on_the_sphere(
            #[trigger] parts[i],
        ) by {
            assert(rings_are_well_formed(polygons[i]));
        }
        assert forall|i: int| 0 <= i < polygons.len() implies (#[trigger] polygons[i]).is_closed() by {
            assert(rings_are_well_formed(polygons[i]));
        }
    }
    if shape.well_formed() {
        assert forall|i: int| 0 <= i < polygons.len() implies rings_are_well_formed(
            #[trigger] polygons[i],
        ) by {
            assert(run_is_on_the_sphere(parts[i]));
        }
    }
}

/// Whether every position of a run is on the sphere.
pub open spec fn run_is_on_the_sphere(run: Seq<Position>) -> bool {
    forall|i: int| 0 <= i < run.len() ==> (#[trigger] run[i]).on_the_sphere()
}

/// Whether the boundary and every hole close, and stand on the sphere.
pub open spec fn rings_are_well_formed(polygon: PolygonView) -> bool {
    &&& ring_closes(polygon.exterior) && run_is_on_the_sphere(polygon.exterior)
    &&& forall|i: int|
        0 <= i < polygon.interiors.len() ==> ring_closes(#[trigger] polygon.interiors[i])
            && run_is_on_the_sphere(polygon.interiors[i])
}

proof fn lemma_join_on_the_sphere(a: Seq<Position>, b: Seq<Position>)
    ensures
        run_is_on_the_sphere(a + b) <==> run_is_on_the_sphere(a) && run_is_on_the_sphere(b),
{
    let all = a + b;
    if run_is_on_the_sphere(all) {
        assert forall|i: int| 0 <= i < a.len() implies (#[trigger] a[i]).on_the_sphere() by {
            assert(all[i] == a[i]);
        }
        assert forall|i: int| 0 <= i < b.len() implies (#[trigger] b[i]).on_the_sphere() by {
            assert(all[a.len() + i] == b[i]);
        }
    }
}

proof fn lemma_flat_on_the_sphere(parts: Seq<Seq<Position>>)
    ensures
        run_is_on_the_sphere(parts.flatten()) <==> forall|i: int|
            0 <= i < parts.len() ==> run_is_on_the_sphere(#[trigger] parts[i]),
    decreases parts.len(),
{
    if parts.len() > 0 {
        let rest = parts.drop_first();
        lemma_flat_on_the_sphere(rest);
        lemma_join_on_the_sphere(parts[0], rest.flatten());
        if run_is_on_the_sphere(parts.flatten()) {
            assert forall|i: int| 0 <= i < parts.len() implies run_is_on_the_sphere(
                #[trigger] parts[i],
            ) by {
                if i > 0 {
                    assert(parts[i] == rest[i - 1]);
                }
            }
        }
        if forall|i: int| 0 <= i < parts.len() ==> run_is_on_the_sphere(#[trigger] parts[i]) {
            assert forall|i: int| 0 <= i < rest.len() implies run_is_on_the_sphere(
                #[trigger] rest[i],
            ) by {
                assert(rest[i] == parts[i + 1]);
            }
        }
    }
}

proof fn lemma_polygon_on_the_sphere(polygon: PolygonView)
    ensures
        polygon.is_closed() && run_is_on_the_sphere(polygon.positions()) <==> rings_are_well_formed(
            polygon,
        ),
{
    lemma_flat_on_the_sphere(polygon.interiors);
    lemma_join_on_the_sphere(polygon.exterior, polygon.interiors.flatten());
    if polygon.is_closed() && run_is_on_the_sphere(polygon.positions()) {
        assert forall|i: int| 0 <= i < polygon.interiors.len() implies ring_closes(
            #[trigger] polygon.interiors[i],
        ) && run_is_on_the_sphere(polygon.interiors[i]) by {}
    }
}

/// The positions of a shape are those it holds, in the order in which it holds them.
pub proof fn law_positions_are_in_order(
    position: Position,
    run: Seq<Position>,
    runs: Seq<Seq<Position>>,
    polygon: PolygonView,
    polygons: Seq<PolygonView>,
    last: PolygonView,
    shapes: Seq<GeometryView>,
    shape: GeometryView,
)
    ensures
        GeometryView::Point(position).positions() == seq![position],
        GeometryView::Line(run).positions() == run,
        GeometryView::MultiPoint(run).positions() == run,
        GeometryView::Polygon(polygon).positions() == polygon.exterior
            + polygon.interiors.flatten(),
        GeometryView::MultiLine(runs.push(run)).positions() == GeometryView::MultiLine(
            runs,
        ).positions() + run,
        GeometryView::MultiPolygon(polygons.push(last)).positions() == GeometryView::MultiPolygon(
            polygons,
        ).positions() + GeometryView::Polygon(last).positions(),
        GeometryView::Collection(shapes.push(shape)).positions() == GeometryView::Collection(
            shapes,
        ).positions() + shape.positions(),
        GeometryView::Collection(Seq::empty()).positions() == Seq::<Position>::empty(),
        GeometryView::MultiLine(Seq::empty()).positions() == Seq::<Position>::empty(),
        GeometryView::MultiPolygon(Seq::empty()).positions() == Seq::<Position>::empty(),
{
    runs.lemma_flatten_push(run);
    let parts = positions_of_polygons(polygons);
    assert(positions_of_polygons(polygons.push(last)) =~= parts.push(last.positions()));
    parts.lemma_flatten_push(last.positions());
    let held = positions_of_each(shapes);
    assert(positions_of_each(shapes.push(shape)) =~= held.push(shape.positions()));
    held.lemma_flatten_push(shape.positions());
    assert(positions_of_each(Seq::empty()) =~= Seq::empty());
    assert(positions_of_polygons(Seq::empty()) =~= Seq::empty());
}

/// A position holds the longitude and the latitude that it was given, in that order, and is on the
/// sphere where the one is no more than 180 degrees and the other no more than 90, on either side.
pub proof fn law_positions_hold_longitude_first(
    longitude: Double,
    latitude: Double,
    position: Position,
    on: bool,
)
    requires
        call_ensures(Position::new, (longitude, latitude), position),
        call_ensures(Position::is_on_the_sphere, (&position,), on),
    ensures
        position.longitude == longitude,
        position.latitude == latitude,
        on <==> longitude.bits % 0x8000_0000_0000_0000 <= 0x4066_8000_0000_0000 && latitude.bits
            % 0x8000_0000_0000_0000 <= 0x4056_8000_0000_0000,
{
    law_bounds_are_compared_by_their_bits(longitude);
    law_bounds_are_compared_by_their_bits(latitude);
}

/// A shape is asked for its positions, whether it is well formed, and its name, and answers for all
/// that it holds.
pub proof fn law_shapes_answer_for_all_they_hold(
    shape: &Geometry,
    ring: &Ring,
    positions: Vec<Position>,
    well_formed: bool,
    closed: bool,
    name: &'static str,
)
    requires
        call_ensures(Geometry::positions, (shape,), positions),
        call_ensures(Geometry::is_well_formed, (shape,), well_formed),
        call_ensures(Ring::is_closed, (ring,), closed),
        call_ensures(Geometry::kind_name, (shape,), name),
    ensures
        positions@ == shape@.positions(),
        well_formed == shape@.well_formed(),
        closed == ring_closes(ring.0@),
        name@ == (match shape {
            Geometry::Point(_) => "point"@,
            Geometry::Line(_) => "line"@,
            Geometry::Polygon(_) => "polygon"@,
            Geometry::MultiPoint(_) => "multipoint"@,
            Geometry::MultiLine(_) => "multiline"@,
            Geometry::MultiPolygon(_) => "multipolygon"@,
            Geometry::Collection(_) => "collection"@,
        }),
{
}

/// Positions are equal where the bits of both coordinates are, and nowhere else: the two zeros are
/// different coordinates, and what is not a number equals itself.
pub proof fn law_positions_are_equal_by_their_bits(a: Position, b: Position)
    ensures
        a.eq_spec(&b) <==> a.longitude.bits == b.longitude.bits && a.latitude.bits
            == b.latitude.bits,
        a.eq_spec(&a),
{
}

}
