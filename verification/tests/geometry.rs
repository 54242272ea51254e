//! Shapes, doubles by their bits, and fields by their names.

use tessaridb_client::order::sorts_before;
use tessaridb_client::{Double, Fields, Geometry, Polygon, Position, Ring, Value};

fn double(value: f64) -> Double {
    Double::from_bits(value.to_bits())
}

fn position(longitude: f64, latitude: f64) -> Position {
    Position::new(double(longitude), double(latitude))
}

fn square() -> Ring {
    Ring(vec![
        position(0.0, 0.0),
        position(1.0, 0.0),
        position(1.0, 1.0),
        position(0.0, 0.0),
    ])
}

#[test]
fn the_sphere_has_edges_and_they_belong_to_it() {
    for (longitude, latitude, on) in [
        (180.0, 90.0, true),
        (-180.0, -90.0, true),
        (0.0, -0.0, true),
        (f64::MIN_POSITIVE / 2.0, 5e-324, true),
        (179.99999999999997, 89.99999999999999, true),
        (180.00000000000003, 0.0, false),
        (-180.00000000000003, 0.0, false),
        (0.0, 90.00000000000001, false),
        (0.0, -91.0, false),
        (181.0, 0.0, false),
        (f64::NAN, 0.0, false),
        (0.0, f64::INFINITY, false),
        (f64::NEG_INFINITY, 0.0, false),
        (f64::MAX, 0.0, false),
    ] {
        let expected = (-180.0..=180.0).contains(&longitude)
            && (-90.0..=90.0).contains(&latitude)
            && longitude.is_finite()
            && latitude.is_finite();
        assert_eq!(on, expected, "the case itself: {longitude}, {latitude}");
        assert_eq!(position(longitude, latitude).is_on_the_sphere(), on, "{longitude}, {latitude}");
    }
}

#[test]
fn positions_are_equal_by_bits_and_doubles_by_value() {
    assert_ne!(position(0.0, 0.0), position(-0.0, 0.0));
    assert_eq!(position(f64::NAN, 0.0), position(f64::NAN, 0.0));
    assert_eq!(double(0.0), double(-0.0));
    assert_ne!(double(f64::NAN), double(f64::NAN));
    assert_eq!(double(1.5), double(1.5));
    assert_ne!(double(1.5), double(-1.5));
    assert_eq!(double(f64::INFINITY), double(f64::INFINITY));
    assert_ne!(double(f64::INFINITY), double(f64::NEG_INFINITY));
}

#[test]
fn a_ring_closes_when_it_ends_where_it_began() {
    assert!(square().is_closed());
    assert!(!Ring(vec![]).is_closed());
    assert!(!Ring(vec![position(0.0, 0.0), position(1.0, 0.0), position(0.0, 0.0)]).is_closed());
    let mut open = square();
    open.0[3] = position(-0.0, 0.0);
    assert!(!open.is_closed(), "the two zeros are different coordinates");
}

#[test]
fn positions_come_in_the_order_of_the_bytes() {
    let hole = Ring(vec![position(5.0, 5.0)]);
    let polygon = Polygon { exterior: square(), interiors: vec![hole] };
    let shape = Geometry::Collection(vec![
        Box::new(Geometry::Point(position(9.0, 9.0))),
        Box::new(Geometry::MultiPolygon(vec![polygon])),
        Box::new(Geometry::MultiLine(vec![vec![position(7.0, 7.0)], vec![]])),
        Box::new(Geometry::MultiPoint(vec![position(8.0, 8.0)])),
    ]);
    let expected: Vec<Position> = [
        (9.0, 9.0),
        (0.0, 0.0),
        (1.0, 0.0),
        (1.0, 1.0),
        (0.0, 0.0),
        (5.0, 5.0),
        (7.0, 7.0),
        (8.0, 8.0),
    ]
    .into_iter()
    .map(|(longitude, latitude)| position(longitude, latitude))
    .collect();
    assert_eq!(shape.positions(), expected);
}

#[test]
fn a_shape_is_well_formed_when_every_part_of_it_is() {
    let good = Polygon { exterior: square(), interiors: vec![square()] };
    let bad = Polygon { exterior: square(), interiors: vec![Ring(vec![])] };
    assert!(Geometry::Polygon(good.clone()).is_well_formed());
    assert!(!Geometry::Polygon(bad.clone()).is_well_formed());
    assert!(!Geometry::MultiPolygon(vec![good.clone(), bad.clone()]).is_well_formed());
    assert!(Geometry::Point(position(1.0, 2.0)).is_well_formed());
    assert!(!Geometry::Point(position(2.0, 91.0)).is_well_formed());
    assert!(!Geometry::Line(vec![position(1.0, 2.0)]).is_well_formed());
    assert!(Geometry::Line(vec![position(1.0, 2.0), position(1.0, 3.0)]).is_well_formed());
    assert!(!Geometry::MultiLine(vec![vec![]]).is_well_formed());
    assert!(Geometry::MultiPoint(vec![]).is_well_formed());
    assert!(Geometry::Collection(vec![Box::new(Geometry::Polygon(good))]).is_well_formed());
    assert!(!Geometry::Collection(vec![Box::new(Geometry::Polygon(bad))]).is_well_formed());
    assert!(
        !Geometry::Collection(vec![Box::new(Geometry::Point(position(f64::NAN, 0.0)))])
            .is_well_formed()
    );
}

#[test]
fn shapes_have_names() {
    let names: Vec<&str> = [
        Geometry::Point(position(0.0, 0.0)),
        Geometry::Line(vec![]),
        Geometry::Polygon(Polygon { exterior: square(), interiors: vec![] }),
        Geometry::MultiPoint(vec![]),
        Geometry::MultiLine(vec![]),
        Geometry::MultiPolygon(vec![]),
        Geometry::Collection(vec![]),
    ]
    .iter()
    .map(Geometry::kind_name)
    .collect();
    assert_eq!(
        names,
        ["point", "line", "polygon", "multipoint", "multiline", "multipolygon", "collection"]
    );
}

#[test]
fn names_sort_as_strings_do() {
    let names = ["", "a", "a\0", "aa", "b", "p1", "p10", "p2", "é", "\u{ffff}", "\u{10000}"];
    for left in names {
        for right in names {
            assert_eq!(sorts_before(left, right), left < right, "{left:?} and {right:?}");
        }
    }
}

#[test]
fn fields_are_found_replaced_and_taken_away() {
    let mut fields = Fields::new();
    assert!(fields.is_empty());
    assert_eq!(fields.insert("b".to_owned(), Value::Null), None);
    assert_eq!(fields.insert("a".to_owned(), Value::Bool(true)), None);
    assert_eq!(
        fields.insert("b".to_owned(), Value::Bool(false)),
        Some(Value::Null)
    );
    assert_eq!(fields.len(), 2);
    assert_eq!(fields.entries()[0], ("a".to_owned(), Value::Bool(true)));
    assert_eq!(fields.get("b"), Some(&Value::Bool(false)));
    assert_eq!(fields.get("c"), None);
    assert_eq!(fields.clone(), fields);
    assert_eq!(fields.remove("c"), None);
    assert_eq!(fields.remove("a"), Some(Value::Bool(true)));
    assert_eq!(fields.remove("a"), None);
    assert_eq!(fields.len(), 1);
    assert_eq!(Fields::default(), Fields::new());
}
