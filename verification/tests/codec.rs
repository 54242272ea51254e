//! The value codec: round trips, and the bytes themselves wherever the protocol pins them.

use tessaridb_client::codec::read::Reader;
use tessaridb_client::codec::write::put_varbytes;
use tessaridb_client::codec::{decode, encode};
use tessaridb_client::{
    Bound, Double, EncodingFault, Fields, Geometry, Number, Polygon, Position, RecordId, RecordRef,
    Ring, Value, ValueRange,
};

fn double(value: f64) -> Double {
    Double::from_bits(value.to_bits())
}

fn position(longitude: f64, latitude: f64) -> Position {
    Position::new(double(longitude), double(latitude))
}

fn round_trip(value: &Value) {
    let bytes = encode(value);
    let back = decode(&bytes).expect("a value this crate wrote should decode");
    assert_eq!(&back, value, "round trip changed the value");
}

#[test]
fn every_one_of_the_seventeen_types_round_trips() {
    let cases = vec![
        Value::Absent,
        Value::Null,
        Value::Bool(true),
        Value::Bool(false),
        Value::Number(Number::Integer(0)),
        Value::Number(Number::Integer(i64::MIN)),
        Value::Number(Number::Integer(i64::MAX)),
        Value::Number(Number::Float(double(1.5))),
        Value::Number(Number::Decimal {
            mantissa: 1234,
            scale: 2,
        }),
        Value::String("hello".to_owned()),
        Value::Bytes(vec![0, 1, 255]),
        Value::Duration {
            seconds: -5,
            nanos: 999_999_999,
        },
        Value::Datetime {
            seconds: 1_700_000_000,
            nanos: 0,
        },
        Value::Uuid([7; 16]),
        Value::Table(42),
        Value::Record(RecordRef::new(3, RecordId::Int(-1))),
        Value::Array(vec![Value::Null, Value::Bool(true)]),
        Value::Object(Fields::of(vec![
            ("b".to_owned(), Value::Null),
            ("a".to_owned(), Value::Bool(false)),
        ])),
        Value::Range(Box::new(ValueRange::new(
            Bound::Included(Value::Number(Number::Integer(1))),
            Bound::Excluded(Value::Number(Number::Integer(9))),
        ))),
        Value::SetOf(vec![Value::Bool(true)]),
        Value::Geometry(Geometry::Point(position(2.3522, 48.8566))),
        // A polygon with a hole: the interior-ring count is the field a codec
        // written from the point case alone would forget.
        Value::Geometry(Geometry::Polygon(Polygon {
            exterior: Ring(vec![
                position(0.0, 0.0),
                position(1.0, 0.0),
                position(1.0, 1.0),
                position(0.0, 0.0),
            ]),
            interiors: vec![Ring(vec![position(0.25, 0.25)])],
        })),
        // A collection inside a collection: each member carries its own kind
        // byte, which is what makes the nesting readable at all.
        Value::Geometry(Geometry::Collection(vec![Box::new(Geometry::Collection(
            vec![Box::new(Geometry::Line(vec![
                position(0.0, 0.0),
                position(1.0, 1.0),
            ]))],
        ))])),
        Value::Regex("^a.*z$".to_owned()),
    ];
    assert_eq!(cases.len(), 24, "the case list lost entries");
    for case in &cases {
        round_trip(case);
    }
}

#[test]
fn an_integer_is_written_with_its_sign_bit_inverted() {
    let one = encode(&Value::Number(Number::Integer(1)));
    assert_eq!(
        one,
        vec![0x04, 0x01, 0x80, 0, 0, 0, 0, 0, 0, 0x01],
        "an integer 1 must encode as 80 00 00 00 00 00 00 01, not plain big-endian"
    );

    let minimum = encode(&Value::Number(Number::Integer(i64::MIN)));
    assert_eq!(
        minimum,
        vec![0x04, 0x01, 0, 0, 0, 0, 0, 0, 0, 0],
        "the inversion maps i64::MIN to all-zero"
    );

    let maximum = encode(&Value::Number(Number::Integer(i64::MAX)));
    assert_eq!(
        maximum,
        vec![0x04, 0x01, 0xFF, 0xFF, 0xFF, 0xFF, 0xFF, 0xFF, 0xFF, 0xFF],
        "the inversion maps i64::MAX to all-ones"
    );

    let negative = encode(&Value::Number(Number::Integer(-1)));
    assert_eq!(
        negative,
        vec![0x04, 0x01, 0x7F, 0xFF, 0xFF, 0xFF, 0xFF, 0xFF, 0xFF, 0xFF],
        "minus one sits just below zero under the inversion"
    );
}

#[test]
fn a_float_and_a_decimal_mantissa_are_written_plain() {
    // 1.0f64 is 0x3FF0_0000_0000_0000. Written as its bits, not inverted.
    let float = encode(&Value::Number(Number::Float(double(1.0))));
    assert_eq!(
        float,
        vec![0x04, 0x02, 0x3F, 0xF0, 0, 0, 0, 0, 0, 0],
        "float bits are plain big-endian"
    );

    let decimal = encode(&Value::Number(Number::Decimal {
        mantissa: 1,
        scale: 0,
    }));
    let mut expected = vec![0x04, 0x03];
    expected.extend_from_slice(&1_i128.to_be_bytes());
    expected.extend_from_slice(&0_u32.to_be_bytes());
    assert_eq!(
        decimal, expected,
        "a decimal mantissa is plain big-endian, unlike an integer"
    );
}

#[test]
fn a_negative_decimal_mantissa_is_two_s_complement() {
    for mantissa in [-1_i128, -1234, i128::MIN, i128::MAX] {
        let value = Value::Number(Number::Decimal { mantissa, scale: 7 });
        let mut expected = vec![0x04, 0x03];
        expected.extend_from_slice(&mantissa.to_be_bytes());
        expected.extend_from_slice(&7_u32.to_be_bytes());
        assert_eq!(encode(&value), expected);
        round_trip(&value);
    }
}

#[test]
fn a_record_id_of_each_kind_round_trips_including_the_awkward_bytes() {
    for id in [
        RecordId::Int(-9),
        RecordId::Text("a/b".to_owned()),
        RecordId::Uuid([1; 16]),
        // A zero inside the body is what the escape exists for; a trailing one
        // is where a careless escaper terminates early.
        RecordId::Bytes(vec![0, 1, 0, 0xFF, 0]),
    ] {
        round_trip(&Value::Record(RecordRef::new(1, id)));
    }
}

#[test]
fn a_zero_is_escaped_and_the_block_is_terminated() {
    let value = Value::Record(RecordRef::new(1, RecordId::Bytes(vec![7, 0])));
    assert_eq!(
        encode(&value),
        vec![0x0b, 0, 0, 0, 1, 0x04, 7, 0x00, 0xFF, 0x00, 0x01]
    );
}

/// The block that a record's identity is written as, after what opens it.
fn block(held: &[u8]) -> Vec<u8> {
    let value = Value::Record(RecordRef::new(1, RecordId::Bytes(held.to_vec())));
    let bytes = encode(&value);
    assert_eq!(decode(&bytes), Ok(value), "an escaped block is read back");
    bytes[6..].to_vec()
}

#[test]
fn escaped_blocks_sort_as_the_bytes_they_hold() {
    assert_eq!(
        block(&[0, 1, 0, 0xFF, 0]),
        [0, 0xFF, 1, 0, 0xFF, 0xFF, 0, 0xFF, 0, 1]
    );
    let held: [&[u8]; 9] = [
        &[],
        &[0],
        &[0, 0],
        &[0, 1],
        &[0, 0xFF],
        &[1],
        &[1, 0],
        &[1, 1],
        &[0xFF],
    ];
    for (at, low) in held.iter().enumerate() {
        for high in &held[at + 1..] {
            assert!(block(low) < block(high), "{low:?} {high:?}");
        }
    }
}

#[test]
fn an_escaped_block_is_read_back_and_nothing_after_it() {
    let mut out = vec![9];
    put_varbytes(&mut out, &[0, 1, 0, 0xFF, 0]);
    assert_eq!(out, [9, 0, 0xFF, 1, 0, 0xFF, 0xFF, 0, 0xFF, 0, 1]);
    out.extend_from_slice(&[7, 8]);
    let mut reader = Reader::new(&out[1..]);
    assert_eq!(reader.take_varbytes(), Ok(vec![0, 1, 0, 0xFF, 0]));
    assert_eq!(reader.remaining(), 2);
    // A block without what ends it is a prefix of a block that goes on from there.
    let mut longer = Vec::new();
    put_varbytes(&mut longer, &[0, 1, 0, 0xFF, 0, 0, 5]);
    assert!(longer.starts_with(&out[1..9]));
    assert_eq!(
        Reader::new(&[5, 0]).take_varbytes(),
        Err(EncodingFault::Unterminated)
    );
}

#[test]
fn a_nested_value_round_trips_through_every_container() {
    let deep = Value::Array(vec![Value::Object(Fields::of(vec![(
        "inner".to_owned(),
        Value::SetOf(vec![Value::Range(Box::new(ValueRange::new(
            Bound::Unbounded,
            Bound::Included(Value::String("end".to_owned())),
        )))]),
    )]))]);
    round_trip(&deep);
}

#[test]
fn an_unknown_type_tag_is_refused_rather_than_guessed_at() {
    let fault = decode(&[0xEE]).expect_err("an unknown tag must not decode");
    assert_eq!(fault, EncodingFault::UnknownTag { tag: 0xEE });
}

#[test]
fn trailing_bytes_after_a_complete_value_are_an_error() {
    let mut bytes = encode(&Value::Null);
    bytes.push(0x99);
    let fault = decode(&bytes).expect_err("trailing bytes must not be ignored");
    assert_eq!(fault, EncodingFault::TrailingBytes { count: 1 });
}

#[test]
fn a_truncated_value_is_an_error_and_not_a_panic() {
    // A string that declares four bytes and supplies one.
    let bytes = vec![0x05, 0, 0, 0, 4, b'a'];
    let fault = decode(&bytes).expect_err("a short read must not decode");
    assert_eq!(fault, EncodingFault::Truncated);
}

#[test]
fn every_strict_prefix_of_a_value_is_refused() {
    let value = Value::Object(Fields::of(vec![
        ("id".to_owned(), Value::Record(RecordRef::new(9, RecordId::Text("k".to_owned())))),
        ("at".to_owned(), Value::Datetime { seconds: 1, nanos: 2 }),
    ]));
    let bytes = encode(&value);
    for kept in 0..bytes.len() {
        let fault = decode(&bytes[..kept]).expect_err("a short read must not decode");
        assert!(
            matches!(fault, EncodingFault::Truncated | EncodingFault::Unterminated),
            "{kept} bytes: {fault:?}"
        );
    }
    assert_eq!(decode(&bytes), Ok(value));
}

#[test]
fn a_lying_count_costs_an_error_and_not_the_process() {
    // An array claiming four billion items, supplying none. If the decoder
    // pre-allocated on that number this test would not return.
    let bytes = vec![0x0c, 0xFF, 0xFF, 0xFF, 0xFF];
    let fault = decode(&bytes).expect_err("a lying count must not decode");
    assert_eq!(fault, EncodingFault::Truncated);
}

#[test]
fn a_deeply_nested_value_is_refused_rather_than_ending_the_stack() {
    // Two hundred nested arrays, each declaring one item. Without a depth limit
    // this recurses until the stack ends, which is a crash no caller can catch.
    let mut bytes = Vec::new();
    for _ in 0_u32..200 {
        bytes.push(0x0c);
        bytes.extend_from_slice(&1_u32.to_be_bytes());
    }
    bytes.push(0x02);
    let fault = decode(&bytes).expect_err("excessive nesting must be refused");
    assert_eq!(fault, EncodingFault::Truncated);
}

fn nested(levels: usize) -> Value {
    let mut value = Value::Null;
    for _ in 0..levels {
        value = Value::Array(vec![value]);
    }
    value
}

#[test]
fn the_depth_limit_is_met_exactly() {
    round_trip(&nested(128));
    assert_eq!(decode(&encode(&nested(129))), Err(EncodingFault::Truncated));
}

#[test]
fn nested_collections_count_against_the_depth_limit() {
    let mut shape = Geometry::Point(position(0.0, 0.0));
    for _ in 0..127 {
        shape = Geometry::Collection(vec![Box::new(shape)]);
    }
    round_trip(&Value::Geometry(shape.clone()));
    let deeper = Value::Geometry(Geometry::Collection(vec![Box::new(shape)]));
    assert_eq!(decode(&encode(&deeper)), Err(EncodingFault::Truncated));
}

#[test]
fn an_invalid_escape_inside_a_record_id_is_named() {
    // tag record, table 1, kind text, then `00 7F` — a zero followed by neither
    // a terminator nor an escaped zero.
    let bytes = vec![0x0b, 0, 0, 0, 1, 0x02, 0x00, 0x7F];
    let fault = decode(&bytes).expect_err("an invalid escape must not decode");
    assert_eq!(fault, EncodingFault::InvalidEscape { found: 0x7F });
}

#[test]
fn a_record_id_that_never_ends_is_unterminated() {
    assert_eq!(
        decode(&[0x0b, 0, 0, 0, 1, 0x04, 7]),
        Err(EncodingFault::Unterminated)
    );
    assert_eq!(
        decode(&[0x0b, 0, 0, 0, 1, 0x04, 7, 0]),
        Err(EncodingFault::Unterminated)
    );
}

#[test]
fn a_sub_second_value_a_second_or_longer_is_refused() {
    let mut bytes = vec![0x08];
    bytes.extend_from_slice(&[0x80, 0, 0, 0, 0, 0, 0, 0]);
    bytes.extend_from_slice(&1_000_000_000_u32.to_be_bytes());
    let fault = decode(&bytes).expect_err("a whole second of nanoseconds is not a sub-second");
    assert_eq!(
        fault,
        EncodingFault::InvalidSubSecond {
            nanos: 1_000_000_000
        }
    );
}

#[test]
fn text_that_is_not_utf8_is_refused() {
    let bytes = vec![0x05, 0, 0, 0, 1, 0xFF];
    let fault = decode(&bytes).expect_err("invalid UTF-8 must not decode");
    assert_eq!(fault, EncodingFault::InvalidUtf8);
}

#[test]
fn none_and_null_are_different_bytes_and_stay_different() {
    assert_eq!(encode(&Value::Absent), vec![0x01]);
    assert_eq!(encode(&Value::Null), vec![0x02]);
    assert_ne!(Value::Absent, Value::Null);
}

#[test]
fn unknown_kinds_inside_a_value_are_refused_by_name() {
    let cases: Vec<Vec<u8>> = vec![
        vec![0x04, 0x09],             // a number of no known shape
        vec![0x0b, 0, 0, 0, 1, 0x09], // an identity of no known kind
        vec![0x0e, 0x09],             // a bound of no known kind
        vec![0x10, 0x09],             // a shape of no known kind
    ];
    for bytes in cases {
        assert_eq!(decode(&bytes), Err(EncodingFault::UnknownTag { tag: 0x09 }));
    }
}

#[test]
fn objects_are_held_in_the_order_of_their_names_and_a_later_field_wins() {
    // `b`, then `a`, then `b` again.
    let mut bytes = vec![0x0d, 0, 0, 0, 3];
    for (name, tag) in [(b'b', 0x01_u8), (b'a', 0x02), (b'b', 0x02)] {
        bytes.extend_from_slice(&[0, 0, 0, 1, name, tag]);
    }
    let value = decode(&bytes).expect("an object");
    assert_eq!(
        value,
        Value::Object(Fields::of(vec![
            ("a".to_owned(), Value::Null),
            ("b".to_owned(), Value::Null),
        ]))
    );
    assert_eq!(
        encode(&value),
        vec![0x0d, 0, 0, 0, 2, 0, 0, 0, 1, b'a', 0x02, 0, 0, 0, 1, b'b', 0x02]
    );
}

#[test]
fn any_byte_but_zero_is_true() {
    assert_eq!(decode(&[0x03, 0x00]), Ok(Value::Bool(false)));
    assert_eq!(decode(&[0x03, 0x07]), Ok(Value::Bool(true)));
}

#[test]
fn longitude_comes_first_in_the_bytes() {
    let bytes = encode(&Value::Geometry(Geometry::Point(position(1.0, 2.0))));
    let mut expected = vec![0x10, 0x01];
    expected.extend_from_slice(&1.0_f64.to_bits().to_be_bytes());
    expected.extend_from_slice(&2.0_f64.to_bits().to_be_bytes());
    assert_eq!(bytes, expected);
}

#[test]
fn every_shape_round_trips() {
    let ring = || {
        Ring(vec![
            position(0.0, 0.0),
            position(1.0, 0.0),
            position(1.0, 1.0),
            position(0.0, 0.0),
        ])
    };
    let polygon = || Polygon {
        exterior: ring(),
        interiors: vec![ring(), Ring(vec![])],
    };
    for shape in [
        Geometry::Point(position(-0.0, f64::NAN)),
        Geometry::Line(vec![position(1.0, 2.0)]),
        Geometry::Polygon(polygon()),
        Geometry::MultiPoint(vec![position(1.0, 2.0), position(3.0, 4.0)]),
        Geometry::MultiLine(vec![vec![], vec![position(1.0, 2.0)]]),
        Geometry::MultiPolygon(vec![polygon(), polygon()]),
        Geometry::Collection(vec![]),
    ] {
        round_trip(&Value::Geometry(shape));
    }
}

#[test]
fn integers_sort_as_their_bytes_do() {
    let numbers = [i64::MIN, -300, -1, 0, 1, 255, 256, i64::MAX];
    for pair in numbers.windows(2) {
        let low = encode(&Value::from(pair[0]));
        let high = encode(&Value::from(pair[1]));
        assert!(low < high, "{} and {}", pair[0], pair[1]);
    }
}

#[test]
fn faults_are_told_in_words() {
    assert_eq!(EncodingFault::Truncated.to_string(), "the value is truncated");
    assert_eq!(
        EncodingFault::UnknownTag { tag: 0x0e }.to_string(),
        "value tag 0x0e is not one this client knows"
    );
    assert_eq!(EncodingFault::InvalidUtf8.to_string(), "a string is not valid UTF-8");
    assert_eq!(
        EncodingFault::InvalidSubSecond { nanos: 1_000_000_000 }.to_string(),
        "1000000000 is not a representable sub-second value"
    );
    assert_eq!(
        EncodingFault::Unterminated.to_string(),
        "a variable-length component is unterminated"
    );
    assert_eq!(
        EncodingFault::InvalidEscape { found: 0xAF }.to_string(),
        "0xaf is not a valid escape"
    );
    assert_eq!(
        EncodingFault::TrailingBytes { count: 12 }.to_string(),
        "12 bytes remain after a complete value"
    );
}
