//! Values to CBOR data and back.

use livequery::cbor::Data;
use livequery::convert::{
    check_geometry, decode, encode, integer, key_name, parse_record_id, Cbor, CborError,
};
use livequery::geometry::{encode_geometry, Shape};
use livequery::grammar::{all_digits, datetime_text, decimal_text, duration_text};
use livequery::text::before;
use livequery::ident::Uuid;
use livequery::value::{Id, Number, Thing, Value};

fn text(s: &str) -> Data {
    Data::Text(s.to_string())
}

fn tag(t: u64, inner: Data) -> Data {
    Data::Tag(t, Box::new(inner))
}

fn strand(s: &str) -> Value {
    Value::Strand(s.to_string())
}

fn whole(i: i64) -> Value {
    Value::Number(Number::Int(i))
}

fn thing(tb: &str, id: Id) -> Value {
    Value::Thing(Thing { tb: tb.to_string(), id })
}

const UUID_TEXT: &str = "9d8e16e4-9f6a-4704-8cf1-7cd55b937c5b";
const UUID: Uuid = Uuid(0x9d8e16e4_9f6a_4704_8cf1_7cd55b937c5b);

#[test]
fn plain_data_denotes_itself() {
    assert_eq!(decode(&Data::Null), Ok(Value::Null));
    assert_eq!(decode(&Data::Bool(true)), Ok(Value::Bool(true)));
    assert_eq!(decode(&Data::Integer(-5)), Ok(whole(-5)));
    assert_eq!(decode(&Data::Float(0x4000_0000_0000_0000)), Ok(Value::Number(Number::Float(0x4000_0000_0000_0000))));
    assert_eq!(decode(&Data::Bytes(vec![1, 2, 3])), Ok(Value::Bytes(vec![1, 2, 3])));
    assert_eq!(decode(&text("hello")), Ok(strand("hello")));
    assert_eq!(
        decode(&Data::Array(vec![Data::Null, text("a"), Data::Array(vec![Data::Integer(1)])])),
        Ok(Value::Array(vec![Value::Null, strand("a"), Value::Array(vec![whole(1)])]))
    );
    assert_eq!(decode(&Data::Array(vec![])), Ok(Value::Array(vec![])));
}

#[test]
fn an_integer_that_does_not_fit_64_bits_keeps_its_digits() {
    assert_eq!(integer(i64::MAX as i128), whole(i64::MAX));
    assert_eq!(integer(i64::MIN as i128), whole(i64::MIN));
    assert_eq!(
        integer(i64::MAX as i128 + 1),
        Value::Number(Number::Decimal("9223372036854775808".to_string()))
    );
    assert_eq!(
        decode(&Data::Integer(u64::MAX as i128)),
        Ok(Value::Number(Number::Decimal("18446744073709551615".to_string())))
    );
    assert_eq!(
        decode(&Data::Integer(-(1i128 << 64))),
        Ok(Value::Number(Number::Decimal("-18446744073709551616".to_string())))
    );
    assert_eq!(
        integer(i128::MIN),
        Value::Number(Number::Decimal("-170141183460469231731687303715884105728".to_string()))
    );
}

#[test]
fn maps_become_objects() {
    let map = Data::Dict(vec![
        (text("b"), Data::Integer(1)),
        (Data::Integer(-7), Data::Null),
        (text("a"), Data::Dict(vec![])),
        (text("b"), Data::Integer(2)),
    ]);
    // the fields stand in the order of their names
    assert_eq!(
        decode(&map),
        Ok(Value::Object(vec![
            ("-7".to_string(), Value::Null),
            ("a".to_string(), Value::Object(vec![])),
            ("b".to_string(), whole(2)),
        ]))
    );
    let keys = Data::Dict(vec![
        (text("b"), Data::Integer(1)),
        (text("a"), Data::Integer(2)),
        (text("ab"), Data::Integer(3)),
        (text(""), Data::Integer(4)),
        (text("B"), Data::Integer(5)),
        (text("\u{e9}"), Data::Integer(6)),
    ]);
    match decode(&keys) {
        Ok(Value::Object(fields)) => {
            let names: Vec<&str> = fields.iter().map(|f| f.0.as_str()).collect();
            let mut sorted = names.clone();
            sorted.sort();
            assert_eq!(names, sorted);
            assert_eq!(names, vec!["", "B", "a", "ab", "b", "\u{e9}"]);
        }
        other => panic!("{:?}", other),
    }
    assert_eq!(key_name(&strand("k")), Some("k".to_string()));
    assert_eq!(key_name(&whole(0)), Some("0".to_string()));
    assert_eq!(key_name(&Value::Null), Some("NULL".to_string()));
    assert_eq!(key_name(&Value::Absent), Some("NONE".to_string()));
    assert_eq!(key_name(&Value::Bool(true)), Some("true".to_string()));
    assert_eq!(key_name(&Value::Bool(false)), Some("false".to_string()));
    assert_eq!(key_name(&Value::Uuid(UUID)), Some(UUID_TEXT.to_string()));
    assert_eq!(key_name(&Value::Duration("1h".to_string())), Some("1h".to_string()));
    assert_eq!(
        key_name(&Value::Datetime("2024-01-01T00:00:00Z".to_string())),
        Some("2024-01-01T00:00:00Z".to_string())
    );
    assert_eq!(
        key_name(&Value::Number(Number::Decimal("1.5".to_string()))),
        Some("1.5".to_string())
    );
    assert_eq!(key_name(&Value::Array(vec![])), None);
    assert_eq!(key_name(&Value::Number(Number::Float(0))), None);
    assert_eq!(key_name(&Value::Table("t".to_string())), None);
    assert_eq!(
        decode(&Data::Dict(vec![(Data::Bool(true), Data::Null), (Data::Null, Data::Bool(true))])),
        Ok(Value::Object(vec![
            ("NULL".to_string(), Value::Bool(true)),
            ("true".to_string(), Value::Null),
        ]))
    );
    let bad_key = Data::Dict(vec![(Data::Float(0), tag(1000, Data::Null))]);
    assert_eq!(decode(&bad_key), Err(CborError::ExpectedKey));
    // the key is looked at before the value, and pairs in order
    let both = Data::Dict(vec![(tag(1000, Data::Null), tag(7, Data::Null))]);
    assert_eq!(decode(&both), Err(CborError::UnknownTag));
    let second = Data::Dict(vec![
        (text("a"), tag(7, Data::Null)),
        (tag(1000, Data::Null), Data::Null),
    ]);
    assert_eq!(decode(&second), Err(CborError::ExpectedText));
}

#[test]
fn tags_mark_values_written_as_text() {
    assert_eq!(decode(&tag(6, Data::Null)), Ok(Value::Absent));
    assert_eq!(decode(&tag(6, text("anything"))), Ok(Value::Absent));
    assert_eq!(
        decode(&tag(0, text("2024-01-01T00:00:00Z"))),
        Ok(Value::Datetime("2024-01-01T00:00:00Z".to_string()))
    );
    assert_eq!(decode(&tag(7, text(UUID_TEXT))), Ok(Value::Uuid(UUID)));
    assert_eq!(decode(&tag(7, text("no uuid"))), Err(CborError::ExpectedUuid));
    assert_eq!(
        decode(&tag(8, text("1.5"))),
        Ok(Value::Number(Number::Decimal("1.5".to_string())))
    );
    assert_eq!(decode(&tag(9, text("1h30m"))), Ok(Value::Duration("1h30m".to_string())));
    assert_eq!(decode(&tag(11, text("person"))), Ok(Value::Table("person".to_string())));
    for t in [0, 7, 8, 9, 11] {
        assert_eq!(decode(&tag(t, Data::Integer(1))), Err(CborError::ExpectedText));
        assert_eq!(decode(&tag(t, Data::Null)), Err(CborError::ExpectedText));
    }
    assert_eq!(decode(&tag(0, text("x"))), Err(CborError::ExpectedDatetime));
    assert_eq!(decode(&tag(0, text("2024-13-01T00:00:00Z"))), Err(CborError::ExpectedDatetime));
    assert_eq!(decode(&tag(8, text("1.5x"))), Err(CborError::ExpectedDecimal));
    assert_eq!(decode(&tag(8, text(""))), Err(CborError::ExpectedDecimal));
    assert_eq!(decode(&tag(9, text("1hour"))), Err(CborError::ExpectedDuration));
    assert_eq!(decode(&tag(9, text(""))), Err(CborError::ExpectedDuration));
    for t in [1, 2, 3, 4, 5, 12, 87, 95, u64::MAX] {
        assert_eq!(decode(&tag(t, text("x"))), Err(CborError::UnknownTag));
    }
    // the first item that fails decides
    let list = Data::Array(vec![Data::Null, tag(7, text("x")), tag(1000, Data::Null)]);
    assert_eq!(decode(&list), Err(CborError::ExpectedUuid));
}

#[test]
fn record_ids() {
    let parts = |id: Data| tag(10, Data::Array(vec![text("person"), id]));
    assert_eq!(decode(&parts(text("tobie"))), Ok(thing("person", Id::String("tobie".to_string()))));
    assert_eq!(decode(&parts(Data::Integer(42))), Ok(thing("person", Id::Number(42))));
    // an id that does not fit 64 bits is cut to its lower 64 bits
    assert_eq!(
        decode(&parts(Data::Integer(1i128 << 63))),
        Ok(thing("person", Id::Number(i64::MIN)))
    );
    assert_eq!(
        decode(&parts(Data::Integer(u64::MAX as i128))),
        Ok(thing("person", Id::Number(-1)))
    );
    assert_eq!(
        decode(&parts(Data::Array(vec![Data::Integer(1), text("a")]))),
        Ok(thing("person", Id::Array(vec![whole(1), strand("a")])))
    );
    assert_eq!(
        decode(&parts(Data::Dict(vec![(text("k"), Data::Bool(false))]))),
        Ok(thing("person", Id::Object(vec![("k".to_string(), Value::Bool(false))])))
    );
    assert_eq!(
        decode(&parts(Data::Array(vec![tag(1000, Data::Null)]))),
        Err(CborError::UnknownTag)
    );
    assert_eq!(decode(&parts(Data::Null)), Err(CborError::ExpectedRecordIdParts));
    assert_eq!(decode(&parts(Data::Float(0))), Err(CborError::ExpectedRecordIdParts));
    assert_eq!(
        decode(&tag(10, Data::Array(vec![Data::Integer(1), text("a")]))),
        Err(CborError::ExpectedRecordIdParts)
    );
    assert_eq!(
        decode(&tag(10, Data::Array(vec![text("person")]))),
        Err(CborError::ExpectedRecordIdShape)
    );
    assert_eq!(
        decode(&tag(10, Data::Array(vec![text("a"), text("b"), text("c")]))),
        Err(CborError::ExpectedRecordIdShape)
    );
    assert_eq!(decode(&tag(10, Data::Null)), Err(CborError::ExpectedRecordIdShape));

    assert_eq!(decode(&tag(10, text("person:tobie"))), Ok(thing("person", Id::String("tobie".to_string()))));
    assert_eq!(decode(&tag(10, text("person:42"))), Ok(thing("person", Id::Number(42))));
    assert_eq!(decode(&tag(10, text("person"))), Err(CborError::ExpectedRecordId));
}

#[test]
fn record_ids_in_text() {
    let some = |tb: &str, id: Id| Some(Thing { tb: tb.to_string(), id });
    assert_eq!(parse_record_id("t:1"), some("t", Id::Number(1)));
    assert_eq!(parse_record_id("t:007"), some("t", Id::Number(7)));
    assert_eq!(parse_record_id("t_1:a_b"), some("t_1", Id::String("a_b".to_string())));
    assert_eq!(
        parse_record_id("t:9223372036854775807"),
        some("t", Id::Number(i64::MAX))
    );
    assert_eq!(parse_record_id("t:9223372036854775808"), None);
    assert_eq!(parse_record_id("t:99999999999999999999999"), None);
    assert_eq!(parse_record_id(""), None);
    assert_eq!(parse_record_id(":"), None);
    assert_eq!(parse_record_id("t:"), None);
    assert_eq!(parse_record_id(":1"), None);
    assert_eq!(parse_record_id("1t:1"), None);
    assert_eq!(parse_record_id("t:1a"), None);
    assert_eq!(parse_record_id("t:a:b"), None);
    assert_eq!(parse_record_id("t:-1"), None);
    assert_eq!(parse_record_id("t t:1"), None);
}

fn decimal(digits: &str) -> Data {
    tag(8, text(digits))
}

fn point(x: &str, y: &str) -> Data {
    tag(88, Data::Array(vec![decimal(x), decimal(y)]))
}

fn line(points: Vec<Data>) -> Data {
    tag(89, Data::Array(points))
}

#[test]
fn geometries_are_kept_as_they_are() {
    let a = || point("1", "2.5");
    let b = || point("-3", "4");
    let l = || line(vec![a(), b()]);
    let polygon = || tag(90, Data::Array(vec![l(), l()]));
    let all = vec![
        a(),
        tag(88, Data::Array(vec![Data::Integer(1), Data::Float(7)])),
        l(),
        line(vec![]),
        polygon(),
        tag(91, Data::Array(vec![a()])),
        tag(92, Data::Array(vec![l(), line(vec![])])),
        tag(93, Data::Array(vec![polygon()])),
        tag(94, Data::Array(vec![a(), l(), polygon(), tag(94, Data::Array(vec![]))])),
    ];
    for d in all {
        assert_eq!(decode(&d), Ok(Value::Geometry(d.clone())));
        assert_eq!(encode(&Value::Geometry(d.clone())), Ok(d));
    }
}

#[test]
fn data_that_describes_no_geometry_is_refused() {
    let a = || point("1", "2");
    let l = || line(vec![a()]);
    let polygon = || tag(90, Data::Array(vec![l(), l()]));
    let arr = |t: u64, items: Vec<Data>| decode(&tag(t, Data::Array(items)));
    // a point: two numbers
    assert_eq!(arr(88, vec![]), Err(CborError::ExpectedPointValues));
    assert_eq!(arr(88, vec![decimal("1")]), Err(CborError::ExpectedPointValues));
    assert_eq!(
        arr(88, vec![decimal("1"), decimal("2"), decimal("3")]),
        Err(CborError::ExpectedPointValues)
    );
    assert_eq!(arr(88, vec![decimal("1"), text("2")]), Err(CborError::ExpectedPointValues));
    assert_eq!(arr(88, vec![Data::Null, decimal("2")]), Err(CborError::ExpectedPointValues));
    assert_eq!(arr(88, vec![decimal("x"), decimal("2")]), Err(CborError::ExpectedDecimal));
    assert_eq!(arr(88, vec![decimal("1"), tag(1000, Data::Null)]), Err(CborError::UnknownTag));
    assert_eq!(decode(&tag(88, Data::Null)), Err(CborError::ExpectedPointValues));
    // a line and a set of points: points
    for t in [89, 91] {
        assert_eq!(arr(t, vec![a(), l()]), Err(CborError::ExpectedPoints));
        assert_eq!(arr(t, vec![a(), Data::Null]), Err(CborError::ExpectedPoints));
        assert_eq!(arr(t, vec![tag(7, text("x")), Data::Null]), Err(CborError::ExpectedUuid));
        assert_eq!(decode(&tag(t, text("x"))), Err(CborError::ExpectedPoints));
    }
    // a polygon: two lines or more
    assert_eq!(arr(90, vec![]), Err(CborError::ExpectedTwoLines));
    assert_eq!(arr(90, vec![l()]), Err(CborError::ExpectedTwoLines));
    assert_eq!(decode(&tag(90, Data::Null)), Err(CborError::ExpectedTwoLines));
    assert_eq!(arr(90, vec![l(), a()]), Err(CborError::ExpectedLines));
    assert_eq!(arr(90, vec![a(), tag(1000, Data::Null)]), Err(CborError::ExpectedLines));
    // a set of lines
    assert_eq!(arr(92, vec![l(), polygon()]), Err(CborError::ExpectedLines));
    assert_eq!(decode(&tag(92, Data::Null)), Err(CborError::ExpectedPoints));
    // a set of polygons
    assert_eq!(arr(93, vec![polygon(), l()]), Err(CborError::ExpectedPolygons));
    assert_eq!(decode(&tag(93, Data::Null)), Err(CborError::ExpectedPolygons));
    assert_eq!(
        arr(93, vec![tag(90, Data::Array(vec![l()]))]),
        Err(CborError::ExpectedTwoLines)
    );
    // a collection: geometries
    assert_eq!(arr(94, vec![a(), whole_data(1)]), Err(CborError::ExpectedGeometries));
    assert_eq!(decode(&tag(94, Data::Null)), Err(CborError::ExpectedGeometries));
    assert_eq!(
        Value::try_from(&Cbor(tag(90, Data::Array(vec![])))).map_err(|e| e.message()),
        Err("Expected a CBOR array with at least two Geometry Line values")
    );
    assert_eq!(check_geometry(90, &Data::Array(vec![l(), l()])), None);
    assert_eq!(check_geometry(90, &Data::Array(vec![])), Some(CborError::ExpectedTwoLines));
}

fn whole_data(i: i128) -> Data {
    Data::Integer(i)
}

#[test]
fn geometries_are_written() {
    let p = |x: &str, y: &str| Shape::Point(x.to_string(), y.to_string());
    assert_eq!(encode_geometry(&p("1", "2.5")), point("1", "2.5"));
    let l = || Shape::Line(vec![p("1", "2"), p("3", "4")]);
    let ld = || line(vec![point("1", "2"), point("3", "4")]);
    assert_eq!(encode_geometry(&l()), ld());
    assert_eq!(encode_geometry(&Shape::Line(vec![])), line(vec![]));
    let polygon = || Shape::Polygon(vec![l(), Shape::Line(vec![])]);
    let pd = || tag(90, Data::Array(vec![ld(), line(vec![])]));
    assert_eq!(encode_geometry(&polygon()), pd());
    assert_eq!(
        encode_geometry(&Shape::MultiPoint(vec![p("0", "0")])),
        tag(91, Data::Array(vec![point("0", "0")]))
    );
    assert_eq!(
        encode_geometry(&Shape::MultiLine(vec![l()])),
        tag(92, Data::Array(vec![ld()]))
    );
    assert_eq!(
        encode_geometry(&Shape::MultiPolygon(vec![polygon()])),
        tag(93, Data::Array(vec![pd()]))
    );
    let all = Shape::Collection(vec![p("1", "2"), l(), polygon(), Shape::Collection(vec![])]);
    let data = encode_geometry(&all);
    assert_eq!(
        data,
        tag(94, Data::Array(vec![point("1", "2"), ld(), pd(), tag(94, Data::Array(vec![]))]))
    );
    // what is written is read as a geometry
    assert_eq!(decode(&data), Ok(Value::Geometry(data.clone())));
    // a coordinate that is no number is written, and refused when read
    let odd = encode_geometry(&p("NaN", "1"));
    assert_eq!(odd, point("NaN", "1"));
    assert_eq!(decode(&odd), Err(CborError::ExpectedDecimal));
}

#[test]
fn values_are_written() {
    assert_eq!(encode(&Value::Absent), Ok(tag(6, Data::Null)));
    assert_eq!(encode(&Value::Null), Ok(Data::Null));
    assert_eq!(encode(&Value::Bool(false)), Ok(Data::Bool(false)));
    assert_eq!(encode(&whole(i64::MIN)), Ok(Data::Integer(i64::MIN as i128)));
    assert_eq!(encode(&Value::Number(Number::Float(7))), Ok(Data::Float(7)));
    assert_eq!(
        encode(&Value::Number(Number::Decimal("1.5".to_string()))),
        Ok(tag(8, text("1.5")))
    );
    assert_eq!(encode(&strand("s")), Ok(text("s")));
    assert_eq!(encode(&Value::Duration("1h".to_string())), Ok(tag(9, text("1h"))));
    assert_eq!(
        encode(&Value::Datetime("2024-01-01T00:00:00Z".to_string())),
        Ok(tag(0, text("2024-01-01T00:00:00Z")))
    );
    assert_eq!(encode(&Value::Uuid(UUID)), Ok(tag(7, text(UUID_TEXT))));
    assert_eq!(encode(&Value::Bytes(vec![9])), Ok(Data::Bytes(vec![9])));
    assert_eq!(encode(&Value::Table("person".to_string())), Ok(tag(11, text("person"))));
    assert_eq!(
        encode(&Value::Array(vec![Value::Null, whole(1)])),
        Ok(Data::Array(vec![Data::Null, Data::Integer(1)]))
    );
    assert_eq!(
        encode(&Value::Object(vec![("b".to_string(), whole(1)), ("a".to_string(), Value::Absent)])),
        Ok(Data::Dict(vec![(text("b"), Data::Integer(1)), (text("a"), tag(6, Data::Null))]))
    );
    assert_eq!(
        encode(&thing("person", Id::Number(1))),
        Ok(tag(10, Data::Array(vec![text("person"), Data::Integer(1)])))
    );
    assert_eq!(
        encode(&thing("person", Id::String("tobie".to_string()))),
        Ok(tag(10, Data::Array(vec![text("person"), text("tobie")])))
    );
    assert_eq!(
        encode(&thing("person", Id::Array(vec![whole(1)]))),
        Ok(tag(10, Data::Array(vec![text("person"), Data::Array(vec![Data::Integer(1)])])))
    );
    assert_eq!(
        encode(&thing("person", Id::Object(vec![("k".to_string(), whole(1))]))),
        Ok(tag(
            10,
            Data::Array(vec![text("person"), Data::Dict(vec![(text("k"), Data::Integer(1))])])
        ))
    );
}

#[test]
fn what_cannot_be_written() {
    assert_eq!(encode(&thing("person", Id::Generate)), Err(CborError::Ungenerated));
    assert_eq!(encode(&Value::Param("p".to_string())), Err(CborError::Unsupported));
    assert_eq!(
        encode(&Value::Array(vec![Value::Null, Value::Param("p".to_string()), thing("t", Id::Generate)])),
        Err(CborError::Unsupported)
    );
    assert_eq!(
        encode(&Value::Object(vec![
            ("a".to_string(), thing("t", Id::Generate)),
            ("b".to_string(), Value::Param("p".to_string())),
        ])),
        Err(CborError::Ungenerated)
    );
    assert_eq!(
        encode(&thing("t", Id::Array(vec![Value::Param("p".to_string())]))),
        Err(CborError::Unsupported)
    );
}

#[test]
fn a_value_is_read_back_as_itself() {
    let value = || {
        Value::Object(vec![
            ("bytes".to_string(), Value::Bytes(vec![0, 255])),
            ("d".to_string(), Value::Number(Number::Decimal("12345678901234567890".to_string()))),
            ("f".to_string(), Value::Number(Number::Float(0x3ff8_0000_0000_0000))),
            (
                "list".to_string(),
                Value::Array(vec![
                    thing("person", Id::Number(i64::MAX)),
                    thing("person", Id::String("a b".to_string())),
                    thing("person", Id::Array(vec![strand("x"), Value::Array(vec![])])),
                    thing(
                        "person",
                        Id::Object(vec![
                            ("a".to_string(), Value::Bool(true)),
                            ("k".to_string(), Value::Bool(true)),
                        ]),
                    ),
                ]),
            ),
            ("long".to_string(), Value::Duration("2w".to_string())),
            ("n".to_string(), whole(-3)),
            ("none".to_string(), Value::Absent),
            ("null".to_string(), Value::Null),
            ("shape".to_string(), Value::Geometry(point("1.5", "-2"))),
            ("table".to_string(), Value::Table("person".to_string())),
            ("u".to_string(), Value::Uuid(UUID)),
            ("when".to_string(), Value::Datetime("2024-01-01T00:00:00Z".to_string())),
        ])
    };
    let data = encode(&value()).unwrap();
    assert_eq!(decode(&data), Ok(value()));
    assert_eq!(data.clone(), data);
    assert_eq!(data.duplicate(), data);
    assert_eq!(value().clone(), value());
    assert_eq!(value().duplicate(), value());
    let id = Id::Object(vec![("k".to_string(), Value::Array(vec![Value::Null]))]);
    assert_eq!(id.clone(), id);
}

#[test]
fn the_messages_of_the_errors() {
    let all = [
        (CborError::ExpectedText, "Expected a CBOR text data type"),
        (CborError::ExpectedUuid, "Expected a valid UUID value"),
        (CborError::ExpectedDatetime, "Expected a valid Datetime value"),
        (CborError::ExpectedDecimal, "Expected a valid Decimal value"),
        (CborError::ExpectedDuration, "Expected a valid Duration value"),
        (CborError::ExpectedPointValues, "Expected a CBOR array with 2 decimal values"),
        (CborError::ExpectedPoints, "Expected a CBOR array with Geometry Point values"),
        (
            CborError::ExpectedTwoLines,
            "Expected a CBOR array with at least two Geometry Line values",
        ),
        (CborError::ExpectedLines, "Expected a CBOR array with Geometry Line values"),
        (CborError::ExpectedPolygons, "Expected a CBOR array with Geometry Polygon values"),
        (CborError::ExpectedGeometries, "Expected a CBOR array with Geometry values"),
        (CborError::ExpectedRecordId, "Expected a valid RecordID value"),
        (
            CborError::ExpectedRecordIdParts,
            "Expected a CBOR array with 2 elements, a text data type, and a valid ID type",
        ),
        (
            CborError::ExpectedRecordIdShape,
            "Expected a CBOR text data type, or a CBOR array with 2 elements",
        ),
        (CborError::ExpectedKey, "Expected a CBOR map key that can be written as text"),
        (CborError::UnknownTag, "Encountered an unknown CBOR tag"),
        (CborError::Ungenerated, "Cannot encode an ungenerated Record ID into CBOR"),
        (
            CborError::Unsupported,
            "Found unsupported SurrealQL value being encoded into a CBOR value",
        ),
    ];
    for (error, message) in all {
        assert_eq!(error.message(), message);
    }
}

#[test]
fn cbor_to_value_and_back() {
    let cbor = Cbor(tag(11, text("person")));
    assert_eq!(Value::try_from(&cbor), Ok(Value::Table("person".to_string())));
    assert_eq!(Cbor::try_from(&Value::Table("person".to_string())), Ok(cbor));
    assert_eq!(Value::try_from(&Cbor(tag(12, Data::Null))), Err(CborError::UnknownTag));
    assert_eq!(Cbor::try_from(&Value::Param("p".to_string())), Err(CborError::Unsupported));
}

#[test]
fn the_order_of_texts() {
    assert!(before("", "a"));
    assert!(!before("", ""));
    assert!(!before("a", ""));
    assert!(before("a", "b"));
    assert!(!before("b", "a"));
    assert!(!before("a", "a"));
    assert!(before("a", "ab"));
    assert!(!before("ab", "a"));
    assert!(before("B", "a"));
    assert!(before("-7", "a"));
    assert!(before("z", "\u{e9}"));
    assert!(before("\u{e9}", "\u{4e2d}"));
    for (a, b) in [("", "a"), ("a", "b"), ("ab", "b"), ("z", "\u{e9}"), ("x", "x")] {
        assert_eq!(before(a, b), a < b);
        assert_eq!(before(b, a), b < a);
    }
}

#[test]
fn the_written_forms_of_decimals_durations_and_datetimes() {
    for ok in ["0", "12", "-1", "+1", "1.5", "-0.25", "007.100"] {
        assert!(decimal_text(ok), "{}", ok);
    }
    for bad in ["", "-", "+", ".", "1.", ".5", "1.5.2", "1e5", "NaN", "inf", " 1", "1 ", "--1"] {
        assert!(!decimal_text(bad), "{}", bad);
    }
    for ok in ["1s", "1h30m", "2w", "1y2w3d4h5m6s7ms8us9ns", "10\u{b5}s", "0ns", "1m1h", "5ms"] {
        assert!(duration_text(ok), "{}", ok);
    }
    for bad in ["", "1", "h", "1x", "1h30", "h1", "1 h", "1.5h", "-1h", "1hs", "1ss"] {
        assert!(!duration_text(bad), "{}", bad);
    }
    for ok in [
        "2024-01-01T00:00:00Z",
        "0000-12-31T23:59:59Z",
        "2024-01-31T23:59:59.5Z",
        "2024-01-31T23:59:59.123456789+02:00",
        "2024-01-31T23:59:59-23:59",
    ] {
        assert!(datetime_text(ok), "{}", ok);
    }
    for bad in [
        "",
        "x",
        "2024-01-01",
        "2024-01-01T00:00:00",
        "2024-00-01T00:00:00Z",
        "2024-13-01T00:00:00Z",
        "2024-01-00T00:00:00Z",
        "2024-01-32T00:00:00Z",
        "2024-01-01T24:00:00Z",
        "2024-01-01T00:60:00Z",
        "2024-01-01T00:00:60Z",
        "2024-01-01 00:00:00Z",
        "2024-01-01T00:00:00.Z",
        "2024-01-01T00:00:00z",
        "2024-01-01T00:00:00+2:00",
        "2024-01-01T00:00:00+24:00",
        "2024-01-01T00:00:00+02:60",
        "2024-01-01T00:00:00ZZ",
        "24-01-01T00:00:00Z",
    ] {
        assert!(!datetime_text(bad), "{}", bad);
    }
    assert!(all_digits("0123456789"));
    assert!(!all_digits(""));
    assert!(!all_digits("12a"));
}
