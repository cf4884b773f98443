use nitroglycerin::data::{IntKind, Shape, Value, VariantShape};
use nitroglycerin::de::{enum_parts, from_av, split_option, take_entries, take_list_items, Error};
use nitroglycerin::ser::{to_av, SerError};
use nitroglycerin::value::{AttributeValue, Attributes};

fn s(x: &str) -> AttributeValue {
    AttributeValue::from_s(x.to_string())
}

fn n(x: &str) -> AttributeValue {
    AttributeValue::from_n(x.to_string())
}

fn l(items: Vec<AttributeValue>) -> AttributeValue {
    AttributeValue::from_l(items)
}

fn m(entries: Vec<(&str, AttributeValue)>) -> AttributeValue {
    let mut a = Attributes::new();
    for (k, v) in entries {
        a.insert(k.to_string(), v);
    }
    AttributeValue::from_m(a)
}

fn text(x: &str) -> Value {
    Value::Str(x.to_string())
}

fn u32_shape() -> Shape {
    Shape::Int(IntKind::U32)
}

fn record_shape() -> Shape {
    Shape::Struct(vec![
        ("int".to_string(), u32_shape()),
        ("seq".to_string(), Shape::List(Box::new(Shape::Str))),
    ])
}

fn record_value() -> Value {
    Value::Struct(vec![
        ("int".to_string(), Value::UInt(1)),
        ("seq".to_string(), Value::List(vec![text("a"), text("b")])),
    ])
}

fn record_wire() -> AttributeValue {
    m(vec![("int", n("1")), ("seq", l(vec![s("a"), s("b")]))])
}

fn enum_shape() -> Shape {
    Shape::Enum(vec![
        ("Unit".to_string(), VariantShape::Unit),
        ("Newtype".to_string(), VariantShape::Newtype(u32_shape())),
        ("Tuple".to_string(), VariantShape::Tuple(vec![u32_shape(), u32_shape()])),
        ("Struct".to_string(), VariantShape::Struct(vec![("a".to_string(), u32_shape())])),
    ])
}

fn enum_cases() -> Vec<(Value, AttributeValue)> {
    vec![
        (Value::UnitVariant("Unit".to_string()), s("Unit")),
        (
            Value::NewtypeVariant("Newtype".to_string(), Box::new(Value::UInt(1))),
            m(vec![("Newtype", n("1"))]),
        ),
        (
            Value::TupleVariant("Tuple".to_string(), vec![Value::UInt(1), Value::UInt(2)]),
            m(vec![("Tuple", l(vec![n("1"), n("2")]))]),
        ),
        (
            Value::StructVariant("Struct".to_string(), vec![("a".to_string(), Value::UInt(1))]),
            m(vec![("Struct", m(vec![("a", n("1"))]))]),
        ),
    ]
}

#[test]
fn ser_test_struct() {
    assert_eq!(to_av(&record_value()).unwrap(), record_wire());
}

#[test]
fn de_test_struct() {
    assert_eq!(from_av(record_wire(), &record_shape()).unwrap(), record_value());
}

#[test]
fn ser_test_enum() {
    for (value, wire) in enum_cases() {
        assert_eq!(to_av(&value).unwrap(), wire);
    }
}

#[test]
fn de_test_enum() {
    for (value, wire) in enum_cases() {
        assert_eq!(from_av(wire, &enum_shape()).unwrap(), value);
    }
}

#[test]
fn round_trip_nested_value() {
    let shape = Shape::Struct(vec![
        ("id".to_string(), Shape::Str),
        ("left".to_string(), Shape::Option(Box::new(Shape::Int(IntKind::I64)))),
        ("joined".to_string(), Shape::Option(Box::new(Shape::Int(IntKind::I64)))),
        ("flag".to_string(), Shape::Bool),
        ("raw".to_string(), Shape::Bytes),
        ("pair".to_string(), Shape::Tuple(vec![Shape::Int(IntKind::I8), Shape::Str])),
        ("tags".to_string(), Shape::Mapping(Box::new(Shape::Int(IntKind::U16)))),
        ("kind".to_string(), enum_shape()),
        ("nothing".to_string(), Shape::Unit),
    ]);
    let value = Value::Struct(vec![
        ("id".to_string(), text("emp_1")),
        ("left".to_string(), Value::Absent),
        ("joined".to_string(), Value::Present(Box::new(Value::Int(-1626900000)))),
        ("flag".to_string(), Value::Bool(true)),
        ("raw".to_string(), Value::Bytes(vec![0, 255, 7])),
        ("pair".to_string(), Value::List(vec![Value::Int(-128), text("x")])),
        (
            "tags".to_string(),
            Value::Mapping(vec![(text("b"), Value::UInt(2)), (text("a"), Value::UInt(65535))]),
        ),
        (
            "kind".to_string(),
            Value::TupleVariant("Tuple".to_string(), vec![Value::UInt(7), Value::UInt(4294967295)]),
        ),
        ("nothing".to_string(), Value::Unit),
    ]);
    let wire = to_av(&value).unwrap();
    assert_eq!(from_av(wire, &shape).unwrap(), value);
}

#[test]
fn round_trip_every_variant_kind() {
    for (value, _) in enum_cases() {
        let wire = to_av(&value).unwrap();
        assert_eq!(from_av(wire, &enum_shape()).unwrap(), value);
    }
}

#[test]
fn option_law() {
    assert_eq!(to_av(&Value::Absent).unwrap(), AttributeValue::null_value());
    assert_eq!(to_av(&Value::Present(Box::new(Value::UInt(5)))).unwrap(), n("5"));
    let shape = Shape::Option(Box::new(u32_shape()));
    assert_eq!(from_av(AttributeValue::null_value(), &shape).unwrap(), Value::Absent);
    assert_eq!(from_av(n("5"), &shape).unwrap(), Value::Present(Box::new(Value::UInt(5))));
}

#[test]
fn null_payload_is_a_set_flag() {
    let wire = to_av(&Value::Unit).unwrap();
    assert_eq!(wire.null, Some(true));
    assert_eq!(wire.s, None);
    assert_eq!(from_av(wire, &Shape::Unit).unwrap(), Value::Unit);
}

#[test]
fn missing_record_field() {
    let wire = m(vec![("int", n("1"))]);
    assert_eq!(from_av(wire, &record_shape()), Err(Error::MissingField));
}

#[test]
fn extra_record_entries_are_not_read() {
    let wire = m(vec![("int", n("1")), ("other", s("x")), ("seq", l(vec![]))]);
    let expected = Value::Struct(vec![
        ("int".to_string(), Value::UInt(1)),
        ("seq".to_string(), Value::List(vec![])),
    ]);
    assert_eq!(from_av(wire, &record_shape()).unwrap(), expected);
}

#[test]
fn number_field_from_string_payload() {
    assert_eq!(from_av(s("1"), &u32_shape()), Err(Error::IncorrectType));
}

#[test]
fn number_field_without_payload() {
    assert_eq!(from_av(AttributeValue::empty(), &u32_shape()), Err(Error::MissingField));
    assert_eq!(from_av(AttributeValue::empty(), &Shape::Any), Err(Error::MissingField));
}

#[test]
fn enum_map_with_two_entries() {
    let wire = m(vec![("Newtype", n("1")), ("Unit", s("x"))]);
    assert_eq!(
        from_av(wire, &enum_shape()),
        Err(Error::Message("too many values in map for enum".to_string()))
    );
}

#[test]
fn enum_map_with_no_entry() {
    let wire = m(vec![]);
    assert_eq!(
        from_av(wire, &enum_shape()),
        Err(Error::Message("no values in map for enum".to_string()))
    );
}

#[test]
fn unit_variant_with_data() {
    let wire = m(vec![("Unit", n("1"))]);
    assert_eq!(from_av(wire, &enum_shape()), Err(Error::MissingField));
}

#[test]
fn unknown_variant_name() {
    assert!(matches!(from_av(s("Other"), &enum_shape()), Err(Error::Message(_))));
}

#[test]
fn data_variant_named_as_text() {
    assert!(matches!(from_av(s("Newtype"), &enum_shape()), Err(Error::Message(_))));
}

#[test]
fn list_keeps_order() {
    let wire = to_av(&Value::List(vec![Value::Int(3), Value::Int(1), Value::Int(2)])).unwrap();
    let shape = Shape::List(Box::new(Shape::Int(IntKind::I64)));
    assert_eq!(
        from_av(wire, &shape).unwrap(),
        Value::List(vec![Value::Int(3), Value::Int(1), Value::Int(2)])
    );
}

#[test]
fn set_payloads_read_as_sequences() {
    let mut ss = AttributeValue::empty();
    ss.ss = Some(vec!["x".to_string(), "y".to_string()]);
    let got = from_av(ss, &Shape::List(Box::new(Shape::Str))).unwrap();
    assert_eq!(got, Value::List(vec![text("x"), text("y")]));

    let mut ns = AttributeValue::empty();
    ns.ns = Some(vec!["10".to_string(), "-2".to_string()]);
    let got = from_av(ns, &Shape::List(Box::new(Shape::Int(IntKind::I32)))).unwrap();
    assert_eq!(got, Value::List(vec![Value::Int(10), Value::Int(-2)]));

    let mut bs = AttributeValue::empty();
    bs.bs = Some(vec![vec![1, 2], vec![]]);
    let got = from_av(bs, &Shape::List(Box::new(Shape::Bytes))).unwrap();
    assert_eq!(got, Value::List(vec![Value::Bytes(vec![1, 2]), Value::Bytes(vec![])]));
}

#[test]
fn sequence_from_scalar_payload() {
    assert_eq!(from_av(s("a"), &Shape::List(Box::new(Shape::Str))), Err(Error::ExpectedArray));
}

#[test]
fn tuple_too_short() {
    let shape = Shape::Tuple(vec![u32_shape(), u32_shape()]);
    assert!(matches!(from_av(l(vec![n("1")]), &shape), Err(Error::Message(_))));
}

#[test]
fn number_text_that_does_not_parse() {
    assert_eq!(from_av(n("abc"), &u32_shape()), Err(Error::ParseIntError));
    assert_eq!(from_av(n("300"), &Shape::Int(IntKind::U8)), Err(Error::ParseIntError));
    assert_eq!(from_av(n("-1"), &u32_shape()), Err(Error::ParseIntError));
    assert_eq!(from_av(n("1.5"), &Shape::Int(IntKind::I64)), Err(Error::ParseIntError));
    assert_eq!(from_av(n(""), &Shape::Int(IntKind::I64)), Err(Error::ParseIntError));
}

#[test]
fn number_text_edges() {
    assert_eq!(from_av(n("+7"), &u32_shape()).unwrap(), Value::UInt(7));
    assert_eq!(from_av(n("-128"), &Shape::Int(IntKind::I8)).unwrap(), Value::Int(-128));
    assert_eq!(from_av(n("-129"), &Shape::Int(IntKind::I8)), Err(Error::ParseIntError));
    assert_eq!(
        from_av(n("18446744073709551615"), &Shape::Int(IntKind::U64)).unwrap(),
        Value::UInt(u64::MAX)
    );
    assert_eq!(
        from_av(n("-9223372036854775808"), &Shape::Int(IntKind::I64)).unwrap(),
        Value::Int(i64::MIN)
    );
}

#[test]
fn integers_written_as_decimal_text() {
    assert_eq!(to_av(&Value::Int(-42)).unwrap(), n("-42"));
    assert_eq!(to_av(&Value::UInt(u64::MAX)).unwrap(), n("18446744073709551615"));
    assert_eq!(to_av(&Value::Int(0)).unwrap(), n("0"));
}

#[test]
fn nesting_deeper_than_the_limit() {
    let mut shape = Shape::Str;
    for _ in 0..200 {
        shape = Shape::Option(Box::new(shape));
    }
    assert_eq!(from_av(s("x"), &shape), Err(Error::DepthLimit));
}

#[test]
fn map_key_that_is_not_text() {
    let value = Value::Mapping(vec![(Value::UInt(1), text("a"))]);
    assert_eq!(to_av(&value), Err(SerError::ExpectedStr));
}

#[test]
fn repeated_map_key_keeps_last_value() {
    let value = Value::Mapping(vec![
        (text("k"), Value::UInt(1)),
        (text("j"), Value::UInt(2)),
        (text("k"), Value::UInt(3)),
    ]);
    assert_eq!(to_av(&value).unwrap(), m(vec![("k", n("3")), ("j", n("2"))]));
}

#[test]
fn any_shape_follows_the_payload() {
    let wire = m(vec![("a", n("5")), ("b", l(vec![s("x"), AttributeValue::from_bool(false)]))]);
    let expected = Value::Mapping(vec![
        (text("a"), Value::Int(5)),
        (text("b"), Value::List(vec![text("x"), Value::Bool(false)])),
    ]);
    assert_eq!(from_av(wire, &Shape::Any).unwrap(), expected);
    assert_eq!(
        from_av(AttributeValue::from_b(vec![9]), &Shape::Any).unwrap(),
        Value::Bytes(vec![9])
    );
    assert_eq!(from_av(AttributeValue::null_value(), &Shape::Any).unwrap(), Value::Unit);
}

#[test]
fn character_round_trip() {
    let wire = to_av(&Value::Char('é')).unwrap();
    assert_eq!(wire, s("é"));
    assert_eq!(from_av(wire, &Shape::Char).unwrap(), Value::Char('é'));
}

#[test]
fn character_from_longer_text() {
    assert!(matches!(from_av(s("ab"), &Shape::Char), Err(Error::Message(_))));
    assert!(matches!(from_av(s(""), &Shape::Char), Err(Error::Message(_))));
}

#[test]
fn option_layer_split() {
    assert_eq!(split_option(AttributeValue::null_value()), None);
    let mut v = n("4");
    v.null = Some(false);
    let kept = split_option(v).unwrap();
    assert_eq!(kept.null, Some(false));
    assert_eq!(kept.n, Some("4".to_string()));
}

#[test]
fn entries_taken_from_map_payload() {
    let entries = take_entries(m(vec![("a", n("1"))])).unwrap();
    assert_eq!(entries.len(), 1);
    assert_eq!(take_entries(s("x")).err(), Some(Error::IncorrectType));
    assert_eq!(take_entries(AttributeValue::empty()).err(), Some(Error::MissingField));
}

#[test]
fn enum_parts_by_payload() {
    assert_eq!(enum_parts(s("Unit")), Ok(("Unit".to_string(), None)));
    assert_eq!(
        enum_parts(m(vec![("Newtype", n("1"))])),
        Ok(("Newtype".to_string(), Some(n("1"))))
    );
    assert_eq!(
        enum_parts(m(vec![])),
        Err(Error::Message("no values in map for enum".to_string()))
    );
    assert_eq!(
        enum_parts(m(vec![("A", n("1")), ("B", n("2"))])),
        Err(Error::Message("too many values in map for enum".to_string()))
    );
    assert_eq!(enum_parts(n("1")), Err(Error::IncorrectType));
}

#[test]
fn list_items_lift_set_members() {
    let mut ns = AttributeValue::empty();
    ns.ns = Some(vec!["1".to_string(), "2".to_string()]);
    assert_eq!(take_list_items(ns), Some(vec![n("1"), n("2")]));
    assert_eq!(take_list_items(l(vec![s("a")])), Some(vec![s("a")]));
    assert_eq!(take_list_items(s("a")), None);
}

#[test]
fn optional_with_false_null_reads_as_inner_type() {
    let mut wire = AttributeValue::empty();
    wire.null = Some(false);
    let mut same = AttributeValue::empty();
    same.null = Some(false);
    assert_eq!(from_av(wire, &Shape::Option(Box::new(Shape::Str))), Err(Error::IncorrectType));
    assert_eq!(from_av(same, &Shape::Str), Err(Error::IncorrectType));
}

#[test]
fn optional_with_false_null_and_value() {
    let mut wire = n("3");
    wire.null = Some(false);
    assert_eq!(
        from_av(wire, &Shape::Option(Box::new(u32_shape()))).unwrap(),
        Value::Present(Box::new(Value::UInt(3)))
    );
}
