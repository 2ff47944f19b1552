use rlua_serde::{
    decode, encode, Data, Deserializer, Error, Inferred, Serializer, Shape, Value, VariantKind,
    VariantShape,
};

fn text(s: &str) -> Data {
    Data::Text(s.to_owned())
}

fn string(s: &str) -> Value {
    Value::String(s.as_bytes().to_vec())
}

fn named(name: &str, data: Data) -> (String, Data) {
    (name.to_owned(), data)
}

fn boxed(shape: Shape) -> Box<Shape> {
    Box::new(shape)
}

fn shape_e() -> Shape {
    Shape::Enum(vec![
        ("Unit".to_owned(), VariantShape::Unit),
        ("Newtype".to_owned(), VariantShape::Newtype(Shape::Any)),
        ("Tuple".to_owned(), VariantShape::Tuple(vec![Shape::Any, Shape::Any])),
        (
            "Struct".to_owned(),
            VariantShape::Struct(vec![("a".to_owned(), Shape::Any)]),
        ),
    ])
}

#[test]
fn scalars_are_encoded() {
    assert_eq!(encode(&Data::Unit).unwrap(), Value::Nil);
    assert_eq!(encode(&Data::Bool(true)).unwrap(), Value::Boolean(true));
    assert_eq!(encode(&Data::I8(-128)).unwrap(), Value::Integer(-128));
    assert_eq!(encode(&Data::I16(-300)).unwrap(), Value::Integer(-300));
    assert_eq!(encode(&Data::I32(i32::MIN)).unwrap(), Value::Integer(-2147483648));
    assert_eq!(encode(&Data::I64(i64::MIN)).unwrap(), Value::Integer(i64::MIN));
    assert_eq!(encode(&Data::U8(255)).unwrap(), Value::Integer(255));
    assert_eq!(encode(&Data::U16(65535)).unwrap(), Value::Integer(65535));
    assert_eq!(encode(&Data::U32(u32::MAX)).unwrap(), Value::Integer(4294967295));
    assert_eq!(
        encode(&Data::Float(2.5f64.to_bits())).unwrap(),
        Value::Number(0x4004000000000000)
    );
    assert_eq!(encode(&Data::Char('a')).unwrap(), string("a"));
    assert_eq!(
        encode(&Data::Char('€')).unwrap(),
        Value::String(vec![0xE2, 0x82, 0xAC])
    );
    assert_eq!(encode(&text("héllo")).unwrap(), string("héllo"));
    assert_eq!(encode(&text("")).unwrap(), Value::String(vec![]));
}

#[test]
fn unsigned_above_the_signed_range_is_reinterpreted() {
    assert_eq!(
        encode(&Data::U64(i64::MAX as u64)).unwrap(),
        Value::Integer(i64::MAX)
    );
    assert_eq!(
        encode(&Data::U64(i64::MAX as u64 + 1)).unwrap(),
        Value::Integer(i64::MIN)
    );
    assert_eq!(encode(&Data::U64(u64::MAX)).unwrap(), Value::Integer(-1));
    assert_eq!(
        encode(&Data::U64(u64::MAX - 41)).unwrap(),
        Value::Integer(-42)
    );
    assert_eq!(
        Serializer {}.serialize_u64(12345678901234567890),
        Value::Integer(12345678901234567890u64 as i64)
    );
}

#[test]
fn bytes_are_a_sequence_of_integers() {
    assert_eq!(
        encode(&Data::Bytes(vec![7, 0, 255])).unwrap(),
        Value::Table(vec![
            (Value::Integer(1), Value::Integer(7)),
            (Value::Integer(2), Value::Integer(0)),
            (Value::Integer(3), Value::Integer(255)),
        ])
    );
    assert_eq!(encode(&Data::Bytes(vec![])).unwrap(), Value::Table(vec![]));
}

#[test]
fn options_are_encoded() {
    assert_eq!(encode(&Data::Optional(None)).unwrap(), Value::Nil);
    assert_eq!(
        encode(&Data::Optional(Some(Box::new(Data::I32(3))))).unwrap(),
        encode(&Data::I32(3)).unwrap()
    );
    assert_eq!(
        encode(&Data::Optional(Some(Box::new(Data::Optional(None))))).unwrap(),
        Value::Nil
    );
    assert_eq!(
        encode(&Data::Newtype(Box::new(text("x")))).unwrap(),
        string("x")
    );
}

#[test]
fn options_are_decoded() {
    let shape = Shape::Optional(boxed(Shape::Any));
    assert_eq!(decode(&Value::Nil, &shape).unwrap(), Data::Optional(None));
    assert_eq!(
        decode(&Value::Integer(3), &shape).unwrap(),
        Data::Optional(Some(Box::new(Data::I64(3))))
    );
    assert_eq!(
        decode(&Value::Boolean(false), &shape).unwrap(),
        Data::Optional(Some(Box::new(Data::Bool(false))))
    );
    assert!(matches!(
        decode(&Value::Other, &shape),
        Err(Error::InvalidValueType)
    ));
    let nested = Shape::Optional(boxed(Shape::Optional(boxed(Shape::Any))));
    assert_eq!(decode(&Value::Nil, &nested).unwrap(), Data::Optional(None));
    assert_eq!(
        decode(&string("s"), &nested).unwrap(),
        Data::Optional(Some(Box::new(Data::Optional(Some(Box::new(text("s")))))))
    );
}

#[test]
fn sequences_and_tuples_are_encoded_from_one() {
    let expected = Value::Table(vec![
        (Value::Integer(1), string("a")),
        (Value::Integer(2), string("b")),
    ]);
    assert_eq!(
        encode(&Data::Sequence(vec![text("a"), text("b")])).unwrap(),
        expected
    );
    assert_eq!(
        encode(&Data::Tuple(vec![text("a"), text("b")])).unwrap(),
        expected
    );
    assert_eq!(encode(&Data::Sequence(vec![])).unwrap(), Value::Table(vec![]));
}

#[test]
fn struct_shape() {
    let data = Data::Struct(vec![
        named("int", Data::U32(1)),
        named("seq", Data::Sequence(vec![text("a"), text("b")])),
        named(
            "map",
            Data::Mapping(vec![(Data::I32(1), Data::I32(2)), (Data::I32(4), Data::I32(1))]),
        ),
        named("empty", Data::Sequence(vec![])),
    ]);
    let value = encode(&data).unwrap();
    assert_eq!(
        value,
        Value::Table(vec![
            (string("int"), Value::Integer(1)),
            (
                string("seq"),
                Value::Table(vec![
                    (Value::Integer(1), string("a")),
                    (Value::Integer(2), string("b")),
                ])
            ),
            (
                string("map"),
                Value::Table(vec![
                    (Value::Integer(1), Value::Integer(2)),
                    (Value::Integer(4), Value::Integer(1)),
                ])
            ),
            (string("empty"), Value::Table(vec![])),
        ])
    );
    let shape = Shape::Struct(vec![
        ("int".to_owned(), Shape::Any),
        ("seq".to_owned(), Shape::Sequence(boxed(Shape::Any))),
        (
            "map".to_owned(),
            Shape::Mapping(boxed(Shape::Any), boxed(Shape::Any)),
        ),
        ("empty".to_owned(), Shape::Sequence(boxed(Shape::Any))),
    ]);
    assert_eq!(
        decode(&value, &shape).unwrap(),
        Data::Struct(vec![
            named("int", Data::I64(1)),
            named("seq", Data::Sequence(vec![text("a"), text("b")])),
            named(
                "map",
                Data::Mapping(vec![(Data::I64(1), Data::I64(2)), (Data::I64(4), Data::I64(1))]),
            ),
            named("empty", Data::Sequence(vec![])),
        ])
    );
}

#[test]
fn a_field_that_the_shape_does_not_know_is_read_as_what_it_is() {
    let value = Value::Table(vec![
        (string("known"), Value::Table(vec![])),
        (string("unknown"), Value::Table(vec![])),
    ]);
    let shape = Shape::Struct(vec![(
        "known".to_owned(),
        Shape::Sequence(boxed(Shape::Any)),
    )]);
    assert_eq!(
        decode(&value, &shape).unwrap(),
        Data::Struct(vec![
            named("known", Data::Sequence(vec![])),
            named("unknown", Data::Mapping(vec![])),
        ])
    );
}

#[test]
fn a_field_name_must_be_text() {
    let shape = Shape::Struct(vec![]);
    let number = Value::Table(vec![(Value::Integer(1), Value::Nil)]);
    assert!(matches!(decode(&number, &shape), Err(Error::NameNotText)));
    let bad = Value::Table(vec![(Value::String(vec![0xff]), Value::Nil)]);
    assert!(matches!(decode(&bad, &shape), Err(Error::InvalidUtf8)));
    let other = Value::Table(vec![(Value::Other, Value::Nil)]);
    assert!(matches!(decode(&other, &shape), Err(Error::InvalidValueType)));
}

#[test]
fn tuple_length_enforcement() {
    let three = Value::Table(vec![
        (Value::Integer(1), Value::Integer(1)),
        (Value::Integer(2), Value::Integer(2)),
        (Value::Integer(3), Value::Integer(3)),
    ]);
    let two = Value::Table(vec![
        (Value::Integer(1), Value::Integer(1)),
        (Value::Integer(2), Value::Integer(2)),
    ]);
    let pair = Shape::Tuple(vec![Shape::Any, Shape::Any]);
    let triple = Shape::Tuple(vec![Shape::Any, Shape::Any, Shape::Any]);
    assert!(matches!(decode(&three, &pair), Err(Error::InvalidLength(3))));
    assert!(matches!(decode(&two, &triple), Err(Error::InvalidLength(2))));
    assert_eq!(
        decode(&two, &pair).unwrap(),
        Data::Tuple(vec![Data::I64(1), Data::I64(2)])
    );
    assert_eq!(
        decode(&Value::Table(vec![]), &Shape::Tuple(vec![])).unwrap(),
        Data::Tuple(vec![])
    );
    assert!(matches!(
        decode(&Value::Table(vec![]), &pair),
        Err(Error::InvalidLength(0))
    ));
}

#[test]
fn an_element_that_cannot_be_read_comes_before_the_length() {
    let value = Value::Table(vec![
        (Value::Integer(1), Value::Other),
        (Value::Integer(2), Value::Integer(2)),
        (Value::Integer(3), Value::Integer(3)),
    ]);
    let pair = Shape::Tuple(vec![Shape::Any, Shape::Any]);
    assert!(matches!(decode(&value, &pair), Err(Error::InvalidValueType)));
}

#[test]
fn a_sequence_is_the_sequential_run() {
    let value = Value::Table(vec![
        (string("name"), string("x")),
        (Value::Integer(2), Value::Integer(20)),
        (Value::Integer(1), Value::Integer(10)),
        (Value::Integer(4), Value::Integer(40)),
        (Value::Integer(0), Value::Integer(0)),
        (Value::Number(3.0f64.to_bits()), Value::Integer(30)),
    ]);
    assert_eq!(
        decode(&value, &Shape::Sequence(boxed(Shape::Any))).unwrap(),
        Data::Sequence(vec![Data::I64(10), Data::I64(20)])
    );
    let mut seq = Deserializer { value: &value }.deserialize_seq().unwrap();
    assert_eq!(seq.size_hint(), None);
    assert_eq!(seq.next_element().unwrap().value, &Value::Integer(10));
    assert!(matches!(seq.end(), Err(Error::InvalidLength(2))));
}

#[test]
fn a_nil_element_ends_the_run() {
    let value = Value::Table(vec![
        (Value::Integer(1), Value::Integer(10)),
        (Value::Integer(2), Value::Nil),
        (Value::Integer(3), Value::Integer(30)),
    ]);
    assert_eq!(
        decode(&value, &Shape::Sequence(boxed(Shape::Any))).unwrap(),
        Data::Sequence(vec![Data::I64(10)])
    );
}

#[test]
fn only_a_table_is_a_sequence() {
    let seq = Shape::Sequence(boxed(Shape::Any));
    let tuple = Shape::Tuple(vec![]);
    for value in [
        Value::Nil,
        Value::Boolean(true),
        Value::Integer(1),
        Value::Number(0),
        string("abc"),
        Value::String(vec![0xff]),
        Value::Other,
    ] {
        assert!(matches!(decode(&value, &seq), Err(Error::InvalidValueType)));
        assert!(matches!(decode(&value, &tuple), Err(Error::InvalidValueType)));
        assert!(matches!(
            Deserializer { value: &value }.deserialize_tuple(2),
            Err(Error::InvalidValueType)
        ));
        assert!(matches!(
            Deserializer { value: &value }.deserialize_tuple_struct(2),
            Err(Error::InvalidValueType)
        ));
    }
}

#[test]
fn only_a_table_is_a_map() {
    let map = Shape::Mapping(boxed(Shape::Any), boxed(Shape::Any));
    let fields = Shape::Struct(vec![]);
    for value in [
        Value::Nil,
        Value::Boolean(true),
        Value::Integer(1),
        Value::Number(0),
        string("abc"),
        Value::Other,
    ] {
        assert!(matches!(decode(&value, &map), Err(Error::InvalidValueType)));
        assert!(matches!(decode(&value, &fields), Err(Error::InvalidValueType)));
    }
    let bad = Value::String(vec![0xc0]);
    assert!(matches!(decode(&bad, &map), Err(Error::InvalidUtf8)));
    assert!(matches!(decode(&bad, &fields), Err(Error::InvalidUtf8)));
}

#[test]
fn shape_inference() {
    assert_eq!(decode(&Value::Nil, &Shape::Any).unwrap(), Data::Unit);
    assert_eq!(
        decode(&Value::Boolean(true), &Shape::Any).unwrap(),
        Data::Bool(true)
    );
    assert_eq!(
        decode(&Value::Integer(-9), &Shape::Any).unwrap(),
        Data::I64(-9)
    );
    assert_eq!(
        decode(&Value::Number(f64::NAN.to_bits()), &Shape::Any).unwrap(),
        Data::Float(f64::NAN.to_bits())
    );
    assert_eq!(decode(&string("grüß"), &Shape::Any).unwrap(), text("grüß"));
    assert!(matches!(
        decode(&Value::String(vec![b'a', 0x80]), &Shape::Any),
        Err(Error::InvalidUtf8)
    ));
    assert!(matches!(
        decode(&Value::Other, &Shape::Any),
        Err(Error::InvalidValueType)
    ));
    let table = Value::Table(vec![
        (Value::Integer(1), string("a")),
        (string("k"), Value::Table(vec![(Value::Boolean(true), Value::Nil)])),
    ]);
    assert_eq!(
        decode(&table, &Shape::Any).unwrap(),
        Data::Mapping(vec![
            (Data::I64(1), text("a")),
            (text("k"), Data::Mapping(vec![(Data::Bool(true), Data::Unit)])),
        ])
    );
    let broken = Value::Table(vec![
        (Value::Integer(1), string("a")),
        (Value::Integer(2), Value::Other),
        (Value::Integer(3), Value::String(vec![0xff])),
    ]);
    assert!(matches!(
        decode(&broken, &Shape::Any),
        Err(Error::InvalidValueType)
    ));
}

#[test]
fn inference_step_by_step() {
    assert!(matches!(
        Deserializer { value: &Value::Nil }.deserialize_any(),
        Ok(Inferred::Unit)
    ));
    assert!(matches!(
        Deserializer { value: &Value::Boolean(false) }.deserialize_any(),
        Ok(Inferred::Bool(false))
    ));
    assert!(matches!(
        Deserializer { value: &Value::Integer(4) }.deserialize_any(),
        Ok(Inferred::I64(4))
    ));
    assert!(matches!(
        Deserializer { value: &Value::Number(77) }.deserialize_any(),
        Ok(Inferred::F64(77))
    ));
    match (Deserializer { value: &string("hi") }).deserialize_any() {
        Ok(Inferred::Str(s)) => assert_eq!(s, "hi"),
        _ => panic!("not a text"),
    }
    let table = Value::Table(vec![
        (string("a"), Value::Integer(1)),
        (string("b"), Value::Integer(2)),
    ]);
    let mut map = match (Deserializer { value: &table }).deserialize_any() {
        Ok(Inferred::Table(map)) => map,
        _ => panic!("not a table"),
    };
    assert_eq!(map.size_hint(), None);
    assert!(matches!(map.next_value(), Err(Error::ValueMissing)));
    assert_eq!(map.next_key().unwrap().value, &string("a"));
    assert_eq!(map.next_value().unwrap().value, &Value::Integer(1));
    assert!(matches!(map.next_value(), Err(Error::ValueMissing)));
    assert_eq!(map.next_key().unwrap().value, &string("b"));
    assert_eq!(map.next_key().map(|d| d.value), None);
    assert_eq!(map.next_value().unwrap().value, &Value::Integer(2));
    assert!(map.end().is_ok());
}

#[test]
fn entries_left_unread_are_a_length_error() {
    let table = Value::Table(vec![
        (Value::Integer(1), Value::Integer(10)),
        (Value::Integer(2), Value::Integer(20)),
        (string("x"), Value::Integer(30)),
    ]);
    let mut map = match (Deserializer { value: &table }).deserialize_any() {
        Ok(Inferred::Table(map)) => map,
        _ => panic!("not a table"),
    };
    assert!(map.next_key().is_some());
    assert!(matches!(map.end(), Err(Error::InvalidLength(2))));
}

#[test]
fn option_step() {
    assert!(Deserializer { value: &Value::Nil }.deserialize_option().is_none());
    let value = Value::Table(vec![]);
    assert_eq!(
        Deserializer { value: &value }
            .deserialize_option()
            .unwrap()
            .value,
        &value
    );
}

#[test]
fn enum_unit_variant() {
    let unit = Data::UnitVariant("Unit".to_owned());
    assert_eq!(encode(&unit).unwrap(), string("Unit"));
    assert_eq!(decode(&string("Unit"), &shape_e()).unwrap(), unit);
    assert!(matches!(
        decode(&string("unit"), &shape_e()),
        Err(Error::UnknownVariant)
    ));
    assert!(matches!(
        decode(&string(""), &shape_e()),
        Err(Error::UnknownVariant)
    ));
    assert!(matches!(
        decode(&Value::String(vec![0xfe]), &shape_e()),
        Err(Error::InvalidUtf8)
    ));
}

#[test]
fn a_bare_string_names_no_variant_with_a_payload() {
    assert!(matches!(
        decode(&string("Newtype"), &shape_e()),
        Err(Error::InvalidType {
            unexpected: VariantKind::Unit,
            expected: VariantKind::Newtype
        })
    ));
    assert!(matches!(
        decode(&string("Tuple"), &shape_e()),
        Err(Error::InvalidType {
            unexpected: VariantKind::Unit,
            expected: VariantKind::Tuple
        })
    ));
    assert!(matches!(
        decode(&string("Struct"), &shape_e()),
        Err(Error::InvalidType {
            unexpected: VariantKind::Unit,
            expected: VariantKind::Struct
        })
    ));
    let carried = Value::Table(vec![(string("Unit"), Value::Integer(1))]);
    assert!(matches!(
        decode(&carried, &shape_e()),
        Err(Error::InvalidType {
            unexpected: VariantKind::Newtype,
            expected: VariantKind::Unit
        })
    ));
}

#[test]
fn enum_payload_variants() {
    let newtype = Data::NewtypeVariant("Newtype".to_owned(), Box::new(Data::I64(1)));
    let tuple = Data::TupleVariant("Tuple".to_owned(), vec![Data::I64(1), Data::I64(2)]);
    let fields = Data::StructVariant("Struct".to_owned(), vec![named("a", Data::I64(1))]);

    let encoded = encode(&newtype).unwrap();
    assert_eq!(
        encoded,
        Value::Table(vec![(string("Newtype"), Value::Integer(1))])
    );
    assert_eq!(decode(&encoded, &shape_e()).unwrap(), newtype);

    let encoded = encode(&tuple).unwrap();
    assert_eq!(
        encoded,
        Value::Table(vec![(
            string("Tuple"),
            Value::Table(vec![
                (Value::Integer(1), Value::Integer(1)),
                (Value::Integer(2), Value::Integer(2)),
            ])
        )])
    );
    assert_eq!(decode(&encoded, &shape_e()).unwrap(), tuple);

    let encoded = encode(&fields).unwrap();
    assert_eq!(
        encoded,
        Value::Table(vec![(
            string("Struct"),
            Value::Table(vec![(string("a"), Value::Integer(1))])
        )])
    );
    assert_eq!(decode(&encoded, &shape_e()).unwrap(), fields);

    let two = Value::Table(vec![
        (string("Newtype"), Value::Integer(1)),
        (string("Extra"), Value::Integer(2)),
    ]);
    assert!(matches!(decode(&two, &shape_e()), Err(Error::NotSingleKey)));
    assert!(matches!(
        decode(&Value::Table(vec![]), &shape_e()),
        Err(Error::NotSingleKey)
    ));
}

#[test]
fn enum_errors() {
    for value in [
        Value::Nil,
        Value::Boolean(true),
        Value::Integer(1),
        Value::Number(1),
        Value::Other,
    ] {
        assert!(matches!(
            decode(&value, &shape_e()),
            Err(Error::BadEnumValue)
        ));
    }
    let keyed = Value::Table(vec![(Value::Boolean(true), Value::Integer(1))]);
    assert!(matches!(decode(&keyed, &shape_e()), Err(Error::NameNotText)));
    let keyed = Value::Table(vec![
        (Value::Number(1.5f64.to_bits()), Value::Integer(1)),
        (Value::Integer(2), Value::Integer(1)),
    ]);
    assert!(matches!(decode(&keyed, &shape_e()), Err(Error::NameNotText)));
    let numbered = Value::Table(vec![(Value::Integer(1), Value::Integer(1))]);
    assert!(matches!(
        decode(&numbered, &shape_e()),
        Err(Error::UnknownVariant)
    ));
    let numbered = Value::Table(vec![
        (Value::Integer(1), Value::Integer(1)),
        (Value::Integer(2), Value::Integer(1)),
    ]);
    assert!(matches!(
        decode(&numbered, &shape_e()),
        Err(Error::NotSingleKey)
    ));
    let bad = Value::Table(vec![(Value::String(vec![0xff]), Value::Integer(1))]);
    assert!(matches!(decode(&bad, &shape_e()), Err(Error::InvalidUtf8)));
    let unknown = Value::Table(vec![(string("Nope"), Value::Integer(1))]);
    assert!(matches!(
        decode(&unknown, &shape_e()),
        Err(Error::UnknownVariant)
    ));
    let scalar = Value::Table(vec![(string("Tuple"), Value::Integer(1))]);
    assert!(matches!(
        decode(&scalar, &shape_e()),
        Err(Error::InvalidValueType)
    ));
    let scalar = Value::Table(vec![(string("Struct"), Value::Integer(1))]);
    assert!(matches!(
        decode(&scalar, &shape_e()),
        Err(Error::InvalidValueType)
    ));
    let short = Value::Table(vec![(
        string("Tuple"),
        Value::Table(vec![(Value::Integer(1), Value::Integer(1))]),
    )]);
    assert!(matches!(
        decode(&short, &shape_e()),
        Err(Error::InvalidLength(1))
    ));
}

#[test]
fn an_integer_key_names_a_variant_by_its_digits() {
    let shape = Shape::Enum(vec![
        ("1".to_owned(), VariantShape::Newtype(Shape::Any)),
        ("-9223372036854775808".to_owned(), VariantShape::Newtype(Shape::Any)),
        ("0".to_owned(), VariantShape::Newtype(Shape::Any)),
        ("1234567890".to_owned(), VariantShape::Newtype(Shape::Any)),
    ]);
    for (key, name) in [
        (1, "1"),
        (i64::MIN, "-9223372036854775808"),
        (0, "0"),
        (1234567890, "1234567890"),
    ] {
        let value = Value::Table(vec![(Value::Integer(key), Value::Boolean(true))]);
        assert_eq!(
            decode(&value, &shape).unwrap(),
            Data::NewtypeVariant(name.to_owned(), Box::new(Data::Bool(true)))
        );
    }
    let value = Value::Table(vec![(Value::Integer(-1), Value::Boolean(true))]);
    let (name, _) = Deserializer { value: &value }
        .deserialize_enum()
        .unwrap()
        .variant();
    assert_eq!(name, "-1");
}

#[test]
fn variant_access_step_by_step() {
    let bare = string("Unit");
    let (name, access) = Deserializer { value: &bare }
        .deserialize_enum()
        .unwrap()
        .variant();
    assert_eq!(name, "Unit");
    assert!(access.unit_variant().is_ok());

    let carried = Value::Table(vec![(
        string("V"),
        Value::Table(vec![(Value::Integer(1), Value::Integer(5))]),
    )]);
    let open = || {
        Deserializer { value: &carried }
            .deserialize_enum()
            .unwrap()
            .variant()
            .1
    };
    assert!(matches!(
        open().unit_variant(),
        Err(Error::InvalidType {
            unexpected: VariantKind::Newtype,
            expected: VariantKind::Unit
        })
    ));
    assert_eq!(
        open().newtype_variant().unwrap().value,
        &Value::Table(vec![(Value::Integer(1), Value::Integer(5))])
    );
    let mut seq = open().tuple_variant(1).unwrap();
    assert_eq!(seq.next_element().unwrap().value, &Value::Integer(5));
    assert!(seq.next_element().is_none());
    assert!(seq.end().is_ok());
    assert!(matches!(open().struct_variant(), Ok(Inferred::Table(_))));

    let bare_access = || {
        Deserializer { value: &bare }
            .deserialize_enum()
            .unwrap()
            .variant()
            .1
    };
    assert!(matches!(
        bare_access().newtype_variant(),
        Err(Error::InvalidType {
            unexpected: VariantKind::Unit,
            expected: VariantKind::Newtype
        })
    ));
    assert!(matches!(
        bare_access().tuple_variant(2),
        Err(Error::InvalidType {
            unexpected: VariantKind::Unit,
            expected: VariantKind::Tuple
        })
    ));
    assert!(matches!(
        bare_access().struct_variant(),
        Err(Error::InvalidType {
            unexpected: VariantKind::Unit,
            expected: VariantKind::Struct
        })
    ));
}

#[test]
fn builders_step_by_step() {
    let mut seq = Serializer {}.serialize_seq();
    seq.serialize_element(Value::Boolean(true)).unwrap();
    seq.serialize_field(Value::Nil).unwrap();
    seq.serialize_element(Value::Integer(9)).unwrap();
    assert_eq!(
        seq.end(),
        Value::Table(vec![
            (Value::Integer(1), Value::Boolean(true)),
            (Value::Integer(2), Value::Nil),
            (Value::Integer(3), Value::Integer(9)),
        ])
    );
    assert_eq!(Serializer {}.serialize_tuple(3).end(), Value::Table(vec![]));
    assert_eq!(
        Serializer {}.serialize_tuple_struct(3).end(),
        Value::Table(vec![])
    );

    let mut map = Serializer {}.serialize_map();
    assert!(!map.has_key());
    map.serialize_key(Value::Integer(7));
    assert!(map.has_key());
    map.serialize_key(Value::Integer(8));
    map.serialize_value(string("eight"));
    assert!(!map.has_key());
    map.serialize_key(Value::Integer(9));
    assert_eq!(map.take_key(), Some(Value::Integer(9)));
    assert!(!map.has_key());
    assert_eq!(map.take_key(), None);
    map.serialize_field("name", Value::Boolean(false));
    map.serialize_key(string("dropped"));
    assert_eq!(
        map.end(),
        Value::Table(vec![
            (Value::Integer(8), string("eight")),
            (string("name"), Value::Boolean(false)),
        ])
    );
    assert_eq!(Serializer {}.serialize_struct(2).end(), Value::Table(vec![]));

    let mut tuple = Serializer {}.serialize_tuple_variant("T");
    tuple.serialize_field(Value::Integer(1)).unwrap();
    assert_eq!(
        tuple.end(),
        Value::Table(vec![(
            string("T"),
            Value::Table(vec![(Value::Integer(1), Value::Integer(1))])
        )])
    );

    let mut fields = Serializer {}.serialize_struct_variant("S");
    fields.serialize_field("a", Value::Integer(1));
    assert_eq!(
        fields.end(),
        Value::Table(vec![(
            string("S"),
            Value::Table(vec![(string("a"), Value::Integer(1))])
        )])
    );

    assert_eq!(
        Serializer {}.serialize_newtype_variant("N", Value::Nil),
        Value::Table(vec![(string("N"), Value::Nil)])
    );
    assert_eq!(Serializer {}.serialize_unit_variant("U"), string("U"));
    assert_eq!(Serializer {}.serialize_unit_struct(), Value::Nil);
    assert_eq!(Serializer {}.serialize_none(), Value::Nil);
    assert_eq!(
        Serializer {}.serialize_some(Value::Integer(1)),
        Value::Integer(1)
    );
    assert_eq!(
        Serializer {}.serialize_newtype_struct(Value::Integer(1)),
        Value::Integer(1)
    );
}

#[test]
fn round_trip() {
    let cases = vec![
        (Data::Unit, Shape::Any, Data::Unit),
        (Data::I8(-3), Shape::Any, Data::I64(-3)),
        (Data::U64(17), Shape::Any, Data::I64(17)),
        (Data::Char('x'), Shape::Any, text("x")),
        (
            Data::Float((-0.0f64).to_bits()),
            Shape::Any,
            Data::Float((-0.0f64).to_bits()),
        ),
        (
            Data::Optional(Some(Box::new(text("t")))),
            Shape::Optional(boxed(Shape::Any)),
            Data::Optional(Some(Box::new(text("t")))),
        ),
        (
            Data::Sequence(vec![Data::U8(1), Data::U8(2), Data::U8(3)]),
            Shape::Sequence(boxed(Shape::Any)),
            Data::Sequence(vec![Data::I64(1), Data::I64(2), Data::I64(3)]),
        ),
        (
            Data::Tuple(vec![Data::Bool(true), Data::Sequence(vec![])]),
            Shape::Tuple(vec![Shape::Any, Shape::Sequence(boxed(Shape::Any))]),
            Data::Tuple(vec![Data::Bool(true), Data::Sequence(vec![])]),
        ),
        (
            Data::Mapping(vec![
                (text("a"), Data::Optional(Some(Box::new(Data::I16(1))))),
                (text("b"), Data::Optional(Some(Box::new(Data::I16(2))))),
            ]),
            Shape::Mapping(boxed(Shape::Any), boxed(Shape::Optional(boxed(Shape::Any)))),
            Data::Mapping(vec![
                (text("a"), Data::Optional(Some(Box::new(Data::I64(1))))),
                (text("b"), Data::Optional(Some(Box::new(Data::I64(2))))),
            ]),
        ),
        (
            Data::Mapping(vec![(Data::Bool(true), Data::I64(1))]),
            Shape::Any,
            Data::Mapping(vec![(Data::Bool(true), Data::I64(1))]),
        ),
    ];
    for (data, shape, expected) in cases {
        let value = encode(&data).unwrap();
        assert_eq!(decode(&value, &shape).unwrap(), expected);
    }
}

#[test]
fn what_is_lost_does_not_round_trip() {
    let value = encode(&Data::U64(u64::MAX)).unwrap();
    assert_eq!(decode(&value, &Shape::Any).unwrap(), Data::I64(-1));

    let some_unit = Data::Optional(Some(Box::new(Data::Unit)));
    let value = encode(&some_unit).unwrap();
    assert_eq!(
        decode(&value, &Shape::Optional(boxed(Shape::Any))).unwrap(),
        Data::Optional(None)
    );

    let holes = Data::Sequence(vec![Data::Optional(None), Data::Optional(Some(Box::new(Data::I64(1))))]);
    let value = encode(&holes).unwrap();
    assert_eq!(
        decode(
            &value,
            &Shape::Sequence(boxed(Shape::Optional(boxed(Shape::Any))))
        )
        .unwrap(),
        Data::Sequence(vec![])
    );
}

#[test]
fn messages() {
    let message = |e: Error| e.message().unwrap();
    assert_eq!(message(Error::InvalidValueType), "invalid value type");
    assert_eq!(message(Error::BadEnumValue), "bad enum value");
    assert_eq!(message(Error::ValueMissing), "value is missing");
    assert_eq!(
        message(Error::NotSingleKey),
        "invalid value: map, expected map with a single key"
    );
    assert_eq!(
        message(Error::InvalidLength(3)),
        "invalid length 3, expected fewer elements in array"
    );
    assert_eq!(
        message(Error::InvalidLength(0)),
        "invalid length 0, expected fewer elements in array"
    );
    assert_eq!(
        message(Error::InvalidLength(1234567890)),
        "invalid length 1234567890, expected fewer elements in array"
    );
    assert_eq!(
        message(Error::InvalidType {
            unexpected: VariantKind::Newtype,
            expected: VariantKind::Unit
        }),
        "invalid type: newtype variant, expected unit variant"
    );
    assert_eq!(
        message(Error::InvalidType {
            unexpected: VariantKind::Unit,
            expected: VariantKind::Tuple
        }),
        "invalid type: unit variant, expected tuple variant"
    );
    assert_eq!(
        message(Error::InvalidType {
            unexpected: VariantKind::Unit,
            expected: VariantKind::Struct
        }),
        "invalid type: unit variant, expected struct variant"
    );
    assert_eq!(message(Error::custom_serialize("s".to_owned())), "s");
    assert_eq!(message(Error::custom_deserialize("d".to_owned())), "d");
    assert!(Error::custom_serialize("s".to_owned()).is_encoding());
    assert!(Error::IndexOverflow.is_encoding());
    assert!(Error::NotData.is_encoding());
    assert!(!Error::InvalidValueType.is_encoding());
    assert!(!Error::custom_deserialize("d".to_owned()).is_encoding());
    assert!(!Error::InvalidUtf8.is_encoding());
    for e in [
        Error::InvalidUtf8,
        Error::NameNotText,
        Error::UnknownVariant,
        Error::IndexOverflow,
        Error::DepthLimit,
        Error::TableTooLarge,
        Error::NotData,
    ] {
        assert!(!message(e).is_empty());
    }
}

#[test]
fn errors_become_errors_of_the_runtime() {
    match Error::custom_serialize("boom".to_owned()).into_lua() {
        rlua::Error::ToLuaConversionError { from, to, message } => {
            assert_eq!(from, "serialize");
            assert_eq!(to, "value");
            assert_eq!(message.unwrap(), "boom");
        }
        other => panic!("{:?}", other),
    }
    match Error::custom_deserialize("bang".to_owned()).into_lua() {
        rlua::Error::FromLuaConversionError { from, to, message } => {
            assert_eq!(from, "value");
            assert_eq!(to, "deserialize");
            assert_eq!(message.unwrap(), "bang");
        }
        other => panic!("{:?}", other),
    }
    match rlua::Error::from(Error::InvalidLength(3)) {
        rlua::Error::FromLuaConversionError { from, to, message } => {
            assert_eq!(from, "value");
            assert_eq!(to, "deserialize");
            assert_eq!(
                message.unwrap(),
                "invalid length 3, expected fewer elements in array"
            );
        }
        other => panic!("{:?}", other),
    }
    match Error::InvalidUtf8.into_lua() {
        rlua::Error::FromLuaConversionError { from, to, .. } => {
            assert_eq!(from, "string");
            assert_eq!(to, "&str");
        }
        other => panic!("{:?}", other),
    }
    assert!(matches!(
        Error::IndexOverflow.into_lua(),
        rlua::Error::ToLuaConversionError { .. }
    ));
    let inner = rlua::Error::RuntimeError("x".to_owned());
    let wrapped = Error::from(inner);
    assert!(matches!(wrapped, Error::Runtime(rlua::Error::RuntimeError(_))));
    assert!(wrapped.message().is_none());
    assert!(matches!(
        wrapped.into_lua(),
        rlua::Error::RuntimeError(_)
    ));
}
