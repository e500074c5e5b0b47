use serde_rusoto_dynamodb::de::{
    open_variant, AttributeValueMapDeserializer, AttributeValueSeqDeserializer,
};
use serde_rusoto_dynamodb::ser::AttributeValueMapSerializer;
use serde_rusoto_dynamodb::{
    from_attribute_value, to_attribute_value, AttributeValue, Error, Shape, Value, VariantShape,
};

// Helpers

fn av_empty() -> AttributeValue {
    AttributeValue { b: None, boolean: None, l: None, m: None, n: None, null: None, s: None }
}

fn av_bool(v: bool) -> AttributeValue {
    AttributeValue { boolean: Some(v), ..av_empty() }
}

fn av_n(text: &str) -> AttributeValue {
    AttributeValue { n: Some(text.to_owned()), ..av_empty() }
}

fn av_s(text: &str) -> AttributeValue {
    AttributeValue { s: Some(text.to_owned()), ..av_empty() }
}

fn av_null() -> AttributeValue {
    AttributeValue { null: Some(true), ..av_empty() }
}

fn av_l(items: Vec<AttributeValue>) -> AttributeValue {
    AttributeValue { l: Some(items), ..av_empty() }
}

fn av_m(pairs: Vec<(&str, AttributeValue)>) -> AttributeValue {
    AttributeValue {
        m: Some(pairs.into_iter().map(|(k, v)| (k.to_owned(), v)).collect()),
        ..av_empty()
    }
}

fn roundtrip(value: &Value, shape: &Shape, expected: &AttributeValue) {
    match to_attribute_value(value) {
        Ok(serialized) => {
            assert_eq!(&serialized, expected);
            match from_attribute_value(&serialized, shape) {
                Ok(deserialized) => {
                    assert_eq!(&deserialized, value);
                }
                Err(Error { message }) => panic!("Deserialization failed with message: {}", message),
            }
        }
        Err(Error { message }) => panic!("Serialization failed with message: {}", message),
    }
}

// Boolean Values

#[test]
fn roundtrip_bool() {
    roundtrip(&Value::Bool(true), &Shape::Bool, &av_bool(true));
    roundtrip(&Value::Bool(false), &Shape::Bool, &av_bool(false));
}

// Numeric Values

#[test]
fn roundtrip_numeric() {
    roundtrip(&Value::Int(1), &Shape::Int, &av_n("1"));
    roundtrip(&Value::UInt(1), &Shape::UInt, &av_n("1"));

    // Floats enter the codec as their shortest round-trippable decimal text,
    // and leave it the same way: the number text is exactly what the fast
    // float formatter produced.
    let mut buf32 = ryu::Buffer::new();
    let t32 = buf32.format(1.234f32).to_owned();
    assert_eq!(t32, "1.234");
    let mut buf64 = ryu::Buffer::new();
    let t64 = buf64.format(2.345f64).to_owned();
    assert_eq!(t64, "2.345");
    let av32 = AttributeValue { n: Some(t32), ..av_empty() };
    assert_eq!(av32, av_n("1.234"));
    let back32: f32 = av32.n.as_ref().unwrap().parse::<f64>().unwrap() as f32;
    assert_eq!(back32, 1.234f32);
    let av64 = AttributeValue { n: Some(t64), ..av_empty() };
    assert_eq!(av64, av_n("2.345"));
    let back64: f64 = av64.n.as_ref().unwrap().parse::<f64>().unwrap();
    assert_eq!(back64, 2.345f64);
}

// Char Values

#[test]
fn serialize_character() {
    roundtrip(&Value::Char('a'), &Shape::Char, &av_s("a"));
}

// String Values

#[test]
fn serialize_string() {
    roundtrip(&Value::Str("hello".to_owned()), &Shape::Str, &av_s("hello"));
}

// Option Values

#[test]
fn serialize_option() {
    roundtrip(
        &Value::Present(Box::new(Value::Bool(true))),
        &Shape::Optional(Box::new(Shape::Bool)),
        &av_bool(true),
    );
    roundtrip(
        &Value::Absent,
        &Shape::Optional(Box::new(Shape::Optional(Box::new(Shape::Bool)))),
        &av_null(),
    );
}

// Seq Values

#[test]
fn serialize_seq() {
    roundtrip(
        &Value::List(vec![Value::Int(1), Value::Int(2), Value::Int(3)]),
        &Shape::List(Box::new(Shape::Int)),
        &av_l(vec![av_n("1"), av_n("2"), av_n("3")]),
    );
}

// Struct Values

#[test]
fn serialize_struct() {
    let test = Value::Record(vec![
        ("a".to_owned(), Value::Str("hello".to_owned())),
        ("b".to_owned(), Value::Int(1)),
    ]);
    let shape = Shape::Record(vec![("a".to_owned(), Shape::Str), ("b".to_owned(), Shape::Int)]);
    roundtrip(
        &test,
        &shape,
        &av_m(vec![("a", av_s("hello")), ("b", av_n("1"))]),
    );
}

#[test]
fn serialize_tuple() {
    roundtrip(
        &Value::List(vec![Value::Str("hello".to_owned()), Value::Int(37)]),
        &Shape::Tuple(vec![Shape::Str, Shape::Int]),
        &av_l(vec![av_s("hello"), av_n("37")]),
    );
}

#[test]
fn serialize_unit() {
    roundtrip(&Value::Unit, &Shape::Unit, &av_null());
}

// Map Values

#[test]
fn roundtrip_map() {
    let map = Value::Dict(vec![
        (Value::Str("x".to_owned()), Value::Int(1)),
        (Value::Str("y".to_owned()), Value::Bool(true)),
    ]);
    roundtrip(
        &map,
        &Shape::Dict(Box::new(Shape::Any)),
        &av_m(vec![("x", av_n("1")), ("y", av_bool(true))]),
    );
}

#[test]
fn serialize_map_key_must_be_string() {
    let map = Value::Dict(vec![(Value::Bool(true), Value::Int(1))]);
    assert_eq!(to_attribute_value(&map), Err(Error::new("Key Must Be String")));
}

#[test]
fn serialize_map_char_key() {
    // A character key encodes to a one-character wire string.
    let map = Value::Dict(vec![(Value::Char('k'), Value::Int(5))]);
    assert_eq!(to_attribute_value(&map), Ok(av_m(vec![("k", av_n("5"))])));
}

// Bytes Values

#[test]
fn roundtrip_bytes() {
    let bytes = Value::Bytes(vec![1u8, 2, 255]);
    let expected = AttributeValue { b: Some(vec![1u8, 2, 255]), ..av_empty() };
    roundtrip(&bytes, &Shape::Bytes, &expected);
}

// Variant Values

#[test]
fn roundtrip_variants() {
    let shape = Shape::Union(vec![
        ("A".to_owned(), VariantShape::Unit),
        ("B".to_owned(), VariantShape::Newtype(Box::new(Shape::Int))),
        ("C".to_owned(), VariantShape::Tuple(vec![Shape::Str, Shape::Bool])),
        (
            "D".to_owned(),
            VariantShape::Record(vec![("f".to_owned(), Shape::Int)]),
        ),
    ]);
    roundtrip(
        &Value::UnitVariant("A".to_owned()),
        &shape,
        &av_m(vec![("A", av_null())]),
    );
    roundtrip(
        &Value::NewtypeVariant("B".to_owned(), Box::new(Value::Int(7))),
        &shape,
        &av_m(vec![("B", av_n("7"))]),
    );
    roundtrip(
        &Value::TupleVariant("C".to_owned(), vec![Value::Str("s".to_owned()), Value::Bool(false)]),
        &shape,
        &av_m(vec![("C", av_l(vec![av_s("s"), av_bool(false)]))]),
    );
    roundtrip(
        &Value::StructVariant("D".to_owned(), vec![("f".to_owned(), Value::Int(3))]),
        &shape,
        &av_m(vec![("D", av_m(vec![("f", av_n("3"))]))]),
    );
}

#[test]
fn deserialize_unknown_variant() {
    let shape = Shape::Union(vec![("A".to_owned(), VariantShape::Unit)]);
    assert_eq!(
        from_attribute_value(&av_m(vec![("Z", av_null())]), &shape),
        Err(Error::new("Unknown Variant"))
    );
    assert_eq!(
        from_attribute_value(&av_s("A"), &shape),
        Err(Error::new("Map Value Expected"))
    );
    assert_eq!(
        from_attribute_value(&av_m(vec![]), &shape),
        Err(Error::new("Key/Value Expected"))
    );
    assert_eq!(
        from_attribute_value(&av_m(vec![("A", av_s("x"))]), &shape),
        Err(Error::new("Null Value Expected"))
    );
}

// Failure modes

#[test]
fn deserialize_bad_number() {
    assert_eq!(
        from_attribute_value(&av_n("not-a-number"), &Shape::Int),
        Err(Error::new("Numeric Value Expected"))
    );
    assert_eq!(
        from_attribute_value(&av_empty(), &Shape::Any),
        Err(Error::new("Supported Value Expected"))
    );
}

#[test]
fn deserialize_number_edges() {
    assert_eq!(
        from_attribute_value(&av_n("9223372036854775807"), &Shape::Int),
        Ok(Value::Int(i64::MAX))
    );
    assert_eq!(
        from_attribute_value(&av_n("-9223372036854775808"), &Shape::Int),
        Ok(Value::Int(i64::MIN))
    );
    assert_eq!(from_attribute_value(&av_n("-42"), &Shape::Int), Ok(Value::Int(-42)));
    assert_eq!(from_attribute_value(&av_n("+7"), &Shape::Int), Ok(Value::Int(7)));
    assert_eq!(
        from_attribute_value(&av_n("9223372036854775808"), &Shape::Int),
        Err(Error::new("Numeric Value Expected"))
    );
    assert_eq!(
        from_attribute_value(&av_n("-1"), &Shape::UInt),
        Err(Error::new("Numeric Value Expected"))
    );
    assert_eq!(to_attribute_value(&Value::Int(-42)), Ok(av_n("-42")));
    assert_eq!(
        to_attribute_value(&Value::UInt(u64::try_from(i64::MAX).unwrap())),
        Ok(av_n("9223372036854775807"))
    );
}

#[test]
fn deserialize_char_errors() {
    assert_eq!(
        from_attribute_value(&av_s(""), &Shape::Char),
        Err(Error::new("Non-Zero Length String Expected"))
    );
    assert_eq!(
        from_attribute_value(&av_n("1"), &Shape::Char),
        Err(Error::new("String Value Expected (Char)"))
    );
    // The first character wins on a longer string.
    assert_eq!(from_attribute_value(&av_s("abc"), &Shape::Char), Ok(Value::Char('a')));
}

#[test]
fn deserialize_dispatch_precedence() {
    // Boolean wins over string when both are (wrongly) populated.
    let both = AttributeValue { boolean: Some(true), s: Some("x".to_owned()), ..av_empty() };
    assert_eq!(from_attribute_value(&both, &Shape::Any), Ok(Value::Bool(true)));
    // A populated null flag set to false still reads as unit through
    // self-describing dispatch, and as "present" through an optional shape.
    let null_false = AttributeValue { null: Some(false), ..av_empty() };
    assert_eq!(from_attribute_value(&null_false, &Shape::Unit), Ok(Value::Unit));
    assert_eq!(
        from_attribute_value(&null_false, &Shape::Optional(Box::new(Shape::Unit))),
        Ok(Value::Present(Box::new(Value::Unit)))
    );
}

#[test]
fn deserialize_record_field_handling() {
    let shape = Shape::Record(vec![("a".to_owned(), Shape::Int)]);
    // Unknown entries are read self-describingly and dropped.
    assert_eq!(
        from_attribute_value(&av_m(vec![("z", av_s("ignored")), ("a", av_n("4"))]), &shape),
        Ok(Value::Record(vec![("a".to_owned(), Value::Int(4))]))
    );
    assert_eq!(
        from_attribute_value(&av_m(vec![("a", av_n("1")), ("a", av_n("2"))]), &shape),
        Err(Error::new("Duplicate Field"))
    );
    assert_eq!(
        from_attribute_value(&av_m(vec![("z", av_n("1"))]), &shape),
        Err(Error::new("Missing Field"))
    );
    // A short wire list fails a tuple shape.
    assert_eq!(
        from_attribute_value(&av_l(vec![av_n("1")]), &Shape::Tuple(vec![Shape::Int, Shape::Int])),
        Err(Error::new("Element Value Expected"))
    );
}

#[test]
fn deserialize_shape_mismatches() {
    assert_eq!(
        from_attribute_value(&av_s("x"), &Shape::Bytes),
        Err(Error::new("Byte Vector Value Expected"))
    );
    assert_eq!(
        from_attribute_value(&av_s("x"), &Shape::Bool),
        Err(Error::new("Boolean Value Expected"))
    );
    assert_eq!(
        from_attribute_value(&av_bool(true), &Shape::Str),
        Err(Error::new("String Value Expected"))
    );
    assert_eq!(
        from_attribute_value(&av_bool(true), &Shape::List(Box::new(Shape::Int))),
        Err(Error::new("List Value Expected"))
    );
    let shape = Shape::Union(vec![("A".to_owned(), VariantShape::Tuple(vec![Shape::Int]))]);
    assert_eq!(
        from_attribute_value(&av_m(vec![("A", av_s("x"))]), &shape),
        Err(Error::new("List Value Expected"))
    );
}

#[test]
fn map_reader_synchronization() {
    // Requesting a value with no prior key request fails.
    let mut reader = AttributeValueMapDeserializer::new(vec![("a".to_owned(), av_bool(true))]);
    assert_eq!(reader.next_value(), Err(Error::new("Value Expected")));
    assert_eq!(reader.next_key(), Some("a".to_owned()));
    assert_eq!(reader.next_value(), Ok(av_bool(true)));
    // Requesting more values than keys fails.
    let mut reader = AttributeValueMapDeserializer::new(vec![
        ("a".to_owned(), av_n("1")),
        ("b".to_owned(), av_n("2")),
    ]);
    assert_eq!(reader.next_key(), Some("a".to_owned()));
    assert_eq!(reader.next_value(), Ok(av_n("1")));
    assert_eq!(reader.next_value(), Err(Error::new("Value Expected")));
    assert_eq!(reader.next_key(), Some("b".to_owned()));
    assert_eq!(reader.next_value(), Ok(av_n("2")));
    assert_eq!(reader.next_key(), None);
}

#[test]
fn seq_reader_in_order() {
    let mut reader = AttributeValueSeqDeserializer::new(vec![av_n("1"), av_s("two")]);
    assert_eq!(reader.next_element(), Some(av_n("1")));
    assert_eq!(reader.next_element(), Some(av_s("two")));
    assert_eq!(reader.next_element(), None);
}

#[test]
fn map_builder_requires_key() {
    let mut builder = AttributeValueMapSerializer::new();
    assert_eq!(
        builder.serialize_value(Ok(av_bool(true))),
        Err(Error::new("Key Must Be Set and Value Must Be Serializable"))
    );
    assert_eq!(builder.serialize_key(Ok(av_bool(true))), Err(Error::new("Key Must Be String")));
    assert_eq!(builder.serialize_key(Ok(av_s("k"))), Ok(()));
    assert_eq!(builder.serialize_value(Ok(av_n("1"))), Ok(()));
    assert_eq!(builder.end(), av_m(vec![("k", av_n("1"))]));
}

#[test]
fn variant_reader_kinds() {
    let wire = av_m(vec![("Tag", av_l(vec![av_n("1")]))]);
    let (tag, variant) = open_variant(wire).unwrap().variant();
    assert_eq!(tag, "Tag".to_owned());
    assert_eq!(variant.tuple_variant(), Ok(vec![av_n("1")]));
}

#[test]
fn nested_any_roundtrip() {
    // A nested self-described value: lists and string-keyed maps of scalars.
    let v = Value::Dict(vec![
        (
            Value::Str("items".to_owned()),
            Value::List(vec![Value::Int(1), Value::Bool(true), Value::Str("s".to_owned())]),
        ),
        (Value::Str("none".to_owned()), Value::Unit),
    ]);
    let expected = av_m(vec![
        ("items", av_l(vec![av_n("1"), av_bool(true), av_s("s")])),
        ("none", av_null()),
    ]);
    roundtrip(&v, &Shape::Any, &expected);
}
