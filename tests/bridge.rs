use duktape_bridge::{property_name, DukContext, DukType, HostValue, JsNumber, Shape};

fn text(x: &str) -> HostValue {
    HostValue::Str(x.to_string())
}

fn float(x: f64) -> HostValue {
    HostValue::F64(x.to_bits())
}

fn record(entries: Vec<(&str, HostValue)>) -> HostValue {
    HostValue::Record(entries.into_iter().map(|(k, v)| (k.to_string(), v)).collect())
}

fn structure(fields: Vec<(&str, Shape)>) -> Shape {
    Shape::Struct(fields.into_iter().map(|(k, s)| (k.to_string(), s)).collect())
}

fn enumeration(variants: Vec<(&str, Option<Shape>)>) -> Shape {
    Shape::Enum(variants.into_iter().map(|(k, s)| (k.to_string(), s)).collect())
}

fn small_struct(string_field: &str, char_field: char, i8_field: i64) -> HostValue {
    record(vec![
        ("string_field", text(string_field)),
        ("char_field", HostValue::Char(char_field)),
        ("i8_field", HostValue::I64(i8_field)),
    ])
}

fn small_shape() -> Shape {
    structure(vec![("string_field", Shape::Str), ("char_field", Shape::Char), ("i8_field", Shape::I64)])
}

fn nested_struct() -> HostValue {
    record(vec![
        ("struct_field", small_struct("string value", 'A', 1)),
        (
            "unit_char_field",
            HostValue::List(vec![HostValue::Char('A'), HostValue::Char('B'), HostValue::Char('C')]),
        ),
        ("array_i8_field", HostValue::List(vec![HostValue::I64(1), HostValue::I64(2), HostValue::I64(3)])),
    ])
}

fn nested_shape() -> Shape {
    structure(vec![
        ("struct_field", small_shape()),
        ("unit_char_field", Shape::Tuple(vec![Shape::Char, Shape::Char, Shape::Char])),
        ("array_i8_field", Shape::List(Box::new(Shape::I64))),
    ])
}

/// Encodes `v`, checks that exactly one value was pushed, decodes it with `shape`, checks that
/// the stack did not change, and compares.
fn round_trip(v: &HostValue, shape: &Shape) {
    let mut ctx = DukContext::new();
    ctx.push_string("below");
    ctx.push_host(v);
    assert_eq!(ctx.get_top(), 2);
    let back = ctx.read_as(-1, shape).unwrap();
    assert_eq!(ctx.get_top(), 2);
    assert_eq!(format!("{:?}", v), format!("{:?}", back));
    assert_eq!(ctx.get_string(0), "below");
}

fn encoded(v: &HostValue) -> DukContext {
    let mut ctx = DukContext::new();
    ctx.push_host(v);
    assert_eq!(ctx.get_top(), 1);
    ctx
}

#[test]
fn read_struct() {
    let p = record(vec![
        ("string_field", text("string value")),
        ("char_field", HostValue::Char('B')),
        ("i8_field", HostValue::I64(44)),
        ("arr_field", HostValue::List(vec![float(1.0), float(2.0), float(3.0), float(7.5)])),
        ("optional1", HostValue::Present(Box::new(float(3.14)))),
        ("optional2", HostValue::Absent),
    ]);
    let shape = structure(vec![
        ("string_field", Shape::Str),
        ("char_field", Shape::Char),
        ("i8_field", Shape::I64),
        ("arr_field", Shape::List(Box::new(Shape::F64))),
        ("optional1", Shape::Optional(Box::new(Shape::F64))),
        ("optional2", Shape::Optional(Box::new(Shape::F64))),
    ]);
    round_trip(&p, &shape);
}

#[test]
fn deserialize_zero() {
    let mut ctx = DukContext::new();
    ctx.push_object();
    ctx.push_i32(0);
    ctx.put_prop_string(-2, "float_field");
    ctx.push_i32(0);
    ctx.put_prop_string(-2, "int_field");
    let shape = structure(vec![("float_field", Shape::F64), ("int_field", Shape::I64)]);
    let val = ctx.read_as(-1, &shape).unwrap();
    match val {
        HostValue::Record(entries) => {
            match &entries[0].1 {
                HostValue::F64(bits) => assert_eq!(f64::from_bits(*bits), 0.0),
                other => panic!("unexpected {:?}", other),
            }
            match &entries[1].1 {
                HostValue::I64(n) => assert_eq!(*n, 0),
                other => panic!("unexpected {:?}", other),
            }
        },
        other => panic!("unexpected {:?}", other),
    }
}

#[test]
fn deserialize_nan() {
    let mut ctx = DukContext::new();
    ctx.push_object();
    ctx.push_number(JsNumber::Bits(f64::NAN.to_bits()));
    ctx.put_prop_string(-2, "float_field");
    let shape = structure(vec![("float_field", Shape::F64)]);
    match ctx.read_as(-1, &shape).unwrap() {
        HostValue::Record(entries) => match &entries[0].1 {
            HostValue::F64(bits) => assert!(f64::from_bits(*bits).is_nan()),
            other => panic!("unexpected {:?}", other),
        },
        other => panic!("unexpected {:?}", other),
    }
}

#[test]
fn read_struct_ignores_unknown_fields() {
    let mut ctx = DukContext::new();
    ctx.push_object();
    ctx.push_i32(1);
    ctx.put_prop_string(-2, "foo");
    ctx.push_string("baz");
    ctx.put_prop_string(-2, "bar");
    let shape = structure(vec![("foo", Shape::I64)]);
    match ctx.read_as(-1, &shape).unwrap() {
        HostValue::Record(entries) => {
            assert_eq!(entries.len(), 1);
            assert_eq!(entries[0].0, "foo");
            assert!(matches!(entries[0].1, HostValue::I64(1)));
        },
        other => panic!("unexpected {:?}", other),
    }
    ctx.pop();
    assert_eq!(ctx.get_top(), 0);
}

#[test]
fn write_string() {
    let p = text("string value");
    let ctx = encoded(&p);
    assert_eq!(ctx.get_type(-1), DukType::DUK_TYPE_STRING);
    assert_eq!(ctx.get_string(-1), "string value");
    round_trip(&p, &Shape::Str);
}

#[test]
fn write_bytes() {
    let data = "byte data".as_bytes();
    let p = HostValue::Bytes(data.to_vec());
    let ctx = encoded(&p);
    assert_eq!(ctx.get_type(-1), DukType::DUK_TYPE_BUFFER);
    assert_eq!(ctx.get_buffer(-1), "byte data".as_bytes());
    assert_eq!(ctx.get_length(-1), 9);
    assert_eq!(data, "byte data".as_bytes());
    round_trip(&p, &Shape::Bytes);
}

#[test]
fn write_struct() {
    let p = nested_struct();
    let mut ctx = encoded(&p);
    assert!(ctx.is_pure_object(-1));
    assert!(ctx.get_prop_string(-1, "struct_field"));
    assert!(ctx.get_prop_string(-1, "string_field"));
    assert_eq!(ctx.get_string(-1), "string value");
    ctx.pop_n(2);
    assert!(ctx.get_prop_string(-1, "unit_char_field"));
    assert!(ctx.is_array(-1));
    assert_eq!(ctx.get_length(-1), 3);
    assert!(ctx.get_prop_index(-1, 2));
    assert_eq!(ctx.get_string(-1), "C");
    round_trip(&p, &nested_shape());
}

#[test]
fn write_option_none() {
    let p = HostValue::Absent;
    let ctx = encoded(&p);
    assert_eq!(ctx.get_type(-1), DukType::DUK_TYPE_NULL);
    round_trip(&p, &Shape::Optional(Box::new(nested_shape())));
}

#[test]
fn write_option_some() {
    let p = HostValue::Present(Box::new(nested_struct()));
    let ctx = encoded(&p);
    assert!(ctx.is_pure_object(-1));
    round_trip(&p, &Shape::Optional(Box::new(nested_shape())));
}

#[test]
fn write_enum_unit_variant() {
    let p = HostValue::UnitVariant("Empty".to_string());
    let ctx = encoded(&p);
    assert_eq!(ctx.get_string(-1), "Empty");
    round_trip(&p, &enumeration(vec![("Empty", None)]));
}

#[test]
fn write_enum_tuple_variant() {
    let payload = HostValue::List(vec![
        text("string val"),
        small_struct("string value", 'A', 1),
        HostValue::List(vec![HostValue::I64(1), HostValue::U64(2), float(12.5)]),
    ]);
    let p = HostValue::Variant("Tuple".to_string(), Box::new(payload));
    let mut ctx = encoded(&p);
    assert!(ctx.is_pure_object(-1));
    assert!(ctx.get_prop_string(-1, "Tuple"));
    assert!(ctx.is_array(-1));
    assert_eq!(ctx.get_length(-1), 3);
    let shape = enumeration(vec![(
        "Tuple",
        Some(Shape::Tuple(vec![
            Shape::Str,
            small_shape(),
            Shape::Tuple(vec![Shape::I64, Shape::U64, Shape::F64]),
        ])),
    )]);
    round_trip(&p, &shape);
}

#[test]
fn write_enum_struct_variant() {
    let payload = record(vec![
        ("str_field", text("string val")),
        ("struct_field", small_struct("string value", 'A', 1)),
        ("float_field", float(12.5)),
    ]);
    let p = HostValue::Variant("Struct".to_string(), Box::new(payload));
    let mut ctx = encoded(&p);
    assert!(ctx.get_prop_string(-1, "Struct"));
    assert!(ctx.get_prop_string(-1, "float_field"));
    assert_eq!(ctx.get_number(-1).to_bits(), 12.5f64.to_bits());
    let shape = enumeration(vec![(
        "Struct",
        Some(structure(vec![("str_field", Shape::Str), ("struct_field", small_shape()), ("float_field", Shape::F64)])),
    )]);
    round_trip(&p, &shape);
}

#[test]
fn write_struct_variant() {
    let p = HostValue::List(vec![text("string val"), small_struct("string value", 'A', 1), float(12.5)]);
    let ctx = encoded(&p);
    assert!(ctx.is_array(-1));
    assert_eq!(ctx.get_length(-1), 3);
    round_trip(&p, &Shape::Tuple(vec![Shape::Str, small_shape(), Shape::F64]));
}

#[test]
fn write_unit_struct() {
    let p = HostValue::Unit;
    let ctx = encoded(&p);
    assert_eq!(ctx.get_type(-1), DukType::DUK_TYPE_NULL);
    round_trip(&p, &Shape::Unit);
}

#[test]
fn write_newtype_struct() {
    let p = float(15.9);
    let ctx = encoded(&p);
    assert_eq!(ctx.get_type(-1), DukType::DUK_TYPE_NUMBER);
    assert_eq!(ctx.get_number(-1).to_bits(), 15.9f64.to_bits());
    round_trip(&p, &Shape::F64);
}

#[test]
fn write_newtype_variant() {
    let p = HostValue::Variant("Newtype".to_string(), Box::new(float(15.9)));
    let mut ctx = encoded(&p);
    assert!(ctx.get_prop_string(-1, "Newtype"));
    assert_eq!(ctx.get_number(-1).to_bits(), 15.9f64.to_bits());
    round_trip(&p, &enumeration(vec![("Newtype", Some(Shape::F64))]));
}

#[test]
fn write_map() {
    let p = record(vec![
        ("key1", small_struct("string value", 'A', 1)),
        ("key2", small_struct("string value", 'A', 1)),
        ("key3", small_struct("string value", 'A', 1)),
    ]);
    let mut ctx = encoded(&p);
    for key in ["key1", "key2", "key3"] {
        assert!(ctx.get_prop_string(-1, key));
        assert!(ctx.is_pure_object(-1));
        ctx.pop();
    }
    round_trip(&p, &Shape::Dict(Box::new(small_shape())));
}

#[test]
fn round_trip_scalars() {
    round_trip(&HostValue::Bool(true), &Shape::Bool);
    round_trip(&HostValue::Bool(false), &Shape::Bool);
    round_trip(&HostValue::I64(i64::MIN), &Shape::I64);
    round_trip(&HostValue::I64(-9_007_199_254_740_992), &Shape::I64);
    round_trip(&HostValue::U64(9_007_199_254_740_992), &Shape::U64);
    round_trip(&float(0.0), &Shape::F64);
    round_trip(&float(-0.0), &Shape::F64);
    round_trip(&float(f64::INFINITY), &Shape::F64);
    round_trip(&float(f64::NAN), &Shape::F64);
    round_trip(&HostValue::Char('\u{e9}'), &Shape::Char);
    round_trip(&text(""), &Shape::Str);
    round_trip(&HostValue::Bytes(vec![]), &Shape::Bytes);
    round_trip(&HostValue::List(vec![]), &Shape::List(Box::new(Shape::Str)));
    round_trip(&record(vec![]), &Shape::Dict(Box::new(Shape::Str)));
}

#[test]
fn example_struct_fields_compare_equal() {
    let p = record(vec![
        ("string_field", text("s")),
        ("i8_field", HostValue::I64(44)),
        ("arr_field", HostValue::List(vec![float(1.0), float(2.0), float(3.0), float(7.5)])),
    ]);
    let shape = structure(vec![
        ("string_field", Shape::Str),
        ("i8_field", Shape::I64),
        ("arr_field", Shape::List(Box::new(Shape::F64))),
    ]);
    round_trip(&p, &shape);
}

#[test]
fn integer_reads_as_float_and_back() {
    let mut ctx = DukContext::new();
    ctx.push_i32(2);
    match ctx.read_as(-1, &Shape::F64).unwrap() {
        HostValue::F64(bits) => assert_eq!(f64::from_bits(bits), 2.0),
        other => panic!("unexpected {:?}", other),
    }
    ctx.push_number(JsNumber::Bits(3.0f64.to_bits()));
    assert!(matches!(ctx.read_as(-1, &Shape::I64).unwrap(), HostValue::I64(3)));
    ctx.push_number(JsNumber::Bits(3.5f64.to_bits()));
    assert!(ctx.read_as(-1, &Shape::I64).is_err());
    ctx.push_i32(-1);
    assert!(ctx.read_as(-1, &Shape::U64).is_err());
    assert_eq!(ctx.get_top(), 4);
}

#[test]
fn missing_optional_field_reads_absent() {
    let mut ctx = DukContext::new();
    ctx.push_object();
    let shape = structure(vec![("maybe", Shape::Optional(Box::new(Shape::I64)))]);
    match ctx.read_as(-1, &shape).unwrap() {
        HostValue::Record(entries) => assert!(matches!(entries[0].1, HostValue::Absent)),
        other => panic!("unexpected {:?}", other),
    }
    let required = structure(vec![("needed", Shape::I64)]);
    assert!(ctx.read_as(-1, &required).is_err());
}

#[test]
fn unsupported_shapes_are_errors() {
    let mut ctx = DukContext::new();
    assert_eq!(ctx.read_as(0, &Shape::Bool).unwrap_err().message(), "invalid stack index");
    ctx.push_string("ab");
    let err = ctx.read_as(-1, &Shape::Char).unwrap_err();
    assert_eq!(err.message(), "unsupported value shape");
    ctx.push_thread();
    assert!(ctx.read_as(-1, &Shape::Dict(Box::new(Shape::Str))).is_err());
    ctx.push_function("f", 0);
    assert!(ctx.read_as(-1, &Shape::List(Box::new(Shape::Str))).is_err());
    ctx.push_string("Other");
    assert!(ctx.read_as(-1, &enumeration(vec![("Empty", None)])).is_err());
    assert_eq!(ctx.get_top(), 4);
}

#[test]
fn generic_write_and_read() {
    let mut ctx = DukContext::new();
    ctx.write(&true).unwrap();
    ctx.write(&-7i64).unwrap();
    ctx.write(&"hello".to_string()).unwrap();
    assert_eq!(ctx.get_top(), 3);
    assert_eq!(ctx.read::<bool>(0).unwrap(), true);
    assert_eq!(ctx.read::<i64>(1).unwrap(), -7);
    assert_eq!(ctx.read_top::<String>().unwrap(), "hello");
    assert!(ctx.read::<u64>(1).is_err());
    assert!(ctx.read::<String>(5).is_err());
    assert_eq!(ctx.get_top(), 3);
}

#[test]
fn self_describing_read() {
    let mut ctx = DukContext::new();
    ctx.push_object();
    ctx.push_i32(0);
    ctx.put_prop_string(-2, "zero");
    ctx.push_number(JsNumber::Bits(2.5f64.to_bits()));
    ctx.put_prop_string(-2, "half");
    ctx.push_array();
    ctx.push_null();
    ctx.put_prop_index(-2, 0);
    ctx.push_boolean(true);
    ctx.put_prop_index(-2, 1);
    ctx.put_prop_string(-2, "list");
    let v = ctx.read_as(-1, &Shape::Any).unwrap();
    let expected = record(vec![
        ("zero", HostValue::I64(0)),
        ("half", float(2.5)),
        ("list", HostValue::List(vec![HostValue::Absent, HostValue::Bool(true)])),
    ]);
    assert_eq!(format!("{:?}", v), format!("{:?}", expected));
    ctx.push_function("f", 0);
    assert!(ctx.read_as(-1, &Shape::Any).is_err());
    assert_eq!(ctx.get_top(), 2);
}

#[test]
fn self_describing_read_stops_at_cycles() {
    let mut ctx = DukContext::new();
    ctx.push_object();
    ctx.dup(-1);
    ctx.put_prop_string(-2, "me");
    let err = ctx.read_as(-1, &Shape::Any).unwrap_err();
    assert_eq!(err.message(), "value nested too deeply");
}

#[test]
fn map_keys_name_properties() {
    assert_eq!(property_name(&HostValue::I64(-12)), Some("-12".to_string()));
    assert_eq!(property_name(&HostValue::U64(340)), Some("340".to_string()));
    assert_eq!(property_name(&HostValue::Char('k')), Some("k".to_string()));
    assert_eq!(property_name(&HostValue::Bool(false)), Some("false".to_string()));
    assert_eq!(property_name(&text("key")), Some("key".to_string()));
    assert_eq!(property_name(&HostValue::Unit), None);
}

#[test]
fn narrow_readers() {
    let mut ctx = DukContext::new();
    ctx.write(&-5i32).unwrap();
    ctx.write(&7u32).unwrap();
    ctx.push_host(&HostValue::Char('z'));
    ctx.push_host(&HostValue::I64(1 << 40));
    assert_eq!(ctx.read::<i32>(0).unwrap(), -5);
    assert_eq!(ctx.read::<u32>(1).unwrap(), 7);
    assert_eq!(ctx.read::<char>(2).unwrap(), 'z');
    assert!(ctx.read::<i32>(3).is_err());
    assert!(ctx.read::<u32>(0).is_err());
    assert_eq!(ctx.get_top(), 4);
}
