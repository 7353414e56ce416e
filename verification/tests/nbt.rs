use rustlauncher::nbt::{parse, NbtError, Value};

fn roundtrip(value: &Value) -> Value {
    let bytes = rustlauncher::nbt::write("", value);
    let (_, parsed) = parse(&bytes).unwrap();
    parsed
}

#[test]
fn compound_roundtrip_all_types() {
    let value = Value::Compound(vec![
        ("b".into(), Value::Byte(-1)),
        ("s".into(), Value::Short(300)),
        ("i".into(), Value::Int(70_000)),
        ("l".into(), Value::Long(i64::MAX)),
        ("f".into(), Value::Float(1.5f32.to_bits())),
        ("d".into(), Value::Double((-0.25f64).to_bits())),
        ("bytes".into(), Value::ByteArray(vec![1, 2, 3])),
        ("str".into(), Value::String("привет".into())),
        ("list".into(), Value::List(vec![Value::Int(1), Value::Int(2)])),
        (
            "nested".into(),
            Value::Compound(vec![("inner".into(), Value::String("x".into()))]),
        ),
        ("ints".into(), Value::IntArray(vec![1, -2, 3])),
        ("longs".into(), Value::LongArray(vec![9, 8])),
    ]);
    assert_eq!(roundtrip(&value), value);
}

#[test]
fn truncated_input_is_an_error_not_a_panic() {
    let bytes = rustlauncher::nbt::write("", &Value::Compound(vec![("s".into(), Value::String("hello".into()))]));
    for cut in [1, 3, 10, bytes.len() - 1] {
        assert!(parse(&bytes[..cut]).is_err(), "cut at {cut} must fail");
    }
}

#[test]
fn deep_nesting_is_rejected() {
    let mut value = Value::Compound(vec![]);
    for _ in 0..100 {
        value = Value::Compound(vec![("n".into(), value)]);
    }
    let bytes = rustlauncher::nbt::write("", &value);
    assert!(parse(&bytes).is_err());
}

#[test]
fn servers_dat_shape_roundtrip() {
    let servers = Value::Compound(vec![(
        "servers".into(),
        Value::List(vec![
            Value::Compound(vec![
                ("name".into(), Value::String("Hypixel".into())),
                ("ip".into(), Value::String("mc.hypixel.net".into())),
                ("icon".into(), Value::ByteArray(vec![0x89, b'P', b'N', b'G'])),
            ]),
            Value::Compound(vec![
                ("name".into(), Value::String("Local".into())),
                ("ip".into(), Value::String("127.0.0.1:25566".into())),
            ]),
        ]),
    )]);
    let parsed = roundtrip(&servers);
    let list = parsed.compound_get("servers").unwrap();
    let Value::List(items) = list else {
        panic!("servers must be a list");
    };
    assert_eq!(items.len(), 2);
    assert_eq!(
        items[0].compound_get("icon").unwrap(),
        &Value::ByteArray(vec![0x89, b'P', b'N', b'G'])
    );
    assert_eq!(items[1].compound_get("ip").unwrap().as_string().unwrap(), "127.0.0.1:25566");
}

#[test]
fn empty_list_uses_end_tag() {
    let value = Value::Compound(vec![("empty".into(), Value::List(vec![]))]);
    let bytes = rustlauncher::nbt::write("", &value);
    assert_eq!(*bytes.last().unwrap(), 0);
    assert_eq!(roundtrip(&value), value);
}

#[test]
fn refused_documents() {
    assert!(matches!(parse(&[]), Err(NbtError::UnexpectedEnd)));
    assert!(matches!(parse(&[8, 0, 0]), Err(NbtError::RootNotCompound(8))));
    let mut deep = vec![10u8, 0, 0];
    for _ in 0..100 {
        deep.extend_from_slice(&[10, 0, 0]);
    }
    deep.extend(std::iter::repeat(0u8).take(101));
    assert!(matches!(parse(&deep), Err(NbtError::TooDeep)));
}
