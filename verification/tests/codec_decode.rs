//! Decoding tests: wire bytes back to readable text, against one type name
//! or a nested schema.

use pchain_client::json::JsonValue;
use pchain_client::parser::{
    parse_call_result_from_data_type, parse_call_result_from_schema, DecodeError,
};

fn le32(n: u32) -> Vec<u8> {
    n.to_le_bytes().to_vec()
}

fn bstr(s: &str) -> Vec<u8> {
    let mut v = le32(s.len() as u32);
    v.extend_from_slice(s.as_bytes());
    v
}

fn json_of(v: &serde_json::Value) -> JsonValue {
    match v {
        serde_json::Value::Null => JsonValue::Null,
        serde_json::Value::Bool(b) => JsonValue::Bool(*b),
        serde_json::Value::Number(n) => JsonValue::Num(n.to_string()),
        serde_json::Value::String(s) => JsonValue::Str(s.clone()),
        serde_json::Value::Array(items) => JsonValue::Arr(items.iter().map(json_of).collect()),
        serde_json::Value::Object(fields) => {
            JsonValue::Obj(fields.iter().map(|(k, x)| (k.clone(), json_of(x))).collect())
        }
    }
}

#[test]
fn test_callresult() {
    let test_data_32: [u8; 32] = [
        1, 2, 3, 4, 5, 6, 7, 8, 9, 0, 1, 2, 3, 4, 5, 6, 7, 8, 9, 0, 1, 2, 3, 4, 5, 6, 7, 8, 9, 0,
        1, 2,
    ];
    let test_data_64: [u8; 64] = [
        1, 2, 3, 4, 5, 6, 7, 8, 9, 0, 1, 2, 3, 4, 5, 6, 7, 8, 9, 0, 1, 2, 3, 4, 5, 6, 7, 8, 9, 0,
        1, 2, 1, 2, 3, 4, 5, 6, 7, 8, 9, 0, 1, 2, 3, 4, 5, 6, 7, 8, 9, 0, 1, 2, 3, 4, 5, 6, 7, 8,
        9, 0, 1, 2,
    ];

    let value = 1u8.to_le_bytes().to_vec();
    assert_eq!(
        parse_call_result_from_data_type(&value, "u8".to_string()).unwrap(),
        "1".to_string()
    );

    let value = 123u16.to_le_bytes().to_vec();
    assert_eq!(
        parse_call_result_from_data_type(&value, "u16".to_string()).unwrap(),
        "123".to_string()
    );

    let value = 9898u32.to_le_bytes().to_vec();
    assert_eq!(
        parse_call_result_from_data_type(&value, "u32".to_string()).unwrap(),
        "9898".to_string()
    );

    let value = 9999999999999u64.to_le_bytes().to_vec();
    assert_eq!(
        parse_call_result_from_data_type(&value, "u64".to_string()).unwrap(),
        "9999999999999".to_string()
    );

    let value = 111199999999999u128.to_le_bytes().to_vec();
    assert_eq!(
        parse_call_result_from_data_type(&value, "u128".to_string()).unwrap(),
        "111199999999999".to_string()
    );

    let value = (-1i8).to_le_bytes().to_vec();
    assert_eq!(
        parse_call_result_from_data_type(&value, "i8".to_string()).unwrap(),
        "-1".to_string()
    );

    let value = (-123i16).to_le_bytes().to_vec();
    assert_eq!(
        parse_call_result_from_data_type(&value, "i16".to_string()).unwrap(),
        "-123".to_string()
    );

    let value = (-9898i32).to_le_bytes().to_vec();
    assert_eq!(
        parse_call_result_from_data_type(&value, "i32".to_string()).unwrap(),
        "-9898".to_string()
    );

    let value = (-9999999999999i64).to_le_bytes().to_vec();
    assert_eq!(
        parse_call_result_from_data_type(&value, "i64".to_string()).unwrap(),
        "-9999999999999".to_string()
    );

    let value = (-111199999999999i128).to_le_bytes().to_vec();
    assert_eq!(
        parse_call_result_from_data_type(&value, "i128".to_string()).unwrap(),
        "-111199999999999".to_string()
    );

    let value = vec![0u8];
    assert_eq!(
        parse_call_result_from_data_type(&value, "bool".to_string()).unwrap(),
        "false".to_string()
    );

    let value = bstr("asdas");
    assert_eq!(
        parse_call_result_from_data_type(&value, "String".to_string()).unwrap(),
        "\"asdas\"".to_string()
    );

    let mut value = le32(3);
    value.extend_from_slice(&[0u8, 1, 2]);
    assert_eq!(
        parse_call_result_from_data_type(&value, "Vec<u8>".to_string()).unwrap(),
        "[0, 1, 2]".to_string()
    );

    let mut value = le32(1);
    value.extend_from_slice(&99u16.to_le_bytes());
    assert_eq!(
        parse_call_result_from_data_type(&value, "Vec<u16>".to_string()).unwrap(),
        "[99]".to_string()
    );

    let mut value = le32(2);
    value.extend_from_slice(&0u32.to_le_bytes());
    value.extend_from_slice(&6u32.to_le_bytes());
    assert_eq!(
        parse_call_result_from_data_type(&value, "Vec<u32>".to_string()).unwrap(),
        "[0, 6]".to_string()
    );

    let mut value = le32(2);
    value.extend_from_slice(&0u64.to_le_bytes());
    value.extend_from_slice(&6123123123u64.to_le_bytes());
    assert_eq!(
        parse_call_result_from_data_type(&value, "Vec<u64>".to_string()).unwrap(),
        "[0, 6123123123]".to_string()
    );

    let mut value = le32(3);
    for x in [0i8, 1, -2] {
        value.extend_from_slice(&x.to_le_bytes());
    }
    assert_eq!(
        parse_call_result_from_data_type(&value, "Vec<i8>".to_string()).unwrap(),
        "[0, 1, -2]".to_string()
    );

    let mut value = le32(1);
    value.extend_from_slice(&(-99i16).to_le_bytes());
    assert_eq!(
        parse_call_result_from_data_type(&value, "Vec<i16>".to_string()).unwrap(),
        "[-99]".to_string()
    );

    let mut value = le32(2);
    value.extend_from_slice(&0i32.to_le_bytes());
    value.extend_from_slice(&6i32.to_le_bytes());
    assert_eq!(
        parse_call_result_from_data_type(&value, "Vec<i32>".to_string()).unwrap(),
        "[0, 6]".to_string()
    );

    let mut value = le32(2);
    value.extend_from_slice(&(-1i64).to_le_bytes());
    value.extend_from_slice(&(-6123123123i64).to_le_bytes());
    assert_eq!(
        parse_call_result_from_data_type(&value, "Vec<i64>".to_string()).unwrap(),
        "[-1, -6123123123]".to_string()
    );

    let mut value = le32(5);
    for x in [-1i128, -1, -1, -1, -6123123123] {
        value.extend_from_slice(&x.to_le_bytes());
    }
    assert_eq!(
        parse_call_result_from_data_type(&value, "Vec<i128>".to_string()).unwrap(),
        "[-1, -1, -1, -1, -6123123123]".to_string()
    );

    let mut value = le32(3);
    value.extend_from_slice(&[1u8, 0, 0]);
    assert_eq!(
        parse_call_result_from_data_type(&value, "Vec<bool>".to_string()).unwrap(),
        "[true, false, false]".to_string()
    );

    let mut value = le32(3);
    value.extend(bstr("true"));
    value.extend(bstr("false"));
    value.extend(bstr("false"));
    assert_eq!(
        parse_call_result_from_data_type(&value, "Vec<String>".to_string()).unwrap(),
        "[\"true\", \"false\", \"false\"]".to_string()
    );

    let value = test_data_32.to_vec();
    assert_eq!(
        parse_call_result_from_data_type(&value, "[ u 8; 3 2]".to_string()).unwrap(),
        format!("{:?}", test_data_32)
    );

    let value = test_data_64.to_vec();
    assert_eq!(
        parse_call_result_from_data_type(&value, "[ u 8; 6 4]".to_string()).unwrap(),
        format!("{:?}", test_data_64)
    );
}

#[test]
fn parser_test_parse_call_result() {
    // An account record: a name, a balance, and a nested list of friends.
    let mut serialized = bstr("Tom");
    serialized.extend_from_slice(&100u64.to_le_bytes());
    serialized.extend(le32(2));
    serialized.extend(bstr("Jason"));
    serialized.extend(bstr("Kay"));

    let schema: serde_json::Value = serde_json::from_str(
        r#"
        {
            "argument_name": "Person",
            "argument_type": [
                {"argument_name": "name", "argument_type":"String"},
                {"argument_name": "balance", "argument_type":"u64"},
                {"argument_name": "friends", "argument_type": [
                    {"argument_type":"Vec<String>"}
                ]}
            ]
        }
        "#,
    )
    .unwrap();

    let result = parse_call_result_from_schema(&serialized, &json_of(&schema)).unwrap();

    assert_eq!(
        result.iter().map(|(n, v)| (n.as_str(), v.as_str())).collect::<Vec<(&str, &str)>>(),
        vec![
            ("Person.name", "\"Tom\""),
            ("Person.balance", "100"),
            ("Person.friends[0]", "[\"Jason\", \"Kay\"]"),
        ]
    );

    // A token record: flat fields only.
    let mut serialized = bstr("my token");
    serialized.extend(bstr("MTK"));
    serialized.extend_from_slice(&10u8.to_le_bytes());
    serialized.extend_from_slice(&100000000000u64.to_le_bytes());

    let schema: serde_json::Value = serde_json::from_str(
        r#"
        [
            {"argument_name": "name", "argument_type":"String"},
            {"argument_name": "symbol", "argument_type":"String"},
            {"argument_name": "decimals", "argument_type":"u8"},
            {"argument_name": "total_supply", "argument_type":"u64"}
        ]
        "#,
    )
    .unwrap();

    let result = parse_call_result_from_schema(&serialized, &json_of(&schema)).unwrap();

    assert_eq!(
        result.iter().map(|(n, v)| (n.as_str(), v.as_str())).collect::<Vec<(&str, &str)>>(),
        vec![
            ("name", "\"my token\""),
            ("symbol", "\"MTK\""),
            ("decimals", "10"),
            ("total_supply", "100000000000"),
        ]
    );
}

#[test]
fn decode_u32_little_endian() {
    let value = vec![0u8, 1, 2, 3];
    assert_eq!(
        parse_call_result_from_data_type(&value, "u32".to_string()).unwrap(),
        "50462976".to_string()
    );
}

#[test]
fn decode_flat_schema_positions() {
    let schema: serde_json::Value = serde_json::from_str(
        r#"[
            {"argument_type":"u8"},
            {"argument_type":"bool"},
            {"argument_type":"u16"}
        ]"#,
    )
    .unwrap();
    let buffer = vec![0u8, 1, 2, 3];
    let result = parse_call_result_from_schema(&buffer, &json_of(&schema)).unwrap();
    assert_eq!(
        result.iter().map(|(n, v)| (n.as_str(), v.as_str())).collect::<Vec<(&str, &str)>>(),
        vec![("[0]", "0"), ("[1]", "true"), ("[2]", "770")]
    );
}

#[test]
fn decode_breadth_first_order() {
    // A group declared before a leaf: its children decode after the leaf.
    let schema: serde_json::Value = serde_json::from_str(
        r#"[
            {"argument_name": "g", "argument_type": [
                {"argument_name": "x", "argument_type":"u8"}
            ]},
            {"argument_name": "b", "argument_type":"u8"}
        ]"#,
    )
    .unwrap();
    let buffer = vec![5u8, 9u8];
    let result = parse_call_result_from_schema(&buffer, &json_of(&schema)).unwrap();
    assert_eq!(
        result.iter().map(|(n, v)| (n.as_str(), v.as_str())).collect::<Vec<(&str, &str)>>(),
        vec![("b", "5"), ("g.x", "9")]
    );
}

#[test]
fn decode_option_rendering() {
    let value = vec![1u8, 5u8];
    assert_eq!(
        parse_call_result_from_data_type(&value, "Option<u8>".to_string()).unwrap(),
        "Some(5)".to_string()
    );
    let value = vec![0u8];
    assert_eq!(
        parse_call_result_from_data_type(&value, "Option<u8>".to_string()).unwrap(),
        "None".to_string()
    );
}

#[test]
fn decode_nested_vec() {
    let mut value = le32(2);
    value.extend(le32(2));
    value.extend_from_slice(&[1u8, 0]);
    value.extend(le32(1));
    value.extend_from_slice(&[1u8]);
    assert_eq!(
        parse_call_result_from_data_type(&value, "Vec<Vec<bool>>".to_string()).unwrap(),
        "[[true, false], [true]]".to_string()
    );
}

#[test]
fn decode_error_variants() {
    let value = vec![0u8, 1];
    assert!(matches!(
        parse_call_result_from_data_type(&value, "u32".to_string()),
        Err(DecodeError::MalformedBytes(_))
    ));
    assert!(matches!(
        parse_call_result_from_data_type(&value, "Vec<Vec<Vec<bool>>>".to_string()),
        Err(DecodeError::TypeNotSupported(_))
    ));
    assert!(matches!(
        parse_call_result_from_data_type(&value, "Custom".to_string()),
        Err(DecodeError::TypeNotSupported(_))
    ));
    // A boolean byte must be 0 or 1.
    let value = vec![2u8];
    assert!(matches!(
        parse_call_result_from_data_type(&value, "bool".to_string()),
        Err(DecodeError::MalformedBytes(_))
    ));
    // A string must be valid UTF-8.
    let mut value = le32(1);
    value.push(0xFF);
    assert!(matches!(
        parse_call_result_from_data_type(&value, "String".to_string()),
        Err(DecodeError::MalformedBytes(_))
    ));

    // A schema node whose type is a number.
    let schema: serde_json::Value =
        serde_json::from_str(r#"[{"argument_type": 5}]"#).unwrap();
    assert!(matches!(
        parse_call_result_from_schema(&vec![], &json_of(&schema)),
        Err(DecodeError::BadSchemaNode(_))
    ));

    // A leaf with an unsupported type name.
    let schema: serde_json::Value =
        serde_json::from_str(r#"[{"argument_name":"a","argument_type":"what"}]"#).unwrap();
    assert!(matches!(
        parse_call_result_from_schema(&vec![], &json_of(&schema)),
        Err(DecodeError::LeafTypeNotSupported(_))
    ));

    // A leaf whose bytes run short.
    let schema: serde_json::Value =
        serde_json::from_str(r#"[{"argument_name":"a","argument_type":"u64"}]"#).unwrap();
    assert!(matches!(
        parse_call_result_from_schema(&vec![1u8], &json_of(&schema)),
        Err(DecodeError::LeafMalformed(_))
    ));
}

#[test]
fn decode_ignores_trailing_bytes() {
    let value = vec![7u8, 99, 99, 99];
    assert_eq!(
        parse_call_result_from_data_type(&value, "u8".to_string()).unwrap(),
        "7".to_string()
    );
}

#[test]
fn round_trip_samples() {
    for (ty, text, rendered) in [
        ("u32", "4294967295", "4294967295"),
        ("i64", "-12345", "-12345"),
        ("bool", "true", "true"),
        ("String", "\"hi there\"", "\"hi there\""),
        ("Vec<u16>", "[1, 2, 3]", "[1, 2, 3]"),
        ("Option<i8>", "null", "None"),
        ("Option<i8>", "-4", "Some(-4)"),
        ("Vec<Option<bool>>", "[true, null]", "[Some(true), None]"),
        ("Option<Vec<u8>>", "[9]", "Some([9])"),
        ("Vec<Vec<i8>>", "[[-1], [2, 3]]", "[[-1], [2, 3]]"),
    ] {
        let bytes = pchain_client::parser::serialize_primitive_argument_value(text, ty)
            .unwrap()
            .unwrap();
        assert_eq!(
            parse_call_result_from_data_type(&bytes, ty.to_string()).unwrap(),
            rendered.to_string(),
            "round trip failed for {}",
            ty
        );
    }
}

#[test]
fn decode_string_escaping() {
    let value = bstr("a\"b\\c\nd");
    assert_eq!(
        parse_call_result_from_data_type(&value, "String".to_string()).unwrap(),
        "\"a\\\"b\\\\c\\nd\"".to_string()
    );
}

#[test]
fn schema_unnamed_nodes_get_positional_labels() {
    let schema: serde_json::Value = serde_json::from_str(
        r#"[
            {"argument_name": 7, "argument_type":"u8"},
            {"argument_type": [
                {"argument_type":"u8"},
                {"argument_name":"y","argument_type":"u8"}
            ]}
        ]"#,
    )
    .unwrap();
    let buffer = vec![1u8, 2, 3];
    let result = parse_call_result_from_schema(&buffer, &json_of(&schema)).unwrap();
    assert_eq!(
        result.iter().map(|(n, v)| (n.as_str(), v.as_str())).collect::<Vec<(&str, &str)>>(),
        vec![("[0]", "1"), ("[1][0]", "2"), ("[1].y", "3")]
    );
}

#[test]
fn whitespace_in_type_names_never_changes_decoding() {
    let value = vec![0u8, 1];
    assert_eq!(
        parse_call_result_from_data_type(&value, "u 3 2".to_string()),
        parse_call_result_from_data_type(&value, "u32".to_string())
    );
    assert_eq!(
        parse_call_result_from_data_type(&value, "u 3 2".to_string()),
        Err(DecodeError::MalformedBytes("u32".to_string()))
    );
    assert_eq!(
        parse_call_result_from_data_type(&value, "w h a t".to_string()),
        Err(DecodeError::TypeNotSupported("what".to_string()))
    );
    let value = vec![7u8];
    assert_eq!(
        parse_call_result_from_data_type(&value, " u8 ".to_string()),
        parse_call_result_from_data_type(&value, "u8".to_string())
    );
}

#[test]
fn decode_escapes_c1_controls() {
    let value = bstr("a\u{85}b");
    assert_eq!(
        parse_call_result_from_data_type(&value, "String".to_string()).unwrap(),
        "\"a\\u{85}b\"".to_string()
    );
    let value = bstr("\u{7f}");
    assert_eq!(
        parse_call_result_from_data_type(&value, "String".to_string()).unwrap(),
        "\"\\u{7f}\"".to_string()
    );
}
