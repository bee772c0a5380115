//! Encoding tests: textual values and JSON argument descriptions to wire
//! bytes.

use pchain_client::json::JsonValue;
use pchain_client::parser::{
    call_arguments_from_json_value, serialize_argument_value, serialize_primitive_argument_value,
    EncodeError,
};

fn le32(n: u32) -> Vec<u8> {
    n.to_le_bytes().to_vec()
}

fn bstr(s: &str) -> Vec<u8> {
    let mut v = le32(s.len() as u32);
    v.extend_from_slice(s.as_bytes());
    v
}

fn json_of(v: &serde_json::Value) -> JsonValue {
    match v {
        serde_json::Value::Null => JsonValue::Null,
        serde_json::Value::Bool(b) => JsonValue::Bool(*b),
        serde_json::Value::Number(n) => JsonValue::Num(n.to_string()),
        serde_json::Value::String(s) => JsonValue::Str(s.clone()),
        serde_json::Value::Array(items) => JsonValue::Arr(items.iter().map(json_of).collect()),
        serde_json::Value::Object(fields) => {
            JsonValue::Obj(fields.iter().map(|(k, x)| (k.clone(), json_of(x))).collect())
        }
    }
}

#[test]
fn test_serialize_primitive_argument_value() {
    match serialize_primitive_argument_value("[[[true]]]", "Vec<Vec<Vec<bool>>>") {
        Ok(None) => {}
        _ => panic!("Expect error for unsupported type"),
    }

    assert_eq!(
        serialize_primitive_argument_value("false", "bool").unwrap().unwrap(),
        vec![0u8]
    );

    assert_eq!(
        serialize_primitive_argument_value("[false]", "Vec<bool>").unwrap().unwrap(),
        {
            let mut v = le32(1);
            v.push(0);
            v
        }
    );

    assert_eq!(
        serialize_primitive_argument_value("[-2, -3, 5, 6]", "Vec< i32 >").unwrap().unwrap(),
        {
            let mut v = le32(4);
            for x in [-2i32, -3, 5, 6] {
                v.extend_from_slice(&x.to_le_bytes());
            }
            v
        }
    );

    assert_eq!(
        serialize_primitive_argument_value(
            "[2, 2, 2, 2, 2, 2, 2, 2,
                2, 2, 2, 2, 2, 2, 2, 2,
                2, 2, 2, 2, 2, 2, 2, 2,
                2, 2, 2, 2, 2, 2, 2, 2,
                2, 2, 2, 2, 2, 2, 2, 2,
                2, 2, 2, 2, 2, 2, 2, 2,
                2, 2, 2, 2, 2, 2, 2, 2,
                2, 2, 2, 2, 2, 2, 2, 2]",
            "[ u8 ; 64 ]"
        )
        .unwrap()
        .unwrap(),
        vec![2u8; 64]
    );

    let arr32: [u8; 32] = [
        1, 2, 3, 4, 5, 6, 7, 8, 9, 0, 1, 2, 3, 4, 5, 6, 7, 8, 9, 0, 1, 2, 3, 4, 5, 6, 7, 8, 9, 0,
        1, 2,
    ];
    assert_eq!(
        serialize_primitive_argument_value(
            "[1,2,3,4,5,6,7,8,9,0,1,2,3,4,5,6,7,8,9,0,1,2,3,4,5,6,7,8,9,0,1,2]",
            "Option<[ u8 ; 32 ]>"
        )
        .unwrap()
        .unwrap(),
        {
            let mut v = vec![1u8];
            v.extend_from_slice(&arr32);
            v
        }
    );

    assert_eq!(
        serialize_primitive_argument_value("null", "Option<[ u8 ; 64 ]>").unwrap().unwrap(),
        vec![0u8]
    );

    assert_eq!(
        serialize_primitive_argument_value("\"Fa\\\"l\\\"se\"", "String").unwrap().unwrap(),
        bstr(r#"Fa"l"se"#)
    );

    assert_eq!(
        serialize_primitive_argument_value("\"Fa\\\"l\\\"se\"", "String").unwrap().unwrap(),
        bstr("Fa\"l\"se")
    );

    assert_eq!(
        serialize_primitive_argument_value("[\"sss\", \"ddd\"]", "Vec< String >")
            .unwrap()
            .unwrap(),
        {
            let mut v = le32(2);
            v.extend(bstr("sss"));
            v.extend(bstr("ddd"));
            v
        }
    );

    assert_eq!(
        serialize_primitive_argument_value("[\"sss\", \"ddd\"]", "Vec< Option < String > >")
            .unwrap()
            .unwrap(),
        {
            let mut v = le32(2);
            v.push(1);
            v.extend(bstr("sss"));
            v.push(1);
            v.extend(bstr("ddd"));
            v
        }
    );

    assert_eq!(
        serialize_primitive_argument_value("[\"sss\", null]", "Vec< Option < String > >")
            .unwrap()
            .unwrap(),
        {
            let mut v = le32(2);
            v.push(1);
            v.extend(bstr("sss"));
            v.push(0);
            v
        }
    );

    assert_eq!(
        serialize_primitive_argument_value("[\"sss\", \"ddd\"]", "Option< Vec < String > >")
            .unwrap()
            .unwrap(),
        {
            let mut v = vec![1u8];
            v.extend(le32(2));
            v.extend(bstr("sss"));
            v.extend(bstr("ddd"));
            v
        }
    );

    assert_eq!(
        serialize_primitive_argument_value("null", "Option< Vec < String > >").unwrap().unwrap(),
        vec![0u8]
    );

    assert_eq!(
        serialize_primitive_argument_value("[[\"sss\"], [\"ddd\"]]", "Vec< Vec < String > >")
            .unwrap()
            .unwrap(),
        {
            let mut v = le32(2);
            v.extend(le32(1));
            v.extend(bstr("sss"));
            v.extend(le32(1));
            v.extend(bstr("ddd"));
            v
        }
    );
}

#[test]
fn test_parse_arguments() {
    let json_val: serde_json::Value = serde_json::from_str(
        r#"
            {
                "arguments": [
                    {"argument_type": "i8", "argument_value":"-1"},
                    {"argument_type": "Vec<i8>", "argument_value":"[-1, -3, -5]"},
                    {"argument_type": "Vec<Vec<i8>>", "argument_value":"[[-1, -3], [-5]]"},
                    {"argument_type": "Vec<Option<i8>>", "argument_value":"[-1, null, -5]"},
                    {"argument_type": "Option<Vec<i8>>", "argument_value":"[-1, -3, -5]"},
                    {"argument_type": "Option<Vec<i8>>", "argument_value":"null"},

                    {"argument_type": "i16", "argument_value":"-30000"},
                    {"argument_type": "Vec<i16>", "argument_value":"[-10001, -30001, -5001]"},
                    {"argument_type": "Vec<Vec<i16>>", "argument_value":"[[-10001, -30001], [-5001]]"},
                    {"argument_type": "Vec<Option<i16>>", "argument_value":"[-10001, null, -5001]"},
                    {"argument_type": "Option<Vec<i16>>", "argument_value":"[-10001, -30001, -5001]"},
                    {"argument_type": "Option<Vec<i16>>", "argument_value":"null"},

                    {"argument_type": "i32", "argument_value":"-1094967295"},
                    {"argument_type": "Vec<i32>", "argument_value":"[-1,0,1]"},

                    {"argument_type": "i64", "argument_value":"-9046744073709551615"},
                    {"argument_type": "Vec<i64>", "argument_value":"[-1,0,1,65656565]"},

                    {"argument_type": "i128", "argument_value":"-9046744073709551615"},
                    {"argument_type": "Vec<i128>", "argument_value":"[-1,0,1,-65656565,0]"},

                    {"argument_type": "u8", "argument_value":"255"},
                    {"argument_type": "Vec<u8>", "argument_value":"[0]"},

                    {"argument_type": "u16", "argument_value":"65535"},
                    {"argument_type": "Vec<u16>", "argument_value":"[65535,6535]"},

                    {"argument_type": "u32", "argument_value":"4294967295"},
                    {"argument_type": "Vec<u32>", "argument_value":"[65535,6535,1919]"},

                    {"argument_type": "u64", "argument_value":"18446744073709551615"},
                    {"argument_type": "Vec<u64>", "argument_value":"[65535,6535,1919112123223]"},

                    {"argument_type": "u128", "argument_value":"18446744073709551616"},
                    {"argument_type": "Vec<u128>", "argument_value":"[65535,6535,1919112123223,123123,124124,125152]"},

                    {"argument_type": "bool", "argument_value": "true"},
                    {"argument_type": "Vec<bool>", "argument_value": "[true,false,true]"},
                    {"argument_type": "Vec<Vec<bool>>", "argument_value":"[[true, false], [true]]"},
                    {"argument_type": "Vec<Option<bool>>", "argument_value":"[true,false,null]"},
                    {"argument_type": "Option<Vec<bool>>", "argument_value":"[true,false,true]"},
                    {"argument_type": "Option<Vec<bool>>", "argument_value":"null"},

                    {"argument_type": "String", "argument_value": "\"string data\""},
                    {"argument_type": "Vec<String>", "argument_value": "[\"string data\", \"asdaf\", \"1d1 as2\"]"},
                    {"argument_type": "Vec<Vec<String>>", "argument_value":"[[\"string data\"], [\"asdaf\", \"1d1 as2\"]]"},
                    {"argument_type": "Vec<Option<String>>", "argument_value":"[\"string data\", null, \"1d1 as2\"]"},
                    {"argument_type": "Option<Vec<String>>", "argument_value":"[\"string data\", \"asdaf\", \"1d1 as2\"]"},
                    {"argument_type": "Option<Vec<String>>", "argument_value":"null"},

                    {"argument_type": "[u8; 32]", "argument_value": "[1,2,3,4,5,6,7,8,9,0,1,2,3,4,5,6,7,8,9,0,1,2,3,4,5,6,7,8,9,0,1,2]"},
                    {"argument_type": "[u8; 64]", "argument_value": "[1,2,3,4,5,6,7,8,9,0,1,2,3,4,5,6,7,8,9,0,1,2,3,4,5,6,7,8,9,0,1,2,1,2,3,4,5,6,7,8,9,0,1,2,3,4,5,6,7,8,9,0,1,2,3,4,5,6,7,8,9,0,1,2]"},
                    {"argument_type": "Option<[u8; 32]>", "argument_value": "[1,2,3,4,5,6,7,8,9,0,1,2,3,4,5,6,7,8,9,0,1,2,3,4,5,6,7,8,9,0,1,2]"},
                    {"argument_type": "Option<[u8; 64]>", "argument_value": "null"},

                    {"argument_type": "Vec<Custom>", "argument_value":
                        [
                            {"argument_type": "Custom", "argument_value":
                                [
                                    {"argument_type": "bool", "argument_value":"true"},
                                    {"argument_type": "String", "argument_value":"\"my name\""}
                                ]
                            }
                        ]
                    }
                ]
            }

        "#,
    )
    .unwrap();

    let converted = json_of(&json_val);
    let result = call_arguments_from_json_value(&converted);
    assert!(result.is_ok());
    let result = result.unwrap();
    assert_eq!(result.len(), 45);

    // Check in details:
    // - result[44] is "Vec<Custom>"
    assert_eq!(result[44].len(), 16); // 4 (length) + 1 (bool) + 4+7 (String)
}

#[test]
fn encode_u32_width_and_tags() {
    assert_eq!(
        serialize_primitive_argument_value("4294967295", "u32").unwrap().unwrap().len(),
        4
    );
    let arr = "[7,7,7,7,7,7,7,7,7,7,7,7,7,7,7,7,7,7,7,7,7,7,7,7,7,7,7,7,7,7,7,7]";
    assert_eq!(
        serialize_primitive_argument_value(arr, "[u8;32]").unwrap().unwrap().len(),
        32
    );
    assert_eq!(
        serialize_primitive_argument_value("null", "Option<u8>").unwrap().unwrap().len(),
        1
    );
    assert_eq!(
        serialize_primitive_argument_value("5", "Option<u8>").unwrap().unwrap().len(),
        2
    );
}

#[test]
fn encode_vec_u8_layout() {
    assert_eq!(
        serialize_primitive_argument_value("[0]", "Vec<u8>").unwrap().unwrap(),
        vec![1u8, 0, 0, 0, 0]
    );
}

#[test]
fn encode_bool_bytes() {
    assert_eq!(
        serialize_primitive_argument_value("false", "bool").unwrap().unwrap(),
        vec![0x00u8]
    );
    assert_eq!(
        serialize_primitive_argument_value("true", "bool").unwrap().unwrap(),
        vec![0x01u8]
    );
}

#[test]
fn encode_vec_custom_record() {
    let v: serde_json::Value = serde_json::from_str(
        r#"[
            {"argument_type": "Custom", "argument_value":
                [
                    {"argument_type": "bool", "argument_value":"true"},
                    {"argument_type": "String", "argument_value":"\"my name\""}
                ]
            }
        ]"#,
    )
    .unwrap();
    let converted = json_of(&v);
    let bytes = serialize_argument_value("Vec<Custom>", &converted).unwrap();
    assert_eq!(bytes.len(), 16);
    let mut expected = 1u32.to_le_bytes().to_vec();
    expected.push(1);
    expected.extend(bstr("my name"));
    assert_eq!(bytes, expected);
}

#[test]
fn encode_unicode_escape() {
    assert_eq!(
        serialize_primitive_argument_value("\"\\u0041\"", "String").unwrap().unwrap(),
        bstr("A")
    );
    assert_eq!(
        serialize_primitive_argument_value("\"\\uD83D\\uDE00\"", "String").unwrap().unwrap(),
        bstr("\u{1F600}")
    );
}

#[test]
fn encode_error_variants() {
    assert!(matches!(
        serialize_primitive_argument_value("xyz", "u32"),
        Err(EncodeError::MalformedValue(_))
    ));
    assert!(matches!(
        serialize_primitive_argument_value("256", "u8"),
        Err(EncodeError::MalformedValue(_))
    ));
    assert!(matches!(
        serialize_primitive_argument_value("[[[true]]]", "Vec<Vec<Vec<bool>>>"),
        Ok(None)
    ));

    let arr_val = JsonValue::Arr(vec![]);
    assert!(matches!(
        serialize_argument_value("u8", &arr_val),
        Err(EncodeError::ArrayNotCustom)
    ));

    let bool_val = JsonValue::Bool(true);
    assert!(matches!(
        serialize_argument_value("u8", &bool_val),
        Err(EncodeError::UnrecognizedValue)
    ));

    let str_val = JsonValue::Str(String::from("[1]"));
    assert!(matches!(
        serialize_argument_value("Vec<Vec<Vec<bool>>>", &str_val),
        Err(EncodeError::TypeNotSupported(_))
    ));

    let child_without_type = JsonValue::Arr(vec![JsonValue::Obj(vec![(
        String::from("argument_value"),
        JsonValue::Str(String::from("1")),
    )])]);
    assert!(matches!(
        serialize_argument_value("Custom", &child_without_type),
        Err(EncodeError::MissingField(_))
    ));

    let no_args = JsonValue::Obj(vec![]);
    assert!(matches!(
        pchain_client::parser::parse_json_arguments(&no_args),
        Err(EncodeError::MissingField(_))
    ));
}

#[test]
fn encode_custom_case_insensitive() {
    let record = JsonValue::Arr(vec![JsonValue::Obj(vec![
        (String::from("argument_type"), JsonValue::Str(String::from("u8"))),
        (String::from("argument_value"), JsonValue::Str(String::from("7"))),
    ])]);
    assert_eq!(serialize_argument_value("CUSTOM", &record).unwrap(), vec![7u8]);
    assert_eq!(
        serialize_argument_value("vec<custom>", &record).unwrap(),
        vec![1u8, 0, 0, 0, 7]
    );
}

#[test]
fn encode_number_grammar_edges() {
    // Whitespace around a value is allowed.
    assert_eq!(
        serialize_primitive_argument_value(" 5 ", "u8").unwrap().unwrap(),
        vec![5u8]
    );
    assert_eq!(
        serialize_primitive_argument_value("[ 1 , 2 ]", "Vec<u8>").unwrap().unwrap(),
        vec![2u8, 0, 0, 0, 1, 2]
    );
    // Empty vectors.
    assert_eq!(
        serialize_primitive_argument_value("[]", "Vec<u8>").unwrap().unwrap(),
        vec![0u8, 0, 0, 0]
    );
    assert_eq!(
        serialize_primitive_argument_value("[ ]", "Vec<String>").unwrap().unwrap(),
        vec![0u8, 0, 0, 0]
    );
    // A superfluous leading zero is not a JSON integer.
    assert!(matches!(
        serialize_primitive_argument_value("01", "u8"),
        Err(EncodeError::MalformedValue(_))
    ));
    // Minus zero is zero.
    assert_eq!(serialize_primitive_argument_value("-0", "u8").unwrap().unwrap(), vec![0u8]);
    // No exponent or fraction forms.
    assert!(matches!(
        serialize_primitive_argument_value("1e2", "u8"),
        Err(EncodeError::MalformedValue(_))
    ));
    assert!(matches!(
        serialize_primitive_argument_value("1.0", "u8"),
        Err(EncodeError::MalformedValue(_))
    ));
    // Out-of-range values of each sign.
    assert!(matches!(
        serialize_primitive_argument_value("-129", "i8"),
        Err(EncodeError::MalformedValue(_))
    ));
    assert_eq!(
        serialize_primitive_argument_value("-128", "i8").unwrap().unwrap(),
        vec![0x80u8]
    );
    assert_eq!(
        serialize_primitive_argument_value("-170141183460469231731687303715884105728", "i128")
            .unwrap()
            .unwrap(),
        i128::MIN.to_le_bytes().to_vec()
    );
    assert_eq!(
        serialize_primitive_argument_value("340282366920938463463374607431768211455", "u128")
            .unwrap()
            .unwrap(),
        u128::MAX.to_le_bytes().to_vec()
    );
    assert!(matches!(
        serialize_primitive_argument_value("340282366920938463463374607431768211456", "u128"),
        Err(EncodeError::MalformedValue(_))
    ));
    // A trailing token after the value is refused.
    assert!(matches!(
        serialize_primitive_argument_value("5 x", "u8"),
        Err(EncodeError::MalformedValue(_))
    ));
    // A lone surrogate escape is not a string.
    assert!(matches!(
        serialize_primitive_argument_value("\"\\uD83D\"", "String"),
        Err(EncodeError::MalformedValue(_))
    ));
    // A fixed array must have exactly its declared length.
    assert!(matches!(
        serialize_primitive_argument_value("[1,2,3]", "[u8;32]"),
        Err(EncodeError::MalformedValue(_))
    ));
}

#[test]
fn whitespace_in_type_names_never_changes_the_outcome() {
    // Equal outcomes, error payloads included: the error names the type by
    // its canonical form.
    assert_eq!(
        serialize_primitive_argument_value("x", "u 8"),
        serialize_primitive_argument_value("x", "u8")
    );
    assert_eq!(
        serialize_primitive_argument_value("x", "u 8"),
        Err(EncodeError::MalformedValue("u8".to_string()))
    );
    assert_eq!(
        serialize_primitive_argument_value("256", " u 8 "),
        serialize_primitive_argument_value("256", "u8")
    );
    assert_eq!(
        serialize_primitive_argument_value("5", "u\t8"),
        serialize_primitive_argument_value("5", "u8")
    );
    assert_eq!(
        serialize_primitive_argument_value("[[[true]]]", "Vec<Vec<Vec< bool >>>"),
        serialize_primitive_argument_value("[[[true]]]", "Vec<Vec<Vec<bool>>>")
    );
    let record = JsonValue::Arr(vec![JsonValue::Obj(vec![
        (String::from("argument_type"), JsonValue::Str(String::from("u8"))),
        (String::from("argument_value"), JsonValue::Str(String::from("7"))),
    ])]);
    assert_eq!(
        serialize_argument_value("Vec< Custom >", &record),
        serialize_argument_value("Vec<Custom>", &record)
    );
    assert_eq!(
        serialize_argument_value("u 8", &record),
        serialize_argument_value("u8", &record)
    );
}
