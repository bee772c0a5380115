//! Tests of type-name canonicalization, the descriptor table, and the
//! configuration and keypair helpers.

use pchain_client::config::{canon_url_exec, get_config_path, get_hash_path, get_keypair_path,
    Config};
use pchain_client::keypair::{append_keypair, get_keypair_from_json, KeypairJSON};
use pchain_client::typedesc::{parse_type_descriptor, sanitize_argument_type, ByteLen, IntKind,
    Prim, TypeDesc};
use pchain_client::display_types::V2Receipt;

#[test]
fn normalize_array_shapes() {
    assert_eq!(
        sanitize_argument_type("[ u8 ; 64 ]"),
        sanitize_argument_type("[u8;64]")
    );
    assert_eq!(sanitize_argument_type("[u8;32]"), "Array<u8,32>");
    assert_eq!(sanitize_argument_type("Option<[ u8 ; 32 ]>"), "OptionArray<u8,32>");
    assert_eq!(sanitize_argument_type("[i16;64]"), "Array<i16,64>");
    assert_eq!(sanitize_argument_type(" Vec < u8 > "), "Vec<u8>");
    assert_eq!(sanitize_argument_type("plain"), "plain");
}

#[test]
fn normalize_is_idempotent() {
    for s in ["[ u8 ; 64 ]", "Option<[u8;32]>", "Vec< i32 >", "weird [ stuff ;", "Array<u8,32>"] {
        let once = sanitize_argument_type(s);
        let twice = sanitize_argument_type(&once);
        assert_eq!(once, twice);
    }
}

#[test]
fn descriptor_table() {
    assert_eq!(
        parse_type_descriptor("u32"),
        Some(TypeDesc::Prim(Prim::Int(IntKind::U32)))
    );
    assert_eq!(parse_type_descriptor("bool"), Some(TypeDesc::Prim(Prim::Bool)));
    assert_eq!(parse_type_descriptor("String"), Some(TypeDesc::Prim(Prim::Str)));
    assert_eq!(
        parse_type_descriptor("Vec< i128 >"),
        Some(TypeDesc::VecOf(Prim::Int(IntKind::I128)))
    );
    assert_eq!(
        parse_type_descriptor("Vec<Vec<bool>>"),
        Some(TypeDesc::VecVec(Prim::Bool))
    );
    assert_eq!(
        parse_type_descriptor("Option<String>"),
        Some(TypeDesc::OptOf(Prim::Str))
    );
    assert_eq!(
        parse_type_descriptor("Vec<Option<u8>>"),
        Some(TypeDesc::VecOpt(Prim::Int(IntKind::U8)))
    );
    assert_eq!(
        parse_type_descriptor("Option<Vec<u8>>"),
        Some(TypeDesc::OptVec(Prim::Int(IntKind::U8)))
    );
    assert_eq!(
        parse_type_descriptor("[u8;32]"),
        Some(TypeDesc::FixedBytes(ByteLen::B32))
    );
    assert_eq!(
        parse_type_descriptor("Option<[u8;64]>"),
        Some(TypeDesc::OptFixedBytes(ByteLen::B64))
    );
    assert_eq!(parse_type_descriptor("Custom"), Some(TypeDesc::Custom));
    assert_eq!(parse_type_descriptor("Vec<Custom>"), Some(TypeDesc::VecCustom));
    // Unsupported shapes.
    assert_eq!(parse_type_descriptor("Vec<Vec<Vec<bool>>>"), None);
    assert_eq!(parse_type_descriptor("[i16;64]"), None);
    assert_eq!(parse_type_descriptor("Option<Option<u8>>"), None);
    assert_eq!(parse_type_descriptor("f32"), None);
    assert_eq!(parse_type_descriptor(""), None);
}

#[test]
fn config_url_canonicalization() {
    assert_eq!(canon_url_exec("  https://node.example/  "), "https://node.example");
    assert_eq!(canon_url_exec("https://node.example///"), "https://node.example");
    assert_eq!(canon_url_exec("   "), "");
    assert_eq!(canon_url_exec("\u{a0}https://node.example\u{2003}"), "https://node.example");
    let mut c = Config { url: String::new() };
    c.update(" https://rpc.example/ ");
    assert_eq!(c.url, "https://rpc.example");
}

#[test]
fn utf8_text_outcome() {
    let ok = "grüß".as_bytes().to_vec();
    assert_eq!(pchain_client::text::utf8_string_of(&ok).unwrap(), "grüß");
    let bad = vec![0xFFu8, 0x00];
    assert!(pchain_client::text::utf8_string_of(&bad).is_none());
    // A lone continuation byte and a truncated sequence are invalid too.
    assert!(pchain_client::text::utf8_string_of(&vec![0x80u8]).is_none());
    assert!(pchain_client::text::utf8_string_of(&vec![0xC3u8]).is_none());
    assert_eq!(pchain_client::text::utf8_string_of(&Vec::new()).unwrap(), "");
}

#[test]
fn config_paths() {
    assert_eq!(get_config_path("/home/user/.pchain"), "/home/user/.pchain/config.toml");
    assert_eq!(get_keypair_path("/home/user/.pchain"), "/home/user/.pchain/keypair");
    assert_eq!(get_hash_path("/home/user/.pchain"), "/home/user/.pchain/hash");
}

#[test]
fn keypair_lookup() {
    let kp = |name: &str| KeypairJSON {
        name: name.to_string(),
        private_key: format!("{}-private", name),
        public_key: format!("{}-public", name),
        keypair: format!("{}-pair", name),
    };
    let list = vec![kp("alpha"), kp("beta"), kp("alpha")];
    let found = get_keypair_from_json(&list, "beta").unwrap();
    assert_eq!(found.public_key, "beta-public");
    let first = get_keypair_from_json(&list, "alpha").unwrap();
    assert_eq!(first.private_key, "alpha-private");
    assert!(get_keypair_from_json(&list, "gamma").is_none());
    assert!(get_keypair_from_json(&vec![], "alpha").is_none());
}

#[test]
fn keypair_append_refuses_duplicates() {
    let kp = |name: &str| KeypairJSON {
        name: name.to_string(),
        private_key: String::new(),
        public_key: String::new(),
        keypair: String::new(),
    };
    let mut list = vec![kp("alpha")];
    assert!(append_keypair(&mut list, kp("beta")));
    assert_eq!(list.len(), 2);
    assert!(!append_keypair(&mut list, kp("alpha")));
    assert_eq!(list.len(), 2);
}

#[test]
fn receipt_builders() {
    let r = V2Receipt::new("Success".to_string(), 42);
    assert_eq!(r.exit_code, "Success");
    assert_eq!(r.gas_used, 42);
    assert!(r.return_values.is_none() && r.logs.is_none() && r.amount.is_none());
    let r = r.return_values("(Base64 encoded) AAECAw".to_string());
    assert_eq!(r.return_values.as_deref(), Some("(Base64 encoded) AAECAw"));
    let r = r.amount(7);
    assert_eq!(r.amount, Some(7));
    assert_eq!(r.exit_code, "Success");
    let r = r.logs(vec![]);
    assert_eq!(r.logs.as_ref().map(|l| l.len()), Some(0));
}
