use remajiro_tools::catalog::{
    lookup_field, parse_catalog_offset, read_catalog, read_catalog_text, CatalogError, JsonValue,
    OffsetError,
};

fn kind_of_std(key: &str) -> Result<u32, OffsetError> {
    match u32::from_str_radix(key.trim_start_matches("0x"), 16) {
        Ok(v) => Ok(v),
        Err(e) => Err(match e.kind() {
            std::num::IntErrorKind::Empty => OffsetError::Empty,
            std::num::IntErrorKind::PosOverflow => OffsetError::TooLarge,
            _ => OffsetError::InvalidDigit,
        }),
    }
}

#[test]
fn offsets_read_as_hexadecimal() {
    assert_eq!(parse_catalog_offset("0x4704"), Ok(0x4704));
    assert_eq!(parse_catalog_offset("0x0046CE"), Ok(0x46CE));
    assert_eq!(parse_catalog_offset("4704"), Ok(0x4704));
    assert_eq!(parse_catalog_offset("0x0x10"), Ok(16));
    assert_eq!(parse_catalog_offset("+1f"), Ok(31));
    assert_eq!(parse_catalog_offset("0xFFFFFFFF"), Ok(u32::MAX));
}

#[test]
fn offset_errors() {
    assert_eq!(parse_catalog_offset(""), Err(OffsetError::Empty));
    assert_eq!(parse_catalog_offset("0x"), Err(OffsetError::Empty));
    assert_eq!(parse_catalog_offset("+"), Err(OffsetError::InvalidDigit));
    assert_eq!(parse_catalog_offset("-1"), Err(OffsetError::InvalidDigit));
    assert_eq!(parse_catalog_offset("0xZZ"), Err(OffsetError::InvalidDigit));
    assert_eq!(parse_catalog_offset("0x100000000"), Err(OffsetError::TooLarge));
    assert_eq!(parse_catalog_offset("0xFFFFFFFFG"), Err(OffsetError::InvalidDigit));
}

#[test]
fn offsets_agree_with_std() {
    let keys = [
        "", "0x", "0x0x", "0", "0x0", "0x4704", "4704", "+", "-", "+0x1", "0x+1", "-1", "0X10",
        "0xg", "0x1g", " 0x10", "0x10 ", "0xffffffff", "0x100000000", "0xFFFFFFFFG",
        "0x1FFFFFFFFG", "0xFFFFFFFFFFFF", "00000000000000001", "0x\u{3000}", "0x1_0", "0x0x0x",
        "++1", "+FFFFFFFF",
    ];
    for key in keys {
        assert_eq!(parse_catalog_offset(key), kind_of_std(key), "key {key:?}");
    }
}

fn text(s: &str) -> JsonValue {
    JsonValue::Str(s.to_string())
}

fn object(fields: Vec<(&str, JsonValue)>) -> JsonValue {
    JsonValue::Object(fields.into_iter().map(|(k, v)| (k.to_string(), v)).collect())
}

#[test]
fn lookup_takes_the_named_field() {
    let doc = object(vec![("a", text("1")), ("b", text("2"))]);
    match lookup_field(&doc, &"b".to_string()) {
        Some(JsonValue::Str(s)) => assert_eq!(s, "2"),
        other => panic!("unexpected {other:?}"),
    }
    assert!(lookup_field(&doc, &"c".to_string()).is_none());
    assert!(lookup_field(&text("x"), &"a".to_string()).is_none());
}

#[test]
fn catalog_messages_are_keyed_by_offset() {
    let doc = object(vec![
        ("format", JsonValue::Number("1".to_string())),
        (
            "messages",
            object(vec![
                ("0x4704", object(vec![("source", text("「ハッピー」")), ("text", text("「生日快乐」"))])),
                ("0x4762", object(vec![("text", text("你的生日")), ("source", JsonValue::Null)])),
            ]),
        ),
    ]);
    let catalog = read_catalog(&doc).unwrap();
    assert_eq!(catalog.len(), 2);
    let first = &catalog[&0x4704];
    assert_eq!(first.source.as_deref(), Some("「ハッピー」"));
    assert_eq!(first.text, "「生日快乐」");
    let second = &catalog[&0x4762];
    assert_eq!(second.source, None);
    assert_eq!(second.text, "你的生日");
}

#[test]
fn later_entries_replace_earlier_ones() {
    let doc = object(vec![(
        "messages",
        object(vec![
            ("0x10", object(vec![("text", text("first"))])),
            ("10", object(vec![("text", text("second"))])),
        ]),
    )]);
    let catalog = read_catalog(&doc).unwrap();
    assert_eq!(catalog.len(), 1);
    assert_eq!(catalog[&16].text, "second");
}

#[test]
fn catalog_without_messages_is_empty() {
    assert!(read_catalog(&object(vec![("format", text("1"))])).unwrap().is_empty());
    assert!(read_catalog(&object(vec![("messages", text("none"))])).unwrap().is_empty());
    assert!(read_catalog(&JsonValue::Array(vec![])).unwrap().is_empty());
}

#[test]
fn entry_without_text_is_refused() {
    let doc = object(vec![(
        "messages",
        object(vec![("0x20", object(vec![("source", text("s")), ("text", JsonValue::Bool(true))]))]),
    )]);
    match read_catalog(&doc) {
        Err(CatalogError::MissingText { key }) => assert_eq!(key, "0x20"),
        other => panic!("unexpected {other:?}"),
    }
}

#[test]
fn bad_offset_is_refused_first() {
    let doc = object(vec![(
        "messages",
        object(vec![
            ("0x20", object(vec![("text", text("ok"))])),
            ("0xZZ", object(vec![("text", text("bad"))])),
            ("0x30", object(vec![])),
        ]),
    )]);
    match read_catalog(&doc) {
        Err(CatalogError::BadOffset { key, reason }) => {
            assert_eq!(key, "0xZZ");
            assert_eq!(reason, OffsetError::InvalidDigit);
        }
        other => panic!("unexpected {other:?}"),
    }
}

#[test]
fn catalog_text_is_read() {
    let text = r#"{
      "format": 1,
      "code_crc32": "0x1A2B3C4D",
      "messages": {
        "0x4704": { "source": "「ハッピーバースデイ、兄さん」", "text": "「生日快乐，哥哥」" },
        "0x47D0": { "text": "你今后的未来，", "source": 5 }
      }
    }"#;
    let catalog = read_catalog_text(text).unwrap();
    assert_eq!(catalog.len(), 2);
    assert_eq!(catalog[&0x4704].text, "「生日快乐，哥哥」");
    assert_eq!(catalog[&0x4704].source.as_deref(), Some("「ハッピーバースデイ、兄さん」"));
    assert_eq!(catalog[&0x47D0].source, None);
}

#[test]
fn catalog_text_keys_are_read_in_map_order() {
    let text = r#"{"messages": {"10": {"text": "second"}, "0x10": {"text": "first"}}}"#;
    let catalog = read_catalog_text(text).unwrap();
    assert_eq!(catalog[&16].text, "second");
    let repeated = r#"{"messages": {"0x1": {"text": "a"}, "0x1": {"text": "b"}}}"#;
    assert_eq!(read_catalog_text(repeated).unwrap()[&1].text, "b");
}

#[test]
fn catalog_text_that_is_not_json() {
    match read_catalog_text("{ messages: }") {
        Err(CatalogError::Syntax(e)) => assert_eq!(e.line(), 1),
        other => panic!("unexpected {other:?}"),
    }
    assert!(matches!(read_catalog_text(""), Err(CatalogError::Syntax(_))));
    match read_catalog_text(r#"{"messages": {"0x1": {}}}"#) {
        Err(CatalogError::MissingText { key }) => assert_eq!(key, "0x1"),
        other => panic!("unexpected {other:?}"),
    }
}
