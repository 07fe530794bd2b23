use remajiro_tools::names::{
    alpha_mask_names, color_key_source, png_file_name, source_from_trimmed, strip_trailing_nuls,
    trim_whitespace,
};

#[test]
fn class_name_is_trimmed() {
    assert_eq!(color_key_source(Some("  base.rct \0\0")).as_deref(), Some("base.rct"));
    assert_eq!(color_key_source(Some("\u{3000}base.rct\t")).as_deref(), Some("base.rct"));
    assert_eq!(color_key_source(Some("base\0 ")).as_deref(), Some("base\0"));
    assert_eq!(color_key_source(Some("\0\0")), None);
    assert_eq!(color_key_source(Some(" \n")), None);
    assert_eq!(color_key_source(None), None);
}

#[test]
fn alpha_mask_candidates_in_order() {
    assert_eq!(
        alpha_mask_names("bg01"),
        vec!["bg01_.rc8", "bg01_.rct", "bg01_alfa.rc8", "bg01_alfa.rct", "bg01_alpha.rc8", "bg01_alpha.rct"]
    );
    assert!(alpha_mask_names("").is_empty());
}

#[test]
fn png_names() {
    assert_eq!(png_file_name("bg01"), "bg01.png");
    assert_eq!(png_file_name(""), ".png");
}

#[test]
fn trailing_nuls_and_trimmed_names() {
    assert_eq!(strip_trailing_nuls("name\0\0"), "name");
    assert_eq!(strip_trailing_nuls("na\0me"), "na\0me");
    assert_eq!(strip_trailing_nuls("\0"), "");
    assert_eq!(source_from_trimmed("x.rct").as_deref(), Some("x.rct"));
    assert_eq!(source_from_trimmed(""), None);
}

#[test]
fn trimming_agrees_with_std() {
    let mut samples: Vec<String> = vec![
        String::new(),
        "  a b  ".to_string(),
        "\u{3000}x\u{3000}".to_string(),
        "\u{200b}x\u{200b}".to_string(),
        "\u{180e}x".to_string(),
        "\0x\0".to_string(),
    ];
    for code in 0u32..0x3100 {
        if let Some(c) = char::from_u32(code) {
            samples.push(format!("{c}a{c}b{c}"));
        }
    }
    for s in &samples {
        assert_eq!(trim_whitespace(s), s.trim(), "sample {s:?}");
    }
}
