use json_to_yaml::text::{char_is_whitespace, indentation, trim_str};

#[test]
fn whitespace_is_the_unicode_property() {
    for code in 0..=0x10ffff_u32 {
        if let Some(c) = char::from_u32(code) {
            assert_eq!(char_is_whitespace(c), c.is_whitespace(), "U+{:04X}", code);
        }
    }
}

#[test]
fn trim_strips_both_ends_only() {
    assert_eq!(trim_str(""), "");
    assert_eq!(trim_str(" \n\t "), "");
    assert_eq!(trim_str("a"), "a");
    assert_eq!(trim_str("  a b  "), "a b");
    assert_eq!(trim_str("\n- 1\n    - 2\n\n"), "- 1\n    - 2");
    assert_eq!(trim_str("\u{a0}\u{3000}é \u{2028}"), "é");
}

#[test]
fn trim_agrees_with_the_standard_library() {
    for text in [
        "",
        " ",
        "x",
        " x",
        "x ",
        "\r\n x \u{85}y\u{1680} \u{2003}",
        "\u{feff}x\u{200b}",
        "\u{180e}x\u{180e}",
        "a:\n  - b\n  - c\n",
    ] {
        assert_eq!(trim_str(text), text.trim());
    }
}

#[test]
fn indentation_is_spaces() {
    assert_eq!(indentation(0), "");
    assert_eq!(indentation(1), " ");
    assert_eq!(indentation(6), "      ");
    assert_eq!(indentation(1000), " ".repeat(1000));
}
