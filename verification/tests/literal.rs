use cargo_languagetool::literal::decode_string_literal;

fn chars(s: &str) -> Vec<char> {
    s.chars().collect()
}

#[test]
fn decodes_plain_text() {
    assert_eq!(decode_string_literal("\" Hello world\"").unwrap(), chars(" Hello world"));
    assert_eq!(decode_string_literal("\"\"").unwrap(), chars(""));
}

#[test]
fn decodes_escapes() {
    assert_eq!(decode_string_literal("\"a\\nb\"").unwrap(), chars("a\nb"));
    assert_eq!(decode_string_literal("\"a\\tb\"").unwrap(), chars("a\tb"));
    assert_eq!(decode_string_literal("\"a\\rb\"").unwrap(), chars("a\rb"));
    assert_eq!(decode_string_literal("\"say \\\"hi\\\"\"").unwrap(), chars("say \"hi\""));
    assert_eq!(decode_string_literal("\"back\\\\slash\"").unwrap(), chars("back\\slash"));
    assert_eq!(decode_string_literal("\"quote\\'\"").unwrap(), chars("quote'"));
    assert_eq!(decode_string_literal("\"nul\\0\"").unwrap(), chars("nul\0"));
}

#[test]
fn decodes_unicode_escapes() {
    assert_eq!(decode_string_literal("\"\\u{48}i\"").unwrap(), chars("Hi"));
    assert_eq!(decode_string_literal("\"\\u{1F600}\"").unwrap(), chars("\u{1F600}"));
}

#[test]
fn rejects_malformed_literals() {
    // Not quoted at all, and not closed.
    assert!(decode_string_literal("bare").is_err());
    assert!(decode_string_literal("\"open").is_err());
    // A raw-string form is not a plain quoted literal.
    assert!(decode_string_literal("r\"raw\"").is_err());
    // Unknown escape, trailing backslash, embedded quote.
    assert!(decode_string_literal("\"bad\\q\"").is_err());
    assert!(decode_string_literal("\"trail\\\"").is_err());
    assert!(decode_string_literal("\"a\"b\"").is_err());
    // Unicode escapes must name a scalar value with one to six digits.
    assert!(decode_string_literal("\"\\u{}\"").is_err());
    assert!(decode_string_literal("\"\\u{D800}\"").is_err());
    assert!(decode_string_literal("\"\\u{1234567}\"").is_err());
    assert!(decode_string_literal("\"\\u{110000}\"").is_err());
    assert!(decode_string_literal("\"\\u48\"").is_err());
}
