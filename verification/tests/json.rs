use elastic_importer::text::{chars_of, is_space_char, trim};
use elastic_importer::{infer_type, json_escape, parse_integer};

fn float_form(s: &str) -> Option<String> {
    s.parse::<f64>().ok().map(|f| f.to_string())
}

fn typed(s: &str) -> String {
    infer_type(s, float_form(s).as_deref())
}

#[test]
fn empty_value_is_null() {
    assert_eq!(typed(""), "null");
    assert_eq!(infer_type("", Some("1")), "null");
}

#[test]
fn integer_values() {
    assert_eq!(typed("42"), "42");
    assert_eq!(typed("-17"), "-17");
    assert_eq!(typed("+7"), "7");
    assert_eq!(typed("007"), "7");
    assert_eq!(typed("-0"), "0");
    assert_eq!(typed("0"), "0");
    assert_eq!(typed("9223372036854775807"), "9223372036854775807");
    assert_eq!(typed("-9223372036854775808"), "-9223372036854775808");
}

#[test]
fn integer_wins_over_the_float_reading() {
    assert_eq!(infer_type("42", Some("42.5")), "42");
}

#[test]
fn float_values() {
    assert_eq!(typed("-3.5"), "-3.5");
    assert_eq!(typed("1e3"), "1000");
    assert_eq!(typed("2.50"), "2.5");
    assert_eq!(typed("9223372036854775808"), "9223372036854776000");
}

#[test]
fn float_reading_is_taken_as_given() {
    assert_eq!(infer_type("abc", Some("1.25")), "1.25");
    assert_eq!(infer_type("true", Some("1.25")), "1.25");
}

#[test]
fn boolean_values() {
    assert_eq!(typed("TRUE"), "true");
    assert_eq!(typed("true"), "true");
    assert_eq!(typed("False"), "false");
    assert_eq!(typed("fAlSe"), "false");
}

#[test]
fn near_booleans_are_text() {
    assert_eq!(typed("truth"), "\"truth\"");
    assert_eq!(typed("tru"), "\"tru\"");
    assert_eq!(typed("yes"), "\"yes\"");
    assert_eq!(typed("\u{212a}"), "\"\u{212a}\"");
}

#[test]
fn text_values() {
    assert_eq!(typed("hello"), "\"hello\"");
    assert_eq!(typed("12abc"), "\"12abc\"");
    assert_eq!(typed("-"), "\"-\"");
    assert_eq!(typed("+"), "\"+\"");
    assert_eq!(typed("1 2"), "\"1 2\"");
    assert_eq!(infer_type("1.5", None), "\"1.5\"");
}

#[test]
fn text_with_quote_and_newline_is_escaped() {
    assert_eq!(typed("say \"hi\"\nnow"), "\"say \\\"hi\\\"\\nnow\"");
}

#[test]
fn escapes_of_two_characters() {
    assert_eq!(json_escape("a\\b"), "a\\\\b");
    assert_eq!(json_escape("a\"b"), "a\\\"b");
    assert_eq!(json_escape("a\nb"), "a\\nb");
    assert_eq!(json_escape("a\rb"), "a\\rb");
    assert_eq!(json_escape("a\tb"), "a\\tb");
}

#[test]
fn other_control_characters_are_written_in_hexadecimal() {
    assert_eq!(json_escape("\u{0}"), "\\u0000");
    assert_eq!(json_escape("\u{1}"), "\\u0001");
    assert_eq!(json_escape("\u{8}"), "\\u0008");
    assert_eq!(json_escape("\u{b}"), "\\u000b");
    assert_eq!(json_escape("\u{c}"), "\\u000c");
    assert_eq!(json_escape("\u{1f}"), "\\u001f");
    assert_eq!(json_escape("\u{1b}[0m"), "\\u001b[0m");
}

#[test]
fn other_characters_pass_unescaped() {
    assert_eq!(json_escape(" !/~\u{7f}"), " !/~\u{7f}");
    assert_eq!(json_escape("é日本😀"), "é日本😀");
    assert_eq!(json_escape(""), "");
}

#[test]
fn every_control_character_matches_the_formatted_escape() {
    for code in 0u32..0x20 {
        let c = char::from_u32(code).unwrap();
        let expected = match c {
            '\n' => "\\n".to_string(),
            '\r' => "\\r".to_string(),
            '\t' => "\\t".to_string(),
            _ => format!("\\u{:04x}", code),
        };
        assert_eq!(json_escape(&c.to_string()), expected);
    }
}

#[test]
fn integer_reading_agrees_with_the_standard_parser() {
    let samples = [
        "", "0", "-0", "+0", "1", "-1", "+1", "00012", "-00012", "12a", "a12", "1 ", " 1", "--1",
        "+-1", "-+1", "++1", "-", "+", "1.0", "1e3", "٣", "１２", "9223372036854775807",
        "9223372036854775808", "-9223372036854775808", "-9223372036854775809",
        "+9223372036854775807", "18446744073709551616", "000000000000000000000000000000001",
        "99999999999999999999999999999999", "-99999999999999999999999999999999", "1_000",
    ];
    for s in samples {
        assert_eq!(parse_integer(s), s.parse::<i64>().ok(), "{:?}", s);
    }
}

#[test]
fn white_space_agrees_with_the_standard_library() {
    for code in 0u32..=0x10ffff {
        if let Some(c) = char::from_u32(code) {
            assert_eq!(is_space_char(c), c.is_whitespace(), "{:x}", code);
        }
    }
}

#[test]
fn trimming_agrees_with_the_standard_library() {
    let samples = [
        "", " ", "  ", "a", " a", "a ", "  a b  ", "\t\r\n x \u{a0}\u{3000}", "\u{2003}é\u{85}",
        " \u{200b} ", "a\u{0}", "\u{1680}\u{2028}\u{2029}\u{202f}\u{205f}",
    ];
    for s in samples {
        assert_eq!(trim(&chars_of(s)), s.trim(), "{:?}", s);
    }
}

#[test]
fn only_latin_letters_fold_to_the_letters_of_the_booleans() {
    for code in 0x80u32..=0x10ffff {
        if let Some(c) = char::from_u32(code) {
            let low = c.to_lowercase().to_string();
            for letter in ["t", "r", "u", "e", "f", "a", "l", "s"] {
                assert_ne!(low, letter, "{:x}", code);
            }
        }
    }
    for word in ["TRUE", "True", "tRuE", "FALSE", "False"] {
        assert_eq!(typed(word), word.to_lowercase());
    }
}
