use std::convert::Infallible;

use json_streaming::io::VecRead;
use json_streaming::location::Location;
use json_streaming::reader::JsonReader;
use json_streaming::token::{JsonNumber, JsonParseError, JsonReadToken};

enum Expected {
    Parse(&'static str),
    Overflow,
    Unexpected,
}

fn reader(json: &str, buf_size: usize) -> JsonReader<VecRead> {
    JsonReader::new(buf_size, VecRead::new(json.as_bytes().to_vec()))
}

fn assert_is_similar_error(actual: &JsonParseError<Infallible>, expected: &Expected) {
    match (actual, expected) {
        (JsonParseError::Parse(kind, _), Expected::Parse(msg)) => assert_eq!(kind.message(), *msg),
        (JsonParseError::BufferOverflow(_), Expected::Overflow) => {},
        (JsonParseError::UnexpectedToken(_), Expected::Unexpected) => {},
        (other, _) => panic!("unexpected error: {:?}", other),
    }
}

fn check_parse(input: &str, expected: &[JsonReadToken], expected_error: &Option<Expected>) {
    let mut parser = reader(input, 64);
    for evt in expected {
        assert_eq!(&parser.next().unwrap(), evt, "input {:?}", input);
    }
    match expected_error {
        Some(expected_error) => match parser.next() {
            Ok(t) => panic!("expected error but was ok: {:?} for {:?}", t, input),
            Err(e) => assert_is_similar_error(&e, expected_error),
        },
        None => assert_eq!(parser.next().unwrap(), JsonReadToken::EndOfStream, "input {:?}", input),
    }
}

#[test]
fn test_parse() {
    let cases: Vec<(&str, Vec<JsonReadToken>, Option<Expected>)> = vec![
        // empty
        ("", vec![], None),
        // empty_repeated_end_of_stream
        ("", vec![JsonReadToken::EndOfStream, JsonReadToken::EndOfStream, JsonReadToken::EndOfStream, ], None),
        // null_literal
        ("null", vec![JsonReadToken::NullLiteral], None),
        // true_literal
        ("true", vec![JsonReadToken::BooleanLiteral(true)], None),
        // false_literal
        ("false", vec![JsonReadToken::BooleanLiteral(false)], None),
        // start_object
        ("{", vec![JsonReadToken::StartObject], None),
        // end_object
        ("{}", vec![JsonReadToken::StartObject, JsonReadToken::EndObject], None),
        // start_array
        ("[", vec![JsonReadToken::StartArray], None),
        // end_array
        ("[]", vec![JsonReadToken::StartArray, JsonReadToken::EndArray], None),
        // key
        ("\"xyz\":", vec![JsonReadToken::Key("xyz".to_string())], None),
        // key_with_escapes
        ("\"x\\ry\\nz\":", vec![JsonReadToken::Key("x\ry\nz".to_string())], None),
        // key_ws
        ("\"xyz\" \n:", vec![JsonReadToken::Key("xyz".to_string())], None),
        // key_value
        ("\"xyz\" \n:\r\tfalse", vec![JsonReadToken::Key("xyz".to_string()), JsonReadToken::BooleanLiteral(false)], None),
        // string_literal
        (r#""abc""#, vec![JsonReadToken::StringLiteral("abc".to_string())], None),
        // string_literal_empty
        (r#""""#, vec![JsonReadToken::StringLiteral("".to_string())], None),
        // string_literal_quot
        (r#""\"""#, vec![JsonReadToken::StringLiteral("\"".to_string())], None),
        // string_literal_backslash
        (r#""\\""#, vec![JsonReadToken::StringLiteral("\\".to_string())], None),
        // string_literal_slash
        (r#""\/""#, vec![JsonReadToken::StringLiteral("/".to_string())], None),
        // string_literal_backslash
        (r#""\b""#, vec![JsonReadToken::StringLiteral("\x08".to_string())], None),
        // string_literal_formfeed
        (r#""\f""#, vec![JsonReadToken::StringLiteral("\x0c".to_string())], None),
        // string_literal_linefeed
        (r#""\n""#, vec![JsonReadToken::StringLiteral("\n".to_string())], None),
        // string_literal_carriage_return
        (r#""\r""#, vec![JsonReadToken::StringLiteral("\r".to_string())], None),
        // string_literal_tab
        (r#""\t""#, vec![JsonReadToken::StringLiteral("\t".to_string())], None),
        // string_literal_unicode_y
        (r#""\u0079""#, vec![JsonReadToken::StringLiteral("y".to_string())], None),
        // string_literal_unicode_umlaut_two_bytes
        (r#""\u00e4""#, vec![JsonReadToken::StringLiteral("ä".to_string())], None),
        // string_literal_unicode_omega_two_bytes
        (r#""\u03a9""#, vec![JsonReadToken::StringLiteral("Ω".to_string())], None),
        // string_literal_unicode_euro_three_bytes
        (r#""\u20ac""#, vec![JsonReadToken::StringLiteral("€".to_string())], None),
        // string_literal_combined
        (r#""a\n b\t \u00e4öü \u03a9 12.2\u20ac""#, vec![JsonReadToken::StringLiteral("a\n b\t äöü Ω 12.2€".to_string())], None),
        // number_literal
        ("123", vec![JsonReadToken::NumberLiteral(JsonNumber("123".to_string()))], None),
        // number_literal_negative
        ("-456", vec![JsonReadToken::NumberLiteral(JsonNumber("-456".to_string()))], None),
        // number_literal_zero
        ("0", vec![JsonReadToken::NumberLiteral(JsonNumber("0".to_string()))], None),
        // number_literal_fraction
        ("0.92", vec![JsonReadToken::NumberLiteral(JsonNumber("0.92".to_string()))], None),
        // number_literal_fraction_small
        ("0.0000000000000092", vec![JsonReadToken::NumberLiteral(JsonNumber("0.0000000000000092".to_string()))], None),
        // number_literal_fraction_neg
        ("-0.0000000000000092", vec![JsonReadToken::NumberLiteral(JsonNumber("-0.0000000000000092".to_string()))], None),
        // number_literal_exp_lower
        ("0.92e4", vec![JsonReadToken::NumberLiteral(JsonNumber("0.92e4".to_string()))], None),
        // number_literal_exp_upper
        ("0.92E6", vec![JsonReadToken::NumberLiteral(JsonNumber("0.92E6".to_string()))], None),
        // number_literal_pos_exp_lower
        ("0.92e+4", vec![JsonReadToken::NumberLiteral(JsonNumber("0.92e+4".to_string()))], None),
        // number_literal_pos_exp_upper
        ("0.92E+6", vec![JsonReadToken::NumberLiteral(JsonNumber("0.92E+6".to_string()))], None),
        // number_literal_neg_exp_lower
        ("0.92e-4", vec![JsonReadToken::NumberLiteral(JsonNumber("0.92e-4".to_string()))], None),
        // number_literal_neg_exp_upper
        ("0.92E-6", vec![JsonReadToken::NumberLiteral(JsonNumber("0.92E-6".to_string()))], None),
        // number_literal_no_leading_zero
        (".1", vec![], Some(Expected::Parse("invalid JSON literal"))),
        // no_matching_literal
        ("x", vec![], Some(Expected::Parse("invalid JSON literal"))),
        // invalid_number_continuation
        ("1x", vec![JsonReadToken::NumberLiteral(JsonNumber("1".to_string()))], Some(Expected::Parse("missing comma"))),
        // invalid_number_continuation_quote
        ("x\"", vec![], Some(Expected::Parse("invalid JSON literal"))),
        // string_literal_unterminated_short
        (r#""abc "#, vec![], Some(Expected::Parse("unterminated string literal"))),
        // string_literal_unterminated_long
        (r#""abc                                                                         "#, vec![], Some(Expected::Overflow)),
        // string_literal_invalid_escape
        (r#""\q""#, vec![], Some(Expected::Parse("invalid escape in string literal"))),
        // string_literal_unicode_string_ends
        (r#""\u004""#, vec![], Some(Expected::Parse("not a four-digit hex number after \\u"))),
        // string_literal_unicode_invalid_character_1
        (r#""\ux041""#, vec![], Some(Expected::Parse("not a four-digit hex number after \\u"))),
        // string_literal_unicode_invalid_character_2
        (r#""\u0x41""#, vec![], Some(Expected::Parse("not a four-digit hex number after \\u"))),
        // string_literal_unicode_invalid_character_3
        (r#""\u00x1""#, vec![], Some(Expected::Parse("not a four-digit hex number after \\u"))),
        // string_literal_unicode_invalid_character_4
        (r#""\u004x""#, vec![], Some(Expected::Parse("not a four-digit hex number after \\u"))),
        // string_literal_unicode_uppercase_u
        (r#""\U0041""#, vec![], Some(Expected::Parse("invalid escape in string literal"))),
        // string_literal_unicode_uppercase
        (r#""\uABCD""#, vec![JsonReadToken::StringLiteral("\u{abcd}".to_string())], None),
        // string_literal_unicode_mixed_case_1
        (r#""\uaBcD""#, vec![JsonReadToken::StringLiteral("\u{abcd}".to_string())], None),
        // string_literal_unicode_mixed_case_2
        (r#""\uAbCd""#, vec![JsonReadToken::StringLiteral("\u{abcd}".to_string())], None),
        // null_wrong_continuation_1
        ("nul", vec![], Some(Expected::Parse("incomplete null literal"))),
        // null_wrong_continuation_2
        ("nxll", vec![], Some(Expected::Parse("incomplete null literal"))),
        // null_wrong_continuation_3
        ("nUll", vec![], Some(Expected::Parse("incomplete null literal"))),
        // null_wrong_continuation_4
        ("nuxl", vec![], Some(Expected::Parse("incomplete null literal"))),
        // null_wrong_continuation_5
        ("nuLl", vec![], Some(Expected::Parse("incomplete null literal"))),
        // null_wrong_continuation_6
        ("nulx", vec![], Some(Expected::Parse("incomplete null literal"))),
        // null_wrong_continuation_7
        ("nulL", vec![], Some(Expected::Parse("incomplete null literal"))),
        // null_uppercase
        ("Null", vec![], Some(Expected::Parse("invalid JSON literal"))),
        // null_uppercase_2
        ("NULL", vec![], Some(Expected::Parse("invalid JSON literal"))),
        // true_wrong_continuation_1
        ("tru", vec![], Some(Expected::Parse("incomplete true literal"))),
        // true_wrong_continuation_2
        ("txue", vec![], Some(Expected::Parse("incomplete true literal"))),
        // true_wrong_continuation_3
        ("tRue", vec![], Some(Expected::Parse("incomplete true literal"))),
        // true_wrong_continuation_4
        ("trxe", vec![], Some(Expected::Parse("incomplete true literal"))),
        // true_wrong_continuation_5
        ("trUe", vec![], Some(Expected::Parse("incomplete true literal"))),
        // true_wrong_continuation_6
        ("trux", vec![], Some(Expected::Parse("incomplete true literal"))),
        // true_wrong_continuation_7
        ("truE", vec![], Some(Expected::Parse("incomplete true literal"))),
        // true_uppercase_1
        ("True", vec![], Some(Expected::Parse("invalid JSON literal"))),
        // true_uppercase_2
        ("TRUE", vec![], Some(Expected::Parse("invalid JSON literal"))),
        // false_wrong_continuation_1
        ("fals", vec![], Some(Expected::Parse("incomplete false literal"))),
        // false_wrong_continuation_2
        ("fxlse", vec![], Some(Expected::Parse("incomplete false literal"))),
        // false_wrong_continuation_3
        ("fAlse", vec![], Some(Expected::Parse("incomplete false literal"))),
        // false_wrong_continuation_4
        ("faxse", vec![], Some(Expected::Parse("incomplete false literal"))),
        // false_wrong_continuation_5
        ("faLse", vec![], Some(Expected::Parse("incomplete false literal"))),
        // false_wrong_continuation_6
        ("falxe", vec![], Some(Expected::Parse("incomplete false literal"))),
        // false_wrong_continuation_7
        ("falSe", vec![], Some(Expected::Parse("incomplete false literal"))),
        // false_wrong_continuation_8
        ("falsx", vec![], Some(Expected::Parse("incomplete false literal"))),
        // false_wrong_continuation_9
        ("falsE", vec![], Some(Expected::Parse("incomplete false literal"))),
        // false_uppercase_1
        ("False", vec![], Some(Expected::Parse("invalid JSON literal"))),
        // false_uppercase_2
        ("FALSE", vec![], Some(Expected::Parse("invalid JSON literal"))),
        // object_end_just_comma
        (r#"{, }"#, vec![JsonReadToken::StartObject], Some(Expected::Parse("unexpected comma"))),
        // object_end_trailing_comma
        (r#"{"a": null, }"#, vec![JsonReadToken::StartObject, JsonReadToken::Key("a".to_string()), JsonReadToken::NullLiteral], Some(Expected::Parse("trailing comma"))),
        // object_end_after_key
        (r#"{"a": }"#, vec![JsonReadToken::StartObject, JsonReadToken::Key("a".to_string())], Some(Expected::Parse("key without a value"))),
        // array_end_just_comma
        (r#"[, ]"#, vec![JsonReadToken::StartArray], Some(Expected::Parse("unexpected comma"))),
        // array_end_trailing_comma
        (r#"[null, ]"#, vec![JsonReadToken::StartArray, JsonReadToken::NullLiteral], Some(Expected::Parse("trailing comma"))),
        // array_end_after_key
        (r#"["a": ]"#, vec![JsonReadToken::StartArray, JsonReadToken::Key("a".to_string())], Some(Expected::Parse("key without a value"))),
        // missing_comma_null
        (r#"[null null]"#, vec![JsonReadToken::StartArray, JsonReadToken::NullLiteral], Some(Expected::Parse("missing comma"))),
        // missing_comma_true
        (r#"[null true]"#, vec![JsonReadToken::StartArray, JsonReadToken::NullLiteral], Some(Expected::Parse("missing comma"))),
        // missing_comma_false
        (r#"[null false]"#, vec![JsonReadToken::StartArray, JsonReadToken::NullLiteral], Some(Expected::Parse("missing comma"))),
        // missing_comma_number
        (r#"[null 123]"#, vec![JsonReadToken::StartArray, JsonReadToken::NullLiteral], Some(Expected::Parse("missing comma"))),
        // missing_comma_string
        (r#"[null "abc"]"#, vec![JsonReadToken::StartArray, JsonReadToken::NullLiteral], Some(Expected::Parse("missing comma"))),
        // missing_comma_object
        (r#"[null {}]"#, vec![JsonReadToken::StartArray, JsonReadToken::NullLiteral], Some(Expected::Parse("missing comma"))),
        // missing_comma_array
        (r#"[null []]"#, vec![JsonReadToken::StartArray, JsonReadToken::NullLiteral], Some(Expected::Parse("missing comma"))),
        // missing_comma_key
        (r#"{"a": null "b": 1}"#, vec![JsonReadToken::StartObject, JsonReadToken::Key("a".to_string()), JsonReadToken::NullLiteral], Some(Expected::Parse("missing comma"))),
        // key_after_key
        (r#"{"a": "b": 1}"#, vec![JsonReadToken::StartObject, JsonReadToken::Key("a".to_string())], Some(Expected::Parse("two keys without value"))),
        // comma_after_key
        (r#"{"a": , "b": 1}"#, vec![JsonReadToken::StartObject, JsonReadToken::Key("a".to_string())], Some(Expected::Parse("unexpected comma"))),
        // object_comma_after_comma
        (r#"{"a": null, ,}"#, vec![JsonReadToken::StartObject, JsonReadToken::Key("a".to_string()), JsonReadToken::NullLiteral], Some(Expected::Parse("unexpected comma"))),
        // array_comma_after_comma
        (r#"[ null, ,]"#, vec![JsonReadToken::StartArray, JsonReadToken::NullLiteral], Some(Expected::Parse("unexpected comma"))),
        // object
        (r#"{ "a": 1, "b": true, "c": "xyz" }"#, vec![
        JsonReadToken::StartObject,
        JsonReadToken::Key("a".to_string()),
        JsonReadToken::NumberLiteral(JsonNumber("1".to_string())),
        JsonReadToken::Key("b".to_string()),
        JsonReadToken::BooleanLiteral(true),
        JsonReadToken::Key("c".to_string()),
        JsonReadToken::StringLiteral("xyz".to_string()),
        JsonReadToken::EndObject,
    ], None),
        // array
        (r#"[ 6, "xy", true, null ]"#, vec![
        JsonReadToken::StartArray,
        JsonReadToken::NumberLiteral(JsonNumber("6".to_string())),
        JsonReadToken::StringLiteral("xy".to_string()),
        JsonReadToken::BooleanLiteral(true),
        JsonReadToken::NullLiteral,
        JsonReadToken::EndArray,
    ], None),
        // complex
        (r#"{"abc":"yo","xyz":"yo","aaaa":["111","11",{},[],null,true,false,-23987,23987,23.235,null,null,23.235e-1,null,null],"ooo":{"lll":"whatever","ar":[]}}"#, vec![
        JsonReadToken::StartObject,
        JsonReadToken::Key("abc".to_string()),
        JsonReadToken::StringLiteral("yo".to_string()),
        JsonReadToken::Key("xyz".to_string()),
        JsonReadToken::StringLiteral("yo".to_string()),
        JsonReadToken::Key("aaaa".to_string()),
        JsonReadToken::StartArray,
        JsonReadToken::StringLiteral("111".to_string()),
        JsonReadToken::StringLiteral("11".to_string()),
        JsonReadToken::StartObject,
        JsonReadToken::EndObject,
        JsonReadToken::StartArray,
        JsonReadToken::EndArray,
        JsonReadToken::NullLiteral,
        JsonReadToken::BooleanLiteral(true),
        JsonReadToken::BooleanLiteral(false),
        JsonReadToken::NumberLiteral(JsonNumber("-23987".to_string())),
        JsonReadToken::NumberLiteral(JsonNumber("23987".to_string())),
        JsonReadToken::NumberLiteral(JsonNumber("23.235".to_string())),
        JsonReadToken::NullLiteral,
        JsonReadToken::NullLiteral,
        JsonReadToken::NumberLiteral(JsonNumber("23.235e-1".to_string())),
        JsonReadToken::NullLiteral,
        JsonReadToken::NullLiteral,
        JsonReadToken::EndArray,
        JsonReadToken::Key("ooo".to_string()),
        JsonReadToken::StartObject,
        JsonReadToken::Key("lll".to_string()),
        JsonReadToken::StringLiteral("whatever".to_string()),
        JsonReadToken::Key("ar".to_string()),
        JsonReadToken::StartArray,
        JsonReadToken::EndArray,
        JsonReadToken::EndObject,
        JsonReadToken::EndObject,
    ], None),
    ];
    for (input, expected, expected_error) in &cases {
        check_parse(input, expected, expected_error);
        let input_with_whitespace = format!(" \r\n\t{} \r\n\t", input);
        check_parse(&input_with_whitespace, expected, expected_error);
    }
}

#[test]
fn read_test_provided_buffer_fits() {
    let mut reader = reader("123", 8);
    assert_eq!(reader.next().unwrap(), JsonReadToken::NumberLiteral(JsonNumber("123".to_string())));
    assert_eq!(reader.next().unwrap(), JsonReadToken::EndOfStream);
}

#[test]
fn read_test_provided_buffer_overflow() {
    let mut reader = reader("\"123 123 x\"", 8);
    match reader.next() {
        Ok(_) => panic!("expected an error"),
        Err(e) => assert_is_similar_error(&e, &Expected::Overflow),
    }
}

#[test]
fn test_new_with_provided_buffer() {
    let mut reader = JsonReader::new_with_provided_buffer(vec![0u8; 3], VecRead::new(b"\"abc\" \"abcd\"".to_vec()), true);
    assert_eq!(reader.next().unwrap(), JsonReadToken::StringLiteral("abc".to_string()));
    match reader.next() {
        Err(JsonParseError::BufferOverflow(l)) => assert_eq!(l.offset, 11),
        other => panic!("expected an overflow, got {:?}", other),
    }
}

#[test]
fn test_json_number_parse() {
    let cases: Vec<(&str, Option<u32>, Option<i32>, f64, f32)> = vec![
        ("1", Some(1), Some(1), 1.0, 1.0),
        ("1345678345", Some(1345678345), Some(1345678345), 1345678345.0, 1345678345.0),
        ("3345678345", Some(3345678345), None, 3345678345.0, 3345678345.0),
        ("13456783459", None, None, 13456783459.0, 13456783459.0),
        ("-1", None, Some(-1), -1.0, -1.0),
        ("1.0", None, None, 1.0, 1.0),
        ("1e3", None, None, 1e3, 1e3),
        ("1e-3", None, None, 1e-3, 1e-3),
        ("1e+3", None, None, 1e3, 1e3),
        ("1.23e3", None, None, 1230.0, 1230.0),
        ("1.23e-3", None, None, 1.23e-3, 1.23e-3),
        ("1.23e+3", None, None, 1.23e3, 1.23e3),
    ];
    for (s, expected_u32, expected_i32, expected_f64, expected_f32) in cases {
        let n = JsonNumber(s.to_string());
        assert_eq!(n.parse::<u32>(), expected_u32);
        assert_eq!(n.parse::<i32>(), expected_i32);
        assert_eq!(n.parse::<f64>().unwrap(), expected_f64);
        assert_eq!(n.parse::<f32>().unwrap(), expected_f32);
    }
}

#[test]
fn test_location_after_byte() {
    let cases: Vec<(Vec<u8>, Location)> = vec![
        (vec![b'a'], Location { offset: 1, line: 1, column: 2 }),
        (vec![b'\r'], Location { offset: 1, line: 1, column: 2 }),
        (vec![b'\t'], Location { offset: 1, line: 1, column: 2 }),
        (vec![b'\n'], Location { offset: 1, line: 2, column: 1 }),
        (vec![b'\r', b'\n', b'\n', b'x', b'y'], Location { offset: 5, line: 3, column: 3 }),
        (vec![b'a', b'b', b'\n', b'x', b'\n'], Location { offset: 5, line: 3, column: 1 }),
    ];
    for (bytes, expected) in cases {
        let mut initial = Location::start();
        for byte in bytes {
            initial.after_byte(byte);
        }
        assert_eq!(initial, expected);
    }
}
