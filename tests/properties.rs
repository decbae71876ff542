use std::convert::Infallible;

use json_streaming::formatter::{CompactFormatter, DefaultFloatFormat, FloatNotation};
use json_streaming::io::VecRead;
use json_streaming::reader::JsonReader;
use json_streaming::scope::{JsonArray, JsonObject};
use json_streaming::token::{JsonNumber, JsonParseError, JsonReadToken, ParseErrorKind};
use json_streaming::writer::JsonWriter;

fn reader(json: &str, buf_size: usize) -> JsonReader<VecRead> {
    JsonReader::new(buf_size, VecRead::new(json.as_bytes().to_vec()))
}

fn key(s: &str) -> JsonReadToken {
    JsonReadToken::Key(s.to_string())
}

fn string(s: &str) -> JsonReadToken {
    JsonReadToken::StringLiteral(s.to_string())
}

fn number(s: &str) -> JsonReadToken {
    JsonReadToken::NumberLiteral(JsonNumber(s.to_string()))
}

fn parse_error_kind(r: Result<JsonReadToken, JsonParseError<Infallible>>) -> ParseErrorKind {
    match r {
        Err(JsonParseError::Parse(kind, _)) => kind,
        other => panic!("expected a parse error, got {:?}", other),
    }
}

#[test]
fn compact_output_reads_back_as_the_same_tokens() {
    let mut writer = JsonWriter::new(Vec::new(), CompactFormatter);
    let w = &mut writer;
    let mut o = JsonObject::new(w).unwrap();
    o.write_string_value(w, "name", "a \"quoted\" \\ line\nwith\ttabs \u{1} and ä€").unwrap();
    o.write_bool_value(w, "flag", true).unwrap();
    o.write_null_value(w, "nothing").unwrap();
    let mut a = o.start_array(w, "list").unwrap();
    a.write_i64_value(w, -42).unwrap();
    a.write_u64_value(w, 18446744073709551615).unwrap();
    a.start_object(w).unwrap().end(w).unwrap();
    a.write_bool_value(w, false).unwrap();
    a.end(w).unwrap();
    o.end(w).unwrap();
    let bytes = writer.into_inner().unwrap();

    let mut r = JsonReader::new(128, VecRead::new(bytes));
    let expected = vec![
        JsonReadToken::StartObject,
        key("name"),
        string("a \"quoted\" \\ line\nwith\ttabs \u{1} and ä€"),
        key("flag"),
        JsonReadToken::BooleanLiteral(true),
        key("nothing"),
        JsonReadToken::NullLiteral,
        key("list"),
        JsonReadToken::StartArray,
        number("-42"),
        number("18446744073709551615"),
        JsonReadToken::StartObject,
        JsonReadToken::EndObject,
        JsonReadToken::BooleanLiteral(false),
        JsonReadToken::EndArray,
        JsonReadToken::EndObject,
        JsonReadToken::EndOfStream,
    ];
    for t in expected {
        assert_eq!(r.next().unwrap(), t);
    }
}

#[test]
fn round_trip_numbers_compare_equal_as_numbers() {
    let mut writer = JsonWriter::new_compact(Vec::new());
    let w = &mut writer;
    let mut a = JsonArray::new(w).unwrap();
    a.write_i32_value(w, i32::MIN).unwrap();
    a.write_u8_value(w, 255).unwrap();
    a.end(w).unwrap();
    let bytes = writer.into_inner().unwrap();
    let mut r = JsonReader::new(64, VecRead::new(bytes));
    r.expect_next_start_array().unwrap();
    assert_eq!(r.expect_next_number::<i32>().unwrap(), i32::MIN);
    assert_eq!(r.expect_next_number::<u8>().unwrap(), 255);
}

#[test]
fn end_of_stream_is_idempotent() {
    let mut r = reader("[1] ", 8);
    assert_eq!(r.next().unwrap(), JsonReadToken::StartArray);
    assert_eq!(r.next().unwrap(), number("1"));
    assert_eq!(r.next().unwrap(), JsonReadToken::EndArray);
    for _ in 0..4 {
        assert_eq!(r.next().unwrap(), JsonReadToken::EndOfStream);
    }
}

#[test]
fn state_machine_table() {
    // a comma right after an opening bracket
    let mut r = reader("{,", 8);
    r.next().unwrap();
    assert_eq!(parse_error_kind(r.next()).message(), "unexpected comma");
    // a closing bracket right after a comma
    let mut r = reader("[1,]", 8);
    r.next().unwrap();
    r.next().unwrap();
    assert_eq!(parse_error_kind(r.next()).message(), "trailing comma");
    // a closing bracket right after a key
    let mut r = reader("{\"a\":}", 8);
    r.next().unwrap();
    r.next().unwrap();
    assert_eq!(parse_error_kind(r.next()).message(), "key without a value");
    // a value right after a value
    let mut r = reader("[1 {", 8);
    r.next().unwrap();
    r.next().unwrap();
    assert_eq!(parse_error_kind(r.next()).message(), "missing comma");
    // two keys in a row
    let mut r = reader("{\"a\":\"b\":", 8);
    r.next().unwrap();
    r.next().unwrap();
    assert_eq!(parse_error_kind(r.next()).message(), "two keys without value");
    // a comma after a key
    let mut r = reader("{\"a\":,", 8);
    r.next().unwrap();
    r.next().unwrap();
    assert_eq!(parse_error_kind(r.next()).message(), "unexpected comma");
    // accepted transitions
    let mut r = reader("[[],{},1,\"x\",null]", 8);
    let expected = vec![
        JsonReadToken::StartArray,
        JsonReadToken::StartArray,
        JsonReadToken::EndArray,
        JsonReadToken::StartObject,
        JsonReadToken::EndObject,
        number("1"),
        string("x"),
        JsonReadToken::NullLiteral,
        JsonReadToken::EndArray,
        JsonReadToken::EndOfStream,
    ];
    for t in expected {
        assert_eq!(r.next().unwrap(), t);
    }
}

#[test]
fn buffer_overflow_boundary() {
    let mut r = reader("\"abcde\"", 5);
    assert_eq!(r.next().unwrap(), string("abcde"));
    let mut r = reader("\"abcdef\"", 5);
    match r.next() {
        Err(JsonParseError::BufferOverflow(l)) => {
            assert_eq!(l.offset, 7);
            assert_eq!(l.line, 1);
            assert_eq!(l.column, 8);
        },
        other => panic!("expected an overflow, got {:?}", other),
    }
    let mut r = reader("12345", 5);
    assert_eq!(r.next().unwrap(), number("12345"));
    let mut r = reader("123456", 5);
    assert!(matches!(r.next(), Err(JsonParseError::BufferOverflow(_))));
    let mut r = reader("1", 0);
    assert!(matches!(r.next(), Err(JsonParseError::BufferOverflow(_))));
}

#[test]
fn lenient_mode_accepts_missing_commas() {
    let json = "{\"a\":1}\n{\"b\":2}\n";
    let mut r = JsonReader::new_with_lenient_comma_handling(16, VecRead::new(json.as_bytes().to_vec()));
    let expected = vec![
        JsonReadToken::StartObject,
        key("a"),
        number("1"),
        JsonReadToken::EndObject,
        JsonReadToken::StartObject,
        key("b"),
        number("2"),
        JsonReadToken::EndObject,
        JsonReadToken::EndOfStream,
    ];
    for t in expected {
        assert_eq!(r.next().unwrap(), t);
    }

    let mut r = reader(json, 16);
    for _ in 0..4 {
        r.next().unwrap();
    }
    assert_eq!(parse_error_kind(r.next()), ParseErrorKind::MissingComma);
}

#[test]
fn number_or_end_of_array_fails_on_a_boolean() {
    let mut r = reader("[1, 2, 3, true, 4]", 64);
    r.expect_next_start_array().unwrap();
    let mut numbers: Vec<i32> = Vec::new();
    let failure = loop {
        match r.expect_next_number_or_end_array::<i32>() {
            Ok(Some(n)) => numbers.push(n),
            Ok(None) => panic!("the array should not end cleanly"),
            Err(e) => break e,
        }
    };
    assert_eq!(numbers, vec![1, 2, 3]);
    assert!(matches!(failure, JsonParseError::UnexpectedToken(_)));

    let mut r = reader("[1, 2]", 64);
    r.expect_next_start_array().unwrap();
    assert_eq!(r.expect_next_number_or_end_array::<i32>().unwrap(), Some(1));
    assert_eq!(r.expect_next_number_or_end_array::<i32>().unwrap(), Some(2));
    assert_eq!(r.expect_next_number_or_end_array::<i32>().unwrap(), None);
}

#[test]
fn unicode_escapes() {
    assert_eq!(reader(r#""\u0041""#, 8).next().unwrap(), string("A"));
    let t = reader(r#""\uABCD""#, 8).next().unwrap();
    assert_eq!(t, string("\u{abcd}"));
    match t {
        JsonReadToken::StringLiteral(s) => assert_eq!(s.as_bytes(), &[0xea, 0xaf, 0x8d]),
        _ => unreachable!(),
    }
    assert_eq!(reader(r#""\u00e4""#, 8).next().unwrap(), string("\u{e4}"));
    // a lone surrogate does not form valid UTF-8
    assert!(matches!(reader(r#""\ud800""#, 8).next(), Err(JsonParseError::Utf8(_))));
    // hex digits beyond F are rejected
    assert_eq!(parse_error_kind(reader(r#""\u00G1""#, 8).next()), ParseErrorKind::NotFourDigitHex);
    assert_eq!(parse_error_kind(reader(r#""\u00"#, 8).next()), ParseErrorKind::IncompleteCodepoint);
}

#[test]
fn missing_comma_between_entries() {
    let mut r = reader(r#"{"a": 1 "b": 2}"#, 64);
    assert_eq!(r.next().unwrap(), JsonReadToken::StartObject);
    assert_eq!(r.next().unwrap(), key("a"));
    assert_eq!(r.next().unwrap(), number("1"));
    match r.next() {
        Err(JsonParseError::Parse(kind, l)) => {
            assert_eq!(kind, ParseErrorKind::MissingComma);
            // just after the opening quote of "b", which stands at offset 8
            assert_eq!(l.offset, 9);
            assert_eq!(l.line, 1);
            assert_eq!(l.column, 10);
        },
        other => panic!("expected a parse error, got {:?}", other),
    }
}

#[test]
fn two_keys_reported_at_the_second_key() {
    let mut r = reader(r#"{"a": "b": 1}"#, 64);
    assert_eq!(r.next().unwrap(), JsonReadToken::StartObject);
    assert_eq!(r.next().unwrap(), key("a"));
    match r.next() {
        Err(JsonParseError::Parse(kind, l)) => {
            assert_eq!(kind, ParseErrorKind::TwoKeysWithoutValue);
            assert_eq!(l.offset, 7);
        },
        other => panic!("expected a parse error, got {:?}", other),
    }
    let mut r = reader(r#"[null "abc"]"#, 64);
    r.next().unwrap();
    r.next().unwrap();
    match r.next() {
        Err(JsonParseError::Parse(kind, l)) => {
            assert_eq!(kind, ParseErrorKind::MissingComma);
            assert_eq!(l.offset, 7);
        },
        other => panic!("expected a parse error, got {:?}", other),
    }
}

#[test]
fn leading_dot_is_invalid_and_trailing_dot_is_kept() {
    assert_eq!(parse_error_kind(reader(".1", 8).next()), ParseErrorKind::InvalidLiteral);
    assert_eq!(reader("1.", 8).next().unwrap(), number("1."));
}

#[test]
fn token_kinds() {
    assert_eq!(JsonReadToken::StartObject.kind(), "{");
    assert_eq!(key("a").kind(), "key");
    assert_eq!(number("1").kind(), "number");
    assert_eq!(JsonReadToken::EndOfStream.kind(), "<EOF>");
}

fn notation_of(v: f64) -> FloatNotation {
    DefaultFloatFormat::notation(v.is_finite(), v.abs() >= 1e-3 && v.abs() < 1e6)
}

#[test]
fn float_notation_boundaries() {
    assert_eq!(notation_of(0.001), FloatNotation::Decimal);
    assert_eq!(notation_of(0.0009), FloatNotation::Exponential);
    assert_eq!(notation_of(999999.0), FloatNotation::Decimal);
    assert_eq!(notation_of(1000000.0), FloatNotation::Exponential);
    assert_eq!(notation_of(-0.001), FloatNotation::Decimal);
    assert_eq!(notation_of(f64::NAN), FloatNotation::Null);
    assert_eq!(notation_of(f64::INFINITY), FloatNotation::Null);
    assert_eq!(notation_of(f64::NEG_INFINITY), FloatNotation::Null);
}

#[test]
fn string_element_round_trip() {
    let text = "tab\t quote\" slash\\ bell\u{7} é €";
    let (a, b, c) = json_streaming::round_trip::round_trip_string_element(text);
    assert_eq!(a, JsonReadToken::StartArray);
    assert_eq!(b, string(text));
    assert_eq!(c, JsonReadToken::EndArray);
    let (_, empty, _) = json_streaming::round_trip::round_trip_string_element("");
    assert_eq!(empty, string(""));
}

#[test]
fn quoted_literal_at_the_buffer_capacity() {
    let fits = json_streaming::round_trip::read_quoted_with_capacity(b"abcde", 5);
    assert_eq!(fits.unwrap(), string("abcde"));
    match json_streaming::round_trip::read_quoted_with_capacity(b"abcdef", 5) {
        Err(JsonParseError::BufferOverflow(l)) => assert_eq!(l.offset, 7),
        other => panic!("expected an overflow, got {:?}", other),
    }
}
