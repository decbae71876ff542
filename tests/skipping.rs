use std::convert::Infallible;

use json_streaming::formatter::CompactFormatter;
use json_streaming::io::VecRead;
use json_streaming::reader::JsonReader;
use json_streaming::scope::JsonArray;
use json_streaming::token::{JsonParseError, JsonReadToken};
use json_streaming::writer::JsonWriter;

fn reader(json: &str) -> JsonReader<VecRead> {
    JsonReader::new(1024, VecRead::new(json.as_bytes().to_vec()))
}

#[test]
fn skip_unexpected_keys_in_object() {
    let json = r#"
    {
      "a": true,
      "unexpected_string": "abc",
      "unexpected_array": [ 1, 2, { "xyz": "yo" }, 4, [ 4, 5, 6], 4],
      "unexpected_object": { "x": null, "y": [1, 2, 3, {}], "z": {"a": [1, 2, 2] } },
      "b": 3
    }
    "#;
    let mut r = reader(json);
    r.expect_next_start_object().unwrap();
    let mut a: Option<bool> = None;
    let mut b: Option<u32> = None;
    let mut skipped: Vec<String> = Vec::new();
    while let Some(key) = r.expect_next_key().unwrap() {
        match key.as_str() {
            "a" => a = Some(r.expect_next_bool().unwrap()),
            "b" => b = Some(r.expect_next_number::<u32>().unwrap()),
            _ => {
                r.skip_value().unwrap();
                skipped.push(key);
            },
        }
    }
    assert_eq!(a, Some(true));
    assert_eq!(b, Some(3));
    assert_eq!(skipped, vec!["unexpected_string", "unexpected_array", "unexpected_object"]);
    assert_eq!(r.next().unwrap(), JsonReadToken::EndOfStream);
}

#[test]
fn skip_unexpected_elements_in_array() {
    let json = r#"
    [ "a", "b", true, "c", 1, "d", [ 1, 2, 3, {}, 4, 5, ["yo"]], "e", { "x": 1, "y": [9, 8, 7] }, "f" ]
    "#;
    let mut r = reader(json);
    r.expect_next_start_array().unwrap();
    let mut strings: Vec<String> = Vec::new();
    loop {
        match r.next().unwrap() {
            JsonReadToken::StringLiteral(s) => strings.push(s),
            JsonReadToken::EndArray => break,
            JsonReadToken::StartObject | JsonReadToken::StartArray => {
                r.skip_to_end_of_current_scope().unwrap()
            },
            _ => {},
        }
    }
    assert_eq!(strings, vec!["a", "b", "c", "d", "e", "f"]);
}

#[test]
fn skipping_fails_at_the_end_of_the_stream() {
    let mut r = reader("[1, [2, 3]");
    r.expect_next_start_array().unwrap();
    assert!(matches!(r.skip_to_end_of_current_scope(), Err(JsonParseError::UnexpectedToken(_))));

    let mut r = reader("{\"a\": ");
    r.expect_next_start_object().unwrap();
    r.expect_next_key().unwrap();
    let e: Result<(), JsonParseError<Infallible>> = r.skip_value();
    assert!(matches!(e, Err(JsonParseError::UnexpectedToken(_))));

    let mut r = reader("]");
    assert!(matches!(r.skip_value(), Err(JsonParseError::UnexpectedToken(_))));
}

#[test]
fn take_output_hands_out_and_resets() {
    let mut writer = JsonWriter::new(Vec::new(), CompactFormatter);
    let mut a = JsonArray::new(&mut writer).unwrap();
    a.write_u8_value(&mut writer, 1).unwrap();
    assert_eq!(writer.take_output(), b"[1".to_vec());
    a.write_u8_value(&mut writer, 2).unwrap();
    a.end(&mut writer).unwrap();
    assert_eq!(writer.take_output(), b",2]".to_vec());
    assert_eq!(writer.take_output(), Vec::<u8>::new());
}
