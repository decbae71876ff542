use std::io;

use json_streaming::formatter::{CompactFormatter, JsonFormatter, PrettyFormatter};
use json_streaming::io::BlockingWrite;
use json_streaming::scope::{JsonArray, JsonObject};
use json_streaming::writer::JsonWriter;

type W = JsonWriter<Vec<u8>, CompactFormatter>;
type O = ObjectCommand;
type A = ArrayCommand;

enum ObjectCommand {
    Null(&'static str),
    Bool(&'static str, bool),
    String(&'static str, &'static str),
    U8(&'static str, u8),
    I8(&'static str, i8),
    U16(&'static str, u16),
    I16(&'static str, i16),
    U32(&'static str, u32),
    I32(&'static str, i32),
    U64(&'static str, u64),
    I64(&'static str, i64),
    U128(&'static str, u128),
    I128(&'static str, i128),
    Usize(&'static str, usize),
    Isize(&'static str, isize),
    Object(&'static str, Vec<ObjectCommand>),
    Array(&'static str, Vec<ArrayCommand>),
}

enum ArrayCommand {
    Null,
    Bool(bool),
    String(&'static str),
    U8(u8),
    I8(i8),
    U16(u16),
    I16(i16),
    U32(u32),
    I32(i32),
    U64(u64),
    I64(i64),
    U128(u128),
    I128(i128),
    Usize(usize),
    Isize(isize),
    Object(Vec<ObjectCommand>),
    Array(Vec<ArrayCommand>),
}

impl ObjectCommand {
    fn apply(&self, obj: &mut JsonObject, w: &mut W) {
        match self {
            ObjectCommand::Null(key) => obj.write_null_value(w, key).unwrap(),
            ObjectCommand::Bool(key, b) => obj.write_bool_value(w, key, *b).unwrap(),
            ObjectCommand::String(key, s) => obj.write_string_value(w, key, s).unwrap(),
            ObjectCommand::U8(key, n) => obj.write_u8_value(w, key, *n).unwrap(),
            ObjectCommand::I8(key, n) => obj.write_i8_value(w, key, *n).unwrap(),
            ObjectCommand::U16(key, n) => obj.write_u16_value(w, key, *n).unwrap(),
            ObjectCommand::I16(key, n) => obj.write_i16_value(w, key, *n).unwrap(),
            ObjectCommand::U32(key, n) => obj.write_u32_value(w, key, *n).unwrap(),
            ObjectCommand::I32(key, n) => obj.write_i32_value(w, key, *n).unwrap(),
            ObjectCommand::U64(key, n) => obj.write_u64_value(w, key, *n).unwrap(),
            ObjectCommand::I64(key, n) => obj.write_i64_value(w, key, *n).unwrap(),
            ObjectCommand::U128(key, n) => obj.write_u128_value(w, key, *n).unwrap(),
            ObjectCommand::I128(key, n) => obj.write_i128_value(w, key, *n).unwrap(),
            ObjectCommand::Usize(key, n) => obj.write_usize_value(w, key, *n).unwrap(),
            ObjectCommand::Isize(key, n) => obj.write_isize_value(w, key, *n).unwrap(),
            ObjectCommand::Object(key, cmds) => {
                let mut nested = obj.start_object(w, key).unwrap();
                for cmd in cmds {
                    cmd.apply(&mut nested, w);
                }
                nested.end(w).unwrap();
            },
            ObjectCommand::Array(key, cmds) => {
                let mut nested = obj.start_array(w, key).unwrap();
                for cmd in cmds {
                    cmd.apply(&mut nested, w);
                }
                nested.end(w).unwrap();
            },
        }
    }
}

impl ArrayCommand {
    fn apply(&self, arr: &mut JsonArray, w: &mut W) {
        match self {
            ArrayCommand::Null => arr.write_null_value(w).unwrap(),
            ArrayCommand::Bool(b) => arr.write_bool_value(w, *b).unwrap(),
            ArrayCommand::String(s) => arr.write_string_value(w, s).unwrap(),
            ArrayCommand::U8(n) => arr.write_u8_value(w, *n).unwrap(),
            ArrayCommand::I8(n) => arr.write_i8_value(w, *n).unwrap(),
            ArrayCommand::U16(n) => arr.write_u16_value(w, *n).unwrap(),
            ArrayCommand::I16(n) => arr.write_i16_value(w, *n).unwrap(),
            ArrayCommand::U32(n) => arr.write_u32_value(w, *n).unwrap(),
            ArrayCommand::I32(n) => arr.write_i32_value(w, *n).unwrap(),
            ArrayCommand::U64(n) => arr.write_u64_value(w, *n).unwrap(),
            ArrayCommand::I64(n) => arr.write_i64_value(w, *n).unwrap(),
            ArrayCommand::U128(n) => arr.write_u128_value(w, *n).unwrap(),
            ArrayCommand::I128(n) => arr.write_i128_value(w, *n).unwrap(),
            ArrayCommand::Usize(n) => arr.write_usize_value(w, *n).unwrap(),
            ArrayCommand::Isize(n) => arr.write_isize_value(w, *n).unwrap(),
            ArrayCommand::Object(cmds) => {
                let mut nested = arr.start_object(w).unwrap();
                for cmd in cmds {
                    cmd.apply(&mut nested, w);
                }
                nested.end(w).unwrap();
            },
            ArrayCommand::Array(cmds) => {
                let mut nested = arr.start_array(w).unwrap();
                for cmd in cmds {
                    cmd.apply(&mut nested, w);
                }
                nested.end(w).unwrap();
            },
        }
    }
}

fn written<F: JsonFormatter>(writer: JsonWriter<Vec<u8>, F>) -> String {
    String::from_utf8(writer.into_inner().unwrap()).unwrap()
}

fn object_text(cmds: Vec<ObjectCommand>) -> String {
    let mut writer = JsonWriter::new_compact(Vec::new());
    let mut object_ser = JsonObject::new(&mut writer).unwrap();
    for cmd in cmds {
        cmd.apply(&mut object_ser, &mut writer);
    }
    object_ser.end(&mut writer).unwrap();
    written(writer)
}

fn array_text(cmds: Vec<ArrayCommand>) -> String {
    let mut writer = JsonWriter::new_compact(Vec::new());
    let mut array_ser = JsonArray::new(&mut writer).unwrap();
    for cmd in cmds {
        cmd.apply(&mut array_ser, &mut writer);
    }
    array_ser.end(&mut writer).unwrap();
    written(writer)
}

#[test]
fn test_object() {
    let cases: Vec<(Vec<ObjectCommand>, &str)> = vec![
        (vec![], "{}"),
        (vec![O::Null("a")], r#"{"a":null}"#),
        (vec![O::U32("a", 1), O::U32("b", 2)], r#"{"a":1,"b":2}"#),
        (vec![O::Array("x", vec![])], r#"{"x":[]}"#),
        (vec![O::Array("y", vec![ArrayCommand::U32(5)])], r#"{"y":[5]}"#),
        (vec![O::Array("z", vec![]), O::U32("q", 4)], r#"{"z":[],"q":4}"#),
        (vec![O::U32("q", 6), O::Array("z", vec![])], r#"{"q":6,"z":[]}"#),
        (vec![O::U32("a", 7), O::Array("b", vec![]), O::U32("c", 9)], r#"{"a":7,"b":[],"c":9}"#),
        (vec![O::Array("d", vec![]), O::Array("e", vec![])], r#"{"d":[],"e":[]}"#),
        (vec![O::Object("f", vec![])], r#"{"f":{}}"#),
        (vec![O::Object("g", vec![O::U32("a", 3)])], r#"{"g":{"a":3}}"#),
        (vec![O::Object("h", vec![]), O::U32("i", 0)], r#"{"h":{},"i":0}"#),
        (vec![O::U32("j", 2), O::Object("k", vec![])], r#"{"j":2,"k":{}}"#),
        (vec![O::Object("l", vec![]), O::Object("m", vec![])], r#"{"l":{},"m":{}}"#),
    ];
    for (cmds, expected) in cases {
        assert_eq!(object_text(cmds), expected);
    }
}

#[test]
fn test_array() {
    let cases: Vec<(Vec<ArrayCommand>, &str)> = vec![
        (vec![], "[]"),
        (vec![A::Null], "[null]"),
        (vec![A::U32(1), A::U32(2)], "[1,2]"),
        (vec![A::Array(vec![])], "[[]]"),
        (vec![A::Array(vec![A::U32(5)])], "[[5]]"),
        (vec![A::Array(vec![]), A::U32(4)], "[[],4]"),
        (vec![A::U32(6), A::Array(vec![])], "[6,[]]"),
        (vec![A::U32(7), A::Array(vec![]), A::U32(9)], "[7,[],9]"),
        (vec![A::Array(vec![]), A::Array(vec![])], "[[],[]]"),
        (vec![A::Object(vec![])], "[{}]"),
        (vec![A::Object(vec![ObjectCommand::U32("a", 3)])], r#"[{"a":3}]"#),
        (vec![A::Object(vec![]), A::U32(0)], r#"[{},0]"#),
        (vec![A::U32(2), A::Object(vec![])], r#"[2,{}]"#),
        (vec![A::Object(vec![]), A::Object(vec![])], r#"[{},{}]"#),
    ];
    for (cmds, expected) in cases {
        assert_eq!(array_text(cmds), expected);
    }
}

#[test]
fn object_test_write_value() {
    let cases: Vec<(fn(&'static str) -> ObjectCommand, &str)> = vec![
        (|k| ObjectCommand::Null(k), "null"),
        (|k| ObjectCommand::Bool(k, true), "true"),
        (|k| ObjectCommand::Bool(k, false), "false"),
        (|k| ObjectCommand::String(k, "asdf"), r#""asdf""#),
        (|k| ObjectCommand::String(k, "\r\n"), r#""\r\n""#),
        (|k| ObjectCommand::U8(k, 2), "2"),
        (|k| ObjectCommand::I8(k, -3), "-3"),
        (|k| ObjectCommand::U16(k, 4), "4"),
        (|k| ObjectCommand::I16(k, -5), "-5"),
        (|k| ObjectCommand::U32(k, 6), "6"),
        (|k| ObjectCommand::I32(k, -7), "-7"),
        (|k| ObjectCommand::U64(k, 8), "8"),
        (|k| ObjectCommand::I64(k, -9), "-9"),
        (|k| ObjectCommand::U128(k, 12), "12"),
        (|k| ObjectCommand::I128(k, -13), "-13"),
        (|k| ObjectCommand::Usize(k, 10), "10"),
        (|k| ObjectCommand::Isize(k, -11), "-11"),
    ];
    for (cmd, expected) in cases {
        assert_eq!(object_text(vec![cmd("a")]), format!(r#"{}"a":{}{}"#, "{", expected, "}"));
        assert_eq!(
            object_text(vec![ObjectCommand::Null("x"), cmd("a"), ObjectCommand::U32("y", 5)]),
            format!(r#"{}"x":null,"a":{},"y":5{}"#, "{", expected, "}")
        );
    }
}

#[test]
fn array_test_write_value() {
    let cases: Vec<(fn() -> ArrayCommand, &str)> = vec![
        (|| ArrayCommand::Null, "null"),
        (|| ArrayCommand::Bool(true), "true"),
        (|| ArrayCommand::Bool(false), "false"),
        (|| ArrayCommand::String("asdf"), r#""asdf""#),
        (|| ArrayCommand::String("\r\n"), r#""\r\n""#),
        (|| ArrayCommand::U8(2), "2"),
        (|| ArrayCommand::I8(-3), "-3"),
        (|| ArrayCommand::U16(4), "4"),
        (|| ArrayCommand::I16(-5), "-5"),
        (|| ArrayCommand::U32(6), "6"),
        (|| ArrayCommand::I32(-7), "-7"),
        (|| ArrayCommand::U64(8), "8"),
        (|| ArrayCommand::I64(-9), "-9"),
        (|| ArrayCommand::U128(10), "10"),
        (|| ArrayCommand::I128(-11), "-11"),
        (|| ArrayCommand::Usize(12), "12"),
        (|| ArrayCommand::Isize(-13), "-13"),
    ];
    for (cmd, expected) in cases {
        assert_eq!(array_text(vec![cmd()]), format!("[{}]", expected));
        assert_eq!(array_text(vec![ArrayCommand::Null, cmd()]), format!("[null,{}]", expected));
    }
    assert_eq!(array_text(vec![ArrayCommand::Object(vec![])]), "[{}]");
    assert_eq!(array_text(vec![ArrayCommand::Null, ArrayCommand::Object(vec![])]), "[null,{}]");
}

#[test]
fn integer_extremes() {
    assert_eq!(array_text(vec![ArrayCommand::I128(i128::MIN), ArrayCommand::U128(u128::MAX), ArrayCommand::I8(0)]),
        format!("[{},{},0]", i128::MIN, u128::MAX));
    assert_eq!(array_text(vec![ArrayCommand::I64(i64::MIN), ArrayCommand::Usize(usize::MAX)]),
        format!("[{},{}]", i64::MIN, usize::MAX));
}

fn check_json_writer<F: JsonFormatter>(mut writer: JsonWriter<Vec<u8>, F>) {
    writer.write_bytes(b"a").unwrap();
    writer.write_bytes(b"b").unwrap();
    writer.write_bytes(b"cde").unwrap();
    writer.flush().unwrap();
    assert_eq!(written(writer), "abcde");
}

#[test]
fn json_writer_test_json_writer() {
    check_json_writer(JsonWriter::new(Vec::new(), CompactFormatter));
}

#[test]
fn json_writer_test_json_writer_compact() {
    check_json_writer(JsonWriter::new_compact(Vec::new()));
}

#[test]
fn json_writer_test_json_writer_pretty() {
    check_json_writer(JsonWriter::new_pretty(Vec::new()));
}

#[test]
fn test_write_escaped_string() {
    let mut cases: Vec<(String, String)> = vec![
        ("".to_string(), r#""""#.to_string()),
        ("yo".to_string(), r#""yo""#.to_string()),
        ("äöü".to_string(), r#""äöü""#.to_string()),
        ("\"".to_string(), r#""\"""#.to_string()),
        ("\\".to_string(), r#""\\""#.to_string()),
        ("\x08".to_string(), r#""\b""#.to_string()),
        ("\x0c".to_string(), r#""\f""#.to_string()),
        ("\n".to_string(), r#""\n""#.to_string()),
        ("\r".to_string(), r#""\r""#.to_string()),
        ("\t".to_string(), r#""\t""#.to_string()),
        ("asdf \n jklö \t!".to_string(), r#""asdf \n jklö \t!""#.to_string()),
    ];
    let named = [(0x08u8, "\\b"), (0x09, "\\t"), (0x0a, "\\n"), (0x0c, "\\f"), (0x0d, "\\r")];
    for b in 0u8..0x20 {
        let escaped = match named.iter().find(|(n, _)| *n == b) {
            Some((_, e)) => e.to_string(),
            None => format!("\\u00{:02x}", b),
        };
        cases.push(((b as char).to_string(), format!("\"{}\"", escaped)));
    }
    for (s, expected) in cases {
        let mut writer = JsonWriter::new_compact(Vec::new());
        writer.write_escaped_string(&s).unwrap();
        assert_eq!(written(writer), expected);
    }
    let mut writer = JsonWriter::new_compact(Vec::new());
    writer.write_escaped_string("\x1f").unwrap();
    assert_eq!(written(writer), r#""\u001f""#);
}

#[test]
fn test_write_bool() {
    for (b, expected) in [(true, "true"), (false, "false")] {
        let mut writer = JsonWriter::new_compact(Vec::new());
        writer.write_bool(b).unwrap();
        assert_eq!(written(writer), expected);
    }
}

/// A sink that accepts everything, but whose errors are `std::io::Error`.
struct IoSink(Vec<u8>);

impl BlockingWrite for IoSink {
    type Error = io::Error;

    fn write_all(&mut self, buf: &[u8]) -> Result<(), io::Error> {
        self.0.extend_from_slice(buf);
        Ok(())
    }
}

#[test]
fn test_set_reported_error() {
    let mut writer = JsonWriter::new_compact(IoSink(Vec::new()));
    writer.write_bytes(b"yo").unwrap();

    writer.set_unreported_error(io::Error::new(io::ErrorKind::Other, "something went wrong"));
    match writer.write_bytes(b" after error") {
        Ok(_) => panic!("previous error should have been returned"),
        Err(e) => {
            assert_eq!(e.kind(), io::ErrorKind::Other);
            assert_eq!(e.to_string(), "something went wrong");
        },
    }
    assert_eq!(String::from_utf8(writer.into_inner().unwrap().0).unwrap(), "yo");
}

#[test]
fn test_flush() {
    let mut writer = JsonWriter::new_compact(IoSink(Vec::new()));
    writer.write_bytes(b"yo").unwrap();

    writer.set_unreported_error(io::Error::new(io::ErrorKind::Other, "something went wrong"));
    match writer.flush() {
        Ok(_) => panic!("previous error should have been returned"),
        Err(e) => {
            assert_eq!(e.kind(), io::ErrorKind::Other);
            assert_eq!(e.to_string(), "something went wrong");
        },
    }
    assert_eq!(String::from_utf8(writer.into_inner().unwrap().0).unwrap(), "yo");
}

fn write_combined<F: JsonFormatter>(mut writer: JsonWriter<Vec<u8>, F>) -> String {
    let w = &mut writer;
    let mut o = JsonObject::new(w).unwrap();
    o.write_string_value(w, "abc", "yo").unwrap();
    o.write_string_value(w, "xyz", "yo").unwrap();
    {
        let mut na = o.start_array(w, "aaaa").unwrap();
        na.write_string_value(w, "111").unwrap();
        na.write_string_value(w, "11").unwrap();
        na.start_object(w).unwrap().end(w).unwrap();
        na.start_array(w).unwrap().end(w).unwrap();
        na.write_null_value(w).unwrap();
        na.write_bool_value(w, true).unwrap();
        na.write_bool_value(w, false).unwrap();
        na.write_i32_value(w, -23987).unwrap();
        na.write_u128_value(w, 23987u128).unwrap();
        na.write_raw_num_value(w, b"23.235").unwrap();
        na.write_null_value(w).unwrap();
        na.write_null_value(w).unwrap();
        na.write_raw_num_value(w, b"23.235").unwrap();
        na.write_null_value(w).unwrap();
        na.write_null_value(w).unwrap();
        na.end(w).unwrap();
    }
    {
        let mut nested = o.start_object(w, "ooo").unwrap();
        nested.write_string_value(w, "lll", "whatever").unwrap();
        nested.start_array(w, "ar").unwrap().end(w).unwrap();
        nested.end(w).unwrap();
    }
    o.end(w).unwrap();
    written(writer)
}

#[test]
fn mod_test_write_combined_compact() {
    assert_eq!(
        write_combined(JsonWriter::new_compact(Vec::new())),
        r#"{"abc":"yo","xyz":"yo","aaaa":["111","11",{},[],null,true,false,-23987,23987,23.235,null,null,23.235,null,null],"ooo":{"lll":"whatever","ar":[]}}"#
    );
}

#[test]
fn mod_test_write_combined_pretty() {
    assert_eq!(
        write_combined(JsonWriter::new_pretty(Vec::new())),
        r#"{
  "abc": "yo",
  "xyz": "yo",
  "aaaa": [
    "111",
    "11",
    {},
    [],
    null,
    true,
    false,
    -23987,
    23987,
    23.235,
    null,
    null,
    23.235,
    null,
    null
  ],
  "ooo": {
    "lll": "whatever",
    "ar": []
  }
}"#
    );
}

#[test]
fn compact_object_with_borrowed_inputs() {
    let key_a: &str = "a";
    let value: &str = "hello";
    let mut writer = JsonWriter::new_compact(Vec::new());
    let w = &mut writer;
    let mut o = JsonObject::new(w).unwrap();
    o.write_string_value(w, key_a, value).unwrap();
    let mut b = o.start_array(w, "b").unwrap();
    b.write_u32_value(w, 1).unwrap();
    b.write_u32_value(w, 2).unwrap();
    b.end(w).unwrap();
    o.end(w).unwrap();
    assert_eq!(written(writer), r#"{"a":"hello","b":[1,2]}"#);
}

#[test]
fn pretty_formatter_levels() {
    let mut f = PrettyFormatter::new();
    assert_eq!(f.indent(), b"\n".to_vec());
    assert_eq!(f.after_start_nested(), Vec::<u8>::new());
    assert_eq!(f.indent(), b"\n  ".to_vec());
    assert_eq!(f.after_key(), b" ".to_vec());
    assert_eq!(f.before_end_nested(false), b"\n".to_vec());
    assert_eq!(f.before_end_nested(true), Vec::<u8>::new());
}
