use vstd::prelude::*;

use crate::formatter::JsonFormatter;
use crate::io::BlockingWrite;
use crate::writer::{JsonWriter, bool_text, decimal_int, null_text, quoted};
use vstd::string::StringSliceAdditionalSpecFns;

verus! {

/// What precedes an element: a comma and the formatter's whitespace unless it is the first one,
/// then the indentation.
pub open spec fn separator<F: JsonFormatter>(f: F, is_initial: bool) -> Seq<u8> {
    (if is_initial {
        Seq::empty()
    } else {
        seq![0x2cu8] + f.after_element_text()
    }) + f.indent_text()
}

/// What precedes the value of an object entry: the separator, the quoted key and the colon.
pub open spec fn key_prefix<F: JsonFormatter>(f: F, is_initial: bool, key: Seq<u8>) -> Seq<u8> {
    separator(f, is_initial) + quoted(key) + seq![0x3au8] + f.after_key_text()
}

/// The opening bracket of a container and the formatter's whitespace after it.
pub open spec fn open_text<F: JsonFormatter>(f: F, bracket: u8) -> Seq<u8> {
    seq![bracket] + f.after_start_nested_text()
}

/// The formatter's whitespace before the closing bracket, and the bracket.
pub open spec fn close_text<F: JsonFormatter>(f: F, is_empty: bool, bracket: u8) -> Seq<u8> {
    f.before_end_nested_text(is_empty) + seq![bracket]
}

/// Writes an opening bracket and tells the formatter.
fn open_container<W: BlockingWrite, F: JsonFormatter>(writer: &mut JsonWriter<W, F>, bracket: u8) -> (r: Result<(), W::Error>)
    ensures
        r is Ok ==> final(writer).depth() == old(writer).depth() + 1,
        final(writer).sink_never_fails() == old(writer).sink_never_fails(),
        final(writer).pending() is None,
        old(writer).pending() is None && old(writer).sink_never_fails() ==> r is Ok,
        old(writer).pending() is Some ==> r is Err && final(writer).written() == old(
            writer,
        ).written(),
        r is Ok ==> final(writer).written() == old(writer).written() + open_text(old(writer).formatter(), bracket)
            && final(writer).formatter() == old(writer).formatter().nested(),
{
    let b: Vec<u8> = vec![bracket];
    match writer.write_bytes(b.as_slice()) {
        Ok(()) => {},
        Err(e) => return Err(e),
    }
    let r = writer.write_format_after_start_nested();
    assert(r is Ok ==> final(writer).written() =~= old(writer).written() + open_text(old(writer).formatter(), bracket));
    r
}

/// Writes the formatter's whitespace and a closing bracket.
fn close_container<W: BlockingWrite, F: JsonFormatter>(writer: &mut JsonWriter<W, F>, is_empty: bool, bracket: u8) -> (r: Result<(), W::Error>)
    requires
        old(writer).depth() >= 1,
    ensures
        final(writer).depth() + 1 == old(writer).depth(),
        final(writer).sink_never_fails() == old(writer).sink_never_fails(),
        final(writer).pending() is None,
        old(writer).pending() is None && old(writer).sink_never_fails() ==> r is Ok,
        old(writer).pending() is Some ==> r is Err && final(writer).written() == old(
            writer,
        ).written(),
        r is Ok ==> final(writer).written() == old(writer).written() + close_text(old(writer).formatter(), is_empty, bracket)
            && final(writer).formatter() == old(writer).formatter().unnested(),
{
    match writer.write_format_before_end_nested(is_empty) {
        Ok(()) => {},
        Err(e) => return Err(e),
    }
    let b: Vec<u8> = vec![bracket];
    let r = writer.write_bytes(b.as_slice());
    assert(r is Ok ==> final(writer).written() =~= old(writer).written() + close_text(old(writer).formatter(), is_empty, bracket));
    r
}

/// Writes the separator before an element.
fn write_separator<W: BlockingWrite, F: JsonFormatter>(writer: &mut JsonWriter<W, F>, is_initial: bool) -> (r: Result<(), W::Error>)
    ensures
        final(writer).depth() == old(writer).depth(),
        final(writer).sink_never_fails() == old(writer).sink_never_fails(),
        final(writer).pending() is None,
        old(writer).pending() is None && old(writer).sink_never_fails() ==> r is Ok,
        old(writer).pending() is Some ==> r is Err && final(writer).written() == old(
            writer,
        ).written(),
        final(writer).formatter() == old(writer).formatter(),
        r is Ok ==> final(writer).written() == old(writer).written() + separator(old(writer).formatter(), is_initial),
{
    let ghost w0 = writer.written();
    if !is_initial {
        let comma: Vec<u8> = vec![0x2cu8];
        match writer.write_bytes(comma.as_slice()) {
            Ok(()) => {},
            Err(e) => return Err(e),
        }
        match writer.write_format_after_element() {
            Ok(()) => {},
            Err(e) => return Err(e),
        }
    }
    let r = writer.write_format_indent();
    assert(r is Ok ==> final(writer).written() =~= w0 + separator(old(writer).formatter(), is_initial));
    r
}

/// Writes a JSON object. The opening bracket is written on creation, the closing one by `end`.
/// The scope does not hold the writer: each call is handed the writer it was created on. Each
/// method requires the writer to be at the scope's depth, so a scope cannot be written while a
/// nested scope that it started is still open.
pub struct JsonObject {
    is_initial: bool,
    depth: Ghost<nat>,
}

impl JsonObject {
    /// Whether nothing has been written into the scope yet.
    pub closed spec fn is_initial(&self) -> bool {
        self.is_initial
    }

    /// The writer's depth while this scope is the innermost open one.
    pub closed spec fn depth(&self) -> nat {
        self.depth@
    }

    /// Starts a object by writing its opening bracket.
    pub fn new<W: BlockingWrite, F: JsonFormatter>(writer: &mut JsonWriter<W, F>) -> (r: Result<Self, W::Error>)
        ensures
            r is Ok ==> r->Ok_0.depth() == final(writer).depth() && final(writer).depth() == old(writer).depth() + 1,
            final(writer).sink_never_fails() == old(writer).sink_never_fails(),
            final(writer).pending() is None,
            old(writer).pending() is None && old(writer).sink_never_fails() ==> r is Ok,
            old(writer).pending() is Some ==> r is Err && final(writer).written() == old(
                writer,
            ).written(),
            r is Ok ==> r->Ok_0.is_initial()
                && final(writer).formatter() == old(writer).formatter().nested()
                && final(writer).written() == old(writer).written() + open_text(old(writer).formatter(), 0x7bu8),
    {
        match open_container(writer, 0x7bu8) {
            Ok(()) => Ok(JsonObject { is_initial: true, depth: Ghost(writer.depth()) }),
            Err(e) => Err(e),
        }
    }

    /// Ends the object: the formatter's whitespace and the closing bracket.
    pub fn end<W: BlockingWrite, F: JsonFormatter>(self, writer: &mut JsonWriter<W, F>) -> (r: Result<(), W::Error>)
        requires
            self.depth() == old(writer).depth(),
            self.depth() >= 1,
        ensures
            final(writer).depth() + 1 == old(writer).depth(),
            final(writer).sink_never_fails() == old(writer).sink_never_fails(),
            final(writer).pending() is None,
            old(writer).pending() is None && old(writer).sink_never_fails() ==> r is Ok,
            old(writer).pending() is Some ==> r is Err && final(writer).written() == old(
                writer,
            ).written(),
            r is Ok ==> final(writer).formatter() == old(writer).formatter().unnested()
                && final(writer).written() == old(writer).written() + close_text(old(writer).formatter(), self.is_initial(), 0x7du8),
    {
        close_container(writer, self.is_initial, 0x7du8)
    }

    /// Writes the separator, the key and the colon.
    fn write_key<W: BlockingWrite, F: JsonFormatter>(&mut self, writer: &mut JsonWriter<W, F>, key: &str) -> (r: Result<(), W::Error>)
        requires
            old(self).depth() == old(writer).depth(),
        ensures
            final(self).depth() == old(self).depth(),
            final(writer).depth() == old(writer).depth(),
            final(writer).sink_never_fails() == old(writer).sink_never_fails(),
            final(writer).pending() is None,
            old(writer).pending() is None && old(writer).sink_never_fails() ==> r is Ok,
            old(writer).pending() is Some ==> r is Err && final(writer).written() == old(
                writer,
            ).written(),
            final(writer).formatter() == old(writer).formatter(),
            r is Ok ==> !final(self).is_initial() && final(writer).written() == old(writer).written() + key_prefix(old(writer).formatter(), old(self).is_initial(), key.spec_bytes()),
    {
        match write_separator(writer, self.is_initial) {
            Ok(()) => {},
            Err(e) => return Err(e),
        }
        self.is_initial = false;
        match writer.write_escaped_string(key) {
            Ok(()) => {},
            Err(e) => return Err(e),
        }
        let colon: Vec<u8> = vec![0x3au8];
        match writer.write_bytes(colon.as_slice()) {
            Ok(()) => {},
            Err(e) => return Err(e),
        }
        let r = writer.write_format_after_key();
        assert(r is Ok ==> final(writer).written() =~= old(writer).written() + key_prefix(old(writer).formatter(), old(self).is_initial(), key.spec_bytes()));
        r
    }

    /// Writes a string value, escaped.
    pub fn write_string_value<W: BlockingWrite, F: JsonFormatter>(&mut self, writer: &mut JsonWriter<W, F>, key: &str, value: &str) -> (r: Result<(), W::Error>)
        requires
            old(self).depth() == old(writer).depth(),
        ensures
            final(self).depth() == old(self).depth(),
            final(writer).depth() == old(writer).depth(),
            final(writer).sink_never_fails() == old(writer).sink_never_fails(),
            final(writer).pending() is None,
            old(writer).pending() is None && old(writer).sink_never_fails() ==> r is Ok,
            old(writer).pending() is Some ==> r is Err && final(writer).written() == old(
                writer,
            ).written(),
            final(writer).formatter() == old(writer).formatter(),
            r is Ok ==> !final(self).is_initial() && final(writer).written() == old(writer).written() + key_prefix(old(writer).formatter(), old(self).is_initial(), key.spec_bytes()) + quoted(value.spec_bytes()),
    {
        match self.write_key(writer, key) {
            Ok(()) => {},
            Err(e) => return Err(e),
        }
        let ghost w1 = writer.written();
        let r = writer.write_escaped_string(value);
        assert(r is Ok ==> final(writer).written() =~= old(writer).written() + key_prefix(old(writer).formatter(), old(self).is_initial(), key.spec_bytes()) + quoted(value.spec_bytes()));
        r
    }

    /// Writes a boolean value.
    pub fn write_bool_value<W: BlockingWrite, F: JsonFormatter>(&mut self, writer: &mut JsonWriter<W, F>, key: &str, value: bool) -> (r: Result<(), W::Error>)
        requires
            old(self).depth() == old(writer).depth(),
        ensures
            final(self).depth() == old(self).depth(),
            final(writer).depth() == old(writer).depth(),
            final(writer).sink_never_fails() == old(writer).sink_never_fails(),
            final(writer).pending() is None,
            old(writer).pending() is None && old(writer).sink_never_fails() ==> r is Ok,
            old(writer).pending() is Some ==> r is Err && final(writer).written() == old(
                writer,
            ).written(),
            final(writer).formatter() == old(writer).formatter(),
            r is Ok ==> !final(self).is_initial() && final(writer).written() == old(writer).written() + key_prefix(old(writer).formatter(), old(self).is_initial(), key.spec_bytes()) + bool_text(value),
    {
        match self.write_key(writer, key) {
            Ok(()) => {},
            Err(e) => return Err(e),
        }
        let ghost w1 = writer.written();
        let r = writer.write_bool(value);
        assert(r is Ok ==> final(writer).written() =~= old(writer).written() + key_prefix(old(writer).formatter(), old(self).is_initial(), key.spec_bytes()) + bool_text(value));
        r
    }

    /// Writes `null`.
    pub fn write_null_value<W: BlockingWrite, F: JsonFormatter>(&mut self, writer: &mut JsonWriter<W, F>, key: &str) -> (r: Result<(), W::Error>)
        requires
            old(self).depth() == old(writer).depth(),
        ensures
            final(self).depth() == old(self).depth(),
            final(writer).depth() == old(writer).depth(),
            final(writer).sink_never_fails() == old(writer).sink_never_fails(),
            final(writer).pending() is None,
            old(writer).pending() is None && old(writer).sink_never_fails() ==> r is Ok,
            old(writer).pending() is Some ==> r is Err && final(writer).written() == old(
                writer,
            ).written(),
            final(writer).formatter() == old(writer).formatter(),
            r is Ok ==> !final(self).is_initial() && final(writer).written() == old(writer).written() + key_prefix(old(writer).formatter(), old(self).is_initial(), key.spec_bytes()) + null_text(),
    {
        match self.write_key(writer, key) {
            Ok(()) => {},
            Err(e) => return Err(e),
        }
        let ghost w1 = writer.written();
        let r = writer.write_null();
        assert(r is Ok ==> final(writer).written() =~= old(writer).written() + key_prefix(old(writer).formatter(), old(self).is_initial(), key.spec_bytes()) + null_text());
        r
    }

    /// Writes a number given as its text, e.g. one formatted elsewhere.
    pub fn write_raw_num_value<W: BlockingWrite, F: JsonFormatter>(&mut self, writer: &mut JsonWriter<W, F>, key: &str, text: &[u8]) -> (r: Result<(), W::Error>)
        requires
            old(self).depth() == old(writer).depth(),
        ensures
            final(self).depth() == old(self).depth(),
            final(writer).depth() == old(writer).depth(),
            final(writer).sink_never_fails() == old(writer).sink_never_fails(),
            final(writer).pending() is None,
            old(writer).pending() is None && old(writer).sink_never_fails() ==> r is Ok,
            old(writer).pending() is Some ==> r is Err && final(writer).written() == old(
                writer,
            ).written(),
            final(writer).formatter() == old(writer).formatter(),
            r is Ok ==> !final(self).is_initial() && final(writer).written() == old(writer).written() + key_prefix(old(writer).formatter(), old(self).is_initial(), key.spec_bytes()) + text@,
    {
        match self.write_key(writer, key) {
            Ok(()) => {},
            Err(e) => return Err(e),
        }
        let ghost w1 = writer.written();
        let r = writer.write_raw_num(text);
        assert(r is Ok ==> final(writer).written() =~= old(writer).written() + key_prefix(old(writer).formatter(), old(self).is_initial(), key.spec_bytes()) + text@);
        r
    }

    /// Writes a `i8` value in decimal.
    pub fn write_i8_value<W: BlockingWrite, F: JsonFormatter>(&mut self, writer: &mut JsonWriter<W, F>, key: &str, value: i8) -> (r: Result<(), W::Error>)
        requires
            old(self).depth() == old(writer).depth(),
        ensures
            final(self).depth() == old(self).depth(),
            final(writer).depth() == old(writer).depth(),
            final(writer).sink_never_fails() == old(writer).sink_never_fails(),
            final(writer).pending() is None,
            old(writer).pending() is None && old(writer).sink_never_fails() ==> r is Ok,
            old(writer).pending() is Some ==> r is Err && final(writer).written() == old(
                writer,
            ).written(),
            final(writer).formatter() == old(writer).formatter(),
            r is Ok ==> !final(self).is_initial() && final(writer).written() == old(writer).written() + key_prefix(old(writer).formatter(), old(self).is_initial(), key.spec_bytes()) + decimal_int(value as int),
    {
        match self.write_key(writer, key) {
            Ok(()) => {},
            Err(e) => return Err(e),
        }
        let ghost w1 = writer.written();
        let r = writer.write_signed(value as i128);
        assert(r is Ok ==> final(writer).written() =~= old(writer).written() + key_prefix(old(writer).formatter(), old(self).is_initial(), key.spec_bytes()) + decimal_int(value as int));
        r
    }

    /// Writes a `u8` value in decimal.
    pub fn write_u8_value<W: BlockingWrite, F: JsonFormatter>(&mut self, writer: &mut JsonWriter<W, F>, key: &str, value: u8) -> (r: Result<(), W::Error>)
        requires
            old(self).depth() == old(writer).depth(),
        ensures
            final(self).depth() == old(self).depth(),
            final(writer).depth() == old(writer).depth(),
            final(writer).sink_never_fails() == old(writer).sink_never_fails(),
            final(writer).pending() is None,
            old(writer).pending() is None && old(writer).sink_never_fails() ==> r is Ok,
            old(writer).pending() is Some ==> r is Err && final(writer).written() == old(
                writer,
            ).written(),
            final(writer).formatter() == old(writer).formatter(),
            r is Ok ==> !final(self).is_initial() && final(writer).written() == old(writer).written() + key_prefix(old(writer).formatter(), old(self).is_initial(), key.spec_bytes()) + decimal_int(value as int),
    {
        match self.write_key(writer, key) {
            Ok(()) => {},
            Err(e) => return Err(e),
        }
        let ghost w1 = writer.written();
        let r = writer.write_unsigned(value as u128);
        assert(r is Ok ==> final(writer).written() =~= old(writer).written() + key_prefix(old(writer).formatter(), old(self).is_initial(), key.spec_bytes()) + decimal_int(value as int));
        r
    }

    /// Writes a `i16` value in decimal.
    pub fn write_i16_value<W: BlockingWrite, F: JsonFormatter>(&mut self, writer: &mut JsonWriter<W, F>, key: &str, value: i16) -> (r: Result<(), W::Error>)
        requires
            old(self).depth() == old(writer).depth(),
        ensures
            final(self).depth() == old(self).depth(),
            final(writer).depth() == old(writer).depth(),
            final(writer).sink_never_fails() == old(writer).sink_never_fails(),
            final(writer).pending() is None,
            old(writer).pending() is None && old(writer).sink_never_fails() ==> r is Ok,
            old(writer).pending() is Some ==> r is Err && final(writer).written() == old(
                writer,
            ).written(),
            final(writer).formatter() == old(writer).formatter(),
            r is Ok ==> !final(self).is_initial() && final(writer).written() == old(writer).written() + key_prefix(old(writer).formatter(), old(self).is_initial(), key.spec_bytes()) + decimal_int(value as int),
    {
        match self.write_key(writer, key) {
            Ok(()) => {},
            Err(e) => return Err(e),
        }
        let ghost w1 = writer.written();
        let r = writer.write_signed(value as i128);
        assert(r is Ok ==> final(writer).written() =~= old(writer).written() + key_prefix(old(writer).formatter(), old(self).is_initial(), key.spec_bytes()) + decimal_int(value as int));
        r
    }

    /// Writes a `u16` value in decimal.
    pub fn write_u16_value<W: BlockingWrite, F: JsonFormatter>(&mut self, writer: &mut JsonWriter<W, F>, key: &str, value: u16) -> (r: Result<(), W::Error>)
        requires
            old(self).depth() == old(writer).depth(),
        ensures
            final(self).depth() == old(self).depth(),
            final(writer).depth() == old(writer).depth(),
            final(writer).sink_never_fails() == old(writer).sink_never_fails(),
            final(writer).pending() is None,
            old(writer).pending() is None && old(writer).sink_never_fails() ==> r is Ok,
            old(writer).pending() is Some ==> r is Err && final(writer).written() == old(
                writer,
            ).written(),
            final(writer).formatter() == old(writer).formatter(),
            r is Ok ==> !final(self).is_initial() && final(writer).written() == old(writer).written() + key_prefix(old(writer).formatter(), old(self).is_initial(), key.spec_bytes()) + decimal_int(value as int),
    {
        match self.write_key(writer, key) {
            Ok(()) => {},
            Err(e) => return Err(e),
        }
        let ghost w1 = writer.written();
        let r = writer.write_unsigned(value as u128);
        assert(r is Ok ==> final(writer).written() =~= old(writer).written() + key_prefix(old(writer).formatter(), old(self).is_initial(), key.spec_bytes()) + decimal_int(value as int));
        r
    }

    /// Writes a `i32` value in decimal.
    pub fn write_i32_value<W: BlockingWrite, F: JsonFormatter>(&mut self, writer: &mut JsonWriter<W, F>, key: &str, value: i32) -> (r: Result<(), W::Error>)
        requires
            old(self).depth() == old(writer).depth(),
        ensures
            final(self).depth() == old(self).depth(),
            final(writer).depth() == old(writer).depth(),
            final(writer).sink_never_fails() == old(writer).sink_never_fails(),
            final(writer).pending() is None,
            old(writer).pending() is None && old(writer).sink_never_fails() ==> r is Ok,
            old(writer).pending() is Some ==> r is Err && final(writer).written() == old(
                writer,
            ).written(),
            final(writer).formatter() == old(writer).formatter(),
            r is Ok ==> !final(self).is_initial() && final(writer).written() == old(writer).written() + key_prefix(old(writer).formatter(), old(self).is_initial(), key.spec_bytes()) + decimal_int(value as int),
    {
        match self.write_key(writer, key) {
            Ok(()) => {},
            Err(e) => return Err(e),
        }
        let ghost w1 = writer.written();
        let r = writer.write_signed(value as i128);
        assert(r is Ok ==> final(writer).written() =~= old(writer).written() + key_prefix(old(writer).formatter(), old(self).is_initial(), key.spec_bytes()) + decimal_int(value as int));
        r
    }

    /// Writes a `u32` value in decimal.
    pub fn write_u32_value<W: BlockingWrite, F: JsonFormatter>(&mut self, writer: &mut JsonWriter<W, F>, key: &str, value: u32) -> (r: Result<(), W::Error>)
        requires
            old(self).depth() == old(writer).depth(),
        ensures
            final(self).depth() == old(self).depth(),
            final(writer).depth() == old(writer).depth(),
            final(writer).sink_never_fails() == old(writer).sink_never_fails(),
            final(writer).pending() is None,
            old(writer).pending() is None && old(writer).sink_never_fails() ==> r is Ok,
            old(writer).pending() is Some ==> r is Err && final(writer).written() == old(
                writer,
            ).written(),
            final(writer).formatter() == old(writer).formatter(),
            r is Ok ==> !final(self).is_initial() && final(writer).written() == old(writer).written() + key_prefix(old(writer).formatter(), old(self).is_initial(), key.spec_bytes()) + decimal_int(value as int),
    {
        match self.write_key(writer, key) {
            Ok(()) => {},
            Err(e) => return Err(e),
        }
        let ghost w1 = writer.written();
        let r = writer.write_unsigned(value as u128);
        assert(r is Ok ==> final(writer).written() =~= old(writer).written() + key_prefix(old(writer).formatter(), old(self).is_initial(), key.spec_bytes()) + decimal_int(value as int));
        r
    }

    /// Writes a `i64` value in decimal.
    pub fn write_i64_value<W: BlockingWrite, F: JsonFormatter>(&mut self, writer: &mut JsonWriter<W, F>, key: &str, value: i64) -> (r: Result<(), W::Error>)
        requires
            old(self).depth() == old(writer).depth(),
        ensures
            final(self).depth() == old(self).depth(),
            final(writer).depth() == old(writer).depth(),
            final(writer).sink_never_fails() == old(writer).sink_never_fails(),
            final(writer).pending() is None,
            old(writer).pending() is None && old(writer).sink_never_fails() ==> r is Ok,
            old(writer).pending() is Some ==> r is Err && final(writer).written() == old(
                writer,
            ).written(),
            final(writer).formatter() == old(writer).formatter(),
            r is Ok ==> !final(self).is_initial() && final(writer).written() == old(writer).written() + key_prefix(old(writer).formatter(), old(self).is_initial(), key.spec_bytes()) + decimal_int(value as int),
    {
        match self.write_key(writer, key) {
            Ok(()) => {},
            Err(e) => return Err(e),
        }
        let ghost w1 = writer.written();
        let r = writer.write_signed(value as i128);
        assert(r is Ok ==> final(writer).written() =~= old(writer).written() + key_prefix(old(writer).formatter(), old(self).is_initial(), key.spec_bytes()) + decimal_int(value as int));
        r
    }

    /// Writes a `u64` value in decimal.
    pub fn write_u64_value<W: BlockingWrite, F: JsonFormatter>(&mut self, writer: &mut JsonWriter<W, F>, key: &str, value: u64) -> (r: Result<(), W::Error>)
        requires
            old(self).depth() == old(writer).depth(),
        ensures
            final(self).depth() == old(self).depth(),
            final(writer).depth() == old(writer).depth(),
            final(writer).sink_never_fails() == old(writer).sink_never_fails(),
            final(writer).pending() is None,
            old(writer).pending() is None && old(writer).sink_never_fails() ==> r is Ok,
            old(writer).pending() is Some ==> r is Err && final(writer).written() == old(
                writer,
            ).written(),
            final(writer).formatter() == old(writer).formatter(),
            r is Ok ==> !final(self).is_initial() && final(writer).written() == old(writer).written() + key_prefix(old(writer).formatter(), old(self).is_initial(), key.spec_bytes()) + decimal_int(value as int),
    {
        match self.write_key(writer, key) {
            Ok(()) => {},
            Err(e) => return Err(e),
        }
        let ghost w1 = writer.written();
        let r = writer.write_unsigned(value as u128);
        assert(r is Ok ==> final(writer).written() =~= old(writer).written() + key_prefix(old(writer).formatter(), old(self).is_initial(), key.spec_bytes()) + decimal_int(value as int));
        r
    }

    /// Writes a `i128` value in decimal.
    pub fn write_i128_value<W: BlockingWrite, F: JsonFormatter>(&mut self, writer: &mut JsonWriter<W, F>, key: &str, value: i128) -> (r: Result<(), W::Error>)
        requires
            old(self).depth() == old(writer).depth(),
        ensures
            final(self).depth() == old(self).depth(),
            final(writer).depth() == old(writer).depth(),
            final(writer).sink_never_fails() == old(writer).sink_never_fails(),
            final(writer).pending() is None,
            old(writer).pending() is None && old(writer).sink_never_fails() ==> r is Ok,
            old(writer).pending() is Some ==> r is Err && final(writer).written() == old(
                writer,
            ).written(),
            final(writer).formatter() == old(writer).formatter(),
            r is Ok ==> !final(self).is_initial() && final(writer).written() == old(writer).written() + key_prefix(old(writer).formatter(), old(self).is_initial(), key.spec_bytes()) + decimal_int(value as int),
    {
        match self.write_key(writer, key) {
            Ok(()) => {},
            Err(e) => return Err(e),
        }
        let ghost w1 = writer.written();
        let r = writer.write_signed(value as i128);
        assert(r is Ok ==> final(writer).written() =~= old(writer).written() + key_prefix(old(writer).formatter(), old(self).is_initial(), key.spec_bytes()) + decimal_int(value as int));
        r
    }

    /// Writes a `u128` value in decimal.
    pub fn write_u128_value<W: BlockingWrite, F: JsonFormatter>(&mut self, writer: &mut JsonWriter<W, F>, key: &str, value: u128) -> (r: Result<(), W::Error>)
        requires
            old(self).depth() == old(writer).depth(),
        ensures
            final(self).depth() == old(self).depth(),
            final(writer).depth() == old(writer).depth(),
            final(writer).sink_never_fails() == old(writer).sink_never_fails(),
            final(writer).pending() is None,
            old(writer).pending() is None && old(writer).sink_never_fails() ==> r is Ok,
            old(writer).pending() is Some ==> r is Err && final(writer).written() == old(
                writer,
            ).written(),
            final(writer).formatter() == old(writer).formatter(),
            r is Ok ==> !final(self).is_initial() && final(writer).written() == old(writer).written() + key_prefix(old(writer).formatter(), old(self).is_initial(), key.spec_bytes()) + decimal_int(value as int),
    {
        match self.write_key(writer, key) {
            Ok(()) => {},
            Err(e) => return Err(e),
        }
        let ghost w1 = writer.written();
        let r = writer.write_unsigned(value as u128);
        assert(r is Ok ==> final(writer).written() =~= old(writer).written() + key_prefix(old(writer).formatter(), old(self).is_initial(), key.spec_bytes()) + decimal_int(value as int));
        r
    }

    /// Writes a `isize` value in decimal.
    pub fn write_isize_value<W: BlockingWrite, F: JsonFormatter>(&mut self, writer: &mut JsonWriter<W, F>, key: &str, value: isize) -> (r: Result<(), W::Error>)
        requires
            old(self).depth() == old(writer).depth(),
        ensures
            final(self).depth() == old(self).depth(),
            final(writer).depth() == old(writer).depth(),
            final(writer).sink_never_fails() == old(writer).sink_never_fails(),
            final(writer).pending() is None,
            old(writer).pending() is None && old(writer).sink_never_fails() ==> r is Ok,
            old(writer).pending() is Some ==> r is Err && final(writer).written() == old(
                writer,
            ).written(),
            final(writer).formatter() == old(writer).formatter(),
            r is Ok ==> !final(self).is_initial() && final(writer).written() == old(writer).written() + key_prefix(old(writer).formatter(), old(self).is_initial(), key.spec_bytes()) + decimal_int(value as int),
    {
        match self.write_key(writer, key) {
            Ok(()) => {},
            Err(e) => return Err(e),
        }
        let ghost w1 = writer.written();
        let r = writer.write_signed(value as i128);
        assert(r is Ok ==> final(writer).written() =~= old(writer).written() + key_prefix(old(writer).formatter(), old(self).is_initial(), key.spec_bytes()) + decimal_int(value as int));
        r
    }

    /// Writes a `usize` value in decimal.
    pub fn write_usize_value<W: BlockingWrite, F: JsonFormatter>(&mut self, writer: &mut JsonWriter<W, F>, key: &str, value: usize) -> (r: Result<(), W::Error>)
        requires
            old(self).depth() == old(writer).depth(),
        ensures
            final(self).depth() == old(self).depth(),
            final(writer).depth() == old(writer).depth(),
            final(writer).sink_never_fails() == old(writer).sink_never_fails(),
            final(writer).pending() is None,
            old(writer).pending() is None && old(writer).sink_never_fails() ==> r is Ok,
            old(writer).pending() is Some ==> r is Err && final(writer).written() == old(
                writer,
            ).written(),
            final(writer).formatter() == old(writer).formatter(),
            r is Ok ==> !final(self).is_initial() && final(writer).written() == old(writer).written() + key_prefix(old(writer).formatter(), old(self).is_initial(), key.spec_bytes()) + decimal_int(value as int),
    {
        match self.write_key(writer, key) {
            Ok(()) => {},
            Err(e) => return Err(e),
        }
        let ghost w1 = writer.written();
        let r = writer.write_unsigned(value as u128);
        assert(r is Ok ==> final(writer).written() =~= old(writer).written() + key_prefix(old(writer).formatter(), old(self).is_initial(), key.spec_bytes()) + decimal_int(value as int));
        r
    }

    /// Starts a nested object under `key`; the returned scope writes its entries.
    pub fn start_object<W: BlockingWrite, F: JsonFormatter>(&mut self, writer: &mut JsonWriter<W, F>, key: &str) -> (r: Result<JsonObject, W::Error>)
        requires
            old(self).depth() == old(writer).depth(),
        ensures
            final(self).depth() == old(self).depth(),
            r is Ok ==> r->Ok_0.depth() == final(writer).depth() && final(writer).depth() == old(writer).depth() + 1,
            final(writer).sink_never_fails() == old(writer).sink_never_fails(),
            final(writer).pending() is None,
            old(writer).pending() is None && old(writer).sink_never_fails() ==> r is Ok,
            old(writer).pending() is Some ==> r is Err && final(writer).written() == old(
                writer,
            ).written(),
            r is Ok ==> !final(self).is_initial() && r->Ok_0.is_initial()
                && final(writer).formatter() == old(writer).formatter().nested()
                && final(writer).written() == old(writer).written() + key_prefix(old(writer).formatter(), old(self).is_initial(), key.spec_bytes()) + open_text(old(writer).formatter(), 0x7bu8),
    {
        match self.write_key(writer, key) {
            Ok(()) => {},
            Err(e) => return Err(e),
        }
        let r = JsonObject::new(writer);
        assert(r is Ok ==> final(writer).written() =~= old(writer).written() + key_prefix(old(writer).formatter(), old(self).is_initial(), key.spec_bytes()) + open_text(old(writer).formatter(), 0x7bu8));
        r
    }

    /// Starts a nested array under `key`; the returned scope writes its entries.
    pub fn start_array<W: BlockingWrite, F: JsonFormatter>(&mut self, writer: &mut JsonWriter<W, F>, key: &str) -> (r: Result<JsonArray, W::Error>)
        requires
            old(self).depth() == old(writer).depth(),
        ensures
            final(self).depth() == old(self).depth(),
            r is Ok ==> r->Ok_0.depth() == final(writer).depth() && final(writer).depth() == old(writer).depth() + 1,
            final(writer).sink_never_fails() == old(writer).sink_never_fails(),
            final(writer).pending() is None,
            old(writer).pending() is None && old(writer).sink_never_fails() ==> r is Ok,
            old(writer).pending() is Some ==> r is Err && final(writer).written() == old(
                writer,
            ).written(),
            r is Ok ==> !final(self).is_initial() && r->Ok_0.is_initial()
                && final(writer).formatter() == old(writer).formatter().nested()
                && final(writer).written() == old(writer).written() + key_prefix(old(writer).formatter(), old(self).is_initial(), key.spec_bytes()) + open_text(old(writer).formatter(), 0x5bu8),
    {
        match self.write_key(writer, key) {
            Ok(()) => {},
            Err(e) => return Err(e),
        }
        let r = JsonArray::new(writer);
        assert(r is Ok ==> final(writer).written() =~= old(writer).written() + key_prefix(old(writer).formatter(), old(self).is_initial(), key.spec_bytes()) + open_text(old(writer).formatter(), 0x5bu8));
        r
    }

}

/// Writes a JSON array. The opening bracket is written on creation, the closing one by `end`.
/// The scope does not hold the writer: each call is handed the writer it was created on. Each
/// method requires the writer to be at the scope's depth, so a scope cannot be written while a
/// nested scope that it started is still open.
pub struct JsonArray {
    is_initial: bool,
    depth: Ghost<nat>,
}

impl JsonArray {
    /// Whether nothing has been written into the scope yet.
    pub closed spec fn is_initial(&self) -> bool {
        self.is_initial
    }

    /// The writer's depth while this scope is the innermost open one.
    pub closed spec fn depth(&self) -> nat {
        self.depth@
    }

    /// Starts a array by writing its opening bracket.
    pub fn new<W: BlockingWrite, F: JsonFormatter>(writer: &mut JsonWriter<W, F>) -> (r: Result<Self, W::Error>)
        ensures
            r is Ok ==> r->Ok_0.depth() == final(writer).depth() && final(writer).depth() == old(writer).depth() + 1,
            final(writer).sink_never_fails() == old(writer).sink_never_fails(),
            final(writer).pending() is None,
            old(writer).pending() is None && old(writer).sink_never_fails() ==> r is Ok,
            old(writer).pending() is Some ==> r is Err && final(writer).written() == old(
                writer,
            ).written(),
            r is Ok ==> r->Ok_0.is_initial()
                && final(writer).formatter() == old(writer).formatter().nested()
                && final(writer).written() == old(writer).written() + open_text(old(writer).formatter(), 0x5bu8),
    {
        match open_container(writer, 0x5bu8) {
            Ok(()) => Ok(JsonArray { is_initial: true, depth: Ghost(writer.depth()) }),
            Err(e) => Err(e),
        }
    }

    /// Ends the array: the formatter's whitespace and the closing bracket.
    pub fn end<W: BlockingWrite, F: JsonFormatter>(self, writer: &mut JsonWriter<W, F>) -> (r: Result<(), W::Error>)
        requires
            self.depth() == old(writer).depth(),
            self.depth() >= 1,
        ensures
            final(writer).depth() + 1 == old(writer).depth(),
            final(writer).sink_never_fails() == old(writer).sink_never_fails(),
            final(writer).pending() is None,
            old(writer).pending() is None && old(writer).sink_never_fails() ==> r is Ok,
            old(writer).pending() is Some ==> r is Err && final(writer).written() == old(
                writer,
            ).written(),
            r is Ok ==> final(writer).formatter() == old(writer).formatter().unnested()
                && final(writer).written() == old(writer).written() + close_text(old(writer).formatter(), self.is_initial(), 0x5du8),
    {
        close_container(writer, self.is_initial, 0x5du8)
    }

    /// Writes the separator before an element.
    fn handle_initial<W: BlockingWrite, F: JsonFormatter>(&mut self, writer: &mut JsonWriter<W, F>) -> (r: Result<(), W::Error>)
        requires
            old(self).depth() == old(writer).depth(),
        ensures
            final(self).depth() == old(self).depth(),
            final(writer).depth() == old(writer).depth(),
            final(writer).sink_never_fails() == old(writer).sink_never_fails(),
            final(writer).pending() is None,
            old(writer).pending() is None && old(writer).sink_never_fails() ==> r is Ok,
            old(writer).pending() is Some ==> r is Err && final(writer).written() == old(
                writer,
            ).written(),
            final(writer).formatter() == old(writer).formatter(),
            r is Ok ==> !final(self).is_initial() && final(writer).written() == old(writer).written() + separator(old(writer).formatter(), old(self).is_initial()),
    {
        let r = write_separator(writer, self.is_initial);
        self.is_initial = false;
        r
    }

    /// Writes a string value, escaped.
    pub fn write_string_value<W: BlockingWrite, F: JsonFormatter>(&mut self, writer: &mut JsonWriter<W, F>, value: &str) -> (r: Result<(), W::Error>)
        requires
            old(self).depth() == old(writer).depth(),
        ensures
            final(self).depth() == old(self).depth(),
            final(writer).depth() == old(writer).depth(),
            final(writer).sink_never_fails() == old(writer).sink_never_fails(),
            final(writer).pending() is None,
            old(writer).pending() is None && old(writer).sink_never_fails() ==> r is Ok,
            old(writer).pending() is Some ==> r is Err && final(writer).written() == old(
                writer,
            ).written(),
            final(writer).formatter() == old(writer).formatter(),
            r is Ok ==> !final(self).is_initial() && final(writer).written() == old(writer).written() + separator(old(writer).formatter(), old(self).is_initial()) + quoted(value.spec_bytes()),
    {
        match self.handle_initial(writer) {
            Ok(()) => {},
            Err(e) => return Err(e),
        }
        let r = writer.write_escaped_string(value);
        assert(r is Ok ==> final(writer).written() =~= old(writer).written() + separator(old(writer).formatter(), old(self).is_initial()) + quoted(value.spec_bytes()));
        r
    }

    /// Writes a boolean value.
    pub fn write_bool_value<W: BlockingWrite, F: JsonFormatter>(&mut self, writer: &mut JsonWriter<W, F>, value: bool) -> (r: Result<(), W::Error>)
        requires
            old(self).depth() == old(writer).depth(),
        ensures
            final(self).depth() == old(self).depth(),
            final(writer).depth() == old(writer).depth(),
            final(writer).sink_never_fails() == old(writer).sink_never_fails(),
            final(writer).pending() is None,
            old(writer).pending() is None && old(writer).sink_never_fails() ==> r is Ok,
            old(writer).pending() is Some ==> r is Err && final(writer).written() == old(
                writer,
            ).written(),
            final(writer).formatter() == old(writer).formatter(),
            r is Ok ==> !final(self).is_initial() && final(writer).written() == old(writer).written() + separator(old(writer).formatter(), old(self).is_initial()) + bool_text(value),
    {
        match self.handle_initial(writer) {
            Ok(()) => {},
            Err(e) => return Err(e),
        }
        let r = writer.write_bool(value);
        assert(r is Ok ==> final(writer).written() =~= old(writer).written() + separator(old(writer).formatter(), old(self).is_initial()) + bool_text(value));
        r
    }

    /// Writes `null`.
    pub fn write_null_value<W: BlockingWrite, F: JsonFormatter>(&mut self, writer: &mut JsonWriter<W, F>) -> (r: Result<(), W::Error>)
        requires
            old(self).depth() == old(writer).depth(),
        ensures
            final(self).depth() == old(self).depth(),
            final(writer).depth() == old(writer).depth(),
            final(writer).sink_never_fails() == old(writer).sink_never_fails(),
            final(writer).pending() is None,
            old(writer).pending() is None && old(writer).sink_never_fails() ==> r is Ok,
            old(writer).pending() is Some ==> r is Err && final(writer).written() == old(
                writer,
            ).written(),
            final(writer).formatter() == old(writer).formatter(),
            r is Ok ==> !final(self).is_initial() && final(writer).written() == old(writer).written() + separator(old(writer).formatter(), old(self).is_initial()) + null_text(),
    {
        match self.handle_initial(writer) {
            Ok(()) => {},
            Err(e) => return Err(e),
        }
        let r = writer.write_null();
        assert(r is Ok ==> final(writer).written() =~= old(writer).written() + separator(old(writer).formatter(), old(self).is_initial()) + null_text());
        r
    }

    /// Writes a number given as its text, e.g. one formatted elsewhere.
    pub fn write_raw_num_value<W: BlockingWrite, F: JsonFormatter>(&mut self, writer: &mut JsonWriter<W, F>, text: &[u8]) -> (r: Result<(), W::Error>)
        requires
            old(self).depth() == old(writer).depth(),
        ensures
            final(self).depth() == old(self).depth(),
            final(writer).depth() == old(writer).depth(),
            final(writer).sink_never_fails() == old(writer).sink_never_fails(),
            final(writer).pending() is None,
            old(writer).pending() is None && old(writer).sink_never_fails() ==> r is Ok,
            old(writer).pending() is Some ==> r is Err && final(writer).written() == old(
                writer,
            ).written(),
            final(writer).formatter() == old(writer).formatter(),
            r is Ok ==> !final(self).is_initial() && final(writer).written() == old(writer).written() + separator(old(writer).formatter(), old(self).is_initial()) + text@,
    {
        match self.handle_initial(writer) {
            Ok(()) => {},
            Err(e) => return Err(e),
        }
        let r = writer.write_raw_num(text);
        assert(r is Ok ==> final(writer).written() =~= old(writer).written() + separator(old(writer).formatter(), old(self).is_initial()) + text@);
        r
    }

    /// Writes a `i8` value in decimal.
    pub fn write_i8_value<W: BlockingWrite, F: JsonFormatter>(&mut self, writer: &mut JsonWriter<W, F>, value: i8) -> (r: Result<(), W::Error>)
        requires
            old(self).depth() == old(writer).depth(),
        ensures
            final(self).depth() == old(self).depth(),
            final(writer).depth() == old(writer).depth(),
            final(writer).sink_never_fails() == old(writer).sink_never_fails(),
            final(writer).pending() is None,
            old(writer).pending() is None && old(writer).sink_never_fails() ==> r is Ok,
            old(writer).pending() is Some ==> r is Err && final(writer).written() == old(
                writer,
            ).written(),
            final(writer).formatter() == old(writer).formatter(),
            r is Ok ==> !final(self).is_initial() && final(writer).written() == old(writer).written() + separator(old(writer).formatter(), old(self).is_initial()) + decimal_int(value as int),
    {
        match self.handle_initial(writer) {
            Ok(()) => {},
            Err(e) => return Err(e),
        }
        let r = writer.write_signed(value as i128);
        assert(r is Ok ==> final(writer).written() =~= old(writer).written() + separator(old(writer).formatter(), old(self).is_initial()) + decimal_int(value as int));
        r
    }

    /// Writes a `u8` value in decimal.
    pub fn write_u8_value<W: BlockingWrite, F: JsonFormatter>(&mut self, writer: &mut JsonWriter<W, F>, value: u8) -> (r: Result<(), W::Error>)
        requires
            old(self).depth() == old(writer).depth(),
        ensures
            final(self).depth() == old(self).depth(),
            final(writer).depth() == old(writer).depth(),
            final(writer).sink_never_fails() == old(writer).sink_never_fails(),
            final(writer).pending() is None,
            old(writer).pending() is None && old(writer).sink_never_fails() ==> r is Ok,
            old(writer).pending() is Some ==> r is Err && final(writer).written() == old(
                writer,
            ).written(),
            final(writer).formatter() == old(writer).formatter(),
            r is Ok ==> !final(self).is_initial() && final(writer).written() == old(writer).written() + separator(old(writer).formatter(), old(self).is_initial()) + decimal_int(value as int),
    {
        match self.handle_initial(writer) {
            Ok(()) => {},
            Err(e) => return Err(e),
        }
        let r = writer.write_unsigned(value as u128);
        assert(r is Ok ==> final(writer).written() =~= old(writer).written() + separator(old(writer).formatter(), old(self).is_initial()) + decimal_int(value as int));
        r
    }

    /// Writes a `i16` value in decimal.
    pub fn write_i16_value<W: BlockingWrite, F: JsonFormatter>(&mut self, writer: &mut JsonWriter<W, F>, value: i16) -> (r: Result<(), W::Error>)
        requires
            old(self).depth() == old(writer).depth(),
        ensures
            final(self).depth() == old(self).depth(),
            final(writer).depth() == old(writer).depth(),
            final(writer).sink_never_fails() == old(writer).sink_never_fails(),
            final(writer).pending() is None,
            old(writer).pending() is None && old(writer).sink_never_fails() ==> r is Ok,
            old(writer).pending() is Some ==> r is Err && final(writer).written() == old(
                writer,
            ).written(),
            final(writer).formatter() == old(writer).formatter(),
            r is Ok ==> !final(self).is_initial() && final(writer).written() == old(writer).written() + separator(old(writer).formatter(), old(self).is_initial()) + decimal_int(value as int),
    {
        match self.handle_initial(writer) {
            Ok(()) => {},
            Err(e) => return Err(e),
        }
        let r = writer.write_signed(value as i128);
        assert(r is Ok ==> final(writer).written() =~= old(writer).written() + separator(old(writer).formatter(), old(self).is_initial()) + decimal_int(value as int));
        r
    }

    /// Writes a `u16` value in decimal.
    pub fn write_u16_value<W: BlockingWrite, F: JsonFormatter>(&mut self, writer: &mut JsonWriter<W, F>, value: u16) -> (r: Result<(), W::Error>)
        requires
            old(self).depth() == old(writer).depth(),
        ensures
            final(self).depth() == old(self).depth(),
            final(writer).depth() == old(writer).depth(),
            final(writer).sink_never_fails() == old(writer).sink_never_fails(),
            final(writer).pending() is None,
            old(writer).pending() is None && old(writer).sink_never_fails() ==> r is Ok,
            old(writer).pending() is Some ==> r is Err && final(writer).written() == old(
                writer,
            ).written(),
            final(writer).formatter() == old(writer).formatter(),
            r is Ok ==> !final(self).is_initial() && final(writer).written() == old(writer).written() + separator(old(writer).formatter(), old(self).is_initial()) + decimal_int(value as int),
    {
        match self.handle_initial(writer) {
            Ok(()) => {},
            Err(e) => return Err(e),
        }
        let r = writer.write_unsigned(value as u128);
        assert(r is Ok ==> final(writer).written() =~= old(writer).written() + separator(old(writer).formatter(), old(self).is_initial()) + decimal_int(value as int));
        r
    }

    /// Writes a `i32` value in decimal.
    pub fn write_i32_value<W: BlockingWrite, F: JsonFormatter>(&mut self, writer: &mut JsonWriter<W, F>, value: i32) -> (r: Result<(), W::Error>)
        requires
            old(self).depth() == old(writer).depth(),
        ensures
            final(self).depth() == old(self).depth(),
            final(writer).depth() == old(writer).depth(),
            final(writer).sink_never_fails() == old(writer).sink_never_fails(),
            final(writer).pending() is None,
            old(writer).pending() is None && old(writer).sink_never_fails() ==> r is Ok,
            old(writer).pending() is Some ==> r is Err && final(writer).written() == old(
                writer,
            ).written(),
            final(writer).formatter() == old(writer).formatter(),
            r is Ok ==> !final(self).is_initial() && final(writer).written() == old(writer).written() + separator(old(writer).formatter(), old(self).is_initial()) + decimal_int(value as int),
    {
        match self.handle_initial(writer) {
            Ok(()) => {},
            Err(e) => return Err(e),
        }
        let r = writer.write_signed(value as i128);
        assert(r is Ok ==> final(writer).written() =~= old(writer).written() + separator(old(writer).formatter(), old(self).is_initial()) + decimal_int(value as int));
        r
    }

    /// Writes a `u32` value in decimal.
    pub fn write_u32_value<W: BlockingWrite, F: JsonFormatter>(&mut self, writer: &mut JsonWriter<W, F>, value: u32) -> (r: Result<(), W::Error>)
        requires
            old(self).depth() == old(writer).depth(),
        ensures
            final(self).depth() == old(self).depth(),
            final(writer).depth() == old(writer).depth(),
            final(writer).sink_never_fails() == old(writer).sink_never_fails(),
            final(writer).pending() is None,
            old(writer).pending() is None && old(writer).sink_never_fails() ==> r is Ok,
            old(writer).pending() is Some ==> r is Err && final(writer).written() == old(
                writer,
            ).written(),
            final(writer).formatter() == old(writer).formatter(),
            r is Ok ==> !final(self).is_initial() && final(writer).written() == old(writer).written() + separator(old(writer).formatter(), old(self).is_initial()) + decimal_int(value as int),
    {
        match self.handle_initial(writer) {
            Ok(()) => {},
            Err(e) => return Err(e),
        }
        let r = writer.write_unsigned(value as u128);
        assert(r is Ok ==> final(writer).written() =~= old(writer).written() + separator(old(writer).formatter(), old(self).is_initial()) + decimal_int(value as int));
        r
    }

    /// Writes a `i64` value in decimal.
    pub fn write_i64_value<W: BlockingWrite, F: JsonFormatter>(&mut self, writer: &mut JsonWriter<W, F>, value: i64) -> (r: Result<(), W::Error>)
        requires
            old(self).depth() == old(writer).depth(),
        ensures
            final(self).depth() == old(self).depth(),
            final(writer).depth() == old(writer).depth(),
            final(writer).sink_never_fails() == old(writer).sink_never_fails(),
            final(writer).pending() is None,
            old(writer).pending() is None && old(writer).sink_never_fails() ==> r is Ok,
            old(writer).pending() is Some ==> r is Err && final(writer).written() == old(
                writer,
            ).written(),
            final(writer).formatter() == old(writer).formatter(),
            r is Ok ==> !final(self).is_initial() && final(writer).written() == old(writer).written() + separator(old(writer).formatter(), old(self).is_initial()) + decimal_int(value as int),
    {
        match self.handle_initial(writer) {
            Ok(()) => {},
            Err(e) => return Err(e),
        }
        let r = writer.write_signed(value as i128);
        assert(r is Ok ==> final(writer).written() =~= old(writer).written() + separator(old(writer).formatter(), old(self).is_initial()) + decimal_int(value as int));
        r
    }

    /// Writes a `u64` value in decimal.
    pub fn write_u64_value<W: BlockingWrite, F: JsonFormatter>(&mut self, writer: &mut JsonWriter<W, F>, value: u64) -> (r: Result<(), W::Error>)
        requires
            old(self).depth() == old(writer).depth(),
        ensures
            final(self).depth() == old(self).depth(),
            final(writer).depth() == old(writer).depth(),
            final(writer).sink_never_fails() == old(writer).sink_never_fails(),
            final(writer).pending() is None,
            old(writer).pending() is None && old(writer).sink_never_fails() ==> r is Ok,
            old(writer).pending() is Some ==> r is Err && final(writer).written() == old(
                writer,
            ).written(),
            final(writer).formatter() == old(writer).formatter(),
            r is Ok ==> !final(self).is_initial() && final(writer).written() == old(writer).written() + separator(old(writer).formatter(), old(self).is_initial()) + decimal_int(value as int),
    {
        match self.handle_initial(writer) {
            Ok(()) => {},
            Err(e) => return Err(e),
        }
        let r = writer.write_unsigned(value as u128);
        assert(r is Ok ==> final(writer).written() =~= old(writer).written() + separator(old(writer).formatter(), old(self).is_initial()) + decimal_int(value as int));
        r
    }

    /// Writes a `i128` value in decimal.
    pub fn write_i128_value<W: BlockingWrite, F: JsonFormatter>(&mut self, writer: &mut JsonWriter<W, F>, value: i128) -> (r: Result<(), W::Error>)
        requires
            old(self).depth() == old(writer).depth(),
        ensures
            final(self).depth() == old(self).depth(),
            final(writer).depth() == old(writer).depth(),
            final(writer).sink_never_fails() == old(writer).sink_never_fails(),
            final(writer).pending() is None,
            old(writer).pending() is None && old(writer).sink_never_fails() ==> r is Ok,
            old(writer).pending() is Some ==> r is Err && final(writer).written() == old(
                writer,
            ).written(),
            final(writer).formatter() == old(writer).formatter(),
            r is Ok ==> !final(self).is_initial() && final(writer).written() == old(writer).written() + separator(old(writer).formatter(), old(self).is_initial()) + decimal_int(value as int),
    {
        match self.handle_initial(writer) {
            Ok(()) => {},
            Err(e) => return Err(e),
        }
        let r = writer.write_signed(value as i128);
        assert(r is Ok ==> final(writer).written() =~= old(writer).written() + separator(old(writer).formatter(), old(self).is_initial()) + decimal_int(value as int));
        r
    }

    /// Writes a `u128` value in decimal.
    pub fn write_u128_value<W: BlockingWrite, F: JsonFormatter>(&mut self, writer: &mut JsonWriter<W, F>, value: u128) -> (r: Result<(), W::Error>)
        requires
            old(self).depth() == old(writer).depth(),
        ensures
            final(self).depth() == old(self).depth(),
            final(writer).depth() == old(writer).depth(),
            final(writer).sink_never_fails() == old(writer).sink_never_fails(),
            final(writer).pending() is None,
            old(writer).pending() is None && old(writer).sink_never_fails() ==> r is Ok,
            old(writer).pending() is Some ==> r is Err && final(writer).written() == old(
                writer,
            ).written(),
            final(writer).formatter() == old(writer).formatter(),
            r is Ok ==> !final(self).is_initial() && final(writer).written() == old(writer).written() + separator(old(writer).formatter(), old(self).is_initial()) + decimal_int(value as int),
    {
        match self.handle_initial(writer) {
            Ok(()) => {},
            Err(e) => return Err(e),
        }
        let r = writer.write_unsigned(value as u128);
        assert(r is Ok ==> final(writer).written() =~= old(writer).written() + separator(old(writer).formatter(), old(self).is_initial()) + decimal_int(value as int));
        r
    }

    /// Writes a `isize` value in decimal.
    pub fn write_isize_value<W: BlockingWrite, F: JsonFormatter>(&mut self, writer: &mut JsonWriter<W, F>, value: isize) -> (r: Result<(), W::Error>)
        requires
            old(self).depth() == old(writer).depth(),
        ensures
            final(self).depth() == old(self).depth(),
            final(writer).depth() == old(writer).depth(),
            final(writer).sink_never_fails() == old(writer).sink_never_fails(),
            final(writer).pending() is None,
            old(writer).pending() is None && old(writer).sink_never_fails() ==> r is Ok,
            old(writer).pending() is Some ==> r is Err && final(writer).written() == old(
                writer,
            ).written(),
            final(writer).formatter() == old(writer).formatter(),
            r is Ok ==> !final(self).is_initial() && final(writer).written() == old(writer).written() + separator(old(writer).formatter(), old(self).is_initial()) + decimal_int(value as int),
    {
        match self.handle_initial(writer) {
            Ok(()) => {},
            Err(e) => return Err(e),
        }
        let r = writer.write_signed(value as i128);
        assert(r is Ok ==> final(writer).written() =~= old(writer).written() + separator(old(writer).formatter(), old(self).is_initial()) + decimal_int(value as int));
        r
    }

    /// Writes a `usize` value in decimal.
    pub fn write_usize_value<W: BlockingWrite, F: JsonFormatter>(&mut self, writer: &mut JsonWriter<W, F>, value: usize) -> (r: Result<(), W::Error>)
        requires
            old(self).depth() == old(writer).depth(),
        ensures
            final(self).depth() == old(self).depth(),
            final(writer).depth() == old(writer).depth(),
            final(writer).sink_never_fails() == old(writer).sink_never_fails(),
            final(writer).pending() is None,
            old(writer).pending() is None && old(writer).sink_never_fails() ==> r is Ok,
            old(writer).pending() is Some ==> r is Err && final(writer).written() == old(
                writer,
            ).written(),
            final(writer).formatter() == old(writer).formatter(),
            r is Ok ==> !final(self).is_initial() && final(writer).written() == old(writer).written() + separator(old(writer).formatter(), old(self).is_initial()) + decimal_int(value as int),
    {
        match self.handle_initial(writer) {
            Ok(()) => {},
            Err(e) => return Err(e),
        }
        let r = writer.write_unsigned(value as u128);
        assert(r is Ok ==> final(writer).written() =~= old(writer).written() + separator(old(writer).formatter(), old(self).is_initial()) + decimal_int(value as int));
        r
    }

    /// Starts a nested object as the next element; the returned scope writes its entries.
    pub fn start_object<W: BlockingWrite, F: JsonFormatter>(&mut self, writer: &mut JsonWriter<W, F>) -> (r: Result<JsonObject, W::Error>)
        requires
            old(self).depth() == old(writer).depth(),
        ensures
            final(self).depth() == old(self).depth(),
            r is Ok ==> r->Ok_0.depth() == final(writer).depth() && final(writer).depth() == old(writer).depth() + 1,
            final(writer).sink_never_fails() == old(writer).sink_never_fails(),
            final(writer).pending() is None,
            old(writer).pending() is None && old(writer).sink_never_fails() ==> r is Ok,
            old(writer).pending() is Some ==> r is Err && final(writer).written() == old(
                writer,
            ).written(),
            r is Ok ==> !final(self).is_initial() && r->Ok_0.is_initial()
                && final(writer).formatter() == old(writer).formatter().nested()
                && final(writer).written() == old(writer).written() + separator(old(writer).formatter(), old(self).is_initial()) + open_text(old(writer).formatter(), 0x7bu8),
    {
        match self.handle_initial(writer) {
            Ok(()) => {},
            Err(e) => return Err(e),
        }
        let r = JsonObject::new(writer);
        assert(r is Ok ==> final(writer).written() =~= old(writer).written() + separator(old(writer).formatter(), old(self).is_initial()) + open_text(old(writer).formatter(), 0x7bu8));
        r
    }

    /// Starts a nested array as the next element; the returned scope writes its entries.
    pub fn start_array<W: BlockingWrite, F: JsonFormatter>(&mut self, writer: &mut JsonWriter<W, F>) -> (r: Result<JsonArray, W::Error>)
        requires
            old(self).depth() == old(writer).depth(),
        ensures
            final(self).depth() == old(self).depth(),
            r is Ok ==> r->Ok_0.depth() == final(writer).depth() && final(writer).depth() == old(writer).depth() + 1,
            final(writer).sink_never_fails() == old(writer).sink_never_fails(),
            final(writer).pending() is None,
            old(writer).pending() is None && old(writer).sink_never_fails() ==> r is Ok,
            old(writer).pending() is Some ==> r is Err && final(writer).written() == old(
                writer,
            ).written(),
            r is Ok ==> !final(self).is_initial() && r->Ok_0.is_initial()
                && final(writer).formatter() == old(writer).formatter().nested()
                && final(writer).written() == old(writer).written() + separator(old(writer).formatter(), old(self).is_initial()) + open_text(old(writer).formatter(), 0x5bu8),
    {
        match self.handle_initial(writer) {
            Ok(()) => {},
            Err(e) => return Err(e),
        }
        let r = JsonArray::new(writer);
        assert(r is Ok ==> final(writer).written() =~= old(writer).written() + separator(old(writer).formatter(), old(self).is_initial()) + open_text(old(writer).formatter(), 0x5bu8));
        r
    }

}

} // verus!
