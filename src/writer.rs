use vstd::prelude::*;

use crate::formatter::{CompactFormatter, JsonFormatter, PrettyFormatter};
use crate::io::BlockingWrite;
use vstd::string::StringSliceAdditionalSpecFns;

verus! {

/// A lowercase hex digit for a value below 16.
pub open spec fn hex_lower(n: u8) -> u8 {
    if n < 10 {
        (0x30 + n) as u8
    } else {
        (0x61 + n - 10) as u8
    }
}

/// How one byte of a string is written: quote, backslash and the named control characters as
/// two-character escapes, other control bytes as `\u00XX`, every other byte unchanged.
pub open spec fn escape_byte(b: u8) -> Seq<u8> {
    if b == 0x22 {
        seq![0x5cu8, 0x22u8]
    } else if b == 0x5c {
        seq![0x5cu8, 0x5cu8]
    } else if b == 0x08 {
        seq![0x5cu8, 0x62u8]
    } else if b == 0x0c {
        seq![0x5cu8, 0x66u8]
    } else if b == 0x0a {
        seq![0x5cu8, 0x6eu8]
    } else if b == 0x0d {
        seq![0x5cu8, 0x72u8]
    } else if b == 0x09 {
        seq![0x5cu8, 0x74u8]
    } else if b < 0x20 {
        seq![0x5cu8, 0x75u8, 0x30u8, 0x30u8, hex_lower(b / 16), hex_lower(b % 16)]
    } else {
        seq![b]
    }
}

pub open spec fn escape_bytes(s: Seq<u8>) -> Seq<u8>
    decreases s.len(),
{
    if s.len() == 0 {
        Seq::empty()
    } else {
        escape_bytes(s.drop_last()) + escape_byte(s.last())
    }
}

/// A string as a JSON string literal: escaped and in quotes.
pub open spec fn quoted(s: Seq<u8>) -> Seq<u8> {
    seq![0x22u8] + escape_bytes(s) + seq![0x22u8]
}

/// The decimal digits of a natural number.
pub open spec fn decimal(n: nat) -> Seq<u8>
    decreases n,
{
    if n < 10 {
        seq![(0x30 + n) as u8]
    } else {
        decimal(n / 10).push((0x30 + n % 10) as u8)
    }
}

/// The decimal text of an integer, with a minus sign when negative.
pub open spec fn decimal_int(v: int) -> Seq<u8> {
    if v < 0 {
        seq![0x2du8] + decimal((-v) as nat)
    } else {
        decimal(v as nat)
    }
}

pub open spec fn true_text() -> Seq<u8> {
    seq![0x74u8, 0x72u8, 0x75u8, 0x65u8]
}

pub open spec fn false_text() -> Seq<u8> {
    seq![0x66u8, 0x61u8, 0x6cu8, 0x73u8, 0x65u8]
}

pub open spec fn null_text() -> Seq<u8> {
    seq![0x6eu8, 0x75u8, 0x6cu8, 0x6cu8]
}

pub open spec fn bool_text(b: bool) -> Seq<u8> {
    if b {
        true_text()
    } else {
        false_text()
    }
}

fn hex_digit_lower(n: u8) -> (r: u8)
    requires
        n < 16,
    ensures
        r == hex_lower(n),
{
    if n < 10 {
        0x30 + n
    } else {
        0x61 + n - 10
    }
}

/// Appends the escaped form of one byte.
fn push_escaped(out: &mut Vec<u8>, b: u8)
    ensures
        final(out)@ == old(out)@ + escape_byte(b),
{
    let ghost start = out@;
    if b == 0x22 || b == 0x5c || b == 0x08 || b == 0x0c || b == 0x0a || b == 0x0d || b == 0x09 {
        let c: u8 = if b == 0x22 {
            0x22
        } else if b == 0x5c {
            0x5c
        } else if b == 0x08 {
            0x62
        } else if b == 0x0c {
            0x66
        } else if b == 0x0a {
            0x6e
        } else if b == 0x0d {
            0x72
        } else {
            0x74
        };
        out.push(0x5c);
        out.push(c);
        assert(out@ =~= start + escape_byte(b));
    } else if b < 0x20 {
        out.push(0x5c);
        out.push(0x75);
        out.push(0x30);
        out.push(0x30);
        out.push(hex_digit_lower(b / 16));
        out.push(hex_digit_lower(b % 16));
        assert(out@ =~= start + escape_byte(b));
    } else {
        out.push(b);
        assert(out@ =~= start + escape_byte(b));
    }
}

/// The bytes of a string as a JSON string literal, quotes included.
pub fn escape_string(s: &[u8]) -> (r: Vec<u8>)
    ensures
        r@ == quoted(s@),
{
    let mut out: Vec<u8> = Vec::new();
    out.push(0x22);
    let mut i: usize = 0;
    while i < s.len()
        invariant
            i <= s@.len(),
            out@ == seq![0x22u8] + escape_bytes(s@.subrange(0, i as int)),
        decreases s@.len() - i,
    {
        let ghost prefix = s@.subrange(0, i as int);
        assert(s@.subrange(0, i + 1).drop_last() =~= prefix);
        push_escaped(&mut out, s[i]);
        i = i + 1;
        assert(out@ =~= seq![0x22u8] + escape_bytes(s@.subrange(0, i as int)));
    }
    assert(s@.subrange(0, s@.len() as int) =~= s@);
    out.push(0x22);
    out
}

/// Appends the decimal digits of `n`.
fn push_decimal(out: &mut Vec<u8>, n: u128)
    ensures
        final(out)@ == old(out)@ + decimal(n as nat),
    decreases n,
{
    if n >= 10 {
        push_decimal(out, n / 10);
    }
    out.push((0x30 + n % 10) as u8);
    assert(out@ =~= old(out)@ + decimal(n as nat));
}

/// The decimal text of an unsigned integer.
pub fn unsigned_text(v: u128) -> (r: Vec<u8>)
    ensures
        r@ == decimal_int(v as int),
{
    let mut out = Vec::new();
    push_decimal(&mut out, v);
    assert(out@ =~= decimal_int(v as int));
    out
}

/// The decimal text of a signed integer.
pub fn signed_text(v: i128) -> (r: Vec<u8>)
    ensures
        r@ == decimal_int(v as int),
{
    let mut out = Vec::new();
    if v < 0 {
        out.push(0x2d);
        let magnitude: u128 = ((-(v + 1)) as u128) + 1;
        push_decimal(&mut out, magnitude);
    } else {
        push_decimal(&mut out, v as u128);
    }
    assert(out@ =~= decimal_int(v as int));
    out
}

/// Serializes JSON into a blocking sink, with whitespace from a formatter.
///
/// Closing an object or array outside of an explicit call cannot hand an I/O error to anyone;
/// such an error is kept here and returned by the next operation (see `flush`).
pub struct JsonWriter<W: BlockingWrite, F: JsonFormatter> {
    inner: W,
    formatter: F,
    unreported_error: Option<W::Error>,
    depth: Ghost<nat>,
}

impl<W: BlockingWrite, F: JsonFormatter> JsonWriter<W, F> {
    /// Everything the sink has accepted.
    pub closed spec fn written(&self) -> Seq<u8> {
        self.inner.written()
    }

    pub closed spec fn formatter(&self) -> F {
        self.formatter
    }

    /// Whether the sink promises never to report an I/O error.
    pub closed spec fn sink_never_fails(&self) -> bool {
        self.inner.never_fails()
    }

    /// The number of objects and arrays open: raised by the start of one, lowered by its end.
    /// A scope may be written only while the depth is the one it was opened at, so a parent is
    /// not written while a child is open.
    pub closed spec fn depth(&self) -> nat {
        self.depth@
    }

    /// An error kept from an implicit close, returned by the next operation.
    pub closed spec fn pending(&self) -> Option<W::Error> {
        self.unreported_error
    }

    pub fn new(inner: W, formatter: F) -> (r: Self)
        ensures
            r.depth() == 0,
            r.sink_never_fails() == inner.never_fails(),
            r.written() == inner.written(),
            r.formatter() == formatter,
            r.pending() is None,
    {
        JsonWriter { inner, formatter, unreported_error: None, depth: Ghost(0) }
    }

    /// Returns the kept error, if any, and forgets it.
    pub fn flush(&mut self) -> (r: Result<(), W::Error>)
        ensures
            final(self).depth() == old(self).depth(),
            final(self).sink_never_fails() == old(self).sink_never_fails(),
            final(self).written() == old(self).written(),
            final(self).formatter() == old(self).formatter(),
            final(self).pending() is None,
            match old(self).pending() {
                Some(e) => r == Err::<(), W::Error>(e),
                None => r is Ok,
            },
    {
        match self.unreported_error.take() {
            Some(e) => Err(e),
            None => Ok(()),
        }
    }

    /// Keeps an error for the next operation to return.
    pub fn set_unreported_error(&mut self, unreported_error: W::Error)
        ensures
            final(self).depth() == old(self).depth(),
            final(self).sink_never_fails() == old(self).sink_never_fails(),
            final(self).written() == old(self).written(),
            final(self).formatter() == old(self).formatter(),
            final(self).pending() == Some(unreported_error),
    {
        self.unreported_error = Some(unreported_error);
    }

    /// Writes raw bytes, after returning a kept error if there is one.
    pub fn write_bytes(&mut self, data: &[u8]) -> (r: Result<(), W::Error>)
        ensures
            final(self).depth() == old(self).depth(),
            final(self).sink_never_fails() == old(self).sink_never_fails(),
            old(self).pending() is None && old(self).sink_never_fails() ==> r is Ok,
            final(self).formatter() == old(self).formatter(),
            final(self).pending() is None,
            old(self).pending() is Some ==> r == Err::<(), W::Error>(old(self).pending()->0)
                && final(self).written() == old(self).written(),
            r is Ok ==> final(self).written() == old(self).written() + data@,
    {
        match self.flush() {
            Ok(()) => {},
            Err(e) => return Err(e),
        }
        self.inner.write_all(data)
    }

    /// Writes a string as an escaped JSON string literal.
    pub fn write_escaped_string(&mut self, s: &str) -> (r: Result<(), W::Error>)
        ensures
            final(self).depth() == old(self).depth(),
            final(self).sink_never_fails() == old(self).sink_never_fails(),
            old(self).pending() is None && old(self).sink_never_fails() ==> r is Ok,
            final(self).formatter() == old(self).formatter(),
            final(self).pending() is None,
            old(self).pending() is Some ==> r == Err::<(), W::Error>(old(self).pending()->0)
                && final(self).written() == old(self).written(),
            r is Ok ==> final(self).written() == old(self).written() + quoted(s.spec_bytes()),
    {
        let escaped = escape_string(s.as_bytes());
        self.write_bytes(escaped.as_slice())
    }

    /// Writes `true` or `false`.
    pub fn write_bool(&mut self, value: bool) -> (r: Result<(), W::Error>)
        ensures
            final(self).depth() == old(self).depth(),
            final(self).sink_never_fails() == old(self).sink_never_fails(),
            old(self).pending() is None && old(self).sink_never_fails() ==> r is Ok,
            final(self).formatter() == old(self).formatter(),
            final(self).pending() is None,
            old(self).pending() is Some ==> r == Err::<(), W::Error>(old(self).pending()->0)
                && final(self).written() == old(self).written(),
            r is Ok ==> final(self).written() == old(self).written() + bool_text(value),
    {
        let text: Vec<u8> = if value {
            vec![0x74u8, 0x72u8, 0x75u8, 0x65u8]
        } else {
            vec![0x66u8, 0x61u8, 0x6cu8, 0x73u8, 0x65u8]
        };
        assert(text@ =~= bool_text(value));
        self.write_bytes(text.as_slice())
    }

    /// Writes `null`.
    pub fn write_null(&mut self) -> (r: Result<(), W::Error>)
        ensures
            final(self).depth() == old(self).depth(),
            final(self).sink_never_fails() == old(self).sink_never_fails(),
            old(self).pending() is None && old(self).sink_never_fails() ==> r is Ok,
            final(self).formatter() == old(self).formatter(),
            final(self).pending() is None,
            old(self).pending() is Some ==> r == Err::<(), W::Error>(old(self).pending()->0)
                && final(self).written() == old(self).written(),
            r is Ok ==> final(self).written() == old(self).written() + null_text(),
    {
        let text: Vec<u8> = vec![0x6eu8, 0x75u8, 0x6cu8, 0x6cu8];
        assert(text@ =~= null_text());
        self.write_bytes(text.as_slice())
    }

    /// Writes the text of a number as it is given.
    pub fn write_raw_num(&mut self, text: &[u8]) -> (r: Result<(), W::Error>)
        ensures
            final(self).depth() == old(self).depth(),
            final(self).sink_never_fails() == old(self).sink_never_fails(),
            old(self).pending() is None && old(self).sink_never_fails() ==> r is Ok,
            final(self).formatter() == old(self).formatter(),
            final(self).pending() is None,
            old(self).pending() is Some ==> r == Err::<(), W::Error>(old(self).pending()->0)
                && final(self).written() == old(self).written(),
            r is Ok ==> final(self).written() == old(self).written() + text@,
    {
        self.write_bytes(text)
    }

    /// Writes an unsigned integer in decimal.
    pub fn write_unsigned(&mut self, value: u128) -> (r: Result<(), W::Error>)
        ensures
            final(self).depth() == old(self).depth(),
            final(self).sink_never_fails() == old(self).sink_never_fails(),
            old(self).pending() is None && old(self).sink_never_fails() ==> r is Ok,
            final(self).formatter() == old(self).formatter(),
            final(self).pending() is None,
            old(self).pending() is Some ==> r == Err::<(), W::Error>(old(self).pending()->0)
                && final(self).written() == old(self).written(),
            r is Ok ==> final(self).written() == old(self).written() + decimal_int(value as int),
    {
        let text = unsigned_text(value);
        self.write_bytes(text.as_slice())
    }

    /// Writes a signed integer in decimal.
    pub fn write_signed(&mut self, value: i128) -> (r: Result<(), W::Error>)
        ensures
            final(self).depth() == old(self).depth(),
            final(self).sink_never_fails() == old(self).sink_never_fails(),
            old(self).pending() is None && old(self).sink_never_fails() ==> r is Ok,
            final(self).formatter() == old(self).formatter(),
            final(self).pending() is None,
            old(self).pending() is Some ==> r == Err::<(), W::Error>(old(self).pending()->0)
                && final(self).written() == old(self).written(),
            r is Ok ==> final(self).written() == old(self).written() + decimal_int(value as int),
    {
        let text = signed_text(value);
        self.write_bytes(text.as_slice())
    }

    /// Writes the formatter's whitespace after a key.
    pub fn write_format_after_key(&mut self) -> (r: Result<(), W::Error>)
        ensures
            final(self).depth() == old(self).depth(),
            final(self).sink_never_fails() == old(self).sink_never_fails(),
            old(self).pending() is None && old(self).sink_never_fails() ==> r is Ok,
            final(self).formatter() == old(self).formatter(),
            final(self).pending() is None,
            old(self).pending() is Some ==> r == Err::<(), W::Error>(old(self).pending()->0)
                && final(self).written() == old(self).written(),
            r is Ok ==> final(self).written() == old(self).written()
                + old(self).formatter().after_key_text(),
    {
        let text = self.formatter.after_key();
        self.write_bytes(text.as_slice())
    }

    /// Writes the formatter's whitespace after an element's comma.
    pub fn write_format_after_element(&mut self) -> (r: Result<(), W::Error>)
        ensures
            final(self).depth() == old(self).depth(),
            final(self).sink_never_fails() == old(self).sink_never_fails(),
            old(self).pending() is None && old(self).sink_never_fails() ==> r is Ok,
            final(self).formatter() == old(self).formatter(),
            final(self).pending() is None,
            old(self).pending() is Some ==> r == Err::<(), W::Error>(old(self).pending()->0)
                && final(self).written() == old(self).written(),
            r is Ok ==> final(self).written() == old(self).written()
                + old(self).formatter().after_element_text(),
    {
        let text = self.formatter.after_element();
        self.write_bytes(text.as_slice())
    }

    /// Writes the formatter's indentation.
    pub fn write_format_indent(&mut self) -> (r: Result<(), W::Error>)
        ensures
            final(self).depth() == old(self).depth(),
            final(self).sink_never_fails() == old(self).sink_never_fails(),
            old(self).pending() is None && old(self).sink_never_fails() ==> r is Ok,
            final(self).formatter() == old(self).formatter(),
            final(self).pending() is None,
            old(self).pending() is Some ==> r == Err::<(), W::Error>(old(self).pending()->0)
                && final(self).written() == old(self).written(),
            r is Ok ==> final(self).written() == old(self).written()
                + old(self).formatter().indent_text(),
    {
        let text = self.formatter.indent();
        self.write_bytes(text.as_slice())
    }

    /// Writes the formatter's whitespace after the start of a container; one level deeper.
    pub fn write_format_after_start_nested(&mut self) -> (r: Result<(), W::Error>)
        ensures
            final(self).sink_never_fails() == old(self).sink_never_fails(),
            old(self).pending() is None && old(self).sink_never_fails() ==> r is Ok,
            final(self).pending() is None,
            old(self).pending() is Some ==> r == Err::<(), W::Error>(old(self).pending()->0)
                && final(self).written() == old(self).written() && final(self).formatter() == old(self).formatter(),
            r is Ok ==> final(self).formatter() == old(self).formatter().nested()
                && final(self).written() == old(self).written()
                + old(self).formatter().after_start_nested_text(),
            final(self).depth() == old(self).depth() + 1,
    {
        self.depth = Ghost(self.depth@ + 1);
        match self.flush() {
            Ok(()) => {},
            Err(e) => return Err(e),
        }
        let text = self.formatter.after_start_nested();
        self.inner.write_all(text.as_slice())
    }

    /// Writes the formatter's whitespace before the end of a container; one level up.
    pub fn write_format_before_end_nested(&mut self, is_empty: bool) -> (r: Result<(), W::Error>)
        ensures
            final(self).sink_never_fails() == old(self).sink_never_fails(),
            old(self).pending() is None && old(self).sink_never_fails() ==> r is Ok,
            final(self).pending() is None,
            old(self).pending() is Some ==> r == Err::<(), W::Error>(old(self).pending()->0)
                && final(self).written() == old(self).written() && final(self).formatter() == old(self).formatter(),
            r is Ok ==> final(self).formatter() == old(self).formatter().unnested()
                && final(self).written() == old(self).written()
                + old(self).formatter().before_end_nested_text(is_empty),
            final(self).depth() == if old(self).depth() > 0 {
                (old(self).depth() - 1) as nat
            } else {
                0
            },
    {
        self.depth = Ghost(if self.depth@ > 0 { (self.depth@ - 1) as nat } else { 0 });
        match self.flush() {
            Ok(()) => {},
            Err(e) => return Err(e),
        }
        let text = self.formatter.before_end_nested(is_empty);
        self.inner.write_all(text.as_slice())
    }

    /// Ends the writer and hands back the sink, after returning a kept error if there is one.
    pub fn into_inner(self) -> (r: Result<W, W::Error>)
        ensures
            match self.pending() {
                Some(e) => r == Err::<W, W::Error>(e),
                None => (r matches Ok(w) && w.written() == self.written()),
            },
    {
        let mut this = self;
        match this.flush() {
            Ok(()) => {},
            Err(e) => return Err(e),
        }
        Ok(this.inner)
    }
}

impl<F: JsonFormatter> JsonWriter<Vec<u8>, F> {
    /// Hands out what has been written so far and goes on with an empty buffer, e.g. to forward
    /// the output to another sink piece by piece.
    pub fn take_output(&mut self) -> (r: Vec<u8>)
        ensures
            final(self).depth() == old(self).depth(),
            final(self).sink_never_fails() == old(self).sink_never_fails(),
            r@ == old(self).written(),
            final(self).written() == Seq::<u8>::empty(),
            final(self).formatter() == old(self).formatter(),
            final(self).pending() == old(self).pending(),
    {
        let mut out: Vec<u8> = Vec::new();
        core::mem::swap(&mut out, &mut self.inner);
        out
    }
}

impl<W: BlockingWrite> JsonWriter<W, CompactFormatter> {
    /// A writer that writes no whitespace.
    pub fn new_compact(inner: W) -> (r: Self)
        ensures
            r.depth() == 0,
            r.sink_never_fails() == inner.never_fails(),
            r.written() == inner.written(),
            r.pending() is None,
    {
        JsonWriter::new(inner, CompactFormatter)
    }
}

impl<W: BlockingWrite> JsonWriter<W, PrettyFormatter> {
    /// A writer that indents by two spaces per level.
    pub fn new_pretty(inner: W) -> (r: Self)
        ensures
            r.depth() == 0,
            r.sink_never_fails() == inner.never_fails(),
            r.written() == inner.written(),
            r.formatter().level() == 0,
            r.pending() is None,
    {
        JsonWriter::new(inner, PrettyFormatter::new())
    }
}

} // verus!
