use vstd::prelude::*;

use crate::location::Location;
use crate::token::{JsonParseError, JsonParseResult, ParseErrorKind};
use crate::tokenizer::decoded;
use vstd::utf8::{decode_utf8, valid_utf8};

verus! {

/// Where the reader stands in the local grammar of the current object or array.
#[derive(Debug, Clone, Copy, PartialEq, Eq, Structural)]
pub enum ReaderState {
    /// Just after the start of an object or array: a comma or a trailing comma is refused.
    Initial,
    /// After a comma: an entry must follow, not the end of the container.
    BeforeEntry,
    /// After a key: only a value can follow.
    AfterKey,
    /// After a value or the end of a nested container: a comma or the end must follow.
    AfterValue,
}

/// Whether a value (or the start of a nested container) may come next.
pub open spec fn accept_value(state: ReaderState, lenient: bool) -> Result<(), ParseErrorKind> {
    if state == ReaderState::AfterValue && !lenient {
        Err(ParseErrorKind::MissingComma)
    } else {
        Ok(())
    }
}

/// Whether the current object or array may end here.
pub open spec fn accept_end_nested(state: ReaderState) -> Result<(), ParseErrorKind> {
    match state {
        ReaderState::BeforeEntry => Err(ParseErrorKind::TrailingComma),
        ReaderState::AfterKey => Err(ParseErrorKind::KeyWithoutValue),
        _ => Ok(()),
    }
}

/// The state after a scalar value.
pub open spec fn state_for_value(state: ReaderState, lenient: bool) -> Result<
    ReaderState,
    ParseErrorKind,
> {
    if state == ReaderState::AfterValue && !lenient {
        Err(ParseErrorKind::MissingComma)
    } else {
        Ok(ReaderState::AfterValue)
    }
}

/// The state after a comma.
pub open spec fn state_for_comma(state: ReaderState) -> Result<ReaderState, ParseErrorKind> {
    if state == ReaderState::AfterValue {
        Ok(ReaderState::BeforeEntry)
    } else {
        Err(ParseErrorKind::UnexpectedComma)
    }
}

/// The state after a key.
pub open spec fn state_for_key(state: ReaderState) -> Result<ReaderState, ParseErrorKind> {
    match state {
        ReaderState::AfterKey => Err(ParseErrorKind::TwoKeysWithoutValue),
        ReaderState::AfterValue => Err(ParseErrorKind::MissingComma),
        _ => Ok(ReaderState::AfterKey),
    }
}

/// The three UTF-8 shapes of a code point below 0x10000.
pub open spec fn utf8_of_code_point(cp: u16) -> Seq<u8> {
    if cp <= 0x7f {
        seq![cp as u8]
    } else if cp <= 0x7ff {
        seq![0xc0u8 | (((cp >> 6u16) as u8) & 0x1fu8), 0x80u8 | ((cp as u8) & 0x3fu8)]
    } else {
        seq![
            0xe0u8 | (((cp >> 12u16) as u8) & 0x0fu8),
            0x80u8 | (((cp >> 6u16) as u8) & 0x3fu8),
            0x80u8 | ((cp as u8) & 0x3fu8),
        ]
    }
}

/// Relies on `core::str::from_utf8`: it accepts exactly the valid UTF-8 byte sequences, and the
/// string then holds the characters that the bytes encode.
#[verifier::external_body]
fn utf8_prefix(buf: &Vec<u8>, len: usize) -> (r: Option<String>)
    requires
        len <= buf@.len(),
    ensures
        r is Some <==> valid_utf8(buf@.subrange(0, len as int)),
        r matches Some(s) ==> s@ == decode_utf8(buf@.subrange(0, len as int)),
{
    core::str::from_utf8(&buf[..len]).ok().map(|s| s.to_string())
}

/// The part of the reader that does not touch the byte source: the token buffer, the
/// structural state, the parked lookahead byte and the current location.
#[derive(Clone)]
pub struct ReaderInner {
    pub buf: Vec<u8>,
    pub ind_end_buf: usize,
    pub lenient_comma_handling: bool,
    pub state: ReaderState,
    pub parked_next: Option<u8>,
    pub cur_location: Location,
}

impl ReaderInner {
    pub open spec fn wf(&self) -> bool {
        &&& self.ind_end_buf <= self.buf@.len()
        &&& self.cur_location.wf()
    }

    /// The bytes accumulated for the current token.
    pub open spec fn content(&self) -> Seq<u8> {
        self.buf@.subrange(0, self.ind_end_buf as int)
    }

    /// Everything but the buffer's contents stays as it was.
    pub open spec fn same_but_content(&self, other: &ReaderInner) -> bool {
        &&& self.buf@.len() == other.buf@.len()
        &&& self.lenient_comma_handling == other.lenient_comma_handling
        &&& self.state == other.state
        &&& self.parked_next == other.parked_next
        &&& self.cur_location == other.cur_location
    }

    pub fn new(buf: Vec<u8>, lenient_comma_handling: bool) -> (r: ReaderInner)
        ensures
            r.wf(),
            r.buf@ == buf@,
            r.ind_end_buf == 0,
            r.lenient_comma_handling == lenient_comma_handling,
            r.state == ReaderState::Initial,
            r.parked_next is None,
            r.cur_location == Location::spec_start(),
    {
        ReaderInner {
            buf,
            ind_end_buf: 0,
            lenient_comma_handling,
            state: ReaderState::Initial,
            parked_next: None,
            cur_location: Location::start(),
        }
    }

    /// Appends one byte to the token buffer, or fails when the buffer is full.
    pub fn append_to_buf<E>(&mut self, ch: u8) -> (r: JsonParseResult<(), E>)
        requires
            old(self).wf(),
        ensures
            final(self).wf(),
            final(self).same_but_content(old(self)),
            old(self).ind_end_buf < old(self).buf@.len() ==> r is Ok && final(self).content()
                == old(self).content().push(ch) && final(self).ind_end_buf == old(self).ind_end_buf
                + 1,
            old(self).ind_end_buf >= old(self).buf@.len() ==> r == JsonParseResult::<(), E>::Err(
                JsonParseError::BufferOverflow(old(self).cur_location),
            ) && *final(self) == *old(self),
            r is Ok ==> final(self).buf@ == old(self).buf@.update(
                old(self).ind_end_buf as int,
                ch,
            ),
    {
        if self.ind_end_buf >= self.buf.len() {
            return self.buf_overflow();
        }
        self.buf.set(self.ind_end_buf, ch);
        self.ind_end_buf = self.ind_end_buf + 1;
        assert(self.content() =~= old(self).content().push(ch));
        Ok(())
    }

    /// Appends the UTF-8 encoding of a code point below 0x10000, or fails when it does not fit.
    pub fn append_code_point<E>(&mut self, cp: u16) -> (r: JsonParseResult<(), E>)
        requires
            old(self).wf(),
        ensures
            final(self).wf(),
            final(self).same_but_content(old(self)),
            old(self).ind_end_buf + utf8_of_code_point(cp).len() <= old(self).buf@.len() ==> r is Ok
                && final(self).content() == old(self).content() + utf8_of_code_point(cp),
            old(self).ind_end_buf + utf8_of_code_point(cp).len() > old(self).buf@.len() ==> r == JsonParseResult::<(), E>::Err(
                JsonParseError::BufferOverflow(old(self).cur_location),
            ),
    {
        let ghost enc = utf8_of_code_point(cp);
        if cp <= 0x7f {
            let r = self.append_to_buf(cp as u8);
            assert(old(self).content().push(cp as u8) =~= old(self).content() + enc);
            r
        } else if cp <= 0x7ff {
            assert(enc.len() == 2);
            let b1: u8 = 0xc0u8 | ((#[verifier::truncate] ((cp >> 6u16) as u8)) & 0x1fu8);
            let b2: u8 = 0x80u8 | ((#[verifier::truncate] (cp as u8)) & 0x3fu8);
            let r1: JsonParseResult<(), E> = self.append_to_buf(b1);
            if r1.is_err() {
                return r1;
            }
            let r = self.append_to_buf(b2);
            assert(old(self).content().push(b1).push(b2) =~= old(self).content() + enc);
            r
        } else {
            assert(enc.len() == 3);
            let b1: u8 = 0xe0u8 | ((#[verifier::truncate] ((cp >> 12u16) as u8)) & 0x0fu8);
            let b2: u8 = 0x80u8 | ((#[verifier::truncate] ((cp >> 6u16) as u8)) & 0x3fu8);
            let b3: u8 = 0x80u8 | ((#[verifier::truncate] (cp as u8)) & 0x3fu8);
            let r1: JsonParseResult<(), E> = self.append_to_buf(b1);
            if r1.is_err() {
                return r1;
            }
            let r2: JsonParseResult<(), E> = self.append_to_buf(b2);
            if r2.is_err() {
                return r2;
            }
            let r = self.append_to_buf(b3);
            assert(old(self).content().push(b1).push(b2).push(b3) =~= old(self).content() + enc);
            r
        }
    }

    /// The token buffer's contents as a string, or a UTF-8 error at the current location.
    pub fn buf_as_str<E>(&self) -> (r: JsonParseResult<String, E>)
        requires
            self.wf(),
        ensures
            match decoded::<E>(self.content(), self.cur_location) {
                Ok(t) => (r matches Ok(s) && s@ == t),
                Err(e) => r == JsonParseResult::<String, E>::Err(e),
            },
    {
        match utf8_prefix(&self.buf, self.ind_end_buf) {
            Some(s) => Ok(s),
            None => Err(JsonParseError::Utf8(self.cur_location)),
        }
    }

    /// Checks that a value may come next.
    pub fn ensure_accept_value<E>(&mut self) -> (r: JsonParseResult<(), E>)
        ensures
            *final(self) == *old(self),
            match accept_value(old(self).state, old(self).lenient_comma_handling) {
                Ok(()) => r is Ok,
                Err(k) => r == JsonParseResult::<(), E>::Err(
                    JsonParseError::Parse(k, old(self).cur_location),
                ),
            },
    {
        match self.state {
            ReaderState::Initial | ReaderState::BeforeEntry | ReaderState::AfterKey => Ok(()),
            ReaderState::AfterValue => {
                if self.lenient_comma_handling {
                    Ok(())
                } else {
                    self.parse_err(ParseErrorKind::MissingComma)
                }
            },
        }
    }

    /// Checks that the current object or array may end here.
    pub fn ensure_accept_end_nested<E>(&mut self) -> (r: JsonParseResult<(), E>)
        ensures
            *final(self) == *old(self),
            match accept_end_nested(old(self).state) {
                Ok(()) => r is Ok,
                Err(k) => r == JsonParseResult::<(), E>::Err(
                    JsonParseError::Parse(k, old(self).cur_location),
                ),
            },
    {
        match self.state {
            ReaderState::Initial | ReaderState::AfterValue => Ok(()),
            ReaderState::BeforeEntry => self.parse_err(ParseErrorKind::TrailingComma),
            ReaderState::AfterKey => self.parse_err(ParseErrorKind::KeyWithoutValue),
        }
    }

    /// Moves to `AfterValue` for a scalar value, or fails.
    pub fn state_change_for_value<E>(&mut self) -> (r: JsonParseResult<(), E>)
        ensures
            match state_for_value(old(self).state, old(self).lenient_comma_handling) {
                Ok(s) => r is Ok && *final(self) == ReaderInner { state: s, ..*old(self) },
                Err(k) => *final(self) == *old(self) && r == JsonParseResult::<(), E>::Err(
                    JsonParseError::Parse(k, old(self).cur_location),
                ),
            },
    {
        match self.state {
            ReaderState::Initial | ReaderState::BeforeEntry | ReaderState::AfterKey => {
                self.state = ReaderState::AfterValue;
                Ok(())
            },
            ReaderState::AfterValue => {
                if self.lenient_comma_handling {
                    Ok(())
                } else {
                    self.parse_err(ParseErrorKind::MissingComma)
                }
            },
        }
    }

    /// Moves from `AfterValue` to `BeforeEntry` on a comma, or fails.
    pub fn on_comma<E>(&mut self) -> (r: JsonParseResult<(), E>)
        ensures
            match state_for_comma(old(self).state) {
                Ok(s) => r is Ok && *final(self) == ReaderInner { state: s, ..*old(self) },
                Err(k) => *final(self) == *old(self) && r == JsonParseResult::<(), E>::Err(
                    JsonParseError::Parse(k, old(self).cur_location),
                ),
            },
    {
        match self.state {
            ReaderState::AfterValue => {
                self.state = ReaderState::BeforeEntry;
                Ok(())
            },
            ReaderState::Initial | ReaderState::BeforeEntry | ReaderState::AfterKey => {
                self.parse_err(ParseErrorKind::UnexpectedComma)
            },
        }
    }

    /// A parse error at the current location.
    pub fn parse_err<T, E>(&self, kind: ParseErrorKind) -> (r: JsonParseResult<T, E>)
        ensures
            r == JsonParseResult::<T, E>::Err(JsonParseError::Parse(kind, self.cur_location)),
    {
        Err(JsonParseError::Parse(kind, self.cur_location))
    }

    /// A buffer overflow at the current location.
    pub fn buf_overflow<T, E>(&self) -> (r: JsonParseResult<T, E>)
        ensures
            r == JsonParseResult::<T, E>::Err(JsonParseError::BufferOverflow(self.cur_location)),
    {
        Err(JsonParseError::BufferOverflow(self.cur_location))
    }
}

} // verus!
