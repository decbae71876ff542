use vstd::prelude::*;

use crate::inner::{ReaderInner, ReaderState};
use crate::io::BlockingRead;
use crate::laws::lemma_end_of_stream_is_idempotent;
use crate::location::Location;
use crate::token::{JsonParseError, JsonParseResult, JsonReadToken, JsonNumber, ParseErrorKind, TokenModel};
use crate::tokenizer::{
    ReaderModel, append_content, finish_string, hex_digit_value, literal_error, literal_rest, literal_token, match_literal, literal_token_step, lemma_read_hex_measure,
    is_whitespace, lemma_skip_whitespace_measure, measure, next_token, number_token, read_byte, read_hex,
    scan_number, scan_string, simple_escape, skip_whitespace, string_token, token_after,
    skip_scope, skip_one_value, lemma_next_token_progress,
};

verus! {

/// Whether a result is an I/O error of the byte source.
pub open spec fn io_failed<T, E>(r: JsonParseResult<T, E>) -> bool {
    r matches Err(JsonParseError::Io(_))
}

/// The view of a token result.
pub open spec fn token_result<E>(r: JsonParseResult<JsonReadToken, E>) -> Result<
    TokenModel,
    JsonParseError<E>,
> {
    match r {
        Ok(t) => Ok(t@),
        Err(e) => Err(e),
    }
}

/// A pull-based JSON tokenizer over a blocking byte source. String and number contents are
/// gathered in a fixed-capacity buffer; a token that does not fit is a `BufferOverflow`.
#[derive(Clone)]
pub struct JsonReader<R: BlockingRead> {
    inner: ReaderInner,
    reader: R,
}

spec fn pow16(n: nat) -> nat
    decreases n,
{
    if n == 0 {
        1
    } else {
        16 * pow16((n - 1) as nat)
    }
}

/// The value of a hex digit, either case.
fn hex_value(b: u8) -> (r: Option<u16>)
    ensures
        r == hex_digit_value(b),
{
    if 0x30 <= b && b <= 0x39 {
        Some((b - 0x30) as u16)
    } else if 0x61 <= b && b <= 0x66 {
        Some((b - 0x61 + 10) as u16)
    } else if 0x41 <= b && b <= 0x46 {
        Some((b - 0x41 + 10) as u16)
    } else {
        None
    }
}

/// The byte that a one-character escape stands for.
fn escaped_byte(b: u8) -> (r: Option<u8>)
    ensures
        r == simple_escape(b),
{
    if b == 0x22 {
        Some(0x22u8)
    } else if b == 0x5c {
        Some(0x5cu8)
    } else if b == 0x2f {
        Some(0x2fu8)
    } else if b == 0x62 {
        Some(0x08u8)
    } else if b == 0x66 {
        Some(0x0cu8)
    } else if b == 0x6e {
        Some(0x0au8)
    } else if b == 0x72 {
        Some(0x0du8)
    } else if b == 0x74 {
        Some(0x09u8)
    } else {
        None
    }
}

impl<R: BlockingRead> JsonReader<R> {
    /// The reader as the tokenizer sees it.
    pub closed spec fn model(&self) -> ReaderModel {
        ReaderModel {
            state: self.inner.state,
            parked: self.inner.parked_next,
            location: self.inner.cur_location,
            rest: self.reader.rest(),
        }
    }

    /// Whether a missing comma between values is tolerated.
    pub closed spec fn lenient(&self) -> bool {
        self.inner.lenient_comma_handling
    }

    /// The capacity of the token buffer.
    pub closed spec fn capacity(&self) -> nat {
        self.inner.buf@.len()
    }

    /// The location counters cannot overflow while the source is read to its end.
    pub closed spec fn wf(&self) -> bool {
        &&& self.inner.wf()
        &&& self.inner.cur_location.offset + self.reader.rest().len() + 2 < usize::MAX
    }

    /// Whether the source promises never to report an I/O error.
    pub closed spec fn source_never_fails(&self) -> bool {
        self.reader.never_fails()
    }

    pub closed spec fn same_config(&self, other: &Self) -> bool {
        &&& self.reader.never_fails() == other.reader.never_fails()
        &&& self.inner.lenient_comma_handling == other.inner.lenient_comma_handling
        &&& self.inner.buf@.len() == other.inner.buf@.len()
    }

    closed spec fn same_buffer(&self, other: &Self) -> bool {
        &&& self.reader.never_fails() == other.reader.never_fails()
        &&& self.inner.buf == other.inner.buf
        &&& self.inner.ind_end_buf == other.inner.ind_end_buf
        &&& self.inner.lenient_comma_handling == other.inner.lenient_comma_handling
    }

    /// A reader with a freshly allocated buffer of `buf_size` bytes.
    pub fn new(buf_size: usize, reader: R) -> (r: Self)
        requires
            reader.rest().len() + 2 < usize::MAX,
        ensures
            r.wf(),
            r.model() == (ReaderModel {
                state: ReaderState::Initial,
                parked: None,
                location: Location::spec_start(),
                rest: reader.rest(),
            }),
            !r.lenient(),
            r.capacity() == buf_size,
            r.source_never_fails() == reader.never_fails(),
    {
        let buf = vec![0u8; buf_size];
        Self::new_with_provided_buffer(buf, reader, false)
    }

    /// A reader that tolerates missing commas, e.g. for one JSON value per line.
    pub fn new_with_lenient_comma_handling(buf_size: usize, reader: R) -> (r: Self)
        requires
            reader.rest().len() + 2 < usize::MAX,
        ensures
            r.wf(),
            r.model() == (ReaderModel {
                state: ReaderState::Initial,
                parked: None,
                location: Location::spec_start(),
                rest: reader.rest(),
            }),
            r.lenient(),
            r.capacity() == buf_size,
            r.source_never_fails() == reader.never_fails(),
    {
        let buf = vec![0u8; buf_size];
        Self::new_with_provided_buffer(buf, reader, true)
    }

    /// A reader over a buffer supplied by the caller; its length is the capacity.
    pub fn new_with_provided_buffer(buf: Vec<u8>, reader: R, lenient_comma_handling: bool) -> (r:
        Self)
        requires
            reader.rest().len() + 2 < usize::MAX,
        ensures
            r.wf(),
            r.model() == (ReaderModel {
                state: ReaderState::Initial,
                parked: None,
                location: Location::spec_start(),
                rest: reader.rest(),
            }),
            r.lenient() == lenient_comma_handling,
            r.capacity() == buf@.len(),
            r.source_never_fails() == reader.never_fails(),
    {
        JsonReader { inner: ReaderInner::new(buf, lenient_comma_handling), reader }
    }

    /// The location after the last byte taken from the source.
    pub fn location(&self) -> (r: Location)
        ensures
            r == self.model().location,
    {
        self.inner.cur_location
    }

    /// Takes the next byte: the parked one if any, else one from the source.
    fn read_next_byte(&mut self) -> (r: JsonParseResult<Option<u8>, R::Error>)
        requires
            old(self).wf(),
        ensures
            old(self).source_never_fails() ==> !io_failed(r),
            final(self).wf(),
            final(self).same_buffer(old(self)),
            r is Ok ==> (r->Ok_0, final(self).model()) == read_byte(old(self).model()),
            r is Err ==> io_failed(r),
    {
        match self.inner.parked_next {
            Some(p) => {
                self.inner.parked_next = None;
                return Ok(Some(p));
            },
            None => {},
        }
        match self.reader.read() {
            Ok(Some(b)) => {
                self.inner.cur_location.after_byte(b);
                Ok(Some(b))
            },
            Ok(None) => Ok(None),
            Err(e) => Err(JsonParseError::Io(e)),
        }
    }

    /// Reads the next token. Whitespace and commas are consumed on the way; the structural state
    /// is checked and advanced. Apart from I/O errors of the source, the result and the reader
    /// afterwards are exactly those of `next_token`. Once the end of the stream is reached, the
    /// next call, too, finds the end of the stream and leaves the reader as it is.
    pub fn next(&mut self) -> (r: JsonParseResult<JsonReadToken, R::Error>)
        requires
            old(self).wf(),
        ensures
            old(self).source_never_fails() ==> !io_failed(r),
            final(self).wf(),
            final(self).same_config(old(self)),
            final(self).lenient() == old(self).lenient(),
            final(self).source_never_fails() == old(self).source_never_fails(),
            final(self).capacity() == old(self).capacity(),
            !io_failed(r) ==> (token_result(r), final(self).model()) == next_token::<R::Error>(
                old(self).model(),
                old(self).lenient(),
                old(self).capacity(),
            ),
            r matches Ok(JsonReadToken::EndOfStream) ==> next_token::<R::Error>(
                final(self).model(),
                final(self).lenient(),
                final(self).capacity(),
            ) == (
                Ok::<TokenModel, JsonParseError<R::Error>>(TokenModel::EndOfStream),
                final(self).model(),
            ),
    {
        let ghost m0 = self.model();
        let r = self.read_token();
        proof {
            if r matches Ok(JsonReadToken::EndOfStream) {
                lemma_end_of_stream_is_idempotent::<R::Error>(m0, self.lenient(), self.capacity());
            }
        }
        r
    }

    /// One token, exactly as `next_token` reads it.
    fn read_token(&mut self) -> (r: JsonParseResult<JsonReadToken, R::Error>)
        requires
            old(self).wf(),
        ensures
            old(self).source_never_fails() ==> !io_failed(r),
            final(self).wf(),
            final(self).same_config(old(self)),
            final(self).lenient() == old(self).lenient(),
            final(self).source_never_fails() == old(self).source_never_fails(),
            final(self).capacity() == old(self).capacity(),
            !io_failed(r) ==> (token_result(r), final(self).model()) == next_token::<R::Error>(
                old(self).model(),
                old(self).lenient(),
                old(self).capacity(),
            ),
    {
        let ghost lenient = self.lenient();
        let ghost cap = self.capacity();
        let ghost target = next_token::<R::Error>(self.model(), lenient, cap);
        loop
            invariant
                self.wf(),
                self.same_config(old(self)),
                lenient == old(self).lenient(),
                cap == old(self).capacity(),
                next_token::<R::Error>(self.model(), lenient, cap) == target,
                target == next_token::<R::Error>(old(self).model(), lenient, cap),
            decreases measure(self.model()),
        {
            let ghost m0 = self.model();
            match self.consume_whitespace() {
                Ok(()) => {},
                Err(e) => return Err(e),
            }
            let b = match self.read_next_byte() {
                Ok(b) => b,
                Err(e) => return Err(e),
            };
            proof {
                lemma_skip_whitespace_measure(m0);
            }
            match b {
                None => return Ok(JsonReadToken::EndOfStream),
                Some(x) => {
                    if x == 0x2c {
                        match self.inner.on_comma() {
                            Ok(()) => {},
                            Err(e) => return Err(e),
                        }
                    } else {
                        return self.token_after_byte(x);
                    }
                },
            }
        }
    }

    /// The next key, or `None` at the end of the object.
    pub fn expect_next_key(&mut self) -> (r: JsonParseResult<Option<String>, R::Error>)
        requires
            old(self).wf(),
        ensures
            old(self).source_never_fails() ==> !io_failed(r),
            final(self).wf(),
            final(self).same_config(old(self)),
            final(self).lenient() == old(self).lenient(),
            final(self).source_never_fails() == old(self).source_never_fails(),
            final(self).capacity() == old(self).capacity(),
            !io_failed(r) ==> final(self).model() == next_token::<R::Error>(
                old(self).model(),
                old(self).lenient(),
                old(self).capacity(),
            ).1,
            !io_failed(r) ==> match next_token::<R::Error>(
                old(self).model(),
                old(self).lenient(),
                old(self).capacity(),
            ).0 {
                Ok(TokenModel::Key(k)) => (r matches Ok(Some(s)) && s@ == k),
                Ok(TokenModel::EndObject) => r matches Ok(None),
                Ok(_) => r == JsonParseResult::<Option<String>, R::Error>::Err(
                    JsonParseError::UnexpectedToken(old(self).model().location),
                ),
                Err(e) => r == JsonParseResult::<Option<String>, R::Error>::Err(e),
            },
    {
        let location = self.location();
        let next = match self.next() {
            Ok(t) => t,
            Err(e) => return Err(e),
        };
        match next {
            JsonReadToken::Key(k) => Ok(Some(k)),
            JsonReadToken::EndObject => Ok(None),
            _ => Err(JsonParseError::UnexpectedToken(location)),
        }
    }

    /// The next string value.
    pub fn expect_next_string(&mut self) -> (r: JsonParseResult<String, R::Error>)
        requires
            old(self).wf(),
        ensures
            old(self).source_never_fails() ==> !io_failed(r),
            final(self).wf(),
            final(self).same_config(old(self)),
            final(self).lenient() == old(self).lenient(),
            final(self).source_never_fails() == old(self).source_never_fails(),
            final(self).capacity() == old(self).capacity(),
            !io_failed(r) ==> final(self).model() == next_token::<R::Error>(
                old(self).model(),
                old(self).lenient(),
                old(self).capacity(),
            ).1,
            !io_failed(r) ==> match next_token::<R::Error>(
                old(self).model(),
                old(self).lenient(),
                old(self).capacity(),
            ).0 {
                Ok(TokenModel::StringLiteral(t)) => (r matches Ok(s) && s@ == t),
                Ok(_) => r == JsonParseResult::<String, R::Error>::Err(
                    JsonParseError::UnexpectedToken(old(self).model().location),
                ),
                Err(e) => r == JsonParseResult::<String, R::Error>::Err(e),
            },
    {
        let location = self.location();
        let next = match self.next() {
            Ok(t) => t,
            Err(e) => return Err(e),
        };
        match next {
            JsonReadToken::StringLiteral(s) => Ok(s),
            _ => Err(JsonParseError::UnexpectedToken(location)),
        }
    }

    /// The next string value, or `None` for `null`.
    pub fn expect_next_opt_string(&mut self) -> (r: JsonParseResult<Option<String>, R::Error>)
        requires
            old(self).wf(),
        ensures
            old(self).source_never_fails() ==> !io_failed(r),
            final(self).wf(),
            final(self).same_config(old(self)),
            final(self).lenient() == old(self).lenient(),
            final(self).source_never_fails() == old(self).source_never_fails(),
            final(self).capacity() == old(self).capacity(),
            !io_failed(r) ==> final(self).model() == next_token::<R::Error>(
                old(self).model(),
                old(self).lenient(),
                old(self).capacity(),
            ).1,
            !io_failed(r) ==> match next_token::<R::Error>(
                old(self).model(),
                old(self).lenient(),
                old(self).capacity(),
            ).0 {
                Ok(TokenModel::StringLiteral(t)) => (r matches Ok(Some(s)) && s@ == t),
                Ok(TokenModel::NullLiteral) => r matches Ok(None),
                Ok(_) => r == JsonParseResult::<Option<String>, R::Error>::Err(
                    JsonParseError::UnexpectedToken(old(self).model().location),
                ),
                Err(e) => r == JsonParseResult::<Option<String>, R::Error>::Err(e),
            },
    {
        let location = self.location();
        let next = match self.next() {
            Ok(t) => t,
            Err(e) => return Err(e),
        };
        match next {
            JsonReadToken::StringLiteral(s) => Ok(Some(s)),
            JsonReadToken::NullLiteral => Ok(None),
            _ => Err(JsonParseError::UnexpectedToken(location)),
        }
    }

    /// The next boolean value.
    pub fn expect_next_bool(&mut self) -> (r: JsonParseResult<bool, R::Error>)
        requires
            old(self).wf(),
        ensures
            old(self).source_never_fails() ==> !io_failed(r),
            final(self).wf(),
            final(self).same_config(old(self)),
            final(self).lenient() == old(self).lenient(),
            final(self).source_never_fails() == old(self).source_never_fails(),
            final(self).capacity() == old(self).capacity(),
            !io_failed(r) ==> final(self).model() == next_token::<R::Error>(
                old(self).model(),
                old(self).lenient(),
                old(self).capacity(),
            ).1,
            !io_failed(r) ==> match next_token::<R::Error>(
                old(self).model(),
                old(self).lenient(),
                old(self).capacity(),
            ).0 {
                Ok(TokenModel::BooleanLiteral(b)) => r == JsonParseResult::<bool, R::Error>::Ok(b),
                Ok(_) => r == JsonParseResult::<bool, R::Error>::Err(
                    JsonParseError::UnexpectedToken(old(self).model().location),
                ),
                Err(e) => r == JsonParseResult::<bool, R::Error>::Err(e),
            },
    {
        let location = self.location();
        let next = match self.next() {
            Ok(t) => t,
            Err(e) => return Err(e),
        };
        match next {
            JsonReadToken::BooleanLiteral(b) => Ok(b),
            _ => Err(JsonParseError::UnexpectedToken(location)),
        }
    }

    /// The next boolean value, or `None` for `null`.
    pub fn expect_next_opt_bool(&mut self) -> (r: JsonParseResult<Option<bool>, R::Error>)
        requires
            old(self).wf(),
        ensures
            old(self).source_never_fails() ==> !io_failed(r),
            final(self).wf(),
            final(self).same_config(old(self)),
            final(self).lenient() == old(self).lenient(),
            final(self).source_never_fails() == old(self).source_never_fails(),
            final(self).capacity() == old(self).capacity(),
            !io_failed(r) ==> final(self).model() == next_token::<R::Error>(
                old(self).model(),
                old(self).lenient(),
                old(self).capacity(),
            ).1,
            !io_failed(r) ==> match next_token::<R::Error>(
                old(self).model(),
                old(self).lenient(),
                old(self).capacity(),
            ).0 {
                Ok(TokenModel::BooleanLiteral(b)) => r == JsonParseResult::<Option<bool>, R::Error>::Ok(Some(b)),
                Ok(TokenModel::NullLiteral) => r matches Ok(None),
                Ok(_) => r == JsonParseResult::<Option<bool>, R::Error>::Err(
                    JsonParseError::UnexpectedToken(old(self).model().location),
                ),
                Err(e) => r == JsonParseResult::<Option<bool>, R::Error>::Err(e),
            },
    {
        let location = self.location();
        let next = match self.next() {
            Ok(t) => t,
            Err(e) => return Err(e),
        };
        match next {
            JsonReadToken::BooleanLiteral(b) => Ok(Some(b)),
            JsonReadToken::NullLiteral => Ok(None),
            _ => Err(JsonParseError::UnexpectedToken(location)),
        }
    }

    /// The start of an object.
    pub fn expect_next_start_object(&mut self) -> (r: JsonParseResult<(), R::Error>)
        requires
            old(self).wf(),
        ensures
            old(self).source_never_fails() ==> !io_failed(r),
            final(self).wf(),
            final(self).same_config(old(self)),
            final(self).lenient() == old(self).lenient(),
            final(self).source_never_fails() == old(self).source_never_fails(),
            final(self).capacity() == old(self).capacity(),
            !io_failed(r) ==> final(self).model() == next_token::<R::Error>(
                old(self).model(),
                old(self).lenient(),
                old(self).capacity(),
            ).1,
            !io_failed(r) ==> match next_token::<R::Error>(
                old(self).model(),
                old(self).lenient(),
                old(self).capacity(),
            ).0 {
                Ok(TokenModel::StartObject) => r is Ok,
                Ok(_) => r == JsonParseResult::<(), R::Error>::Err(
                    JsonParseError::UnexpectedToken(old(self).model().location),
                ),
                Err(e) => r == JsonParseResult::<(), R::Error>::Err(e),
            },
    {
        let location = self.location();
        let next = match self.next() {
            Ok(t) => t,
            Err(e) => return Err(e),
        };
        match next {
            JsonReadToken::StartObject => Ok(()),
            _ => Err(JsonParseError::UnexpectedToken(location)),
        }
    }

    /// The start of an object, or `None` for `null`.
    pub fn expect_next_opt_start_object(&mut self) -> (r: JsonParseResult<Option<()>, R::Error>)
        requires
            old(self).wf(),
        ensures
            old(self).source_never_fails() ==> !io_failed(r),
            final(self).wf(),
            final(self).same_config(old(self)),
            final(self).lenient() == old(self).lenient(),
            final(self).source_never_fails() == old(self).source_never_fails(),
            final(self).capacity() == old(self).capacity(),
            !io_failed(r) ==> final(self).model() == next_token::<R::Error>(
                old(self).model(),
                old(self).lenient(),
                old(self).capacity(),
            ).1,
            !io_failed(r) ==> match next_token::<R::Error>(
                old(self).model(),
                old(self).lenient(),
                old(self).capacity(),
            ).0 {
                Ok(TokenModel::StartObject) => r matches Ok(Some(_)),
                Ok(TokenModel::NullLiteral) => r matches Ok(None),
                Ok(_) => r == JsonParseResult::<Option<()>, R::Error>::Err(
                    JsonParseError::UnexpectedToken(old(self).model().location),
                ),
                Err(e) => r == JsonParseResult::<Option<()>, R::Error>::Err(e),
            },
    {
        let location = self.location();
        let next = match self.next() {
            Ok(t) => t,
            Err(e) => return Err(e),
        };
        match next {
            JsonReadToken::StartObject => Ok(Some(())),
            JsonReadToken::NullLiteral => Ok(None),
            _ => Err(JsonParseError::UnexpectedToken(location)),
        }
    }

    /// The start of an array.
    pub fn expect_next_start_array(&mut self) -> (r: JsonParseResult<(), R::Error>)
        requires
            old(self).wf(),
        ensures
            old(self).source_never_fails() ==> !io_failed(r),
            final(self).wf(),
            final(self).same_config(old(self)),
            final(self).lenient() == old(self).lenient(),
            final(self).source_never_fails() == old(self).source_never_fails(),
            final(self).capacity() == old(self).capacity(),
            !io_failed(r) ==> final(self).model() == next_token::<R::Error>(
                old(self).model(),
                old(self).lenient(),
                old(self).capacity(),
            ).1,
            !io_failed(r) ==> match next_token::<R::Error>(
                old(self).model(),
                old(self).lenient(),
                old(self).capacity(),
            ).0 {
                Ok(TokenModel::StartArray) => r is Ok,
                Ok(_) => r == JsonParseResult::<(), R::Error>::Err(
                    JsonParseError::UnexpectedToken(old(self).model().location),
                ),
                Err(e) => r == JsonParseResult::<(), R::Error>::Err(e),
            },
    {
        let location = self.location();
        let next = match self.next() {
            Ok(t) => t,
            Err(e) => return Err(e),
        };
        match next {
            JsonReadToken::StartArray => Ok(()),
            _ => Err(JsonParseError::UnexpectedToken(location)),
        }
    }

    /// The start of an array, or `None` for `null`.
    pub fn expect_next_opt_start_array(&mut self) -> (r: JsonParseResult<Option<()>, R::Error>)
        requires
            old(self).wf(),
        ensures
            old(self).source_never_fails() ==> !io_failed(r),
            final(self).wf(),
            final(self).same_config(old(self)),
            final(self).lenient() == old(self).lenient(),
            final(self).source_never_fails() == old(self).source_never_fails(),
            final(self).capacity() == old(self).capacity(),
            !io_failed(r) ==> final(self).model() == next_token::<R::Error>(
                old(self).model(),
                old(self).lenient(),
                old(self).capacity(),
            ).1,
            !io_failed(r) ==> match next_token::<R::Error>(
                old(self).model(),
                old(self).lenient(),
                old(self).capacity(),
            ).0 {
                Ok(TokenModel::StartArray) => r matches Ok(Some(_)),
                Ok(TokenModel::NullLiteral) => r matches Ok(None),
                Ok(_) => r == JsonParseResult::<Option<()>, R::Error>::Err(
                    JsonParseError::UnexpectedToken(old(self).model().location),
                ),
                Err(e) => r == JsonParseResult::<Option<()>, R::Error>::Err(e),
            },
    {
        let location = self.location();
        let next = match self.next() {
            Ok(t) => t,
            Err(e) => return Err(e),
        };
        match next {
            JsonReadToken::StartArray => Ok(Some(())),
            JsonReadToken::NullLiteral => Ok(None),
            _ => Err(JsonParseError::UnexpectedToken(location)),
        }
    }

    /// The text of the next number, unparsed.
    pub fn expect_next_raw_number(&mut self) -> (r: JsonParseResult<JsonNumber, R::Error>)
        requires
            old(self).wf(),
        ensures
            old(self).source_never_fails() ==> !io_failed(r),
            final(self).wf(),
            final(self).same_config(old(self)),
            final(self).lenient() == old(self).lenient(),
            final(self).source_never_fails() == old(self).source_never_fails(),
            final(self).capacity() == old(self).capacity(),
            !io_failed(r) ==> final(self).model() == next_token::<R::Error>(
                old(self).model(),
                old(self).lenient(),
                old(self).capacity(),
            ).1,
            !io_failed(r) ==> match next_token::<R::Error>(
                old(self).model(),
                old(self).lenient(),
                old(self).capacity(),
            ).0 {
                Ok(TokenModel::NumberLiteral(t)) => (r matches Ok(n) && n.0@ == t),
                Ok(_) => r == JsonParseResult::<JsonNumber, R::Error>::Err(
                    JsonParseError::UnexpectedToken(old(self).model().location),
                ),
                Err(e) => r == JsonParseResult::<JsonNumber, R::Error>::Err(e),
            },
    {
        let location = self.location();
        let next = match self.next() {
            Ok(t) => t,
            Err(e) => return Err(e),
        };
        match next {
            JsonReadToken::NumberLiteral(n) => Ok(n),
            _ => Err(JsonParseError::UnexpectedToken(location)),
        }
    }

    /// The text of the next number, unparsed, or `None` for `null`.
    pub fn expect_next_opt_raw_number(&mut self) -> (r: JsonParseResult<Option<JsonNumber>, R::Error>)
        requires
            old(self).wf(),
        ensures
            old(self).source_never_fails() ==> !io_failed(r),
            final(self).wf(),
            final(self).same_config(old(self)),
            final(self).lenient() == old(self).lenient(),
            final(self).source_never_fails() == old(self).source_never_fails(),
            final(self).capacity() == old(self).capacity(),
            !io_failed(r) ==> final(self).model() == next_token::<R::Error>(
                old(self).model(),
                old(self).lenient(),
                old(self).capacity(),
            ).1,
            !io_failed(r) ==> match next_token::<R::Error>(
                old(self).model(),
                old(self).lenient(),
                old(self).capacity(),
            ).0 {
                Ok(TokenModel::NumberLiteral(t)) => (r matches Ok(Some(n)) && n.0@ == t),
                Ok(TokenModel::NullLiteral) => r matches Ok(None),
                Ok(_) => r == JsonParseResult::<Option<JsonNumber>, R::Error>::Err(
                    JsonParseError::UnexpectedToken(old(self).model().location),
                ),
                Err(e) => r == JsonParseResult::<Option<JsonNumber>, R::Error>::Err(e),
            },
    {
        let location = self.location();
        let next = match self.next() {
            Ok(t) => t,
            Err(e) => return Err(e),
        };
        match next {
            JsonReadToken::NumberLiteral(n) => Ok(Some(n)),
            JsonReadToken::NullLiteral => Ok(None),
            _ => Err(JsonParseError::UnexpectedToken(location)),
        }
    }

    /// The next number, parsed into `T`. A number literal that `T` does not accept is an
    /// "invalid number" error at the location after the literal.
    pub fn expect_next_number<T: core::str::FromStr>(&mut self) -> (r: JsonParseResult<T, R::Error>)
        requires
            old(self).wf(),
        ensures
            old(self).source_never_fails() ==> !io_failed(r),
            final(self).wf(),
            final(self).same_config(old(self)),
            final(self).lenient() == old(self).lenient(),
            final(self).source_never_fails() == old(self).source_never_fails(),
            final(self).capacity() == old(self).capacity(),
            !io_failed(r) ==> final(self).model() == next_token::<R::Error>(
                old(self).model(),
                old(self).lenient(),
                old(self).capacity(),
            ).1,
            !io_failed(r) ==> match next_token::<R::Error>(
                old(self).model(),
                old(self).lenient(),
                old(self).capacity(),
            ).0 {
                Ok(TokenModel::NumberLiteral(_)) => r is Ok || r == JsonParseResult::<T, R::Error>::Err(
                    JsonParseError::Parse(ParseErrorKind::InvalidNumber, final(self).model().location),
                ),
                Ok(_) => r == JsonParseResult::<T, R::Error>::Err(
                    JsonParseError::UnexpectedToken(old(self).model().location),
                ),
                Err(e) => r == JsonParseResult::<T, R::Error>::Err(e),
            },
    {
        let location = self.location();
        let next = match self.next() {
            Ok(t) => t,
            Err(e) => return Err(e),
        };
        match next {
            JsonReadToken::NumberLiteral(n) => match n.parse::<T>() {
                Some(v) => Ok(v),
                None => self.inner.parse_err(ParseErrorKind::InvalidNumber),
            },
            _ => Err(JsonParseError::UnexpectedToken(location)),
        }
    }

    /// The next number parsed into `T`, or `None` for `null`.
    pub fn expect_next_opt_number<T: core::str::FromStr>(&mut self) -> (r: JsonParseResult<
        Option<T>,
        R::Error,
    >)
        requires
            old(self).wf(),
        ensures
            old(self).source_never_fails() ==> !io_failed(r),
            final(self).wf(),
            final(self).same_config(old(self)),
            final(self).lenient() == old(self).lenient(),
            final(self).source_never_fails() == old(self).source_never_fails(),
            final(self).capacity() == old(self).capacity(),
            !io_failed(r) ==> final(self).model() == next_token::<R::Error>(
                old(self).model(),
                old(self).lenient(),
                old(self).capacity(),
            ).1,
            !io_failed(r) ==> match next_token::<R::Error>(
                old(self).model(),
                old(self).lenient(),
                old(self).capacity(),
            ).0 {
                Ok(TokenModel::NumberLiteral(_)) => (r matches Ok(Some(_))) || r == JsonParseResult::<
                    Option<T>,
                    R::Error,
                >::Err(
                    JsonParseError::Parse(ParseErrorKind::InvalidNumber, final(self).model().location),
                ),
                Ok(TokenModel::NullLiteral) => r matches Ok(None),
                Ok(_) => r == JsonParseResult::<Option<T>, R::Error>::Err(
                    JsonParseError::UnexpectedToken(old(self).model().location),
                ),
                Err(e) => r == JsonParseResult::<Option<T>, R::Error>::Err(e),
            },
    {
        let location = self.location();
        let next = match self.next() {
            Ok(t) => t,
            Err(e) => return Err(e),
        };
        match next {
            JsonReadToken::NullLiteral => Ok(None),
            JsonReadToken::NumberLiteral(n) => match n.parse::<T>() {
                Some(v) => Ok(Some(v)),
                None => self.inner.parse_err(ParseErrorKind::InvalidNumber),
            },
            _ => Err(JsonParseError::UnexpectedToken(location)),
        }
    }

    /// The next element of an array of numbers, parsed into `T`, or `None` at the array's end.
    pub fn expect_next_number_or_end_array<T: core::str::FromStr>(&mut self) -> (r:
        JsonParseResult<Option<T>, R::Error>)
        requires
            old(self).wf(),
        ensures
            old(self).source_never_fails() ==> !io_failed(r),
            final(self).wf(),
            final(self).same_config(old(self)),
            final(self).lenient() == old(self).lenient(),
            final(self).source_never_fails() == old(self).source_never_fails(),
            final(self).capacity() == old(self).capacity(),
            !io_failed(r) ==> final(self).model() == next_token::<R::Error>(
                old(self).model(),
                old(self).lenient(),
                old(self).capacity(),
            ).1,
            !io_failed(r) ==> match next_token::<R::Error>(
                old(self).model(),
                old(self).lenient(),
                old(self).capacity(),
            ).0 {
                Ok(TokenModel::NumberLiteral(_)) => (r matches Ok(Some(_))) || r == JsonParseResult::<
                    Option<T>,
                    R::Error,
                >::Err(
                    JsonParseError::Parse(ParseErrorKind::InvalidNumber, final(self).model().location),
                ),
                Ok(TokenModel::EndArray) => r matches Ok(None),
                Ok(_) => r == JsonParseResult::<Option<T>, R::Error>::Err(
                    JsonParseError::UnexpectedToken(old(self).model().location),
                ),
                Err(e) => r == JsonParseResult::<Option<T>, R::Error>::Err(e),
            },
    {
        let location = self.location();
        let next = match self.next() {
            Ok(t) => t,
            Err(e) => return Err(e),
        };
        match next {
            JsonReadToken::EndArray => Ok(None),
            JsonReadToken::NumberLiteral(n) => match n.parse::<T>() {
                Some(v) => Ok(Some(v)),
                None => self.inner.parse_err(ParseErrorKind::InvalidNumber),
            },
            _ => Err(JsonParseError::UnexpectedToken(location)),
        }
    }

    /// Skips the rest of the current object or array, whose start has been read: tokens are
    /// counted by nesting until the end that closes it.
    pub fn skip_to_end_of_current_scope(&mut self) -> (r: JsonParseResult<(), R::Error>)
        requires
            old(self).wf(),
        ensures
            old(self).source_never_fails() ==> !io_failed(r),
            final(self).wf(),
            final(self).same_config(old(self)),
            final(self).lenient() == old(self).lenient(),
            final(self).source_never_fails() == old(self).source_never_fails(),
            final(self).capacity() == old(self).capacity(),
            !io_failed(r) ==> (r, final(self).model()) == skip_scope::<R::Error>(
                old(self).model(),
                1,
                old(self).lenient(),
                old(self).capacity(),
            ),
    {
        self.skip_nested(1)
    }

    /// Skips tokens until `depth` levels of nesting have been closed.
    fn skip_nested(&mut self, depth: usize) -> (r: JsonParseResult<(), R::Error>)
        requires
            old(self).wf(),
            depth >= 1,
            depth + measure(old(self).model()) < usize::MAX,
        ensures
            old(self).source_never_fails() ==> !io_failed(r),
            final(self).wf(),
            final(self).same_config(old(self)),
            final(self).lenient() == old(self).lenient(),
            final(self).source_never_fails() == old(self).source_never_fails(),
            final(self).capacity() == old(self).capacity(),
            !io_failed(r) ==> (r, final(self).model()) == skip_scope::<R::Error>(
                old(self).model(),
                depth as nat,
                old(self).lenient(),
                old(self).capacity(),
            ),
    {
        let ghost lenient = self.lenient();
        let ghost cap = self.capacity();
        let ghost target = skip_scope::<R::Error>(self.model(), depth as nat, lenient, cap);
        let mut nesting_level: usize = depth;
        loop
            invariant
                self.wf(),
                self.same_config(old(self)),
                lenient == old(self).lenient(),
                cap == old(self).capacity(),
                nesting_level >= 1,
                nesting_level + measure(self.model()) < usize::MAX,
                skip_scope::<R::Error>(self.model(), nesting_level as nat, lenient, cap) == target,
                target == skip_scope::<R::Error>(old(self).model(), depth as nat, lenient, cap),
            decreases measure(self.model()),
        {
            let ghost m_prev = self.model();
            proof {
                lemma_next_token_progress::<R::Error>(m_prev, lenient, cap);
            }
            let t = match self.next() {
                Ok(t) => t,
                Err(e) => return Err(e),
            };
            match t {
                JsonReadToken::StartObject | JsonReadToken::StartArray => {
                    nesting_level = nesting_level + 1;
                },
                JsonReadToken::EndObject | JsonReadToken::EndArray => {
                    if nesting_level <= 1 {
                        return Ok(());
                    }
                    nesting_level = nesting_level - 1;
                },
                JsonReadToken::EndOfStream => {
                    return Err(JsonParseError::UnexpectedToken(self.location()));
                },
                _ => {},
            }
        }
    }

    /// Skips one value, e.g. after a key that the caller does not handle: a scalar, or a whole
    /// object or array.
    pub fn skip_value(&mut self) -> (r: JsonParseResult<(), R::Error>)
        requires
            old(self).wf(),
        ensures
            old(self).source_never_fails() ==> !io_failed(r),
            final(self).wf(),
            final(self).same_config(old(self)),
            final(self).lenient() == old(self).lenient(),
            final(self).source_never_fails() == old(self).source_never_fails(),
            final(self).capacity() == old(self).capacity(),
            !io_failed(r) ==> (r, final(self).model()) == skip_one_value::<R::Error>(
                old(self).model(),
                old(self).lenient(),
                old(self).capacity(),
            ),
    {
        let ghost m0 = self.model();
        proof {
            lemma_next_token_progress::<R::Error>(m0, self.lenient(), self.capacity());
        }
        let t = match self.next() {
            Ok(t) => t,
            Err(e) => return Err(e),
        };
        match t {
            JsonReadToken::StartObject | JsonReadToken::StartArray => self.skip_nested(1),
            JsonReadToken::Key(_) | JsonReadToken::EndObject | JsonReadToken::EndArray
            | JsonReadToken::EndOfStream => Err(JsonParseError::UnexpectedToken(self.location())),
            _ => Ok(()),
        }
    }

    /// The token that the significant byte `x`, just taken, begins.
    fn token_after_byte(&mut self, x: u8) -> (r: JsonParseResult<JsonReadToken, R::Error>)
        requires
            old(self).wf(),
        ensures
            old(self).source_never_fails() ==> !io_failed(r),
            final(self).wf(),
            final(self).same_config(old(self)),
            !io_failed(r) ==> (token_result(r), final(self).model()) == token_after::<R::Error>(
                x,
                old(self).model(),
                old(self).lenient(),
                old(self).capacity(),
            ),
    {
        if x == 0x7b || x == 0x5b {
            match self.inner.ensure_accept_value() {
                Ok(()) => {},
                Err(e) => return Err(e),
            }
            self.inner.state = ReaderState::Initial;
            if x == 0x7b {
                Ok(JsonReadToken::StartObject)
            } else {
                Ok(JsonReadToken::StartArray)
            }
        } else if x == 0x7d || x == 0x5d {
            match self.inner.ensure_accept_end_nested() {
                Ok(()) => {},
                Err(e) => return Err(e),
            }
            self.inner.state = ReaderState::AfterValue;
            if x == 0x7d {
                Ok(JsonReadToken::EndObject)
            } else {
                Ok(JsonReadToken::EndArray)
            }
        } else if x == 0x22 {
            self.parse_after_quote()
        } else {
            match self.inner.state_change_for_value() {
                Ok(()) => {},
                Err(e) => return Err(e),
            }
            if x == 0x6e {
                self.consume_null_literal()
            } else if x == 0x74 {
                self.consume_true_literal()
            } else if x == 0x66 {
                self.consume_false_literal()
            } else if x == 0x2d || (0x30 <= x && x <= 0x39) {
                self.parse_number_literal(x)
            } else {
                self.inner.parse_err(ParseErrorKind::InvalidLiteral)
            }
        }
    }

    /// Matches the bytes of `lit` one by one; `false` at the first byte that differs.
    fn match_literal_bytes(&mut self, lit: &Vec<u8>) -> (r: JsonParseResult<bool, R::Error>)
        requires
            old(self).wf(),
        ensures
            old(self).source_never_fails() ==> !io_failed(r),
            final(self).wf(),
            final(self).same_buffer(old(self)),
            r is Ok ==> (r->Ok_0, final(self).model()) == match_literal(old(self).model(), lit@),
            r is Err ==> io_failed(r),
    {
        let mut i: usize = 0;
        assert(lit@.subrange(0, lit@.len() as int) =~= lit@);
        while i < lit.len()
            invariant
                self.wf(),
                self.same_buffer(old(self)),
                i <= lit@.len(),
                match_literal(self.model(), lit@.subrange(i as int, lit@.len() as int))
                    == match_literal(old(self).model(), lit@),
            decreases lit@.len() - i,
        {
            let ghost tail = lit@.subrange(i as int, lit@.len() as int);
            assert(tail.drop_first() =~= lit@.subrange(i + 1, lit@.len() as int));
            let b = match self.read_next_byte() {
                Ok(b) => b,
                Err(e) => return Err(e),
            };
            let matched = match b {
                Some(x) => x == lit[i],
                None => false,
            };
            if !matched {
                return Ok(false);
            }
            i = i + 1;
        }
        assert(lit@.subrange(i as int, lit@.len() as int) =~= Seq::<u8>::empty());
        Ok(true)
    }

    /// The rest of a `null`, `true` or `false` literal, after its first byte `first`.
    fn consume_literal(&mut self, first: u8, lit: Vec<u8>, kind: ParseErrorKind, token: JsonReadToken) -> (r: JsonParseResult<JsonReadToken, R::Error>)
        requires
            old(self).wf(),
            first == 0x6e || first == 0x74 || first == 0x66,
            lit@ == literal_rest(first),
            kind == literal_error(first),
            token@ == literal_token(first),
        ensures
            old(self).source_never_fails() ==> !io_failed(r),
            final(self).wf(),
            final(self).same_buffer(old(self)),
            !io_failed(r) ==> (token_result(r), final(self).model()) == literal_token_step::<R::Error>(first, old(self).model()),
    {
        let matched = match self.match_literal_bytes(&lit) {
            Ok(m) => m,
            Err(e) => return Err(e),
        };
        if matched {
            Ok(token)
        } else {
            self.inner.parse_err(kind)
        }
    }

    fn consume_null_literal(&mut self) -> (r: JsonParseResult<JsonReadToken, R::Error>)
        requires
            old(self).wf(),
        ensures
            old(self).source_never_fails() ==> !io_failed(r),
            final(self).wf(),
            final(self).same_buffer(old(self)),
            !io_failed(r) ==> (token_result(r), final(self).model()) == literal_token_step::<R::Error>(0x6e, old(self).model()),
    {
        let lit: Vec<u8> = vec![0x75u8, 0x6cu8, 0x6cu8];
        assert(lit@ =~= literal_rest(0x6e));
        self.consume_literal(0x6e, lit, ParseErrorKind::IncompleteNull, JsonReadToken::NullLiteral)
    }

    fn consume_true_literal(&mut self) -> (r: JsonParseResult<JsonReadToken, R::Error>)
        requires
            old(self).wf(),
        ensures
            old(self).source_never_fails() ==> !io_failed(r),
            final(self).wf(),
            final(self).same_buffer(old(self)),
            !io_failed(r) ==> (token_result(r), final(self).model()) == literal_token_step::<R::Error>(0x74, old(self).model()),
    {
        let lit: Vec<u8> = vec![0x72u8, 0x75u8, 0x65u8];
        assert(lit@ =~= literal_rest(0x74));
        self.consume_literal(0x74, lit, ParseErrorKind::IncompleteTrue, JsonReadToken::BooleanLiteral(true))
    }

    fn consume_false_literal(&mut self) -> (r: JsonParseResult<JsonReadToken, R::Error>)
        requires
            old(self).wf(),
        ensures
            old(self).source_never_fails() ==> !io_failed(r),
            final(self).wf(),
            final(self).same_buffer(old(self)),
            !io_failed(r) ==> (token_result(r), final(self).model()) == literal_token_step::<R::Error>(0x66, old(self).model()),
    {
        let lit: Vec<u8> = vec![0x61u8, 0x6cu8, 0x73u8, 0x65u8];
        assert(lit@ =~= literal_rest(0x66));
        self.consume_literal(0x66, lit, ParseErrorKind::IncompleteFalse, JsonReadToken::BooleanLiteral(false))
    }

    /// Exactly four hex digits after `\u`.
    fn parse_unicode_codepoint(&mut self) -> (r: JsonParseResult<u16, R::Error>)
        requires
            old(self).wf(),
        ensures
            old(self).source_never_fails() ==> !io_failed(r),
            final(self).wf(),
            final(self).same_buffer(old(self)),
            !io_failed(r) ==> (r, final(self).model()) == read_hex::<R::Error>(old(self).model(), 0, 4),
    {
        let mut cp: u16 = 0;
        let mut i: usize = 0;
        while i < 4
            invariant
                self.wf(),
                self.same_buffer(old(self)),
                i <= 4,
                (cp as nat) < pow16(i as nat),
                read_hex::<R::Error>(self.model(), cp as nat, (4 - i) as nat)
                    == read_hex::<R::Error>(old(self).model(), 0, 4),
            decreases 4 - i,
        {
            let b = match self.read_next_byte() {
                Ok(b) => b,
                Err(e) => return Err(e),
            };
            match b {
                Some(x) => match hex_value(x) {
                    Some(v) => {
                        proof {
                            reveal_with_fuel(pow16, 5);
                        }
                        assert((cp as nat) * 16 + (v as nat) < pow16((i + 1) as nat)) by (nonlinear_arith)
                            requires (cp as nat) < pow16(i as nat), v < 16, pow16((i + 1) as nat) == pow16(i as nat) * 16;
                        assert(pow16(4) == 65536);
                        cp = cp * 16 + v;
                    },
                    None => return self.inner.parse_err(ParseErrorKind::NotFourDigitHex),
                },
                None => return self.inner.parse_err(ParseErrorKind::IncompleteCodepoint),
            }
            i = i + 1;
        }
        Ok(cp)
    }

    /// A string literal or key, after its opening quote.
    fn parse_after_quote(&mut self) -> (r: JsonParseResult<JsonReadToken, R::Error>)
        requires
            old(self).wf(),
        ensures
            old(self).source_never_fails() ==> !io_failed(r),
            final(self).wf(),
            final(self).same_config(old(self)),
            !io_failed(r) ==> (token_result(r), final(self).model()) == string_token::<R::Error>(
                old(self).model(),
                old(self).lenient(),
                old(self).capacity(),
            ),
    {
        let start = self.inner.cur_location;
        self.inner.ind_end_buf = 0;
        let ghost cap = self.capacity();
        let ghost target = scan_string::<R::Error>(self.model(), Seq::empty(), cap);
        assert(self.inner.content() =~= Seq::<u8>::empty());
        loop
            invariant_except_break
                scan_string::<R::Error>(self.model(), self.inner.content(), cap) == target,
            invariant
                self.wf(),
                self.same_config(old(self)),
                cap == old(self).capacity(),
                target == scan_string::<R::Error>(old(self).model(), Seq::empty(), cap),
            ensures
                self.wf(),
                self.same_config(old(self)),
                target.0 == Ok::<Seq<u8>, JsonParseError<R::Error>>(self.inner.content()),
                target.1 == self.model(),
            decreases measure(self.model()),
        {
            let ghost c_prev = self.inner.content();
            let b = match self.read_next_byte() {
                Ok(b) => b,
                Err(e) => return Err(e),
            };
            match b {
                None => return self.inner.parse_err(ParseErrorKind::UnterminatedString),
                Some(x) => {
                    if x == 0x22 {
                        break ;
                    } else if x == 0x5c {
                        let e = match self.read_next_byte() {
                            Ok(e) => e,
                            Err(err) => return Err(err),
                        };
                        match e {
                            None => return self.inner.parse_err(ParseErrorKind::InvalidEscape),
                            Some(esc) => {
                                if esc == 0x75 {
                                    let ghost m2 = self.model();
                                    let cp = match self.parse_unicode_codepoint() {
                                        Ok(cp) => cp,
                                        Err(err) => return Err(err),
                                    };
                                    proof {
                                        lemma_read_hex_measure::<R::Error>(m2, 0, 4);
                                    }
                                    match self.inner.append_code_point(cp) {
                                        Ok(()) => {},
                                        Err(err) => return Err(err),
                                    }
                                } else {
                                    match escaped_byte(esc) {
                                        None => return self.inner.parse_err(
                                            ParseErrorKind::InvalidEscape,
                                        ),
                                        Some(u) => {
                                            assert(c_prev.push(u) =~= c_prev + seq![u]);
                                            match self.inner.append_to_buf(u) {
                                                Ok(()) => {},
                                                Err(err) => return Err(err),
                                            }
                                        },
                                    }
                                }
                            },
                        }
                    } else {
                        assert(c_prev.push(x) =~= c_prev + seq![x]);
                        match self.inner.append_to_buf(x) {
                            Ok(()) => {},
                            Err(err) => return Err(err),
                        }
                    }
                },
            }
        }
        self.finish_string_token(start)
    }

    /// After a string's closing quote: a key if a `:` follows, a string value otherwise.
    fn finish_string_token(&mut self, start: Location) -> (r: JsonParseResult<
        JsonReadToken,
        R::Error,
    >)
        requires
            old(self).wf(),
        ensures
            old(self).source_never_fails() ==> !io_failed(r),
            final(self).wf(),
            final(self).same_config(old(self)),
            !io_failed(r) ==> (token_result(r), final(self).model()) == finish_string::<R::Error>(
                old(self).model(),
                old(self).inner.content(),
                old(self).lenient(),
                start,
            ),
    {
        match self.consume_whitespace() {
            Ok(()) => {},
            Err(e) => return Err(e),
        }
        let b = match self.read_next_byte() {
            Ok(b) => b,
            Err(e) => return Err(e),
        };
        let is_colon = match b {
            Some(x) => x == 0x3a,
            None => false,
        };
        if is_colon {
            match self.inner.state {
                ReaderState::Initial | ReaderState::BeforeEntry => {
                    self.inner.state = ReaderState::AfterKey;
                },
                ReaderState::AfterKey => {
                    return Err(JsonParseError::Parse(ParseErrorKind::TwoKeysWithoutValue, start));
                },
                ReaderState::AfterValue => {
                    return Err(JsonParseError::Parse(ParseErrorKind::MissingComma, start));
                },
            }
            match self.inner.buf_as_str() {
                Ok(s) => Ok(JsonReadToken::Key(s)),
                Err(e) => Err(e),
            }
        } else {
            let changed: JsonParseResult<(), R::Error> = self.inner.state_change_for_value();
            if changed.is_err() {
                return Err(JsonParseError::Parse(ParseErrorKind::MissingComma, start));
            }
            self.inner.parked_next = b;
            match self.inner.buf_as_str() {
                Ok(s) => Ok(JsonReadToken::StringLiteral(s)),
                Err(e) => Err(e),
            }
        }
    }

    /// A number literal whose first byte is `b`: the bytes that may continue a number are taken
    /// greedily, and the first other byte is parked.
    fn parse_number_literal(&mut self, b: u8) -> (r: JsonParseResult<JsonReadToken, R::Error>)
        requires
            old(self).wf(),
        ensures
            old(self).source_never_fails() ==> !io_failed(r),
            final(self).wf(),
            final(self).same_config(old(self)),
            !io_failed(r) ==> (token_result(r), final(self).model()) == number_token::<R::Error>(
                b,
                old(self).model(),
                old(self).capacity(),
            ),
    {
        let ghost cap = self.capacity();
        self.inner.ind_end_buf = 0;
        assert(self.inner.content() =~= Seq::<u8>::empty());
        match self.inner.append_to_buf(b) {
            Ok(()) => {},
            Err(e) => return Err(e),
        }
        assert(self.inner.content() =~= seq![b]);
        assert(Seq::<u8>::empty() + seq![b] =~= seq![b]);
        assert(append_content::<R::Error>(Seq::empty(), seq![b], cap, old(self).model().location)
            == Ok::<Seq<u8>, JsonParseError<R::Error>>(seq![b]));
        let ghost target = scan_number::<R::Error>(self.model(), self.inner.content(), cap);
        loop
            invariant_except_break
                scan_number::<R::Error>(self.model(), self.inner.content(), cap) == target,
            invariant
                self.wf(),
                self.same_config(old(self)),
                cap == old(self).capacity(),
                target == scan_number::<R::Error>(old(self).model(), seq![b], cap),
                Seq::<u8>::empty() + seq![b] == seq![b],
                append_content::<R::Error>(Seq::empty(), seq![b], cap, old(self).model().location)
                    == Ok::<Seq<u8>, JsonParseError<R::Error>>(seq![b]),
            ensures
                self.wf(),
                self.same_config(old(self)),
                target.0 == Ok::<Seq<u8>, JsonParseError<R::Error>>(self.inner.content()),
                target.1 == self.model(),
            decreases measure(self.model()),
        {
            let ghost c_prev = self.inner.content();
            let next = match self.read_next_byte() {
                Ok(n) => n,
                Err(e) => return Err(e),
            };
            match next {
                None => break ,
                Some(x) => {
                    if (0x30 <= x && x <= 0x39) || x == 0x2b || x == 0x2d || x == 0x65 || x == 0x45
                        || x == 0x2e {
                        assert(c_prev.push(x) =~= c_prev + seq![x]);
                        assert(c_prev.len() == self.inner.ind_end_buf);
                        match self.inner.append_to_buf(x) {
                            Ok(()) => {},
                            Err(e) => return Err(e),
                        }
                    } else {
                        self.inner.parked_next = Some(x);
                        break ;
                    }
                },
            }
        }
        match self.inner.buf_as_str() {
            Ok(s) => Ok(JsonReadToken::NumberLiteral(JsonNumber(s))),
            Err(e) => Err(e),
        }
    }

    /// Skips whitespace and parks the first other byte.
    fn consume_whitespace(&mut self) -> (r: JsonParseResult<(), R::Error>)
        requires
            old(self).wf(),
        ensures
            old(self).source_never_fails() ==> !io_failed(r),
            final(self).wf(),
            final(self).same_buffer(old(self)),
            r is Ok ==> final(self).model() == skip_whitespace(old(self).model()),
            r is Err ==> io_failed(r),
    {
        let ghost target = skip_whitespace(self.model());
        loop
            invariant
                self.wf(),
                self.same_buffer(old(self)),
                skip_whitespace(self.model()) == target,
                target == skip_whitespace(old(self).model()),
            decreases measure(self.model()),
        {
            let ghost m_prev = self.model();
            let b = match self.read_next_byte() {
                Ok(b) => b,
                Err(e) => return Err(e),
            };
            assert(skip_whitespace(m_prev) == match b {
                None => self.model(),
                Some(x) => if is_whitespace(x) {
                    skip_whitespace(self.model())
                } else {
                    ReaderModel { parked: Some(x), ..self.model() }
                },
            });
            match b {
                None => return Ok(()),
                Some(x) => {
                    if !(x == 0x20 || x == 0x09 || x == 0x0a || x == 0x0d) {
                        self.inner.parked_next = Some(x);
                        return Ok(());
                    }
                },
            }
        }
    }
}

} // verus!
