use vstd::prelude::*;

use crate::location::Location;

verus! {

/// One token produced by the reader. String payloads are copies of the reader's buffer.
#[derive(Debug, PartialEq, Eq)]
pub enum JsonReadToken {
    StartObject,
    EndObject,
    StartArray,
    EndArray,
    Key(String),
    StringLiteral(String),
    NumberLiteral(JsonNumber),
    BooleanLiteral(bool),
    NullLiteral,
    EndOfStream,
}

/// The mathematical view of a token: payloads as character sequences.
pub enum TokenModel {
    StartObject,
    EndObject,
    StartArray,
    EndArray,
    Key(Seq<char>),
    StringLiteral(Seq<char>),
    NumberLiteral(Seq<char>),
    BooleanLiteral(bool),
    NullLiteral,
    EndOfStream,
}

impl View for JsonReadToken {
    type V = TokenModel;

    open spec fn view(&self) -> TokenModel {
        match self {
            JsonReadToken::StartObject => TokenModel::StartObject,
            JsonReadToken::EndObject => TokenModel::EndObject,
            JsonReadToken::StartArray => TokenModel::StartArray,
            JsonReadToken::EndArray => TokenModel::EndArray,
            JsonReadToken::Key(s) => TokenModel::Key(s@),
            JsonReadToken::StringLiteral(s) => TokenModel::StringLiteral(s@),
            JsonReadToken::NumberLiteral(n) => TokenModel::NumberLiteral(n.0@),
            JsonReadToken::BooleanLiteral(b) => TokenModel::BooleanLiteral(*b),
            JsonReadToken::NullLiteral => TokenModel::NullLiteral,
            JsonReadToken::EndOfStream => TokenModel::EndOfStream,
        }
    }
}

impl TokenModel {
    pub open spec fn kind_text(self) -> &'static str {
        match self {
            TokenModel::StartObject => "{",
            TokenModel::EndObject => "}",
            TokenModel::StartArray => "[",
            TokenModel::EndArray => "]",
            TokenModel::Key(_) => "key",
            TokenModel::StringLiteral(_) => "string",
            TokenModel::NumberLiteral(_) => "number",
            TokenModel::BooleanLiteral(_) => "boolean",
            TokenModel::NullLiteral => "null",
            TokenModel::EndOfStream => "<EOF>",
        }
    }
}

impl JsonReadToken {
    /// A short name of the token's kind, for diagnostics.
    pub fn kind(&self) -> (r: &'static str)
        ensures
            r == self@.kind_text(),
    {
        match self {
            JsonReadToken::StartObject => "{",
            JsonReadToken::EndObject => "}",
            JsonReadToken::StartArray => "[",
            JsonReadToken::EndArray => "]",
            JsonReadToken::Key(_) => "key",
            JsonReadToken::StringLiteral(_) => "string",
            JsonReadToken::NumberLiteral(_) => "number",
            JsonReadToken::BooleanLiteral(_) => "boolean",
            JsonReadToken::NullLiteral => "null",
            JsonReadToken::EndOfStream => "<EOF>",
        }
    }
}

/// The raw text of a number literal, as it stood in the input. It is not validated: parsing it
/// into a concrete numeric type is a separate step.
#[derive(Debug, PartialEq, Eq)]
pub struct JsonNumber(pub String);

impl JsonNumber {
    /// The number parsed into `F`, or `None` where `F` does not accept the text.
    ///
    /// Relies on `str::parse`, i.e. `F::from_str`: the numeric type decides which texts it
    /// accepts, so nothing is stated of the result.
    #[verifier::external_body]
    pub fn parse<F: core::str::FromStr>(&self) -> Option<F> {
        self.0.parse().ok()
    }
}

/// The grammar violations that the reader reports.
#[derive(Debug, Clone, Copy, PartialEq, Eq, Structural)]
pub enum ParseErrorKind {
    MissingComma,
    UnexpectedComma,
    TrailingComma,
    KeyWithoutValue,
    TwoKeysWithoutValue,
    InvalidLiteral,
    IncompleteNull,
    IncompleteTrue,
    IncompleteFalse,
    InvalidEscape,
    NotFourDigitHex,
    IncompleteCodepoint,
    UnterminatedString,
    InvalidNumber,
}

impl ParseErrorKind {
    pub open spec fn message_text(self) -> &'static str {
        match self {
            ParseErrorKind::MissingComma => "missing comma",
            ParseErrorKind::UnexpectedComma => "unexpected comma",
            ParseErrorKind::TrailingComma => "trailing comma",
            ParseErrorKind::KeyWithoutValue => "key without a value",
            ParseErrorKind::TwoKeysWithoutValue => "two keys without value",
            ParseErrorKind::InvalidLiteral => "invalid JSON literal",
            ParseErrorKind::IncompleteNull => "incomplete null literal",
            ParseErrorKind::IncompleteTrue => "incomplete true literal",
            ParseErrorKind::IncompleteFalse => "incomplete false literal",
            ParseErrorKind::InvalidEscape => "invalid escape in string literal",
            ParseErrorKind::NotFourDigitHex => "not a four-digit hex number after \\u",
            ParseErrorKind::IncompleteCodepoint => "incomplete UTF codepoint in string literal",
            ParseErrorKind::UnterminatedString => "unterminated string literal",
            ParseErrorKind::InvalidNumber => "invalid number",
        }
    }

    /// The human-readable diagnostic for this violation.
    pub fn message(&self) -> (r: &'static str)
        ensures
            r == self.message_text(),
    {
        match self {
            ParseErrorKind::MissingComma => "missing comma",
            ParseErrorKind::UnexpectedComma => "unexpected comma",
            ParseErrorKind::TrailingComma => "trailing comma",
            ParseErrorKind::KeyWithoutValue => "key without a value",
            ParseErrorKind::TwoKeysWithoutValue => "two keys without value",
            ParseErrorKind::InvalidLiteral => "invalid JSON literal",
            ParseErrorKind::IncompleteNull => "incomplete null literal",
            ParseErrorKind::IncompleteTrue => "incomplete true literal",
            ParseErrorKind::IncompleteFalse => "incomplete false literal",
            ParseErrorKind::InvalidEscape => "invalid escape in string literal",
            ParseErrorKind::NotFourDigitHex => "not a four-digit hex number after \\u",
            ParseErrorKind::IncompleteCodepoint => "incomplete UTF codepoint in string literal",
            ParseErrorKind::UnterminatedString => "unterminated string literal",
            ParseErrorKind::InvalidNumber => "invalid number",
        }
    }
}

/// Everything that can go wrong while reading. `E` is the byte source's I/O error.
#[derive(Debug)]
pub enum JsonParseError<E> {
    Io(E),
    Utf8(Location),
    Parse(ParseErrorKind, Location),
    UnexpectedToken(Location),
    BufferOverflow(Location),
}

pub type JsonParseResult<T, E> = Result<T, JsonParseError<E>>;

} // verus!
