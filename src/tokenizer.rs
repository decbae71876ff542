use vstd::prelude::*;
use vstd::utf8::{decode_utf8, valid_utf8};

use crate::inner::{
    ReaderState, accept_end_nested, accept_value, state_for_comma, state_for_key,
    state_for_value, utf8_of_code_point,
};
use crate::location::Location;
use crate::token::{JsonParseError, ParseErrorKind, TokenModel};

verus! {

/// The reader as the tokenizer sees it: its structural state, the parked lookahead byte, the
/// location after the last byte taken from the source, and the bytes the source has yet to give.
pub struct ReaderModel {
    pub state: ReaderState,
    pub parked: Option<u8>,
    pub location: Location,
    pub rest: Seq<u8>,
}

/// The outcome of a tokenizer step: a result and the reader afterwards.
pub type Step<T, E> = (Result<T, JsonParseError<E>>, ReaderModel);

pub open spec fn measure(m: ReaderModel) -> nat {
    m.rest.len() + if m.parked is Some {
        1nat
    } else {
        0nat
    }
}

pub open spec fn is_whitespace(b: u8) -> bool {
    b == 0x20 || b == 0x09 || b == 0x0a || b == 0x0d
}

/// Bytes that continue a number literal: digits, signs, exponent markers and the point.
pub open spec fn is_number_byte(b: u8) -> bool {
    (0x30 <= b <= 0x39) || b == 0x2b || b == 0x2d || b == 0x65 || b == 0x45 || b == 0x2e
}

pub open spec fn hex_digit_value(b: u8) -> Option<u16> {
    if 0x30 <= b <= 0x39 {
        Some((b - 0x30) as u16)
    } else if 0x61 <= b <= 0x66 {
        Some((b - 0x61 + 10) as u16)
    } else if 0x41 <= b <= 0x46 {
        Some((b - 0x41 + 10) as u16)
    } else {
        None
    }
}

/// The byte that a one-character escape (after a backslash) stands for.
pub open spec fn simple_escape(b: u8) -> Option<u8> {
    if b == 0x22 {
        Some(0x22u8)
    } else if b == 0x5c {
        Some(0x5cu8)
    } else if b == 0x2f {
        Some(0x2fu8)
    } else if b == 0x62 {
        Some(0x08u8)
    } else if b == 0x66 {
        Some(0x0cu8)
    } else if b == 0x6e {
        Some(0x0au8)
    } else if b == 0x72 {
        Some(0x0du8)
    } else if b == 0x74 {
        Some(0x09u8)
    } else {
        None
    }
}

/// Takes the next byte: the parked one if there is one (already counted in the location),
/// otherwise the first of the source's bytes.
pub open spec fn read_byte(m: ReaderModel) -> (Option<u8>, ReaderModel) {
    match m.parked {
        Some(p) => (Some(p), ReaderModel { parked: None, ..m }),
        None => if m.rest.len() == 0 {
            (None, m)
        } else {
            (
                Some(m.rest[0]),
                ReaderModel {
                    location: m.location.spec_after_byte(m.rest[0]),
                    rest: m.rest.drop_first(),
                    ..m
                },
            )
        },
    }
}

/// Skips whitespace and parks the first other byte, if any.
pub open spec fn skip_whitespace(m: ReaderModel) -> ReaderModel
    decreases measure(m),
{
    let (b, m1) = read_byte(m);
    match b {
        None => m1,
        Some(x) => if is_whitespace(x) {
            skip_whitespace(m1)
        } else {
            ReaderModel { parked: Some(x), ..m1 }
        },
    }
}

/// Matches the rest of a literal byte by byte; `false` at the first mismatch.
pub open spec fn match_literal(m: ReaderModel, lit: Seq<u8>) -> (bool, ReaderModel)
    decreases lit.len(),
{
    if lit.len() == 0 {
        (true, m)
    } else {
        let (b, m1) = read_byte(m);
        if b == Some(lit[0]) {
            match_literal(m1, lit.drop_first())
        } else {
            (false, m1)
        }
    }
}

/// Reads `k` more hex digits into `acc`.
pub open spec fn read_hex<E>(m: ReaderModel, acc: nat, k: nat) -> Step<u16, E>
    decreases k,
{
    if k == 0 {
        (Ok(acc as u16), m)
    } else {
        let (b, m1) = read_byte(m);
        match b {
            None => (Err(JsonParseError::Parse(ParseErrorKind::IncompleteCodepoint, m1.location)), m1),
            Some(x) => match hex_digit_value(x) {
                None => (Err(JsonParseError::Parse(ParseErrorKind::NotFourDigitHex, m1.location)), m1),
                Some(v) => read_hex(m1, acc * 16 + v as nat, (k - 1) as nat),
            },
        }
    }
}

/// Appends bytes to the token content, or overflows the buffer of capacity `cap`.
pub open spec fn append_content<E>(content: Seq<u8>, more: Seq<u8>, cap: nat, l: Location) -> Result<
    Seq<u8>,
    JsonParseError<E>,
> {
    if content.len() + more.len() <= cap {
        Ok(content + more)
    } else {
        Err(JsonParseError::BufferOverflow(l))
    }
}

/// Reads the body of a string literal up to and including its closing quote.
pub open spec fn scan_string<E>(m: ReaderModel, content: Seq<u8>, cap: nat) -> Step<Seq<u8>, E>
    decreases measure(m),
{
    let (b, m1) = read_byte(m);
    match b {
        None => (Err(JsonParseError::Parse(ParseErrorKind::UnterminatedString, m1.location)), m1),
        Some(x) => if x == 0x22 {
            (Ok(content), m1)
        } else if x == 0x5c {
            let (e, m2) = read_byte(m1);
            match e {
                None => (Err(JsonParseError::Parse(ParseErrorKind::InvalidEscape, m2.location)), m2),
                Some(esc) => if esc == 0x75 {
                    let (h, m3) = read_hex::<E>(m2, 0, 4);
                    match h {
                        Err(err) => (Err(err), m3),
                        Ok(cp) => match append_content::<E>(content, utf8_of_code_point(cp), cap, m3.location) {
                            Err(err) => (Err(err), m3),
                            // the guard always holds (`lemma_read_hex_measure`); it shows
                            // that the recursion ends
                            Ok(c) => if measure(m3) < measure(m) {
                                scan_string(m3, c, cap)
                            } else {
                                (Ok(c), m3)
                            },
                        },
                    }
                } else {
                    match simple_escape(esc) {
                        None => (Err(JsonParseError::Parse(ParseErrorKind::InvalidEscape, m2.location)), m2),
                        Some(u) => match append_content::<E>(content, seq![u], cap, m2.location) {
                            Err(err) => (Err(err), m2),
                            Ok(c) => scan_string(m2, c, cap),
                        },
                    }
                },
            }
        } else {
            match append_content::<E>(content, seq![x], cap, m1.location) {
                Err(err) => (Err(err), m1),
                Ok(c) => scan_string(m1, c, cap),
            }
        },
    }
}

/// Reads the rest of a number literal, parking the first byte that does not belong to it.
pub open spec fn scan_number<E>(m: ReaderModel, content: Seq<u8>, cap: nat) -> Step<Seq<u8>, E>
    decreases measure(m),
{
    let (b, m1) = read_byte(m);
    match b {
        None => (Ok(content), m1),
        Some(x) => if is_number_byte(x) {
            match append_content::<E>(content, seq![x], cap, m1.location) {
                Err(err) => (Err(err), m1),
                Ok(c) => scan_number(m1, c, cap),
            }
        } else {
            (Ok(content), ReaderModel { parked: Some(x), ..m1 })
        },
    }
}

/// The token content decoded as UTF-8, or a UTF-8 error at `l`.
pub open spec fn decoded<E>(content: Seq<u8>, l: Location) -> Result<Seq<char>, JsonParseError<E>> {
    if valid_utf8(content) {
        Ok(decode_utf8(content))
    } else {
        Err(JsonParseError::Utf8(l))
    }
}

/// After a string literal's closing quote: a following `:` makes it a key, anything else a value.
/// A structural error (a missing comma, two keys in a row) is reported at `start`, the location
/// just after the literal's opening quote.
pub open spec fn finish_string<E>(
    m: ReaderModel,
    content: Seq<u8>,
    lenient: bool,
    start: Location,
) -> Step<
    TokenModel,
    E,
> {
    let m1 = skip_whitespace(m);
    let (b, m2) = read_byte(m1);
    if b == Some(0x3au8) {
        match state_for_key(m2.state) {
            Err(k) => (Err(JsonParseError::Parse(k, start)), m2),
            Ok(s) => {
                let m3 = ReaderModel { state: s, ..m2 };
                match decoded::<E>(content, m3.location) {
                    Err(err) => (Err(err), m3),
                    Ok(t) => (Ok(TokenModel::Key(t)), m3),
                }
            },
        }
    } else {
        match state_for_value(m2.state, lenient) {
            Err(k) => (Err(JsonParseError::Parse(k, start)), m2),
            Ok(s) => {
                let m3 = ReaderModel { state: s, parked: b, ..m2 };
                match decoded::<E>(content, m3.location) {
                    Err(err) => (Err(err), m3),
                    Ok(t) => (Ok(TokenModel::StringLiteral(t)), m3),
                }
            },
        }
    }
}

/// A string literal or key, read after its opening quote.
pub open spec fn string_token<E>(m: ReaderModel, lenient: bool, cap: nat) -> Step<TokenModel, E> {
    let (r, m1) = scan_string::<E>(m, Seq::empty(), cap);
    match r {
        Err(err) => (Err(err), m1),
        Ok(content) => finish_string(m1, content, lenient, m.location),
    }
}

/// A number literal whose first byte `x` has been taken.
pub open spec fn number_token<E>(x: u8, m: ReaderModel, cap: nat) -> Step<TokenModel, E> {
    match append_content::<E>(Seq::empty(), seq![x], cap, m.location) {
        Err(err) => (Err(err), m),
        Ok(c) => {
            let (r, m1) = scan_number::<E>(m, c, cap);
            match r {
                Err(err) => (Err(err), m1),
                Ok(content) => match decoded::<E>(content, m1.location) {
                    Err(err) => (Err(err), m1),
                    Ok(t) => (Ok(TokenModel::NumberLiteral(t)), m1),
                },
            }
        },
    }
}

/// A `null`, `true` or `false` literal whose first byte `x` has been taken.
pub open spec fn literal_token_step<E>(x: u8, m: ReaderModel) -> Step<TokenModel, E> {
    let (ok, m1) = match_literal(m, literal_rest(x));
    if ok {
        (Ok(literal_token(x)), m1)
    } else {
        (Err(JsonParseError::Parse(literal_error(x), m1.location)), m1)
    }
}

/// The literal that follows a first byte `n`, `t` or `f`, and the token it makes.
pub open spec fn literal_rest(first: u8) -> Seq<u8> {
    if first == 0x6e {
        seq![0x75u8, 0x6cu8, 0x6cu8]
    } else if first == 0x74 {
        seq![0x72u8, 0x75u8, 0x65u8]
    } else {
        seq![0x61u8, 0x6cu8, 0x73u8, 0x65u8]
    }
}

pub open spec fn literal_token(first: u8) -> TokenModel {
    if first == 0x6e {
        TokenModel::NullLiteral
    } else {
        TokenModel::BooleanLiteral(first == 0x74)
    }
}

pub open spec fn literal_error(first: u8) -> ParseErrorKind {
    if first == 0x6e {
        ParseErrorKind::IncompleteNull
    } else if first == 0x74 {
        ParseErrorKind::IncompleteTrue
    } else {
        ParseErrorKind::IncompleteFalse
    }
}

/// The token after the significant byte `x` has been taken; `m` is the reader after taking it.
pub open spec fn token_after<E>(x: u8, m: ReaderModel, lenient: bool, cap: nat) -> Step<
    TokenModel,
    E,
> {
    if x == 0x7b || x == 0x5b {
        match accept_value(m.state, lenient) {
            Err(k) => (Err(JsonParseError::Parse(k, m.location)), m),
            Ok(_) => (
                Ok(if x == 0x7b { TokenModel::StartObject } else { TokenModel::StartArray }),
                ReaderModel { state: ReaderState::Initial, ..m },
            ),
        }
    } else if x == 0x7d || x == 0x5d {
        match accept_end_nested(m.state) {
            Err(k) => (Err(JsonParseError::Parse(k, m.location)), m),
            Ok(_) => (
                Ok(if x == 0x7d { TokenModel::EndObject } else { TokenModel::EndArray }),
                ReaderModel { state: ReaderState::AfterValue, ..m },
            ),
        }
    } else if x == 0x22 {
        string_token(m, lenient, cap)
    } else {
        match state_for_value(m.state, lenient) {
            Err(k) => (Err(JsonParseError::Parse(k, m.location)), m),
            Ok(s) => {
                let m1 = ReaderModel { state: s, ..m };
                if x == 0x6e || x == 0x74 || x == 0x66 {
                    literal_token_step(x, m1)
                } else if x == 0x2d || (0x30 <= x <= 0x39) {
                    number_token(x, m1, cap)
                } else {
                    (Err(JsonParseError::Parse(ParseErrorKind::InvalidLiteral, m1.location)), m1)
                }
            },
        }
    }
}

/// The next token: whitespace is skipped, commas are checked and consumed, and the first
/// significant byte decides the kind of token.
pub open spec fn next_token<E>(m: ReaderModel, lenient: bool, cap: nat) -> Step<TokenModel, E>
    decreases measure(m),
{
    let m1 = skip_whitespace(m);
    let (b, m2) = read_byte(m1);
    match b {
        None => (Ok(TokenModel::EndOfStream), m2),
        Some(x) => if x == 0x2c {
            match state_for_comma(m2.state) {
                Err(k) => (Err(JsonParseError::Parse(k, m2.location)), m2),
                // the guard always holds (`lemma_skip_whitespace_measure`); it shows that the
                // recursion ends
                Ok(s) => if measure(m2) < measure(m) {
                    next_token(ReaderModel { state: s, ..m2 }, lenient, cap)
                } else {
                    (Ok(TokenModel::EndOfStream), m2)
                },
            }
        } else {
            token_after(x, m2, lenient, cap)
        },
    }
}

/// Skips the rest of a scope `depth` levels deep: tokens are read until the end that closes the
/// outermost of those levels. The end of the stream before that is an unexpected token.
pub open spec fn skip_scope<E>(m: ReaderModel, depth: nat, lenient: bool, cap: nat) -> Step<(), E>
    decreases measure(m),
{
    let (t, m1) = next_token::<E>(m, lenient, cap);
    match t {
        Err(e) => (Err(e), m1),
        // every token but the end of the stream consumes input (`lemma_next_token_progress`),
        // so the measure only ends the recursion
        Ok(tok) => if tok is EndOfStream || measure(m1) >= measure(m) {
            (Err(JsonParseError::UnexpectedToken(m1.location)), m1)
        } else if tok is StartObject || tok is StartArray {
            skip_scope(m1, depth + 1, lenient, cap)
        } else if tok is EndObject || tok is EndArray {
            if depth <= 1 {
                (Ok(()), m1)
            } else {
                skip_scope(m1, (depth - 1) as nat, lenient, cap)
            }
        } else {
            skip_scope(m1, depth, lenient, cap)
        },
    }
}

/// Skips one value: a scalar, or a whole object or array.
pub open spec fn skip_one_value<E>(m: ReaderModel, lenient: bool, cap: nat) -> Step<(), E> {
    let (t, m1) = next_token::<E>(m, lenient, cap);
    match t {
        Err(e) => (Err(e), m1),
        Ok(tok) => if tok is StartObject || tok is StartArray {
            skip_scope(m1, 1, lenient, cap)
        } else if tok is Key || tok is EndObject || tok is EndArray || tok is EndOfStream {
            (Err(JsonParseError::UnexpectedToken(m1.location)), m1)
        } else {
            (Ok(()), m1)
        },
    }
}

proof fn lemma_match_literal_measure(m: ReaderModel, lit: Seq<u8>)
    ensures
        measure(match_literal(m, lit).1) <= measure(m),
    decreases lit.len(),
{
    if lit.len() > 0 {
        let (b, m1) = read_byte(m);
        lemma_match_literal_measure(m1, lit.drop_first());
    }
}

proof fn lemma_scan_string_measure<E>(m: ReaderModel, content: Seq<u8>, cap: nat)
    ensures
        measure(scan_string::<E>(m, content, cap).1) <= measure(m),
    decreases measure(m),
{
    let (b, m1) = read_byte(m);
    if let Some(x) = b {
        if x == 0x5c {
            let (e, m2) = read_byte(m1);
            if let Some(esc) = e {
                if esc == 0x75 {
                    let (h, m3) = read_hex::<E>(m2, 0, 4);
                    lemma_read_hex_measure::<E>(m2, 0, 4);
                    if let Ok(cp) = h {
                        if let Ok(c) = append_content::<E>(content, utf8_of_code_point(cp), cap, m3.location) {
                            if measure(m3) < measure(m) {
                                lemma_scan_string_measure::<E>(m3, c, cap);
                            }
                        }
                    }
                } else if let Some(u) = simple_escape(esc) {
                    if let Ok(c) = append_content::<E>(content, seq![u], cap, m2.location) {
                        lemma_scan_string_measure::<E>(m2, c, cap);
                    }
                }
            }
        } else if x != 0x22 {
            if let Ok(c) = append_content::<E>(content, seq![x], cap, m1.location) {
                lemma_scan_string_measure::<E>(m1, c, cap);
            }
        }
    }
}

proof fn lemma_scan_number_measure<E>(m: ReaderModel, content: Seq<u8>, cap: nat)
    ensures
        measure(scan_number::<E>(m, content, cap).1) <= measure(m),
    decreases measure(m),
{
    let (b, m1) = read_byte(m);
    if let Some(x) = b {
        if is_number_byte(x) {
            if let Ok(c) = append_content::<E>(content, seq![x], cap, m1.location) {
                lemma_scan_number_measure::<E>(m1, c, cap);
            }
        }
    }
}

/// A token step takes no more than it was given.
proof fn lemma_token_after_measure<E>(x: u8, m: ReaderModel, lenient: bool, cap: nat)
    ensures
        measure(token_after::<E>(x, m, lenient, cap).1) <= measure(m),
{
    lemma_scan_string_measure::<E>(m, Seq::empty(), cap);
    let m1 = scan_string::<E>(m, Seq::empty(), cap).1;
    lemma_skip_whitespace_measure(m1);
    lemma_match_literal_measure(m, literal_rest(x));
    if let Ok(s) = state_for_value(m.state, lenient) {
        let ms = ReaderModel { state: s, ..m };
        lemma_match_literal_measure(ms, literal_rest(x));
        if let Ok(c) = append_content::<E>(Seq::empty(), seq![x], cap, ms.location) {
            lemma_scan_number_measure::<E>(ms, c, cap);
        }
    }
}

/// Every token but the end of the stream consumes input.
pub proof fn lemma_next_token_progress<E>(m: ReaderModel, lenient: bool, cap: nat)
    ensures
        next_token::<E>(m, lenient, cap).0 is Ok && next_token::<E>(m, lenient, cap).0
            != Ok::<TokenModel, JsonParseError<E>>(TokenModel::EndOfStream) ==> measure(
            next_token::<E>(m, lenient, cap).1,
        ) < measure(m),
    decreases measure(m),
{
    let m1 = skip_whitespace(m);
    lemma_skip_whitespace_measure(m);
    let (b, m2) = read_byte(m1);
    if let Some(x) = b {
        if x == 0x2c {
            if let Ok(s) = state_for_comma(m2.state) {
                lemma_next_token_progress::<E>(ReaderModel { state: s, ..m2 }, lenient, cap);
            }
        } else {
            lemma_token_after_measure::<E>(x, m2, lenient, cap);
        }
    }
}

/// Skipping whitespace never lengthens what is left to read.
pub proof fn lemma_skip_whitespace_measure(m: ReaderModel)
    ensures
        measure(skip_whitespace(m)) <= measure(m),
    decreases measure(m),
{
    let (b, m1) = read_byte(m);
    if let Some(x) = b {
        if is_whitespace(x) {
            lemma_skip_whitespace_measure(m1);
        }
    }
}

/// Reading hex digits consumes one byte per digit read.
pub proof fn lemma_read_hex_measure<E>(m: ReaderModel, acc: nat, k: nat)
    ensures
        measure(read_hex::<E>(m, acc, k).1) <= measure(m),
        k > 0 && read_hex::<E>(m, acc, k).0 is Ok ==> measure(read_hex::<E>(m, acc, k).1) < measure(
            m,
        ),
    decreases k,
{
    if k > 0 {
        let (b, m1) = read_byte(m);
        if let Some(x) = b {
            if let Some(v) = hex_digit_value(x) {
                lemma_read_hex_measure::<E>(m1, acc * 16 + v as nat, (k - 1) as nat);
            }
        }
    }
}

} // verus!
