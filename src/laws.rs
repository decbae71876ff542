use vstd::prelude::*;

use crate::inner::{ReaderState, accept_end_nested, accept_value, state_for_comma, state_for_value};
use crate::location::{lemma_after_bytes_concat, lemma_after_one_byte};
use crate::inner::utf8_of_code_point;
use crate::token::{JsonParseError, ParseErrorKind, TokenModel};
use vstd::string::StringSliceAdditionalSpecFns;
use crate::formatter::CompactFormatter;
use crate::scope::{close_text, key_prefix, open_text, separator};
use crate::writer::{bool_text, decimal, decimal_int, escape_byte, escape_bytes, hex_lower, null_text, quoted};
use vstd::utf8::{decode_utf8, encode_utf8, is_ascii_chars_encode_utf8, encode_utf8_decode_utf8, encode_utf8_valid_utf8, valid_utf8};
use crate::tokenizer::{
    ReaderModel, append_content, hex_digit_value, simple_escape, is_number_byte, is_whitespace, lemma_read_hex_measure, read_hex, lemma_skip_whitespace_measure, literal_rest, literal_token,
    literal_token_step, match_literal, measure, next_token, number_token, read_byte, scan_number, scan_string,
    skip_whitespace, token_after,
};

verus! {

/// A token step never yields `EndOfStream` once a significant byte has been taken.
proof fn lemma_token_after_not_end<E>(x: u8, m: ReaderModel, lenient: bool, cap: nat)
    ensures
        token_after::<E>(x, m, lenient, cap).0 != Ok::<TokenModel, JsonParseError<E>>(
            TokenModel::EndOfStream,
        ),
{
}

/// Once the tokenizer reports the end of the stream, it keeps reporting it, and the reader
/// stays as it is.
pub proof fn lemma_end_of_stream_is_idempotent<E>(m: ReaderModel, lenient: bool, cap: nat)
    requires
        next_token::<E>(m, lenient, cap).0 == Ok::<TokenModel, JsonParseError<E>>(
            TokenModel::EndOfStream,
        ),
    ensures
        next_token::<E>(next_token::<E>(m, lenient, cap).1, lenient, cap) == next_token::<E>(
            m,
            lenient,
            cap,
        ),
    decreases measure(m),
{
    let m1 = skip_whitespace(m);
    let (b, m2) = read_byte(m1);
    lemma_skip_whitespace_measure(m);
    match b {
        None => {
            assert(skip_whitespace(m2) == m2);
        },
        Some(x) => {
            if x == 0x2c {
                match state_for_comma(m2.state) {
                    Err(k) => {},
                    Ok(s) => {
                        lemma_end_of_stream_is_idempotent::<E>(
                            ReaderModel { state: s, ..m2 },
                            lenient,
                            cap,
                        );
                    },
                }
            } else {
                lemma_token_after_not_end::<E>(x, m2, lenient, cap);
            }
        },
    }
}

proof fn lemma_match_literal_state(m: ReaderModel, lit: Seq<u8>)
    ensures
        match_literal(m, lit).1.state == m.state,
    decreases lit.len(),
{
    if lit.len() > 0 {
        let (b, m1) = read_byte(m);
        lemma_match_literal_state(m1, lit.drop_first());
    }
}

proof fn lemma_scan_number_state<E>(m: ReaderModel, content: Seq<u8>, cap: nat)
    ensures
        scan_number::<E>(m, content, cap).1.state == m.state,
    decreases measure(m),
{
    let (b, m1) = read_byte(m);
    if let Some(x) = b {
        if is_number_byte(x) {
            if let Ok(c) = append_content::<E>(content, seq![x], cap, m1.location) {
                lemma_scan_number_state::<E>(m1, c, cap);
            }
        }
    }
}

/// A scalar literal or number leaves the structural state as it found it.
proof fn lemma_value_keeps_after_value<E>(x: u8, m: ReaderModel, cap: nat)
    ensures
        literal_token_step::<E>(x, m).1.state == m.state,
        number_token::<E>(x, m, cap).1.state == m.state,
{
    lemma_match_literal_state(m, literal_rest(x));
    if let Ok(c) = append_content::<E>(Seq::empty(), seq![x], cap, m.location) {
        lemma_scan_number_state::<E>(m, c, cap);
    }
}

/// The reader after taking its next byte from the source.
pub open spec fn after_first_byte(m: ReaderModel) -> ReaderModel {
    ReaderModel { location: m.location.spec_after_byte(m.rest[0]), rest: m.rest.drop_first(), ..m }
}

/// The structural checks for each state and each class of input: a comma, a closing bracket,
/// and the start of a value (a nested container or a scalar). The next byte of `m` is unread.
pub proof fn lemma_state_machine_transitions<E>(m: ReaderModel, lenient: bool, cap: nat)
    requires
        m.parked is None,
        m.rest.len() > 0,
    ensures
        ({
            let m1 = after_first_byte(m);
            let l = m1.location;
            &&& m.rest[0] == 0x2c ==> if m.state == ReaderState::AfterValue {
                next_token::<E>(m, lenient, cap) == next_token::<E>(
                    ReaderModel { state: ReaderState::BeforeEntry, ..m1 },
                    lenient,
                    cap,
                )
            } else {
                next_token::<E>(m, lenient, cap) == (
                    Err::<TokenModel, JsonParseError<E>>(
                        JsonParseError::Parse(ParseErrorKind::UnexpectedComma, l),
                    ),
                    m1,
                )
            }
            &&& (m.rest[0] == 0x7d || m.rest[0] == 0x5d) ==> next_token::<E>(m, lenient, cap)
                == match m.state {
                ReaderState::BeforeEntry => (
                    Err::<TokenModel, JsonParseError<E>>(
                        JsonParseError::Parse(ParseErrorKind::TrailingComma, l),
                    ),
                    m1,
                ),
                ReaderState::AfterKey => (
                    Err::<TokenModel, JsonParseError<E>>(
                        JsonParseError::Parse(ParseErrorKind::KeyWithoutValue, l),
                    ),
                    m1,
                ),
                _ => (
                    Ok::<TokenModel, JsonParseError<E>>(
                        if m.rest[0] == 0x7d {
                            TokenModel::EndObject
                        } else {
                            TokenModel::EndArray
                        },
                    ),
                    ReaderModel { state: ReaderState::AfterValue, ..m1 },
                ),
            }
            &&& (m.rest[0] == 0x7b || m.rest[0] == 0x5b) ==> next_token::<E>(m, lenient, cap) == if m.state
                == ReaderState::AfterValue && !lenient {
                (
                    Err::<TokenModel, JsonParseError<E>>(
                        JsonParseError::Parse(ParseErrorKind::MissingComma, l),
                    ),
                    m1,
                )
            } else {
                (
                    Ok::<TokenModel, JsonParseError<E>>(
                        if m.rest[0] == 0x7b {
                            TokenModel::StartObject
                        } else {
                            TokenModel::StartArray
                        },
                    ),
                    ReaderModel { state: ReaderState::Initial, ..m1 },
                )
            }
            &&& (m.rest[0] == 0x6e || m.rest[0] == 0x74 || m.rest[0] == 0x66 || m.rest[0] == 0x2d
                || (0x30 <= m.rest[0] <= 0x39)) ==> if m.state == ReaderState::AfterValue
                && !lenient {
                next_token::<E>(m, lenient, cap) == (
                    Err::<TokenModel, JsonParseError<E>>(
                        JsonParseError::Parse(ParseErrorKind::MissingComma, l),
                    ),
                    m1,
                )
            } else {
                next_token::<E>(m, lenient, cap).0 is Ok ==> next_token::<E>(m, lenient, cap).1.state
                    == ReaderState::AfterValue
            }
        }),
{
    let m1 = after_first_byte(m);
    assert(read_byte(m) == (Some(m.rest[0]), m1));
    let x = m.rest[0];
    if x == 0x2c || x == 0x7d || x == 0x5d || x == 0x7b || x == 0x5b || x == 0x6e || x == 0x74
        || x == 0x66 || x == 0x2d || (0x30 <= x <= 0x39) {
        assert(skip_whitespace(m) == ReaderModel { parked: Some(x), ..m1 });
        assert(read_byte(skip_whitespace(m)) == (Some(x), m1));
        lemma_skip_whitespace_measure(m);
    }
    if (x == 0x6e || x == 0x74 || x == 0x66 || x == 0x2d || (0x30 <= x <= 0x39)) && !(m.state
        == ReaderState::AfterValue && !lenient) {
        lemma_value_keeps_after_value::<E>(x, ReaderModel { state: ReaderState::AfterValue, ..m1 }, cap);
    }
}

/// The structural state that a token leaves behind.
pub open spec fn state_after(t: TokenModel) -> ReaderState {
    match t {
        TokenModel::StartObject | TokenModel::StartArray => ReaderState::Initial,
        TokenModel::Key(_) => ReaderState::AfterKey,
        _ => ReaderState::AfterValue,
    }
}

/// After every token but the end of the stream, the structural state is fixed by the kind of
/// the token: `Initial` after a start, `AfterKey` after a key, `AfterValue` after anything else.
/// A comma is never a token: it only moves `AfterValue` to `BeforeEntry` on the way.
pub proof fn lemma_state_after_token<E>(m: ReaderModel, lenient: bool, cap: nat)
    ensures
        next_token::<E>(m, lenient, cap).0 is Ok && !(next_token::<E>(m, lenient, cap).0->Ok_0 is EndOfStream)
            ==> next_token::<E>(m, lenient, cap).1.state == state_after(
            next_token::<E>(m, lenient, cap).0->Ok_0,
        ),
    decreases measure(m),
{
    let m1 = skip_whitespace(m);
    lemma_skip_whitespace_measure(m);
    let (b, m2) = read_byte(m1);
    if let Some(x) = b {
        if x == 0x2c {
            if let Ok(s) = state_for_comma(m2.state) {
                lemma_state_after_token::<E>(ReaderModel { state: s, ..m2 }, lenient, cap);
            }
        } else if let Ok(s) = state_for_value(m2.state, lenient) {
            lemma_value_keeps_after_value::<E>(x, ReaderModel { state: s, ..m2 }, cap);
        }
    }
}

/// No quote and no backslash: bytes that a string literal holds as they are.
pub open spec fn is_plain_text(s: Seq<u8>) -> bool {
    forall|i: int| 0 <= i < s.len() ==> s[i] != 0x22 && s[i] != 0x5c
}

/// Plain bytes that fit in the buffer are appended one for one.
proof fn lemma_scan_plain<E>(m: ReaderModel, content: Seq<u8>, s: Seq<u8>, t: Seq<u8>, cap: nat)
    requires
        m.parked is None,
        m.rest == s + t,
        is_plain_text(s),
        content.len() + s.len() <= cap,
    ensures
        scan_string::<E>(m, content, cap) == scan_string::<E>(
            ReaderModel { location: m.location.spec_after_bytes(s), rest: t, ..m },
            content + s,
            cap,
        ),
    decreases s.len(),
{
    if s.len() == 0 {
        assert(content + s =~= content);
        assert(m.rest =~= t);
    } else {
        let m1 = ReaderModel {
            location: m.location.spec_after_byte(s[0]),
            rest: s.drop_first() + t,
            ..m
        };
        assert(m.rest.drop_first() =~= s.drop_first() + t);
        assert(read_byte(m) == (Some(s[0]), m1));
        assert(is_plain_text(s.drop_first()));
        lemma_scan_plain::<E>(m1, content + seq![s[0]], s.drop_first(), t, cap);
        assert(content + seq![s[0]] + s.drop_first() =~= content + s);
    }
}

/// A string literal as long as the buffer is read whole; one byte more overflows the buffer, at
/// the location of that byte.
pub proof fn lemma_buffer_capacity_boundary<E>(
    m: ReaderModel,
    s: Seq<u8>,
    lenient: bool,
    cap: nat,
)
    requires
        m.parked is None,
        m.state == ReaderState::Initial,
        m.rest == seq![0x22u8] + s + seq![0x22u8],
        is_plain_text(s),
    ensures
        cap == s.len() && valid_utf8(s) ==> next_token::<E>(m, lenient, cap).0 == Ok::<
            TokenModel,
            JsonParseError<E>,
        >(TokenModel::StringLiteral(decode_utf8(s))),
        cap + 1 == s.len() ==> next_token::<E>(m, lenient, cap).0 == Err::<
            TokenModel,
            JsonParseError<E>,
        >(JsonParseError::BufferOverflow(m.location.spec_after_bytes(seq![0x22u8] + s))),
{
    let m1 = after_first_byte(m);
    assert(read_byte(m) == (Some(0x22u8), m1));
    assert(skip_whitespace(m) == ReaderModel { parked: Some(0x22u8), ..m1 });
    lemma_skip_whitespace_measure(m);
    assert(m1.rest =~= s + seq![0x22u8]);
    lemma_after_one_byte(m.location, 0x22u8);
    if cap == s.len() {
        lemma_scan_plain::<E>(m1, Seq::empty(), s, seq![0x22u8], cap);
        let m2 = ReaderModel {
            location: m1.location.spec_after_bytes(s),
            rest: seq![0x22u8],
            ..m1
        };
        assert(Seq::<u8>::empty() + s =~= s);
        let m3 = after_first_byte(m2);
        assert(read_byte(m2) == (Some(0x22u8), m3));
        assert(m3.rest =~= Seq::<u8>::empty());
        assert(skip_whitespace(m3) == m3);
    }
    if cap + 1 == s.len() {
        let s1 = s.drop_last();
        let x = s.last();
        assert(s =~= s1 + seq![x]);
        assert(is_plain_text(s1));
        assert(m1.rest =~= s1 + seq![x, 0x22u8]);
        lemma_scan_plain::<E>(m1, Seq::empty(), s1, seq![x, 0x22u8], cap);
        let m2 = ReaderModel {
            location: m1.location.spec_after_bytes(s1),
            rest: seq![x, 0x22u8],
            ..m1
        };
        assert(Seq::<u8>::empty() + s1 =~= s1);
        assert(read_byte(m2).0 == Some(x));
        lemma_after_bytes_concat(m.location, seq![0x22u8], s1);
        lemma_after_bytes_concat(m.location, seq![0x22u8] + s1, seq![x]);
        assert(seq![0x22u8] + s1 + seq![x] =~= seq![0x22u8] + s);
        lemma_after_one_byte(m2.location, x);
    }
}

/// `escape_bytes` seen from the front.
proof fn lemma_escape_bytes_front(s: Seq<u8>)
    requires
        s.len() > 0,
    ensures
        escape_bytes(s) == escape_byte(s[0]) + escape_bytes(s.drop_first()),
    decreases s.len(),
{
    if s.len() == 1 {
        assert(s.drop_last() =~= Seq::<u8>::empty());
        assert(s.drop_first() =~= Seq::<u8>::empty());
        assert(escape_bytes(s.drop_first()) =~= Seq::<u8>::empty());
        assert(escape_bytes(s) =~= escape_byte(s[0]) + escape_bytes(s.drop_first()));
    } else {
        lemma_escape_bytes_front(s.drop_last());
        assert(s.drop_last().drop_first() =~= s.drop_first().drop_last());
        assert(s.drop_first().last() == s.last());
        assert(s.drop_last()[0] == s[0]);
        assert(escape_bytes(s) =~= escape_byte(s[0]) + escape_bytes(s.drop_first()));
    }
}

proof fn lemma_hex_lower_value(n: u8)
    requires
        n < 16,
    ensures
        hex_digit_value(hex_lower(n)) == Some(n as u16),
{
}

/// The reader undoes the writer's escaping of one byte.
proof fn lemma_scan_escaped_byte<E>(m: ReaderModel, content: Seq<u8>, b: u8, t: Seq<u8>, cap: nat)
    requires
        m.parked is None,
        m.rest == escape_byte(b) + t,
        content.len() + 1 <= cap,
    ensures
        ({
            let m2 = scan_step_model(m, escape_byte(b).len());
            &&& m2.rest == t
            &&& m2.parked is None
            &&& m2.state == m.state
            &&& scan_string::<E>(m, content, cap) == scan_string::<E>(m2, content.push(b), cap)
        }),
{
    let e = escape_byte(b);
    reveal_with_fuel(scan_step_model, 7);
    assert(content + seq![b] =~= content.push(b));
    if e.len() == 1 {
        assert(m.rest.drop_first() =~= t);
    } else if e.len() == 2 {
        assert(m.rest.drop_first().drop_first() =~= t);
    } else {
        assert(e.len() == 6);
        let m1 = read_byte(m).1;
        let m2 = read_byte(m1).1;
        assert(m2.rest =~= seq![0x30u8, 0x30u8, hex_lower(b / 16), hex_lower(b % 16)] + t);
        lemma_hex_lower_value(b / 16);
        lemma_hex_lower_value(b % 16);
        reveal_with_fuel(read_hex, 5);
        let m6 = scan_step_model(m, 6);
        assert(m6.rest =~= t);
        assert(read_hex::<E>(m2, 0, 4).1 == m6);
        assert(read_hex::<E>(m2, 0, 4).0 == Ok::<u16, JsonParseError<E>>(b as u16));
        assert(utf8_of_code_point(b as u16) =~= seq![b]);
        lemma_read_hex_measure::<E>(m2, 0, 4);
    }
}

proof fn lemma_scan_step_add(m: ReaderModel, a: nat, b: nat)
    ensures
        scan_step_model(m, a + b) == scan_step_model(scan_step_model(m, a), b),
    decreases a,
{
    if a > 0 {
        lemma_scan_step_add(read_byte(m).1, (a - 1) as nat, b);
        assert((a + b - 1) as nat == ((a - 1) as nat + b) as nat);
    }
}

/// The reader undoes the writer's escaping of a whole string.
proof fn lemma_scan_escaped<E>(m: ReaderModel, content: Seq<u8>, s: Seq<u8>, t: Seq<u8>, cap: nat)
    requires
        m.parked is None,
        m.rest == escape_bytes(s) + t,
        content.len() + s.len() <= cap,
    ensures
        ({
            let m2 = scan_step_model(m, escape_bytes(s).len());
            &&& m2.rest == t
            &&& m2.parked is None
            &&& m2.state == m.state
            &&& scan_string::<E>(m, content, cap) == scan_string::<E>(m2, content + s, cap)
        }),
    decreases s.len(),
{
    if s.len() == 0 {
        assert(content + s =~= content);
        assert(escape_bytes(s) =~= Seq::<u8>::empty());
        assert(m.rest =~= t);
    } else {
        lemma_escape_bytes_front(s);
        let e0 = escape_byte(s[0]);
        let rest_s = s.drop_first();
        assert(m.rest =~= e0 + (escape_bytes(rest_s) + t));
        lemma_scan_escaped_byte::<E>(m, content, s[0], escape_bytes(rest_s) + t, cap);
        let m1 = scan_step_model(m, e0.len());
        lemma_scan_escaped::<E>(m1, content.push(s[0]), rest_s, t, cap);
        lemma_scan_step_add(m, e0.len(), escape_bytes(rest_s).len());
        assert(content.push(s[0]) + rest_s =~= content + s);
    }
}

/// The reader after the body and closing quote of an escaped string.
proof fn lemma_scan_quoted<E>(m: ReaderModel, bytes: Seq<u8>, t: Seq<u8>, cap: nat)
    requires
        m.parked is None,
        m.rest == escape_bytes(bytes) + seq![0x22u8] + t,
        bytes.len() <= cap,
    ensures
        scan_string::<E>(m, Seq::empty(), cap).0 == Ok::<Seq<u8>, JsonParseError<E>>(bytes),
        scan_string::<E>(m, Seq::empty(), cap).1.rest == t,
        scan_string::<E>(m, Seq::empty(), cap).1.parked is None,
        scan_string::<E>(m, Seq::empty(), cap).1.state == m.state,
{
    assert(m.rest =~= escape_bytes(bytes) + (seq![0x22u8] + t));
    lemma_scan_escaped::<E>(m, Seq::empty(), bytes, seq![0x22u8] + t, cap);
    assert(Seq::<u8>::empty() + bytes =~= bytes);
    let m2 = scan_step_model(m, escape_bytes(bytes).len());
    assert(m2.rest.drop_first() =~= t);
}

/// The bytes still to be read: the parked byte, if any, then the source's.
pub open spec fn pending(m: ReaderModel) -> Seq<u8> {
    match m.parked {
        Some(p) => seq![p] + m.rest,
        None => m.rest,
    }
}

/// The reader after taking the first of its pending bytes.
pub open spec fn taken(m: ReaderModel) -> ReaderModel {
    match m.parked {
        Some(p) => ReaderModel { parked: None, ..m },
        None => after_first_byte(m),
    }
}

/// A significant byte that comes next is what the tokenizer takes first.
proof fn lemma_take_first(m: ReaderModel)
    requires
        pending(m).len() > 0,
        !is_whitespace(pending(m)[0]),
    ensures
        read_byte(skip_whitespace(m)) == (Some(pending(m)[0]), taken(m)),
        taken(m).parked is None,
        taken(m).rest == pending(m).drop_first(),
        taken(m).state == m.state,
        measure(taken(m)) < measure(m),
{
    let x = pending(m)[0];
    assert(read_byte(m) == (Some(x), taken(m)));
    assert(skip_whitespace(m) == ReaderModel { parked: Some(x), ..taken(m) });
    if m.parked is Some {
        assert(pending(m).drop_first() =~= m.rest);
    }
}

/// A string value as the writer writes it, followed by anything but whitespace or a colon, is
/// read back as a string literal with the same characters.
pub proof fn lemma_string_round_trip<E>(
    m: ReaderModel,
    text: Seq<char>,
    t: Seq<u8>,
    lenient: bool,
    cap: nat,
)
    requires
        state_for_value(m.state, lenient) is Ok,
        pending(m) == quoted(encode_utf8(text)) + t,
        t.len() == 0 || (!is_whitespace(t[0]) && t[0] != 0x3a),
        encode_utf8(text).len() <= cap,
    ensures
        next_token::<E>(m, lenient, cap).0 == Ok::<TokenModel, JsonParseError<E>>(
            TokenModel::StringLiteral(text),
        ),
        next_token::<E>(m, lenient, cap).1.state == ReaderState::AfterValue,
        pending(next_token::<E>(m, lenient, cap).1) == t,
{
    let bytes = encode_utf8(text);
    encode_utf8_valid_utf8(text);
    encode_utf8_decode_utf8(text);
    lemma_take_first(m);
    let m1 = taken(m);
    assert(m1.rest =~= escape_bytes(bytes) + seq![0x22u8] + t);
    lemma_scan_quoted::<E>(m1, bytes, t, cap);
    let m2 = scan_string::<E>(m1, Seq::empty(), cap).1;
    if t.len() == 0 {
        assert(skip_whitespace(m2) == m2);
    } else {
        assert(skip_whitespace(m2) == ReaderModel { parked: Some(t[0]), ..after_first_byte(m2) });
        assert(seq![t[0]] + t.drop_first() =~= t);
    }
}

/// A key as the writer writes it, quoted and followed by a colon, is read back as a key with
/// the same characters.
pub proof fn lemma_key_round_trip<E>(
    m: ReaderModel,
    text: Seq<char>,
    t: Seq<u8>,
    lenient: bool,
    cap: nat,
)
    requires
        m.state == ReaderState::Initial || m.state == ReaderState::BeforeEntry,
        pending(m) == quoted(encode_utf8(text)) + seq![0x3au8] + t,
        encode_utf8(text).len() <= cap,
    ensures
        next_token::<E>(m, lenient, cap).0 == Ok::<TokenModel, JsonParseError<E>>(
            TokenModel::Key(text),
        ),
        next_token::<E>(m, lenient, cap).1.state == ReaderState::AfterKey,
        pending(next_token::<E>(m, lenient, cap).1) == t,
{
    let bytes = encode_utf8(text);
    encode_utf8_valid_utf8(text);
    encode_utf8_decode_utf8(text);
    lemma_take_first(m);
    let m1 = taken(m);
    assert(m1.rest =~= escape_bytes(bytes) + seq![0x22u8] + (seq![0x3au8] + t));
    lemma_scan_quoted::<E>(m1, bytes, seq![0x3au8] + t, cap);
    let m2 = scan_string::<E>(m1, Seq::empty(), cap).1;
    assert(m2.rest.drop_first() =~= t);
    assert(skip_whitespace(m2) == ReaderModel { parked: Some(0x3au8), ..after_first_byte(m2) });
}

/// Matching a literal that is there consumes it.
proof fn lemma_match_literal_exact(m: ReaderModel, lit: Seq<u8>, t: Seq<u8>)
    requires
        m.parked is None,
        m.rest == lit + t,
    ensures
        match_literal(m, lit).0,
        match_literal(m, lit).1.parked is None,
        match_literal(m, lit).1.rest == t,
        match_literal(m, lit).1.state == m.state,
    decreases lit.len(),
{
    if lit.len() == 0 {
        assert(m.rest =~= t);
    } else {
        let m1 = after_first_byte(m);
        assert(read_byte(m) == (Some(lit[0]), m1));
        assert(m1.rest =~= lit.drop_first() + t);
        lemma_match_literal_exact(m1, lit.drop_first(), t);
    }
}

/// `null`, `true` and `false` as the writer writes them are read back as the same literal.
pub proof fn lemma_literal_round_trip<E>(m: ReaderModel, first: u8, t: Seq<u8>, lenient: bool, cap: nat)
    requires
        first == 0x6e || first == 0x74 || first == 0x66,
        state_for_value(m.state, lenient) is Ok,
        pending(m) == seq![first] + literal_rest(first) + t,
    ensures
        next_token::<E>(m, lenient, cap).0 == Ok::<TokenModel, JsonParseError<E>>(
            literal_token(first),
        ),
        next_token::<E>(m, lenient, cap).1.state == ReaderState::AfterValue,
        pending(next_token::<E>(m, lenient, cap).1) == t,
{
    lemma_take_first(m);
    let m1 = ReaderModel { state: ReaderState::AfterValue, ..taken(m) };
    assert(m1.rest =~= literal_rest(first) + t);
    lemma_match_literal_exact(m1, literal_rest(first), t);
}

/// An opening or closing bracket that the state accepts is read as the matching token.
pub proof fn lemma_bracket_round_trip<E>(m: ReaderModel, x: u8, t: Seq<u8>, lenient: bool, cap: nat)
    requires
        x == 0x7b || x == 0x5b || x == 0x7d || x == 0x5d,
        pending(m) == seq![x] + t,
        (x == 0x7b || x == 0x5b) ==> accept_value(m.state, lenient) is Ok,
        (x == 0x7d || x == 0x5d) ==> accept_end_nested(m.state) is Ok,
    ensures
        next_token::<E>(m, lenient, cap).0 == Ok::<TokenModel, JsonParseError<E>>(
            if x == 0x7b {
                TokenModel::StartObject
            } else if x == 0x5b {
                TokenModel::StartArray
            } else if x == 0x7d {
                TokenModel::EndObject
            } else {
                TokenModel::EndArray
            },
        ),
        next_token::<E>(m, lenient, cap).1.state == if x == 0x7b || x == 0x5b {
            ReaderState::Initial
        } else {
            ReaderState::AfterValue
        },
        pending(next_token::<E>(m, lenient, cap).1) == t,
{
    lemma_take_first(m);
    assert(seq![x] + t =~= pending(m));
    assert(taken(m).rest =~= t);
}

/// A comma after a value is consumed on the way to the next token.
proof fn lemma_comma_step<E>(m: ReaderModel, t: Seq<u8>, lenient: bool, cap: nat)
    requires
        m.state == ReaderState::AfterValue,
        pending(m) == seq![0x2cu8] + t,
    ensures
        next_token::<E>(m, lenient, cap) == next_token::<E>(
            ReaderModel { state: ReaderState::BeforeEntry, ..taken(m) },
            lenient,
            cap,
        ),
        pending(ReaderModel { state: ReaderState::BeforeEntry, ..taken(m) }) == t,
{
    lemma_take_first(m);
    assert(taken(m).rest =~= t);
}

/// Bytes below 128 read as characters one for one.
pub open spec fn ascii_chars(b: Seq<u8>) -> Seq<char> {
    b.map_values(|x: u8| x as char)
}

proof fn lemma_ascii_decode(b: Seq<u8>)
    requires
        forall|i: int| 0 <= i < b.len() ==> #[trigger] b[i] < 128,
    ensures
        valid_utf8(b),
        decode_utf8(b) == ascii_chars(b),
{
    let c = ascii_chars(b);
    assert forall|i: int| 0 <= i < c.len() implies '\0' <= #[trigger] c[i] <= '\u{7f}' by {
        assert(b[i] < 128);
    }
    is_ascii_chars_encode_utf8(c);
    assert forall|i: int| 0 <= i < b.len() implies encode_utf8(c)[i] == b[i] by {
        assert(c[i] as u8 == b[i]);
    }
    assert(encode_utf8(c) =~= b);
    encode_utf8_valid_utf8(c);
    encode_utf8_decode_utf8(c);
}

/// The decimal digits are ASCII digits.
proof fn lemma_decimal_digits(n: nat)
    ensures
        forall|i: int| 0 <= i < decimal(n).len() ==> 0x30 <= #[trigger] decimal(n)[i] <= 0x39,
    decreases n,
{
    if n >= 10 {
        lemma_decimal_digits(n / 10);
        let d = decimal(n / 10);
        assert(decimal(n) == d.push((0x30 + n % 10) as u8));
        assert forall|i: int| 0 <= i < decimal(n).len() implies 0x30 <= #[trigger] decimal(n)[i]
            <= 0x39 by {
            if i < d.len() {
                assert(decimal(n)[i] == d[i]);
            }
        }
    }
}

/// A number's text that is there is taken whole; the byte after it is parked.
proof fn lemma_scan_number_exact<E>(m: ReaderModel, content: Seq<u8>, s: Seq<u8>, t: Seq<u8>, cap: nat)
    requires
        m.parked is None,
        m.rest == s + t,
        forall|i: int| 0 <= i < s.len() ==> is_number_byte(#[trigger] s[i]),
        t.len() == 0 || !is_number_byte(t[0]),
        content.len() + s.len() <= cap,
    ensures
        scan_number::<E>(m, content, cap).0 == Ok::<Seq<u8>, JsonParseError<E>>(content + s),
        pending(scan_number::<E>(m, content, cap).1) == t,
        scan_number::<E>(m, content, cap).1.state == m.state,
    decreases s.len(),
{
    if s.len() == 0 {
        assert(content + s =~= content);
        assert(m.rest =~= t);
        if t.len() > 0 {
            let m1 = after_first_byte(m);
            assert(read_byte(m) == (Some(t[0]), m1));
            assert(seq![t[0]] + t.drop_first() =~= t);
        }
    } else {
        let m1 = after_first_byte(m);
        assert(read_byte(m) == (Some(s[0]), m1));
        assert(m1.rest =~= s.drop_first() + t);
        assert(is_number_byte(s[0]));
        lemma_scan_number_exact::<E>(m1, content + seq![s[0]], s.drop_first(), t, cap);
        assert(content + seq![s[0]] + s.drop_first() =~= content + s);
    }
}

/// An integer as the writer writes it is read back as a number literal with the same text.
pub proof fn lemma_integer_round_trip<E>(m: ReaderModel, v: int, t: Seq<u8>, lenient: bool, cap: nat)
    requires
        state_for_value(m.state, lenient) is Ok,
        pending(m) == decimal_int(v) + t,
        t.len() == 0 || !is_number_byte(t[0]),
        decimal_int(v).len() <= cap,
    ensures
        next_token::<E>(m, lenient, cap).0 == Ok::<TokenModel, JsonParseError<E>>(
            TokenModel::NumberLiteral(ascii_chars(decimal_int(v))),
        ),
        next_token::<E>(m, lenient, cap).1.state == ReaderState::AfterValue,
        pending(next_token::<E>(m, lenient, cap).1) == t,
{
    let d = decimal_int(v);
    let digits = decimal(if v < 0 { (-v) as nat } else { v as nat });
    lemma_decimal_digits(if v < 0 { (-v) as nat } else { v as nat });
    assert(d.len() > 0);
    assert forall|i: int| 0 <= i < d.len() implies is_number_byte(#[trigger] d[i]) && d[i] < 128 by {
        if v < 0 {
            if i > 0 {
                assert(d[i] == digits[i - 1]);
            }
        }
    }
    lemma_ascii_decode(d);
    assert(pending(m) =~= seq![d[0]] + (d.drop_first() + t));
    lemma_take_first(m);
    let m1 = ReaderModel { state: ReaderState::AfterValue, ..taken(m) };
    assert(m1.rest =~= d.drop_first() + t);
    assert(Seq::<u8>::empty() + seq![d[0]] =~= seq![d[0]]);
    assert forall|i: int| 0 <= i < d.drop_first().len() implies is_number_byte(#[trigger] d.drop_first()[i]) by {
        assert(d.drop_first()[i] == d[i + 1]);
    }
    lemma_scan_number_exact::<E>(m1, seq![d[0]], d.drop_first(), t, cap);
    assert(seq![d[0]] + d.drop_first() =~= d);
}

/// One call of the writer's scope API, with the compact formatter.
pub enum WriteEvent {
    /// `start_object` (true) or `start_array` (false), or a new top-level scope.
    Open(bool),
    /// `end` of an object (true) or an array (false).
    Close(bool),
    /// The key of an object entry; its value follows as the next event.
    Key(Seq<char>),
    Str(Seq<char>),
    /// Any of the integer methods; the value as a mathematical integer.
    Int(int),
    Bool(bool),
    Null,
}

pub open spec fn event_piece(e: WriteEvent) -> Seq<u8> {
    match e {
        WriteEvent::Open(o) => seq![if o { 0x7bu8 } else { 0x5bu8 }],
        WriteEvent::Close(o) => seq![if o { 0x7du8 } else { 0x5du8 }],
        WriteEvent::Key(k) => quoted(encode_utf8(k)) + seq![0x3au8],
        WriteEvent::Str(v) => quoted(encode_utf8(v)),
        WriteEvent::Int(v) => decimal_int(v),
        WriteEvent::Bool(b) => bool_text(b),
        WriteEvent::Null => null_text(),
    }
}

pub open spec fn event_token(e: WriteEvent) -> TokenModel {
    match e {
        WriteEvent::Open(o) => if o {
            TokenModel::StartObject
        } else {
            TokenModel::StartArray
        },
        WriteEvent::Close(o) => if o {
            TokenModel::EndObject
        } else {
            TokenModel::EndArray
        },
        WriteEvent::Key(k) => TokenModel::Key(k),
        WriteEvent::Str(v) => TokenModel::StringLiteral(v),
        WriteEvent::Int(v) => TokenModel::NumberLiteral(ascii_chars(decimal_int(v))),
        WriteEvent::Bool(b) => TokenModel::BooleanLiteral(b),
        WriteEvent::Null => TokenModel::NullLiteral,
    }
}

pub open spec fn ends_value(e: WriteEvent) -> bool {
    e is Close || e is Str || e is Int || e is Bool || e is Null
}

pub open spec fn starts_element(e: WriteEvent) -> bool {
    e is Open || e is Key || e is Str || e is Int || e is Bool || e is Null
}

/// The compact writer puts a comma before an element that follows another element of the same
/// scope, i.e. whenever the scope is no longer initial.
pub open spec fn needs_comma(evs: Seq<WriteEvent>, i: int) -> bool {
    0 < i < evs.len() && ends_value(evs[i - 1]) && starts_element(evs[i])
}

/// What the compact writer writes for the events from the `i`-th on.
pub open spec fn compact_text_from(evs: Seq<WriteEvent>, i: int) -> Seq<u8>
    decreases evs.len() - i,
{
    if i < 0 || i >= evs.len() {
        Seq::empty()
    } else {
        (if needs_comma(evs, i) {
            seq![0x2cu8]
        } else {
            Seq::empty()
        }) + event_piece(evs[i]) + compact_text_from(evs, i + 1)
    }
}

/// Every key is followed by its value; keys and strings fit in a buffer of `cap` bytes.
pub open spec fn well_formed_events(evs: Seq<WriteEvent>, cap: nat) -> bool {
    forall|i: int|
        #![trigger evs[i]]
        0 <= i < evs.len() ==> {
            &&& evs[i] is Key ==> i + 1 < evs.len() && starts_element(evs[i + 1]) && !(evs[i
                + 1] is Key)
            &&& evs[i] matches WriteEvent::Key(k) ==> encode_utf8(k).len() <= cap
            &&& evs[i] matches WriteEvent::Str(v) ==> encode_utf8(v).len() <= cap
            &&& evs[i] matches WriteEvent::Int(v) ==> decimal_int(v).len() <= cap
        }
}

/// The reader's state before the `i`-th event.
pub open spec fn state_before(evs: Seq<WriteEvent>, i: int) -> ReaderState {
    if i <= 0 {
        ReaderState::Initial
    } else if evs[i - 1] is Open {
        ReaderState::Initial
    } else if evs[i - 1] is Key {
        ReaderState::AfterKey
    } else {
        ReaderState::AfterValue
    }
}

/// The first `n` tokens, or `None` if reading fails before.
pub open spec fn read_tokens<E>(m: ReaderModel, n: nat, lenient: bool, cap: nat) -> Option<
    Seq<TokenModel>,
>
    decreases n,
{
    if n == 0 {
        Some(Seq::empty())
    } else {
        let (t, m1) = next_token::<E>(m, lenient, cap);
        match t {
            Ok(tok) => match read_tokens::<E>(m1, (n - 1) as nat, lenient, cap) {
                Some(rest) => Some(seq![tok] + rest),
                None => None,
            },
            Err(_) => None,
        }
    }
}

/// After a value, the compact text goes on with a comma or a closing bracket, if at all.
proof fn lemma_text_after_value(evs: Seq<WriteEvent>, i: int)
    requires
        0 <= i < evs.len(),
        ends_value(evs[i]),
    ensures
        ({
            let t = compact_text_from(evs, i + 1);
            t.len() == 0 || t[0] == 0x2c || t[0] == 0x7d || t[0] == 0x5d
        }),
{
    if i + 1 < evs.len() {
        let e = evs[i + 1];
        let t = compact_text_from(evs, i + 1);
        if !needs_comma(evs, i + 1) {
            assert(e is Close);
            assert(t =~= event_piece(e) + compact_text_from(evs, i + 2));
        } else {
            assert(t =~= seq![0x2cu8] + event_piece(e) + compact_text_from(evs, i + 2));
        }
    }
}

/// One event: its token is read, and the reader ends in the state for the next event.
#[verifier::rlimit(40)]
proof fn lemma_read_event<E>(m: ReaderModel, evs: Seq<WriteEvent>, i: int, lenient: bool, cap: nat)
    requires
        0 <= i < evs.len(),
        well_formed_events(evs, cap),
        m.state == state_before(evs, i),
        pending(m) == compact_text_from(evs, i),
    ensures
        next_token::<E>(m, lenient, cap).0 == Ok::<TokenModel, JsonParseError<E>>(
            event_token(evs[i]),
        ),
        next_token::<E>(m, lenient, cap).1.state == state_before(evs, i + 1),
        pending(next_token::<E>(m, lenient, cap).1) == compact_text_from(evs, i + 1),
{
    let e = evs[i];
    let t = compact_text_from(evs, i + 1);
    let m0 = if needs_comma(evs, i) {
        assert(pending(m) =~= seq![0x2cu8] + (event_piece(e) + t));
        lemma_comma_step::<E>(m, event_piece(e) + t, lenient, cap);
        ReaderModel { state: ReaderState::BeforeEntry, ..taken(m) }
    } else {
        assert(pending(m) =~= event_piece(e) + t);
        m
    };
    assert(pending(m0) == event_piece(e) + t);
    assert(next_token::<E>(m, lenient, cap) == next_token::<E>(m0, lenient, cap));
    if i > 0 && evs[i - 1] is Key {
        assert(starts_element(e) && !(e is Key));
    }
    match e {
        WriteEvent::Open(o) => {
            lemma_bracket_round_trip::<E>(m0, if o { 0x7bu8 } else { 0x5bu8 }, t, lenient, cap);
        },
        WriteEvent::Close(o) => {
            lemma_bracket_round_trip::<E>(m0, if o { 0x7du8 } else { 0x5du8 }, t, lenient, cap);
        },
        WriteEvent::Key(k) => {
            assert(event_piece(e) + t =~= quoted(encode_utf8(k)) + seq![0x3au8] + t);
            lemma_key_round_trip::<E>(m0, k, t, lenient, cap);
        },
        WriteEvent::Str(v) => {
            lemma_text_after_value(evs, i);
            lemma_string_round_trip::<E>(m0, v, t, lenient, cap);
        },
        WriteEvent::Int(v) => {
            lemma_text_after_value(evs, i);
            lemma_integer_round_trip::<E>(m0, v, t, lenient, cap);
        },
        WriteEvent::Bool(b) => {
            let first: u8 = if b { 0x74u8 } else { 0x66u8 };
            assert(event_piece(e) + t =~= seq![first] + literal_rest(first) + t);
            lemma_literal_round_trip::<E>(m0, first, t, lenient, cap);
        },
        WriteEvent::Null => {
            assert(event_piece(e) + t =~= seq![0x6eu8] + literal_rest(0x6e) + t);
            lemma_literal_round_trip::<E>(m0, 0x6e, t, lenient, cap);
        },
    }
}

proof fn lemma_read_events_from<E>(m: ReaderModel, evs: Seq<WriteEvent>, i: int, lenient: bool, cap: nat)
    requires
        0 <= i <= evs.len(),
        well_formed_events(evs, cap),
        m.state == state_before(evs, i),
        pending(m) == compact_text_from(evs, i),
    ensures
        read_tokens::<E>(m, (evs.len() - i) as nat, lenient, cap) == Some(
            evs.subrange(i, evs.len() as int).map_values(|e: WriteEvent| event_token(e)),
        ),
    decreases evs.len() - i,
{
    if i == evs.len() {
        assert(evs.subrange(i, evs.len() as int).map_values(|e: WriteEvent| event_token(e))
            =~= Seq::<TokenModel>::empty());
    } else {
        lemma_read_event::<E>(m, evs, i, lenient, cap);
        let m1 = next_token::<E>(m, lenient, cap).1;
        lemma_read_events_from::<E>(m1, evs, i + 1, lenient, cap);
        assert(evs.subrange(i, evs.len() as int).map_values(|e: WriteEvent| event_token(e))
            =~= seq![event_token(evs[i])] + evs.subrange(i + 1, evs.len() as int).map_values(
            |e: WriteEvent| event_token(e),
        ));
    }
}

/// What the compact writer writes for a sequence of scope calls is read back as the matching
/// sequence of tokens: the same structure, keys, strings, booleans and nulls, and integers as
/// their decimal text.
pub proof fn lemma_compact_round_trip<E>(m: ReaderModel, evs: Seq<WriteEvent>, lenient: bool, cap: nat)
    requires
        m.state == ReaderState::Initial,
        pending(m) == compact_text_from(evs, 0),
        well_formed_events(evs, cap),
    ensures
        read_tokens::<E>(m, evs.len(), lenient, cap) == Some(
            evs.map_values(|e: WriteEvent| event_token(e)),
        ),
{
    lemma_read_events_from::<E>(m, evs, 0, lenient, cap);
    assert(evs.subrange(0, evs.len() as int) =~= evs);
}

/// With the compact formatter, the writer's scope methods append exactly the event pieces of
/// `compact_text_from`: a comma when the scope is no longer initial, then the piece.
pub proof fn lemma_compact_writer_pieces(is_initial: bool, key: Seq<char>)
    ensures
        separator(CompactFormatter, is_initial) == if is_initial {
            Seq::<u8>::empty()
        } else {
            seq![0x2cu8]
        },
        key_prefix(CompactFormatter, is_initial, encode_utf8(key)) == separator(
            CompactFormatter,
            is_initial,
        ) + event_piece(WriteEvent::Key(key)),
        open_text(CompactFormatter, 0x7bu8) == event_piece(WriteEvent::Open(true)),
        open_text(CompactFormatter, 0x5bu8) == event_piece(WriteEvent::Open(false)),
        close_text(CompactFormatter, is_initial, 0x7du8) == event_piece(WriteEvent::Close(true)),
        close_text(CompactFormatter, is_initial, 0x5du8) == event_piece(WriteEvent::Close(false)),
{
    assert(separator(CompactFormatter, is_initial) =~= if is_initial {
        Seq::<u8>::empty()
    } else {
        seq![0x2cu8]
    });
    assert(key_prefix(CompactFormatter, is_initial, encode_utf8(key)) =~= separator(
        CompactFormatter,
        is_initial,
    ) + event_piece(WriteEvent::Key(key)));
    assert(open_text(CompactFormatter, 0x7bu8) =~= event_piece(WriteEvent::Open(true)));
    assert(open_text(CompactFormatter, 0x5bu8) =~= event_piece(WriteEvent::Open(false)));
    assert(close_text(CompactFormatter, is_initial, 0x7du8) =~= event_piece(WriteEvent::Close(true)));
    assert(close_text(CompactFormatter, is_initial, 0x5du8) =~= event_piece(WriteEvent::Close(false)));
}

/// `m2` comes from `m` by taking bytes from the source: fewer bytes are left, and the offset has
/// grown by as many as were taken.
pub open spec fn advanced(m: ReaderModel, m2: ReaderModel) -> bool {
    &&& m2.rest.len() <= m.rest.len()
    &&& m2.location.offset + m2.rest.len() == m.location.offset + m.rest.len()
}

/// The offset cannot overflow while the source is read to its end.
pub open spec fn offset_fits(m: ReaderModel) -> bool {
    m.location.offset + m.rest.len() < usize::MAX
}

proof fn lemma_read_byte_advances(m: ReaderModel)
    requires
        offset_fits(m),
    ensures
        advanced(m, read_byte(m).1),
{
}

proof fn lemma_skip_whitespace_advances(m: ReaderModel)
    requires
        offset_fits(m),
    ensures
        advanced(m, skip_whitespace(m)),
    decreases measure(m),
{
    let (b, m1) = read_byte(m);
    if let Some(x) = b {
        if is_whitespace(x) {
            lemma_skip_whitespace_advances(m1);
        }
    }
}

proof fn lemma_match_literal_advances(m: ReaderModel, lit: Seq<u8>)
    requires
        offset_fits(m),
    ensures
        advanced(m, match_literal(m, lit).1),
    decreases lit.len(),
{
    if lit.len() > 0 {
        let (b, m1) = read_byte(m);
        lemma_match_literal_advances(m1, lit.drop_first());
    }
}

proof fn lemma_read_hex_advances<E>(m: ReaderModel, acc: nat, k: nat)
    requires
        offset_fits(m),
    ensures
        advanced(m, read_hex::<E>(m, acc, k).1),
    decreases k,
{
    if k > 0 {
        let (b, m1) = read_byte(m);
        if let Some(x) = b {
            if let Some(v) = hex_digit_value(x) {
                lemma_read_hex_advances::<E>(m1, acc * 16 + v as nat, (k - 1) as nat);
            }
        }
    }
}

proof fn lemma_scan_string_advances<E>(m: ReaderModel, content: Seq<u8>, cap: nat)
    requires
        offset_fits(m),
    ensures
        advanced(m, scan_string::<E>(m, content, cap).1),
    decreases measure(m),
{
    let (b, m1) = read_byte(m);
    if let Some(x) = b {
        if x == 0x5c {
            let (e, m2) = read_byte(m1);
            if let Some(esc) = e {
                if esc == 0x75 {
                    let (h, m3) = read_hex::<E>(m2, 0, 4);
                    lemma_read_hex_advances::<E>(m2, 0, 4);
                    if let Ok(cp) = h {
                        if let Ok(c) = append_content::<E>(content, utf8_of_code_point(cp), cap, m3.location) {
                            if measure(m3) < measure(m) {
                                lemma_scan_string_advances::<E>(m3, c, cap);
                            }
                        }
                    }
                } else if let Some(u) = simple_escape(esc) {
                    if let Ok(c) = append_content::<E>(content, seq![u], cap, m2.location) {
                        lemma_scan_string_advances::<E>(m2, c, cap);
                    }
                }
            }
        } else if x != 0x22 {
            if let Ok(c) = append_content::<E>(content, seq![x], cap, m1.location) {
                lemma_scan_string_advances::<E>(m1, c, cap);
            }
        }
    }
}

proof fn lemma_scan_number_advances<E>(m: ReaderModel, content: Seq<u8>, cap: nat)
    requires
        offset_fits(m),
    ensures
        advanced(m, scan_number::<E>(m, content, cap).1),
    decreases measure(m),
{
    let (b, m1) = read_byte(m);
    if let Some(x) = b {
        if is_number_byte(x) {
            if let Ok(c) = append_content::<E>(content, seq![x], cap, m1.location) {
                lemma_scan_number_advances::<E>(m1, c, cap);
            }
        }
    }
}

/// The location never goes back: each token, and each error, leaves the reader at an offset no
/// smaller than before.
pub proof fn lemma_location_is_monotonic<E>(m: ReaderModel, lenient: bool, cap: nat)
    requires
        offset_fits(m),
    ensures
        advanced(m, next_token::<E>(m, lenient, cap).1),
        next_token::<E>(m, lenient, cap).1.location.offset >= m.location.offset,
    decreases measure(m),
{
    let m1 = skip_whitespace(m);
    lemma_skip_whitespace_advances(m);
    lemma_skip_whitespace_measure(m);
    let (b, m2) = read_byte(m1);
    if let Some(x) = b {
        if x == 0x2c {
            if let Ok(s) = state_for_comma(m2.state) {
                lemma_location_is_monotonic::<E>(ReaderModel { state: s, ..m2 }, lenient, cap);
            }
        } else {
            lemma_scan_string_advances::<E>(m2, Seq::empty(), cap);
            let m3 = scan_string::<E>(m2, Seq::empty(), cap).1;
            lemma_skip_whitespace_advances(m3);
            if let Ok(s) = state_for_value(m2.state, lenient) {
                let ms = ReaderModel { state: s, ..m2 };
                lemma_match_literal_advances(ms, literal_rest(x));
                if let Ok(c) = append_content::<E>(Seq::empty(), seq![x], cap, ms.location) {
                    lemma_scan_number_advances::<E>(ms, c, cap);
                }
            }
        }
    }
}

pub proof fn lemma_escape_bytes_len(s: Seq<u8>)
    ensures
        escape_bytes(s).len() <= 6 * s.len(),
    decreases s.len(),
{
    if s.len() > 0 {
        lemma_escape_bytes_len(s.drop_last());
    }
}

/// The reader after taking `n` bytes from the source, none of them parked.
pub open spec fn scan_step_model(m: ReaderModel, n: nat) -> ReaderModel
    decreases n,
{
    if n == 0 {
        m
    } else {
        scan_step_model(read_byte(m).1, (n - 1) as nat)
    }
}

} // verus!
