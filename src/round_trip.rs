//! The laws of `laws` carried through the executable writer and reader, for in-memory sources
//! and sinks that never fail.
use vstd::prelude::*;

use crate::io::VecRead;
use crate::laws::{
    is_plain_text, lemma_bracket_round_trip, lemma_buffer_capacity_boundary,
    lemma_compact_writer_pieces, lemma_escape_bytes_len, lemma_string_round_trip, pending,
};
use crate::location::Location;
use crate::reader::JsonReader;
use crate::scope::JsonArray;
use crate::token::{JsonParseError, JsonParseResult, JsonReadToken, TokenModel};
use crate::writer::{JsonWriter, quoted};
use vstd::string::StringSliceAdditionalSpecFns;
use vstd::utf8::{decode_utf8, encode_utf8, valid_utf8};

verus! {

/// The round trip through the executable writer and reader: a string written as the only
/// element of an array by the compact writer is read back as the start of an array, a string
/// literal with the same characters, and the end of the array.
pub fn round_trip_string_element(value: &str) -> (r: (JsonReadToken, JsonReadToken, JsonReadToken))
    requires
        value.spec_bytes().len() < usize::MAX / 8,
    ensures
        r.0@ == TokenModel::StartArray,
        r.1@ == TokenModel::StringLiteral(value@),
        r.2@ == TokenModel::EndArray,
{
    let mut writer = JsonWriter::new_compact(Vec::new());
    let mut array = match JsonArray::new(&mut writer) {
        Ok(a) => a,
        Err(_) => {
            proof {
                assert(false);
            }
            return (JsonReadToken::EndOfStream, JsonReadToken::EndOfStream, JsonReadToken::EndOfStream);
        },
    };
    let written_value = array.write_string_value(&mut writer, value);
    let ended = array.end(&mut writer);
    let bytes = writer.take_output();
    let ghost text = encode_utf8(value@);
    proof {
        lemma_escape_bytes_len(text);
        lemma_compact_writer_pieces(true, value@);
        assert(bytes@ =~= seq![0x5bu8] + (quoted(text) + seq![0x5du8]));
    }
    let mut reader = JsonReader::new(value.len(), VecRead::new(bytes));
    let ghost m0 = reader.model();
    let t0 = reader.next();
    let ghost m1 = reader.model();
    let t1 = reader.next();
    let ghost m2 = reader.model();
    let t2 = reader.next();
    proof {
        let cap = value.spec_bytes().len() as nat;
        assert(pending(m0) == seq![0x5bu8] + (quoted(text) + seq![0x5du8]));
        lemma_bracket_round_trip::<core::convert::Infallible>(m0, 0x5bu8, quoted(text) + seq![0x5du8], false, cap);
        lemma_string_round_trip::<core::convert::Infallible>(m1, value@, seq![0x5du8], false, cap);
        assert(seq![0x5du8] + Seq::<u8>::empty() =~= seq![0x5du8]);
        lemma_bracket_round_trip::<core::convert::Infallible>(m2, 0x5du8, Seq::empty(), false, cap);
    }
    match (t0, t1, t2) {
        (Ok(a), Ok(b), Ok(c)) => (a, b, c),
        _ => {
            proof {
                assert(false);
            }
            (JsonReadToken::EndOfStream, JsonReadToken::EndOfStream, JsonReadToken::EndOfStream)
        },
    }
}

/// The buffer boundary through the executable reader: the string literal `"content"` is read
/// with a buffer of `cap` bytes. Content as long as the buffer is read whole; one byte more
/// overflows the buffer, at the location of that byte.
pub fn read_quoted_with_capacity(content: &[u8], cap: usize) -> (r: JsonParseResult<
    JsonReadToken,
    core::convert::Infallible,
>)
    requires
        content@.len() + 8 < usize::MAX,
        is_plain_text(content@),
    ensures
        cap == content@.len() && valid_utf8(content@) ==> (r matches Ok(t) && t@
            == TokenModel::StringLiteral(decode_utf8(content@))),
        cap + 1 == content@.len() ==> r == JsonParseResult::<
            JsonReadToken,
            core::convert::Infallible,
        >::Err(
            JsonParseError::BufferOverflow(
                Location::spec_start().spec_after_bytes(seq![0x22u8] + content@),
            ),
        ),
{
    let mut bytes: Vec<u8> = Vec::new();
    bytes.push(0x22);
    let mut i: usize = 0;
    while i < content.len()
        invariant
            i <= content@.len(),
            bytes@ == seq![0x22u8] + content@.subrange(0, i as int),
        decreases content@.len() - i,
    {
        bytes.push(content[i]);
        i = i + 1;
        assert(bytes@ =~= seq![0x22u8] + content@.subrange(0, i as int));
    }
    bytes.push(0x22);
    assert(content@.subrange(0, content@.len() as int) =~= content@);
    assert(bytes@ =~= seq![0x22u8] + content@ + seq![0x22u8]);
    let mut reader = JsonReader::new_with_provided_buffer(vec![0u8; cap], VecRead::new(bytes), false);
    let ghost m0 = reader.model();
    proof {
        lemma_buffer_capacity_boundary::<core::convert::Infallible>(m0, content@, false, cap as nat);
    }
    reader.next()
}

} // verus!
