//! Streaming JSON: a pull-based tokenizer over a byte source and a scope-tracking writer into a
//! byte sink, neither of which builds a document in memory.
//!
//! The reader's behaviour is stated by `tokenizer::next_token`, a model of one step over the
//! bytes still to be read; `reader::JsonReader::next` is proved to follow it exactly (apart from
//! I/O errors of the source). The writer's methods state the exact bytes they append, and its
//! scopes may only be written while no scope nested in them is open. `laws` relates the two:
//! what the compact writer writes is read back as the same tokens; `round_trip` carries some of
//! these laws through the executable writer and reader.
use vstd::prelude::*;

pub mod location;
pub mod io;
pub mod token;
pub mod inner;
pub mod tokenizer;
pub mod reader;
pub mod formatter;
pub mod writer;
pub mod scope;
pub mod laws;
pub mod round_trip;

verus! {

} // verus!
