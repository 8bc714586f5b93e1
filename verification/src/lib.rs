//! Decoding of governance records from their compact binary form, and their
//! canonical textual rendering.
//!
//! Five kinds of record are read: stored proposals, sequences of votes,
//! tally results, commission pairs and addresses. `decoder` turns a buffer
//! into a value of `model`; `output` and `render` turn the value into what is
//! shown of it; `json` writes that as text; `parse` does the three in one
//! call.
//!
//! The format is little-endian: integers have a fixed width, strings and
//! sequences are preceded by a length in four bytes, unions by a discriminant
//! in one byte, optional values by a flag in one byte. `codec` reads the
//! leaves, `wire` defines what an encoding is and reads sequences, optional
//! values and proposal types, `records` and `proposal` read the records.
//!
//! Every function returns a value or an error; none keeps state.

pub mod codec;
pub mod content;
pub mod decoder;
pub mod json;
pub mod model;
pub mod numbers;
pub mod output;
pub mod parse;
pub mod proposal;
pub mod records;
pub mod render;
pub mod text;
pub mod wire;
