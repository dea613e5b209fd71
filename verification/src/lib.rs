//! Decoder for PARAM.SFO, the tagged key/value container that PlayStation
//! game packages use for their metadata.
//!
//! [`parser::parse_param_sfo`] turns a byte buffer into a map from key names
//! to typed values, or says why the buffer was rejected. What the decoder
//! returns is defined in [`format`] as a mathematical function of the bytes;
//! the executable code in [`parser`] is proved to compute that function, and
//! [`theorems`] holds what follows for every buffer.
//!
//! [`summary`] draws from a decoded package the identifiers that a catalogue
//! of packages is keyed by, and keeps what was seen for each of them.
//!
//! The bytes are read with nom. Its readers stand behind contracts that are
//! believed rather than proved; they are all in one private module.

pub mod error;
pub mod format;
pub mod parser;
mod primitives;
pub mod summary;
pub mod text;
pub mod theorems;
