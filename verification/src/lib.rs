//! Lexical core for finding misspellings in text and source code.
//!
//! - [`tokens`]: symbols are taken out of raw bytes and split into their words
//!   at case transitions; [`pattern`] holds the symbol pattern and its
//!   searches, [`modes`] the character classes and the splitting itself,
//!   [`text`] the byte offsets of characters.
//! - [`scan`]: a buffer is read line by line, a correction is asked for each
//!   symbol, and a message is made for each correction.
//! - [`config`]: settings come from layered documents whose fields may be left
//!   unset; [`strmap`] is the map that the user's own corrections are kept in.
//! - [`word_laws`] and [`config_laws`] state what holds of every split and of
//!   every merge.

pub mod config;
pub mod config_laws;
pub mod modes;
pub mod pattern;
pub mod scan;
pub mod strmap;
pub mod text;
pub mod tokens;
pub mod word_laws;
