//! Parsing toolkit for a small declaration language over lexical tokens.
//!
//! A token stream is turned into declarations, parameters and key/value
//! definitions. Every function carries a contract over the mathematical view
//! of the tokens it reads and the tree it builds.

pub mod cursor;
pub mod declaration;
pub mod define;
pub mod error;
pub mod find_first;
pub mod grammar;
pub mod param;
pub mod parse_utils;
pub mod punct_set;
pub mod round_trip;
pub mod stringify;
pub mod text;
pub mod token;
