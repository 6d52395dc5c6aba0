//! Odd bytes with text and keyed-record forms, and a two-kind error that keeps
//! "not a number" apart from "even".
pub mod decimal;
pub mod odd;

pub use crate::odd::{InvalidOddNumber, OddNum, OddNumRecord};
