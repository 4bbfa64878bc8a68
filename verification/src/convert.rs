//! Conversions between notations of numbers.

pub mod hanzi2num;
