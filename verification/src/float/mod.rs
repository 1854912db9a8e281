//! IEEE 754 binary floating point over plain integers.
//!
//! `rounding` says what it means to round an exact magnitude, `arithmetic`,
//! `division` and `conversion` compute on bit patterns of either format, `laws`
//! and `error` tell what rounding keeps and what it loses, and `double` and
//! `single` give the two formats their types.
pub mod arithmetic;
pub mod conversion;
pub mod division;
pub mod double;
pub mod error;
pub mod laws;
pub mod rounding;
pub mod single;
