//! What the operations of the library are for: how their results hang together with what
//! was read, stated of all inputs.
//!
//! The laws of `text` and `number` say what lines, words and numbers are. The others take
//! these for granted.

pub mod amd;
pub mod battery;
pub mod binary64;
pub mod cpu;
pub mod disk;
pub mod gpu;
pub mod intel;
pub mod json;
pub mod memory;
pub mod model;
pub mod number;
pub mod nvidia;
pub mod sensors;
pub mod text;
