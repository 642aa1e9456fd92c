//! System monitoring: what the kernel's text interfaces and a few command line
//! tools say about CPU, memory, disks, batteries, GPUs and sensors.
//!
//! Everything here is a function of what was read. Reading files, running
//! commands and floating-point arithmetic are left to the caller.

pub mod battery;
pub mod binary64;
pub mod cpu;
pub mod disk;
pub mod gpu;
pub mod json;
pub mod laws;
pub mod memory;
pub mod number;
pub mod sensors;
pub mod table;
pub mod text;
pub mod util;

