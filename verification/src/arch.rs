//! Architecture-specific parts: page sizes and tables of the other supported
//! layouts, bit counts and scans, the serial port, and processor
//! identification.
pub mod aarch64;
pub mod x86;
pub mod x86_32;
pub mod cpuid;
pub mod cpu;
