//! Machine code, by processor architecture.

pub mod aarch64;
pub mod bytes;
pub mod traits;
pub mod x86;
pub mod x86_64;
