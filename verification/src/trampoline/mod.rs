//! Machine code that leads from one function to another.

pub mod arch;
