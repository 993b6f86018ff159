//! Near allocators, pointer hooks and call thunks.

pub mod allocator;
pub mod arith;
pub mod error;
pub mod hook;
pub mod os;
pub mod trampoline;

pub use error::{Error, Result};
