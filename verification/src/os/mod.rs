//! What is asked of the operating system.

use vstd::prelude::*;

pub mod access;
pub mod exception;
pub mod memory;
pub mod native;

verus! {

/// An error from the operating system represented as a human-readable string.
///
/// Although these errors are not meant to be recoverable in the context of this crate,
/// it is sometimes safer to ignore them instead of panicking.
#[derive(Debug)]
pub struct OsErr {
    error: String,
}

impl View for OsErr {
    type V = Seq<char>;

    closed spec fn view(&self) -> Seq<char> {
        self.error@
    }
}

impl Clone for OsErr {
    fn clone(&self) -> (r: Self)
        ensures
            r@ == self@,
    {
        OsErr { error: self.error.clone() }
    }
}

impl OsErr {
    pub fn from_str(error: &'static str) -> (r: Self)
        ensures
            r@ == error@,
    {
        OsErr { error: error.to_owned() }
    }

    pub fn from_string(error: String) -> (r: Self)
        ensures
            r@ == error@,
    {
        OsErr { error }
    }

    /// Description of the error.
    pub fn message(&self) -> (r: String)
        ensures
            r@ == "OS error: "@ + self@,
    {
        "OS error: ".to_owned().concat(self.error.as_str())
    }
}

/// Trait used to provide implementations of OS functions required by the crate in a
/// cross-platform manner.
pub trait OsFunctions: memory::MemFunctions {

}

/// An error that is made of a text, or cloned, tells that text.
pub proof fn law_error_is_made_of_its_text(
    text: &'static str,
    error: OsErr,
    copy: OsErr,
    r: String,
)
    requires
        call_ensures(OsErr::from_str, (text,), error),
        call_ensures(OsErr::clone, (&error,), copy),
        call_ensures(OsErr::message, (&copy,), r),
    ensures
        r@ == "OS error: "@ + text@,
{
}

} // verus!
