//! The error of operations that change the memory of the process.

use vstd::prelude::*;

use crate::os::OsErr;

verus! {

#[derive(Debug)]
pub enum Error {
    OsErr(OsErr),
}

impl Clone for Error {
    fn clone(&self) -> (r: Self)
        ensures
            r->OsErr_0@ == self->OsErr_0@,
    {
        match self {
            Error::OsErr(error) => Error::OsErr(error.clone()),
        }
    }
}

impl Error {
    /// Description of the error.
    pub fn message(&self) -> (r: String)
        ensures
            r@ == "OS error: "@ + ("OS error: "@ + self->OsErr_0@),
    {
        match self {
            Error::OsErr(error) => "OS error: ".to_owned().concat(error.message().as_str()),
        }
    }
}

impl From<OsErr> for Error {
    fn from(error: OsErr) -> (r: Error)
        ensures
            r == Error::OsErr(error),
    {
        Error::OsErr(error)
    }
}

impl vstd::std_specs::convert::FromSpecImpl<OsErr> for Error {
    open spec fn obeys_from_spec() -> bool {
        true
    }

    open spec fn from_spec(error: OsErr) -> Error {
        Error::OsErr(error)
    }
}

pub type Result<T> = core::result::Result<T, Error>;

/// An error of the operating system becomes an error that describes itself by the description of
/// that error, which tells the text it was made with.
pub proof fn law_error_tells_its_text(
    text: String,
    os: OsErr,
    inner: String,
    error: Error,
    r: String,
)
    requires
        call_ensures(OsErr::from_string, (text,), os),
        call_ensures(OsErr::message, (&os,), inner),
        call_ensures(<Error as From<OsErr>>::from, (os,), error),
        call_ensures(Error::message, (&error,), r),
    ensures
        inner@ == "OS error: "@ + text@,
        error == Error::OsErr(os),
        r@ == "OS error: "@ + inner@,
{
}

} // verus!
