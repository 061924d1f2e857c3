//! The errors of a search.

use vstd::prelude::*;

verus! {

/// `std::io::Error`, declared so that it can be carried through verified
/// code. Nothing is known of what such a value holds.
#[verifier::external_type_specification]
#[verifier::external_body]
pub struct ExIoError(std::io::Error);

/// A type alias for `Result<T, byteseeker::Error>`.
pub type Result<T> = std::result::Result<T, Error>;

/// The specific type of an error.
///
/// This list might grow over time and it is not recommended to
/// exhaustively match against it.
#[derive(Debug)]
#[non_exhaustive]
pub enum ErrorKind {
    /// Represents an I/O error.
    ///
    /// Can occur when reading the underlying byte stream.
    Io(std::io::Error),
    /// The seeking byte slice is not found within the given byte stream.
    ByteNotFound,
    /// The length of the given byte slice is zero,
    /// or exceeds the capacity of `ByteSeeker`.
    UnsupportedLength,
}

/// An error that can occur when seeking bytes.
#[derive(Debug)]
pub struct Error(Box<ErrorKind>);

impl Error {
    /// The kind that this error wraps.
    pub closed spec fn spec_kind(&self) -> ErrorKind {
        *self.0
    }

    /// Wraps `kind` in an error.
    pub fn new(kind: ErrorKind) -> (e: Error)
        ensures
            e.spec_kind() == kind,
    {
        Error(Box::new(kind))
    }

    /// Returns the specific type of this error.
    pub fn kind(&self) -> (k: &ErrorKind)
        ensures
            *k == self.spec_kind(),
    {
        &self.0
    }

    /// Unwraps this error into its underlying type.
    pub fn into_kind(self) -> (k: ErrorKind)
        ensures
            k == self.spec_kind(),
    {
        *self.0
    }

    /// The text that describes this error to a reader. For an I/O error it
    /// is the text that the wrapped error displays.
    pub fn message(&self) -> (s: String)
        ensures
            self.spec_kind() is ByteNotFound ==> s@ == "Byte not found"@,
            self.spec_kind() is UnsupportedLength ==> s@
                == "The length of the given byte slice is zero, or excesses the capacity of `ByteSeeker`"@,
            self.spec_kind() matches ErrorKind::Io(err)
                ==> vstd::string::to_string_from_display_ensures::<std::io::Error>(&err, s),
    {
        match &*self.0 {
            ErrorKind::Io(err) => err.to_string(),
            ErrorKind::ByteNotFound => String::from_str("Byte not found"),
            ErrorKind::UnsupportedLength => String::from_str(
                "The length of the given byte slice is zero, or excesses the capacity of `ByteSeeker`",
            ),
        }
    }
}

impl From<std::io::Error> for Error {
    fn from(err: std::io::Error) -> (e: Error) {
        Error::new(ErrorKind::Io(err))
    }
}

impl vstd::std_specs::convert::FromSpecImpl<std::io::Error> for Error {
    open spec fn obeys_from_spec() -> bool {
        true
    }

    closed spec fn from_spec(err: std::io::Error) -> Error {
        Error(Box::new(ErrorKind::Io(err)))
    }
}

/// What converting an I/O error gives: an error of kind `Io` that wraps it.
pub proof fn lemma_from_io_error(err: std::io::Error)
    ensures
        <Error as vstd::std_specs::convert::FromSpec<std::io::Error>>::from_spec(err).spec_kind()
            == ErrorKind::Io(err),
{
}

} // verus!
