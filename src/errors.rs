//! The error type shared by every parsing step.
use vstd::prelude::*;

verus! {

/// `std::io::Error`, carried opaquely inside `RouteError::Io`.
#[verifier::external_type_specification]
#[verifier::external_body]
pub struct ExIoError(std::io::Error);

/// The first character of an address field that is not a hex digit.
#[derive(Clone, Copy, Debug, PartialEq, Eq, Structural)]
pub struct ParseHexError {
    /// Position of the character, counted in characters from the start of the field.
    pub position: usize,
    /// The offending character.
    pub found: char,
}

/// Why a routing table could not be parsed.
#[derive(Debug)]
pub enum RouteError {
    /// Reading a line of the table failed.
    Io(std::io::Error),
    /// An address field holds a character that is not a hex digit.
    Parse(ParseHexError),
    /// A line has fewer than three columns, or an address field does not
    /// split into exactly four two-digit chunks.
    BadInput,
}

impl From<std::io::Error> for RouteError {
    fn from(err: std::io::Error) -> (r: RouteError)
        ensures
            r == RouteError::Io(err),
    {
        RouteError::Io(err)
    }
}

impl vstd::std_specs::convert::FromSpecImpl<std::io::Error> for RouteError {
    open spec fn obeys_from_spec() -> bool {
        true
    }

    open spec fn from_spec(err: std::io::Error) -> RouteError {
        RouteError::Io(err)
    }
}

} // verus!
