use vstd::prelude::*;
use tungstenite::error::Error as WsError;

verus! {

/// A result whose error is [`Error`].
pub type Result<T> = core::result::Result<T, Error>;

/// Failures that the transport side of the relay can report.
#[derive(Debug, Clone, Copy, PartialEq, Eq, Structural)]
pub enum Error {
    /// The underlying socket failed.
    Io,
    /// A message was addressed to a connection that is not registered.
    ClientNotFound,
    /// The WebSocket layer failed (handshake, framing, closed stream).
    Tungstenite,
}

/// The standard library's I/O error, carried opaquely.
#[verifier::external_type_specification]
#[verifier::external_body]
pub struct ExIoError(std::io::Error);

/// The WebSocket crate's error, carried opaquely.
#[verifier::external_type_specification]
#[verifier::external_body]
pub struct ExWsError(WsError);

impl From<WsError> for Error {
    fn from(e: WsError) -> (r: Error)
        ensures
            r == Error::Tungstenite,
    {
        Error::Tungstenite
    }
}

impl vstd::std_specs::convert::FromSpecImpl<WsError> for Error {
    open spec fn obeys_from_spec() -> bool {
        true
    }

    open spec fn from_spec(v: WsError) -> Error {
        Error::Tungstenite
    }
}

impl From<std::io::Error> for Error {
    fn from(e: std::io::Error) -> (r: Error)
        ensures
            r == Error::Io,
    {
        Error::Io
    }
}

impl vstd::std_specs::convert::FromSpecImpl<std::io::Error> for Error {
    open spec fn obeys_from_spec() -> bool {
        true
    }

    open spec fn from_spec(v: std::io::Error) -> Error {
        Error::Io
    }
}

} // verus!
