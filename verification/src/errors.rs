use vstd::prelude::*;

verus! {

/// Errors reported by the encoding, protocol and slice layers.
#[derive(Debug, Clone, Copy, PartialEq, Eq, Structural)]
pub enum Error {
    /// A byte buffer could not be decoded into the requested value.
    CannotDeserialize,
    /// A message header did not start with the `IceP` magic.
    WrongProtocolMagic,
    /// The transport failed or the peer answered unexpectedly.
    TcpError,
    /// A message of an unexpected kind was received.
    ProtocolError,
    /// A slice definition could not be parsed.
    ParsingError,
}


/// A message of an unexpected kind was received.
#[derive(Debug)]
pub struct ProtocolError {}

/// A slice definition could not be parsed.
#[derive(Debug)]
pub struct ParsingError {}

/// The server reported a failure.
#[derive(Debug)]
pub struct RemoteException {
    pub cause: String,
}

/// A user exception raised by an operation.
#[derive(Debug)]
pub struct UserError<T> {
    pub exception: T,
}

impl ProtocolError {
    /// The text that describes this error.
    pub fn message(&self) -> (s: String)
        ensures
            s@ == "ProtocolError!"@,
    {
        "ProtocolError!".to_owned()
    }
}

impl ParsingError {
    /// The text that describes this error.
    pub fn message(&self) -> (s: String)
        ensures
            s@ == "ParsingError!"@,
    {
        "ParsingError!".to_owned()
    }
}

impl RemoteException {
    /// The text that describes this error: a fixed prefix followed by the cause.
    pub fn message(&self) -> (s: String)
        ensures
            s@ == "RemoteException: "@ + self.cause@,
    {
        let mut s = "RemoteException: ".to_owned();
        s.append(self.cause.as_str());
        s
    }
}

} // verus!
