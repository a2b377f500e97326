//! The error type shared by the fallible operations of this crate.

use vstd::prelude::*;
use vstd::string::StringExecFns;

verus! {

/// The closed set of failure conditions this crate can raise on its own.
///
/// Bus-transport failures are the business of the I/O layer wrapped around
/// this crate; they never originate here.
#[derive(Debug, Clone, Copy, PartialEq, Eq, Structural)]
pub enum ErrorKind {
    /// The add/remove signal subscription ended. This is terminal: the
    /// adapter's event stream is over for good and must be re-enumerated.
    StreamEnded,
    /// A device property-change subscription ended. Terminal for that
    /// device's change stream.
    ChangesEnded,
    /// An address-type string named neither `public` nor `random`.
    InvalidAddressType,
}

/// The primary error type used throughout this library.
#[derive(Debug, Clone, Copy, PartialEq, Eq, Structural)]
pub struct Error {
    pub kind: ErrorKind,
}

impl Error {
    /// The terminal condition of the device-set event stream.
    pub fn stream_ended() -> (r: Error)
        ensures
            r.kind == ErrorKind::StreamEnded,
    {
        Error { kind: ErrorKind::StreamEnded }
    }

    /// The terminal condition of a single device's change stream.
    pub fn changes_ended() -> (r: Error)
        ensures
            r.kind == ErrorKind::ChangesEnded,
    {
        Error { kind: ErrorKind::ChangesEnded }
    }

    /// A human-readable description of the failure.
    pub fn message(&self) -> (r: String)
        ensures
            self.kind == ErrorKind::StreamEnded ==> r@ == "event stream ended (adapter disconnected?)"@,
            self.kind == ErrorKind::ChangesEnded ==> r@ == "device change stream ended"@,
            self.kind == ErrorKind::InvalidAddressType ==> r@ == "invalid address type"@,
    {
        match self.kind {
            ErrorKind::StreamEnded => String::from_str("event stream ended (adapter disconnected?)"),
            ErrorKind::ChangesEnded => String::from_str("device change stream ended"),
            ErrorKind::InvalidAddressType => String::from_str("invalid address type"),
        }
    }
}

} // verus!
