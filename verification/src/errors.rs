//! The closed set of error kinds the core can produce. Each variant carries
//! a human-readable detail string; errors are never retried inside the core.

use vstd::prelude::*;

verus! {

/// Everything that can go wrong while probing, validating or flashing.
#[derive(Debug, Clone, PartialEq, Eq)]
pub enum Error {
    /// A USB operation failed (enumeration, open, claim, read, write, timeout).
    Usb(String),
    /// No USB interface with the ADB class/subclass pair was found.
    DeviceNotFound,
    /// A local file or journal operation on the payload failed.
    Io(String),
    /// A header magic/length violation, an unexpected frame command, or an
    /// unparsable sideload block number.
    Protocol(String),
    /// A network or HTTP failure during validation.
    Http(String),
    /// An AES or Base64 failure during validation.
    Crypto(String),
    /// The validation response decoded, but did not hold the expected JSON.
    InvalidResponse(String),
    /// A fallback for unanticipated failures.
    Other(String),
}

} // verus!
