//! ATT error codes and the tool's error type.

use vstd::prelude::*;
use crate::text::push_str;

verus! {

/// An ATT protocol error code.
#[derive(Debug, Clone, Copy, PartialEq, Eq, Structural)]
pub struct AttError(pub u8);

/// BlueZ's `att_ecode2str()` text for an ATT error code.
pub open spec fn att_error_text(code: u8) -> Seq<char> {
    if code == 0x01 {
        "Invalid handle"@
    } else if code == 0x02 {
        "Attribute can't be read"@
    } else if code == 0x03 {
        "Attribute can't be written"@
    } else if code == 0x04 {
        "Attribute PDU was invalid"@
    } else if code == 0x05 {
        "Attribute requires authentication before read/write"@
    } else if code == 0x06 {
        "Server doesn't support the request received"@
    } else if code == 0x07 {
        "Offset past the end of the attribute"@
    } else if code == 0x08 {
        "Attribute requires authorization before read/write"@
    } else if code == 0x09 {
        "Too many prepare writes have been queued"@
    } else if code == 0x0A {
        "No attribute found within the given range"@
    } else if code == 0x0B {
        "Attribute can't be read/written using Read Blob Req"@
    } else if code == 0x0C {
        "Encryption Key Size is insufficient"@
    } else if code == 0x0D {
        "Attribute value length is invalid"@
    } else if code == 0x0E {
        "Request attribute has encountered an unlikely error"@
    } else if code == 0x0F {
        "Encryption required before read/write"@
    } else if code == 0x10 {
        "Attribute type is not a supported grouping attribute"@
    } else if code == 0x11 {
        "Insufficient Resources to complete the request"@
    } else if code == 0x80 {
        "Internal application error: I/O"@
    } else if code == 0x81 {
        "A timeout occurred"@
    } else if code == 0x82 {
        "The operation was aborted"@
    } else {
        "Unexpected error code"@
    }
}

impl AttError {
    /// The text BlueZ gives for this error code.
    pub fn as_str(&self) -> (r: &'static str)
        ensures
            r@ == att_error_text(self.0),
    {
        match self.0 {
            0x01 => "Invalid handle",
            0x02 => "Attribute can't be read",
            0x03 => "Attribute can't be written",
            0x04 => "Attribute PDU was invalid",
            0x05 => "Attribute requires authentication before read/write",
            0x06 => "Server doesn't support the request received",
            0x07 => "Offset past the end of the attribute",
            0x08 => "Attribute requires authorization before read/write",
            0x09 => "Too many prepare writes have been queued",
            0x0A => "No attribute found within the given range",
            0x0B => "Attribute can't be read/written using Read Blob Req",
            0x0C => "Encryption Key Size is insufficient",
            0x0D => "Attribute value length is invalid",
            0x0E => "Request attribute has encountered an unlikely error",
            0x0F => "Encryption required before read/write",
            0x10 => "Attribute type is not a supported grouping attribute",
            0x11 => "Insufficient Resources to complete the request",
            0x80 => "Internal application error: I/O",
            0x81 => "A timeout occurred",
            0x82 => "The operation was aborted",
            _ => "Unexpected error code",
        }
    }
}

/// Errors of the tool.  Errors that come from the Bluetooth stack or from
/// I/O carry their message text.
#[derive(Debug)]
pub enum GrattError {
    Adapter(String),
    Connection(String),
    Gatt(String),
    InvalidHandle(String),
    InvalidValue(String),
    InvalidUuid(String),
    NotConnected,
    Bluer(String),
    Io(String),
}

/// The text an error displays.
pub open spec fn error_text(e: GrattError) -> Seq<char> {
    match e {
        GrattError::Adapter(m) => m@,
        GrattError::Connection(m) => m@,
        GrattError::Gatt(m) => m@,
        GrattError::InvalidHandle(m) => m@,
        GrattError::InvalidValue(m) => m@,
        GrattError::InvalidUuid(m) => m@,
        GrattError::NotConnected => "Disconnected"@,
        GrattError::Bluer(m) => m@,
        GrattError::Io(m) => m@,
    }
}

impl GrattError {
    /// The error's display text.
    pub fn message(&self) -> (r: String)
        ensures
            r@ == error_text(*self),
    {
        let mut s = String::new();
        match self {
            GrattError::Adapter(m) => push_str(&mut s, m.as_str()),
            GrattError::Connection(m) => push_str(&mut s, m.as_str()),
            GrattError::Gatt(m) => push_str(&mut s, m.as_str()),
            GrattError::InvalidHandle(m) => push_str(&mut s, m.as_str()),
            GrattError::InvalidValue(m) => push_str(&mut s, m.as_str()),
            GrattError::InvalidUuid(m) => push_str(&mut s, m.as_str()),
            GrattError::NotConnected => push_str(&mut s, "Disconnected"),
            GrattError::Bluer(m) => push_str(&mut s, m.as_str()),
            GrattError::Io(m) => push_str(&mut s, m.as_str()),
        }
        s
    }
}

} // verus!
