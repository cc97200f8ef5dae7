//! Errors of HTTP/2 (RFC 7540, section 7): a code, and whether the stream
//! or the whole connection is at fault.

use vstd::prelude::*;
use vstd::string::StringExecFns;

verus! {

/// An error code.
#[derive(Debug, Clone, Copy, PartialEq, Eq, Structural)]
pub enum Code {
    NoError,
    ProtocolError,
    InternalError,
    FlowControlError,
    SettingsTimeout,
    StreamClosed,
    FrameSizeError,
    RefusedStream,
    Cancel,
    CompressionError,
    ConnectError,
    EnhanceYourCalm,
    InadequateSecurity,
    Http1Required,
    /// A code from the wire that has no name here, kept as its number.
    Unknown(u32),
}

/// The codes that have a name, at the place of their number on the wire.
pub const ALL_ERRORS: [Code; 14] = [
    Code::NoError,
    Code::ProtocolError,
    Code::InternalError,
    Code::FlowControlError,
    Code::SettingsTimeout,
    Code::StreamClosed,
    Code::FrameSizeError,
    Code::RefusedStream,
    Code::Cancel,
    Code::CompressionError,
    Code::ConnectError,
    Code::EnhanceYourCalm,
    Code::InadequateSecurity,
    Code::Http1Required,
];

impl Code {
    /// The number of the code on the wire.
    pub open spec fn h2_id(self) -> int {
        match self {
            Code::NoError => 0,
            Code::ProtocolError => 1,
            Code::InternalError => 2,
            Code::FlowControlError => 3,
            Code::SettingsTimeout => 4,
            Code::StreamClosed => 5,
            Code::FrameSizeError => 6,
            Code::RefusedStream => 7,
            Code::Cancel => 8,
            Code::CompressionError => 9,
            Code::ConnectError => 10,
            Code::EnhanceYourCalm => 11,
            Code::InadequateSecurity => 12,
            Code::Http1Required => 13,
            Code::Unknown(id) => id as int,
        }
    }

    /// A code with a name, or an unknown code whose number has no name.
    pub open spec fn canonical(self) -> bool {
        match self {
            Code::Unknown(id) => id >= 14,
            _ => true,
        }
    }

    /// The code with the number `id`, which is one of the 14 that have a name.
    pub fn from_h2_id(id: usize) -> (code: Code)
        requires
            id < 14,
        ensures
            code.h2_id() == id,
            code.canonical(),
    {
        ALL_ERRORS[id]
    }

    /// The code with the number `id`: the code of that name, or `Unknown`
    /// with the number.
    pub fn from_wire(id: u32) -> (code: Code)
        ensures
            code.h2_id() == id,
            code.canonical(),
    {
        if id < 14 {
            Code::from_h2_id(id as usize)
        } else {
            Code::Unknown(id)
        }
    }

    pub fn to_h2_id(&self) -> (id: usize)
        ensures
            id == self.h2_id(),
    {
        match self {
            Code::NoError => 0,
            Code::ProtocolError => 1,
            Code::InternalError => 2,
            Code::FlowControlError => 3,
            Code::SettingsTimeout => 4,
            Code::StreamClosed => 5,
            Code::FrameSizeError => 6,
            Code::RefusedStream => 7,
            Code::Cancel => 8,
            Code::CompressionError => 9,
            Code::ConnectError => 10,
            Code::EnhanceYourCalm => 11,
            Code::InadequateSecurity => 12,
            Code::Http1Required => 13,
            Code::Unknown(id) => *id as usize,
        }
    }

    /// The name of the code, as it stands in messages.
    pub open spec fn spec_name(self) -> Seq<char> {
        match self {
            Code::NoError => "NoError"@,
            Code::ProtocolError => "ProtocolError"@,
            Code::InternalError => "InternalError"@,
            Code::FlowControlError => "FlowControlError"@,
            Code::SettingsTimeout => "SettingsTimeout"@,
            Code::StreamClosed => "StreamClosed"@,
            Code::FrameSizeError => "FrameSizeError"@,
            Code::RefusedStream => "RefusedStream"@,
            Code::Cancel => "Cancel"@,
            Code::CompressionError => "CompressionError"@,
            Code::ConnectError => "ConnectError"@,
            Code::EnhanceYourCalm => "EnhanceYourCalm"@,
            Code::InadequateSecurity => "InadequateSecurity"@,
            Code::Http1Required => "Http1Required"@,
            Code::Unknown(_) => "Unknown"@,
        }
    }

    pub fn name(&self) -> (r: &'static str)
        ensures
            r@ == self.spec_name(),
    {
        match self {
            Code::NoError => "NoError",
            Code::ProtocolError => "ProtocolError",
            Code::InternalError => "InternalError",
            Code::FlowControlError => "FlowControlError",
            Code::SettingsTimeout => "SettingsTimeout",
            Code::StreamClosed => "StreamClosed",
            Code::FrameSizeError => "FrameSizeError",
            Code::RefusedStream => "RefusedStream",
            Code::Cancel => "Cancel",
            Code::CompressionError => "CompressionError",
            Code::ConnectError => "ConnectError",
            Code::EnhanceYourCalm => "EnhanceYourCalm",
            Code::InadequateSecurity => "InadequateSecurity",
            Code::Http1Required => "Http1Required",
            Code::Unknown(_) => "Unknown",
        }
    }
}

/// What an error brings down.
#[derive(Debug, Clone, Copy, PartialEq, Eq, Structural)]
pub enum Level {
    StreamLevel,
    ConnectionLevel,
}

/// An error: its level, its code, a message for people, and the text of what
/// caused it where something did.
#[derive(Debug)]
pub struct Error {
    pub level: Level,
    pub code: Code,
    pub message: String,
    pub cause: Option<String>,
}

/// The message of an error with the code `code` and the details `details`.
pub open spec fn message_text(code: Code, details: Seq<char>) -> Seq<char> {
    "Code: "@ + code.spec_name() + ", with details \""@ + details + "\""@
}

impl Error {
    pub fn new(level: Level, code: Code, message: String) -> (e: Error)
        ensures
            e.level == level,
            e.code == code,
            e.message@ == message_text(code, message@),
            e.cause.is_none(),
    {
        let mut desp = String::from_str("Code: ");
        desp.append(code.name());
        desp.append(", with details \"");
        desp.append(message.as_str());
        desp.append("\"");
        Error { level, code, message: desp, cause: None }
    }

    /// An error with a cause. The cause is named in the message and kept.
    pub fn new_with_cause(level: Level, code: Code, message: String, cause: String) -> (e: Error)
        ensures
            e.level == level,
            e.code == code,
            e.message@ == message_text(code, message@) + ", caused by "@ + cause@,
            e.cause == Some(cause),
    {
        let mut desp = String::from_str("Code: ");
        desp.append(code.name());
        desp.append(", with details \"");
        desp.append(message.as_str());
        desp.append("\"");
        desp.append(", caused by ");
        desp.append(cause.as_str());
        Error { level, code, message: desp, cause: Some(cause) }
    }

    /// An error with the details `details`.
    pub fn with_details(level: Level, code: Code, details: &str) -> (e: Error)
        ensures
            e.level == level,
            e.code == code,
            e.message@ == message_text(code, details@),
            e.cause.is_none(),
    {
        Error::new(level, code, String::from_str(details))
    }

    /// The message, as `to_string` of an error gives it.
    pub fn to_string(&self) -> (r: String)
        ensures
            r@ == self.message@,
    {
        self.message.clone()
    }
}

} // verus!
