//! The pipeline's errors and their messages.

use vstd::prelude::*;
use crate::text::{concat2, concat3, u64_to_decimal, decimal};

verus! {

/// What went wrong in the pipeline. Errors of the operating system and of
/// UTF-8 decoding are carried as their messages.
#[derive(Debug, Clone, PartialEq, Eq)]
pub enum PipelineError {
    SocketError(String),
    ConnectionError(String),
    IoError(String),
    SendError { bytes: usize, message: String },
    RecvError { bytes: usize, message: String },
    FileError { operation: String, path: String, message: String },
    DirectoryError { operation: String, path: String, message: String },
    CommandError(String),
    SerializationError(String),
    DeserializationError(String),
    ConfigError(String),
    ParseError { field: String, message: String },
    ArgumentError(String),
    ConversionError(String),
    Utf8Error(String),
    InvalidCommandId(u64),
    ShutdownError(String),
    ProtocolError(String),
}

/// The message of an error, as its `Display` writes it.
pub open spec fn error_text(e: PipelineError) -> Seq<char> {
    match e {
        PipelineError::SocketError(m) => "Socket error: "@ + m@,
        PipelineError::ConnectionError(m) => "Connection error: "@ + m@,
        PipelineError::IoError(m) => "I/O error: "@ + m@,
        PipelineError::SendError { bytes, message } => "Send error: failed to send "@ + decimal(
            bytes as nat,
        ) + " bytes - "@ + message@,
        PipelineError::RecvError { bytes, message } => "Receive error: failed to receive "@ + decimal(
            bytes as nat,
        ) + " bytes - "@ + message@,
        PipelineError::FileError { operation, path, message } => "File error: "@ + operation@
            + " failed for '"@ + path@ + "' - "@ + message@,
        PipelineError::DirectoryError { operation, path, message } => "Directory error: "@
            + operation@ + " failed for '"@ + path@ + "' - "@ + message@,
        PipelineError::CommandError(m) => "Command execution error: "@ + m@,
        PipelineError::SerializationError(m) => "Serialization error: "@ + m@,
        PipelineError::DeserializationError(m) => "Deserialization error: "@ + m@,
        PipelineError::ConfigError(m) => "Configuration error: "@ + m@,
        PipelineError::ParseError { field, message } => "Parse error: "@ + field@ + " - "@ + message@,
        PipelineError::ArgumentError(m) => "Argument error: "@ + m@,
        PipelineError::ConversionError(m) => "Conversion error: "@ + m@,
        PipelineError::Utf8Error(m) => "UTF-8 error: "@ + m@,
        PipelineError::InvalidCommandId(n) => "Invalid command ID: "@ + decimal(n as nat),
        PipelineError::ShutdownError(m) => "Shutdown error: "@ + m@,
        PipelineError::ProtocolError(m) => "Protocol error: "@ + m@,
    }
}

fn four(a: &str, b: &str, c: &str, d: &str) -> (s: String)
    ensures
        s@ == a@ + b@ + c@ + d@,
{
    let mut s = concat3(a, b, c);
    s.append(d);
    s
}

fn located(kind: &str, operation: &String, path: &String, message: &String) -> (s: String)
    ensures
        s@ == kind@ + operation@ + " failed for '"@ + path@ + "' - "@ + message@,
{
    let mut s = four(kind, operation.as_str(), " failed for '", path.as_str());
    s.append("' - ");
    s.append(message.as_str());
    s
}

impl PipelineError {
    /// The error's message.
    pub fn message(&self) -> (s: String)
        ensures
            s@ == error_text(*self),
    {
        match self {
            PipelineError::SocketError(m) => concat2("Socket error: ", m.as_str()),
            PipelineError::ConnectionError(m) => concat2("Connection error: ", m.as_str()),
            PipelineError::IoError(m) => concat2("I/O error: ", m.as_str()),
            PipelineError::SendError { bytes, message } => {
                let n = u64_to_decimal(*bytes as u64);
                four("Send error: failed to send ", n.as_str(), " bytes - ", message.as_str())
            },
            PipelineError::RecvError { bytes, message } => {
                let n = u64_to_decimal(*bytes as u64);
                four("Receive error: failed to receive ", n.as_str(), " bytes - ", message.as_str())
            },
            PipelineError::FileError { operation, path, message } => located(
                "File error: ",
                operation,
                path,
                message,
            ),
            PipelineError::DirectoryError { operation, path, message } => located(
                "Directory error: ",
                operation,
                path,
                message,
            ),
            PipelineError::CommandError(m) => concat2("Command execution error: ", m.as_str()),
            PipelineError::SerializationError(m) => concat2("Serialization error: ", m.as_str()),
            PipelineError::DeserializationError(m) => concat2("Deserialization error: ", m.as_str()),
            PipelineError::ConfigError(m) => concat2("Configuration error: ", m.as_str()),
            PipelineError::ParseError { field, message } => four(
                "Parse error: ",
                field.as_str(),
                " - ",
                message.as_str(),
            ),
            PipelineError::ArgumentError(m) => concat2("Argument error: ", m.as_str()),
            PipelineError::ConversionError(m) => concat2("Conversion error: ", m.as_str()),
            PipelineError::Utf8Error(m) => concat2("UTF-8 error: ", m.as_str()),
            PipelineError::InvalidCommandId(n) => {
                let d = u64_to_decimal(*n);
                concat2("Invalid command ID: ", d.as_str())
            },
            PipelineError::ShutdownError(m) => concat2("Shutdown error: ", m.as_str()),
            PipelineError::ProtocolError(m) => concat2("Protocol error: ", m.as_str()),
        }
    }
}

} // verus!
