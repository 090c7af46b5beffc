//! Errors of the engine.

use vstd::prelude::*;

verus! {

/// What made an RTSP request unreadable.
#[derive(Debug, Clone, Copy, PartialEq, Eq, Structural)]
pub enum ParseErrorKind {
    /// The input held no request line.
    EmptyRequest,
    /// The request line was not `METHOD URI VERSION`.
    InvalidRequestLine,
    /// A header line had no colon.
    InvalidHeader,
}

/// Parse failures, as returned by `parse_request`.
pub type ParseError = ParseErrorKind;

impl ParseErrorKind {
    /// A short description of the failure.
    pub fn description(&self) -> (r: &'static str)
        ensures
            r@ == match self {
                ParseErrorKind::EmptyRequest => "empty request"@,
                ParseErrorKind::InvalidRequestLine => "invalid request line"@,
                ParseErrorKind::InvalidHeader => "invalid header"@,
            },
    {
        match self {
            ParseErrorKind::EmptyRequest => "empty request",
            ParseErrorKind::InvalidRequestLine => "invalid request line",
            ParseErrorKind::InvalidHeader => "invalid header",
        }
    }
}

/// Errors surfaced by the engine's public operations.
#[derive(Debug)]
pub enum RtspError {
    /// A socket operation failed; the text describes it.
    Io(String),
    /// No session with this ID is registered.
    SessionNotFound(String),
    /// The session has no negotiated transport.
    TransportNotConfigured(String),
    /// The session is not playing.
    SessionNotPlaying(String),
    /// The server has not been started.
    NotStarted,
    /// The server is already running.
    AlreadyRunning,
    /// An RTSP request could not be parsed.
    Parse { kind: ParseErrorKind },
    /// No server port pair could be allocated.
    PortRangeExhausted,
    /// No mount is registered at this path.
    MountNotFound(String),
    /// The bind address is not `host:port` with a non-zero port.
    InvalidBindAddress(String),
}

} // verus!
