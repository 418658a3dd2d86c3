//! The error taxonomy of the client, and how transport failures map onto it.
use vstd::prelude::*;

verus! {

/// Why an operation of the client failed.
#[derive(Clone, Debug, PartialEq, Eq)]
pub enum NreplError {
    /// The peer closed or reset the connection.
    ConnectionClosed,
    /// A read deadline or an operation deadline passed.
    Timeout,
    /// A frame could not be decoded, or grew past the size cap.
    ParseError(String),
    /// Any other failure of the transport, with its description.
    IoError(String),
    /// A well-formed response lacked what the protocol requires.
    Other(String),
}

impl NreplError {
    /// A sentence that describes the error.
    pub open spec fn text(self) -> Seq<char> {
        match self {
            NreplError::ConnectionClosed => "Connection closed by server"@,
            NreplError::Timeout => "Operation timed out"@,
            NreplError::ParseError(m) => "Parse error: "@ + m@,
            NreplError::IoError(m) => "IO error: "@ + m@,
            NreplError::Other(m) => "Error: "@ + m@,
        }
    }

    /// A sentence that describes the error.
    pub fn message(&self) -> (r: String)
        ensures
            r@ == self.text(),
    {
        match self {
            NreplError::ConnectionClosed => String::from_str("Connection closed by server"),
            NreplError::Timeout => String::from_str("Operation timed out"),
            NreplError::ParseError(m) => String::from_str("Parse error: ").concat(m.as_str()),
            NreplError::IoError(m) => String::from_str("IO error: ").concat(m.as_str()),
            NreplError::Other(m) => String::from_str("Error: ").concat(m.as_str()),
        }
    }
}

/// The kinds of transport failure that the client tells apart.
#[derive(Clone, Debug, PartialEq, Eq)]
pub enum IoFailure {
    BrokenPipe,
    ConnectionAborted,
    ConnectionReset,
    UnexpectedEof,
    WouldBlock,
    TimedOut,
    /// Any other failure, with its description.
    Failed(String),
}

impl IoFailure {
    /// The failure's description, for the kinds that are passed through.
    pub open spec fn description(self) -> Seq<char> {
        match self {
            IoFailure::Failed(d) => d@,
            IoFailure::BrokenPipe => "broken pipe"@,
            IoFailure::ConnectionAborted => "connection aborted"@,
            IoFailure::ConnectionReset => "connection reset"@,
            IoFailure::UnexpectedEof => "unexpected end of file"@,
            IoFailure::WouldBlock => "operation would block"@,
            IoFailure::TimedOut => "timed out"@,
        }
    }

    /// The failure's description as text.
    pub fn describe(&self) -> (r: String)
        ensures
            r@ == self.description(),
    {
        match self {
            IoFailure::Failed(d) => d.clone(),
            IoFailure::BrokenPipe => String::from_str("broken pipe"),
            IoFailure::ConnectionAborted => String::from_str("connection aborted"),
            IoFailure::ConnectionReset => String::from_str("connection reset"),
            IoFailure::UnexpectedEof => String::from_str("unexpected end of file"),
            IoFailure::WouldBlock => String::from_str("operation would block"),
            IoFailure::TimedOut => String::from_str("timed out"),
        }
    }
}

/// Whether a failed read means that the peer went away: a reset, an abort
/// or an unexpected end of file.
pub open spec fn read_disconnect(f: IoFailure) -> bool {
    f is ConnectionReset || f is ConnectionAborted || f is UnexpectedEof
}

/// Whether a failed write means that the peer went away: a broken pipe, an
/// abort or a reset.
pub open spec fn write_disconnect(f: IoFailure) -> bool {
    f is BrokenPipe || f is ConnectionAborted || f is ConnectionReset
}

/// `e` is what a failure `f` surfaces as, where `disconnect` tells whether
/// `f` means that the peer went away: then `ConnectionClosed`, otherwise
/// `IoError` with the failure's description.
pub open spec fn surfaces_as(e: NreplError, f: IoFailure, disconnect: bool) -> bool {
    if disconnect {
        e is ConnectionClosed
    } else {
        e is IoError && e->IoError_0@ == f.description()
    }
}

/// Maps a failed read to the error the operation reports.
pub fn read_failure(f: IoFailure) -> (e: NreplError)
    ensures
        surfaces_as(e, f, read_disconnect(f)),
{
    match f {
        IoFailure::ConnectionReset | IoFailure::ConnectionAborted | IoFailure::UnexpectedEof => {
            NreplError::ConnectionClosed
        },
        _ => NreplError::IoError(f.describe()),
    }
}

/// Maps a failed write to the error the operation reports.
pub fn write_failure(f: IoFailure) -> (e: NreplError)
    ensures
        surfaces_as(e, f, write_disconnect(f)),
{
    match f {
        IoFailure::BrokenPipe | IoFailure::ConnectionAborted | IoFailure::ConnectionReset => {
            NreplError::ConnectionClosed
        },
        _ => NreplError::IoError(f.describe()),
    }
}

} // verus!
