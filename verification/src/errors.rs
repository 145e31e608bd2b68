//! The bounded error vocabulary of the protocol layer, and the translation
//! of remote-service failures into it.

use vstd::prelude::*;
use crate::api::ApiError;

verus! {

/// The protocol-level error kinds this adapter produces.
#[derive(Clone, Copy, Debug, PartialEq, Eq, Structural)]
pub enum FtpErrorKind {
    /// An internal error of the adapter or its transport.
    LocalError,
    /// The requested directory (or resource) is not available.
    PermanentDirectoryNotAvailable,
    /// The path cannot be used as a file name.
    FileNameNotAllowedError,
    /// The requested command is not implemented.
    CommandNotImplemented,
}

/// A classified protocol-level error with a human-readable message.
#[derive(Clone, Debug)]
pub struct FtpError {
    pub kind: FtpErrorKind,
    pub message: String,
}

impl FtpError {
    /// Build an error from a kind and a static message.
    pub fn new(kind: FtpErrorKind, message: &str) -> (r: FtpError)
        ensures
            r.kind == kind,
            r.message@ == message@,
    {
        FtpError { kind, message: message.to_owned() }
    }
}

/// A transport or connectivity failure maps to a generic local error; a
/// well-formed error response of the remote service maps to "directory not
/// available", carrying the remote text.
pub fn transform_to_ftp_error(error: ApiError) -> (r: FtpError)
    ensures
        match error {
            ApiError::ReqwestError(_) => {
                &&& r.kind == FtpErrorKind::LocalError
                &&& r.message@ == "Internal Server Error"@
            },
            ApiError::ResponseMalformed(err) => {
                &&& r.kind == FtpErrorKind::PermanentDirectoryNotAvailable
                &&& r.message@ == err@
            },
        },
{
    match error {
        ApiError::ReqwestError(_) => FtpError::new(FtpErrorKind::LocalError, "Internal Server Error"),
        ApiError::ResponseMalformed(err) => FtpError { kind: FtpErrorKind::PermanentDirectoryNotAvailable, message: err },
    }
}

} // verus!
