//! The errors of the library.
use vstd::prelude::*;

use crate::text::{
    text_invalid_method, text_invalid_method_bytes, text_invalid_path, text_invalid_path_bytes,
    text_invalid_request, text_invalid_request_bytes, text_missing_boundary,
    text_missing_boundary_bytes, text_other_error, text_other_error_bytes,
};

verus! {

#[derive(Clone, Copy, Debug, PartialEq, Eq, Structural)]
pub enum GiftError {
    /// The request is not a request line, headers and a blank line.
    HttpInvalidRequest,
    /// The path is not `/id/` and a buoy identifier.
    HttpInvalidPath,
    /// The request is not an upload.
    HttpInvalidMethod,
    /// The request does not end with the end boundary.
    HttpMissingBoundary,
    /// The data connection failed.
    DataConnection,
    /// The data connection timed out.
    DataConnectionTimeout,
    /// The GPS could not be read.
    GPSIssue,
    /// No serial port was given.
    SerialPortArgMissing,
    /// The address of the server is not usable.
    RemoteUrlError,
    /// The raw recording could not be turned into sound.
    X3SaveIssue,
    /// The battery reading could not be parsed.
    ParseVoltage,
}

/// The words that explain an error in a reply.
pub open spec fn error_text(e: GiftError) -> Seq<u8> {
    match e {
        GiftError::HttpInvalidRequest => text_invalid_request(),
        GiftError::HttpInvalidPath => text_invalid_path(),
        GiftError::HttpInvalidMethod => text_invalid_method(),
        GiftError::HttpMissingBoundary => text_missing_boundary(),
        _ => text_other_error(),
    }
}

impl GiftError {
    /// The words that explain this error in a reply.
    pub fn describe(&self) -> (r: Vec<u8>)
        ensures
            r@ == error_text(*self),
    {
        match self {
            GiftError::HttpInvalidRequest => text_invalid_request_bytes(),
            GiftError::HttpInvalidPath => text_invalid_path_bytes(),
            GiftError::HttpInvalidMethod => text_invalid_method_bytes(),
            GiftError::HttpMissingBoundary => text_missing_boundary_bytes(),
            _ => text_other_error_bytes(),
        }
    }
}

} // verus!
