use vstd::prelude::*;

verus! {

/// Why a handshake response could not be decoded.
#[derive(Debug, Clone, Copy, PartialEq, Eq, Structural)]
pub enum RevisionError {
    /// The response does not start with the two magic bytes.
    InvalidHeaderSequence,
    /// The response answers another service or message; the two identifiers
    /// that were found are carried along.
    InvalidProtocol(u8, u8),
    /// The buffer ends before the value that is being read.
    TruncatedBuffer,
}

/// Why a manifest could not be turned into assets.
#[derive(Debug, Clone, Copy, PartialEq, Eq, Structural)]
pub enum ManifestError {
    /// The document does not have the shape of a manifest.
    ManifestDecodeError,
    /// A record names a file but lacks the value of one of its numeric fields.
    MissingRequiredField,
}

} // verus!
