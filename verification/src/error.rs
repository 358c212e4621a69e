//! The kinds of failure that the library tells apart.

use vstd::prelude::*;

verus! {

/// The kind of a fatal error.
#[derive(Clone, Copy, Debug, PartialEq, Eq, Structural)]
pub enum ErrorKind {
    /// The local file system failed: open, read, write, mkdir, unlink.
    Io,
    /// The connection, TLS, or a response outside 2xx.
    Network,
    /// A malformed manifest or an invalid path.
    Parse,
    /// A URL whose scheme no transport serves.
    UnsupportedScheme,
    /// The progress display stopped before the work did.
    ChannelClosed,
    /// There is no manifest at the remote location.
    RemoteManifestMissing,
}

} // verus!
