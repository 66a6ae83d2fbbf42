use vstd::prelude::*;

use crate::version::Version;

verus! {

/// Why provisioning stopped. Every error ends the current run; none is retried.
#[derive(PartialEq, Eq, Structural, Clone, Copy, Debug)]
pub enum YenError {
    /// The host's platform triple is not one that releases are built for.
    UnsupportedPlatform,
    /// The release index could not be fetched or read.
    CatalogFetch,
    /// The release index holds no interpreter for this platform.
    NoRelease,
    /// The requested version is not built for this platform.
    VersionNotAvailable(Version),
    /// The server did not state the size of the download.
    MissingContentLength,
    /// Reading or writing the download failed.
    Download,
    /// The downloaded archive could not be unpacked.
    Extract,
    /// A directory could not be created.
    CreateDir,
    /// The environment's path already exists.
    AlreadyExists,
    /// The interpreter did not create the environment.
    VenvFailed,
}

} // verus!
