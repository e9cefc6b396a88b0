//! The errors of issue discovery.
use vstd::prelude::*;

verus! {

/// Why issue discovery, or one step of it, failed.
#[derive(Debug, PartialEq, Eq)]
pub enum IssueError {
    /// A GitHub remote URL holds no `github.com/` after which a slug could stand.
    MalformedRemoteUrl,
    /// Listing the projects directory failed; the text says why.
    DiscoveryIoError(String),
    /// The external tool reported failure for one repository.
    FetchFailed,
    /// The external tool's output was not UTF-8 text holding a JSON array.
    FetchDecodeError,
}

} // verus!
