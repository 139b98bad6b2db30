//! Why a resolution fails.
use vstd::prelude::*;

use crate::manifest::{InfoModel, ManifestInfo};
use crate::text::join_three;

verus! {

/// What keeps a pack from being used on a platform.
#[derive(Debug)]
pub enum ResolveError {
    PlatformNotSupported(String),
}

/// The text of a `ResolveError`.
pub open spec fn not_supported_text(platform: Seq<char>) -> Seq<char> {
    "Platform "@ + platform + " is not supported"@
}

impl View for ResolveError {
    /// The platform that is not supported.
    type V = Seq<char>;

    open spec fn view(&self) -> Seq<char> {
        match *self {
            ResolveError::PlatformNotSupported(platform) => platform@,
        }
    }
}

impl ResolveError {
    /// The text of the error.
    pub fn message(&self) -> (text: String)
        ensures
            text@ == not_supported_text(self@),
            *self matches ResolveError::PlatformNotSupported(platform) ==> text@ == "Platform "@
                + platform@ + " is not supported"@,
    {
        match self {
            ResolveError::PlatformNotSupported(platform) => {
                join_three("Platform ", platform.as_str(), " is not supported")
            },
        }
    }
}

/// Why a resolution fails. `E` is what the surroundings report when they fail.
#[derive(Debug)]
pub enum Failure<E> {
    /// The manifest is not in the local cache.
    ManifestNotFound(ManifestInfo),
    /// A manifest has no entry for the platform.
    Unsupported(ResolveError),
    /// The dependencies of the packs for this platform form a circle.
    Circular(String),
    /// Something outside of the library failed.
    Outside(E),
}

/// A failure, in terms of sequences.
#[verifier::reject_recursive_types(E)]
pub enum FailureModel<E> {
    ManifestNotFound(InfoModel),
    Unsupported(Seq<char>),
    Circular(Seq<char>),
    Outside(E),
}

impl<E> View for Failure<E> {
    type V = FailureModel<E>;

    open spec fn view(&self) -> FailureModel<E> {
        match *self {
            Failure::ManifestNotFound(info) => FailureModel::ManifestNotFound(info@),
            Failure::Unsupported(error) => FailureModel::Unsupported(error@),
            Failure::Circular(platform) => FailureModel::Circular(platform@),
            Failure::Outside(e) => FailureModel::Outside(e),
        }
    }
}

/// The text for a manifest that is not in the cache, given the text of its path.
pub fn manifest_not_found_message(path: &str) -> (text: String)
    ensures
        text@ == "plugin manifest not found at '"@ + path@ + "': run `foro install` first"@,
{
    join_three("plugin manifest not found at '", path, "': run `foro install` first")
}

/// The text for dependencies that cannot be brought into an order.
pub fn circular_message(platform: &str) -> (text: String)
    ensures
        text@ == "Failed to resolve all dependencies for "@ + platform@
            + ". It may be a circular dependency."@,
{
    join_three(
        "Failed to resolve all dependencies for ",
        platform,
        ". It may be a circular dependency.",
    )
}

} // verus!
