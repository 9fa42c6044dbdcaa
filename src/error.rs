use vstd::prelude::*;

verus! {

/// Everything that can go wrong while turning a URL into genres.
#[derive(Clone, Copy, Debug, PartialEq, Eq, Structural)]
pub enum MySpotifyError {
    /// The URL named no track or playlist with a well-formed identifier.
    IdError,
    /// A short-link answered without a redirect target.
    ResolutionError,
    /// The network failed on the way to the catalog or the short-link host.
    TransportError,
    /// The catalog session could not be (re)established.
    AuthError,
    /// The catalog answered with a well-formed error.
    UpstreamError,
    /// The catalog's data is inconsistent (a track without an artist).
    NotFoundError,
    /// Anything else.
    Unknown,
}

/// The HTTP status a failure is reported with: the caller's input was bad
/// (400), or anything else went wrong (500).
pub open spec fn status_of(e: MySpotifyError) -> u16 {
    if e == MySpotifyError::IdError {
        400
    } else {
        500
    }
}

pub fn status_code(e: MySpotifyError) -> (r: u16)
    ensures
        r == status_of(e),
{
    match e {
        MySpotifyError::IdError => 400,
        _ => 500,
    }
}

} // verus!
