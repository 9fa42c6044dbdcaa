use crate::error::MySpotifyError;
use crate::url_parser::UrlParseResult;
use vstd::prelude::*;

verus! {

/// What a genre request does next with a classified URL.
#[derive(Debug, PartialEq, Eq)]
pub enum Step {
    /// Follow the short-link, then classify where it leads.
    ResolveShortLink(String),
    /// Answer with the genres of this track.
    LookupTrack(String),
    /// Answer with the ranked genres of this playlist.
    LookupPlaylist(String),
    /// Answer with this error.
    Reject(MySpotifyError),
}

/// The next step for `reference`; `resolved` tells whether it is already
/// the target of a short-link, which is followed once only.
pub fn next_step(reference: UrlParseResult, resolved: bool) -> (r: Step)
    ensures
        match reference {
            UrlParseResult::SpotifyTrackId(id) => r == Step::LookupTrack(id),
            UrlParseResult::SpotifyPlaylistId(id) => r == Step::LookupPlaylist(id),
            UrlParseResult::SpotifyShortLink(u) => if resolved {
                r == Step::Reject(MySpotifyError::IdError)
            } else {
                r == Step::ResolveShortLink(u)
            },
            UrlParseResult::ParseError => r == Step::Reject(MySpotifyError::IdError),
        },
{
    match reference {
        UrlParseResult::SpotifyTrackId(id) => Step::LookupTrack(id),
        UrlParseResult::SpotifyPlaylistId(id) => Step::LookupPlaylist(id),
        UrlParseResult::SpotifyShortLink(u) => {
            if resolved {
                Step::Reject(MySpotifyError::IdError)
            } else {
                Step::ResolveShortLink(u)
            }
        },
        UrlParseResult::ParseError => Step::Reject(MySpotifyError::IdError),
    }
}

} // verus!
