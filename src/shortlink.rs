use crate::error::MySpotifyError;
use crate::url_parser::{
    parse_url, reference_of, string_opt_view, url_serialization, CatalogReference,
    UrlParseResult,
};
use vstd::prelude::*;

verus! {

/// What a short-link stands for, given the redirect target it answered with.
pub open spec fn resolution_of(location: Option<Seq<char>>) -> Result<
    CatalogReference,
    MySpotifyError,
> {
    match location {
        None => Err(MySpotifyError::ResolutionError),
        Some(target) => Ok(reference_of(target, url_serialization(target))),
    }
}

pub open spec fn result_view(r: Result<UrlParseResult, MySpotifyError>) -> Result<
    CatalogReference,
    MySpotifyError,
> {
    match r {
        Ok(x) => Ok(x@),
        Err(e) => Err(e),
    }
}

/// Classifies the redirect target a short-link answered with; no target
/// means the short-link did not resolve.
pub fn resolve_location(location: Option<String>) -> (r: Result<UrlParseResult, MySpotifyError>)
    ensures
        result_view(r) == resolution_of(string_opt_view(location)),
{
    match location {
        Some(target) => Ok(parse_url(target.as_str())),
        None => Err(MySpotifyError::ResolutionError),
    }
}

/// Following a short-link to a target gives what classifying the target
/// directly gives; in particular the same track.
pub proof fn shortlink_round_trip(target: Seq<char>)
    ensures
        resolution_of(Some(target)) == Ok::<CatalogReference, MySpotifyError>(
            reference_of(target, url_serialization(target)),
        ),
        reference_of(target, url_serialization(target)) is Track ==> resolution_of(Some(target))
            == Ok::<CatalogReference, MySpotifyError>(
            CatalogReference::Track(reference_of(target, url_serialization(target))->Track_0),
        ),
{
}

} // verus!
