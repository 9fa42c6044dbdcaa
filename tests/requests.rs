use spotify_genres::{
    next_step, parse_url, resolve_location, status_code, MySpotifyError, Step, UrlParseResult,
};

#[test]
fn shortlink_to_track_resolves_like_the_track_url() {
    let target = "https://open.spotify.com/track/2tzt6biW79znRmQCLBSWhG?si=0388bad880ec4a60";
    let resolved = resolve_location(Some(target.to_owned()));
    assert_eq!(resolved, Ok(parse_url(target)));
    assert_eq!(
        resolved,
        Ok(UrlParseResult::SpotifyTrackId("2tzt6biW79znRmQCLBSWhG".to_owned()))
    );
}

#[test]
fn shortlink_to_unknown_page_resolves_to_unrecognized() {
    assert_eq!(
        resolve_location(Some("https://www.spotify.com/".to_owned())),
        Ok(UrlParseResult::ParseError)
    );
}

#[test]
fn shortlink_without_target_does_not_resolve() {
    assert_eq!(resolve_location(None), Err(MySpotifyError::ResolutionError));
}

#[test]
fn unrecognized_url_is_a_bad_request() {
    let step = next_step(parse_url("https://example.com/nothing"), false);
    assert_eq!(step, Step::Reject(MySpotifyError::IdError));
    match step {
        Step::Reject(e) => assert_eq!(status_code(e), 400),
        _ => panic!("expected a rejection"),
    }
}

#[test]
fn server_side_failures_are_internal_errors() {
    for e in [
        MySpotifyError::ResolutionError,
        MySpotifyError::TransportError,
        MySpotifyError::AuthError,
        MySpotifyError::UpstreamError,
        MySpotifyError::NotFoundError,
        MySpotifyError::Unknown,
    ] {
        assert_eq!(status_code(e), 500);
    }
    assert_eq!(status_code(MySpotifyError::IdError), 400);
}

#[test]
fn steps_follow_the_reference() {
    assert_eq!(
        next_step(UrlParseResult::SpotifyTrackId("t".to_owned()), false),
        Step::LookupTrack("t".to_owned())
    );
    assert_eq!(
        next_step(UrlParseResult::SpotifyPlaylistId("p".to_owned()), true),
        Step::LookupPlaylist("p".to_owned())
    );
    assert_eq!(
        next_step(UrlParseResult::SpotifyShortLink("u".to_owned()), false),
        Step::ResolveShortLink("u".to_owned())
    );
}

#[test]
fn shortlink_is_followed_once_only() {
    assert_eq!(
        next_step(UrlParseResult::SpotifyShortLink("u".to_owned()), true),
        Step::Reject(MySpotifyError::IdError)
    );
}
