use spotify_genres::{parse_url, parse_url_with, UrlParseResult};

fn track(id: &str) -> UrlParseResult {
    UrlParseResult::SpotifyTrackId(id.to_owned())
}

fn playlist(id: &str) -> UrlParseResult {
    UrlParseResult::SpotifyPlaylistId(id.to_owned())
}

#[test]
fn test_parse_url_playlist() {
    assert_eq!(
        parse_url("https://open.spotify.com/playlist/3aH6s3vn4NKq3Hi3kUSz68?si=dd3bdff1b2ba4bd9"),
        playlist("3aH6s3vn4NKq3Hi3kUSz68")
    );
}

#[test]
fn test_parse_url_track() {
    assert_eq!(
        parse_url("https://open.spotify.com/track/2tzt6biW79znRmQCLBSWhG?si=0388bad880ec4a60"),
        track("2tzt6biW79znRmQCLBSWhG")
    );
}

#[test]
fn test_parse_url_shortlink() {
    assert_eq!(
        parse_url("https://spotify.link/N2zPz9qjoDb"),
        UrlParseResult::SpotifyShortLink("https://spotify.link/N2zPz9qjoDb".to_owned())
    );
}

#[test]
fn test_parse_url_garbage() {
    assert_eq!(
        parse_url("https://open.spotify.com/something_garbage/2tzt6biW79znRmQCLBSWhG?si=0388bad880ec4a60"),
        UrlParseResult::ParseError
    );
}

#[test]
fn track_with_trailing_slash_and_query() {
    assert_eq!(
        parse_url("https://open.spotify.com/track/2tzt6biW79znRmQCLBSWhG/?si=0388bad880ec4a60"),
        track("2tzt6biW79znRmQCLBSWhG")
    );
}

#[test]
fn playlist_with_trailing_slash_and_query() {
    assert_eq!(
        parse_url("https://open.spotify.com/playlist/3aH6s3vn4NKq3Hi3kUSz68/?si=dd3bdff1b2ba4bd9"),
        playlist("3aH6s3vn4NKq3Hi3kUSz68")
    );
}

#[test]
fn track_id_at_end_of_input() {
    assert_eq!(parse_url("https://open.spotify.com/track/abc123"), track("abc123"));
}

#[test]
fn track_id_before_fragment() {
    assert_eq!(parse_url("https://open.spotify.com/track/abc123#x"), track("abc123"));
}

#[test]
fn first_track_marker_wins() {
    assert_eq!(parse_url("x/track/one/track/two"), track("one"));
}

#[test]
fn track_pattern_before_playlist_pattern() {
    assert_eq!(parse_url("https://h/playlist/pl1/track/tr1"), track("tr1"));
}

#[test]
fn empty_input_is_unrecognized() {
    assert_eq!(parse_url(""), UrlParseResult::ParseError);
}

#[test]
fn plain_text_is_unrecognized() {
    assert_eq!(parse_url("hello world"), UrlParseResult::ParseError);
}

#[test]
fn non_alphanumeric_track_id_is_unrecognized() {
    assert_eq!(parse_url("https://open.spotify.com/track/ab-cd?si=1"), UrlParseResult::ParseError);
}

#[test]
fn non_ascii_track_id_is_unrecognized() {
    assert_eq!(parse_url("https://open.spotify.com/track/abcé"), UrlParseResult::ParseError);
}

#[test]
fn empty_track_id_is_unrecognized() {
    assert_eq!(parse_url("https://open.spotify.com/track/?si=1"), UrlParseResult::ParseError);
}

#[test]
fn bad_track_id_does_not_fall_through() {
    assert_eq!(
        parse_url("https://open.spotify.com/track/a_b/playlist/good1"),
        UrlParseResult::ParseError
    );
}

#[test]
fn bad_playlist_id_is_unrecognized() {
    assert_eq!(parse_url("https://open.spotify.com/playlist/x.y"), UrlParseResult::ParseError);
}

#[test]
fn shortlink_is_normalised_by_url_parsing() {
    assert_eq!(
        parse_url("https://spotify.link/AbC"),
        UrlParseResult::SpotifyShortLink("https://spotify.link/AbC".to_owned())
    );
    assert_eq!(
        parse_url("https://spotify.link/a b"),
        UrlParseResult::SpotifyShortLink("https://spotify.link/a%20b".to_owned())
    );
}

#[test]
fn shortlink_host_inside_other_text_fails_url_parsing() {
    assert_eq!(parse_url("see https://spotify.link/AbC"), UrlParseResult::ParseError);
}

#[test]
fn other_host_is_not_a_shortlink() {
    assert_eq!(parse_url("https://example.com/N2zPz9qjoDb"), UrlParseResult::ParseError);
}

#[test]
fn parse_url_with_uses_the_given_parse() {
    assert_eq!(
        parse_url_with("https://spotify.link/x", Some("normalised".to_owned())),
        UrlParseResult::SpotifyShortLink("normalised".to_owned())
    );
    assert_eq!(parse_url_with("https://spotify.link/x", None), UrlParseResult::ParseError);
    assert_eq!(
        parse_url_with("https://open.spotify.com/track/t1", Some("ignored".to_owned())),
        track("t1")
    );
    assert_eq!(parse_url_with("nothing", Some("ignored".to_owned())), UrlParseResult::ParseError);
}
