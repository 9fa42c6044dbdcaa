use vstd::prelude::*;

verus! {

/// What a URL refers to in the catalog, as a mathematical value.
pub enum CatalogReference {
    Track(Seq<char>),
    Playlist(Seq<char>),
    ShortLink(Seq<char>),
    Unrecognized,
}

/// The classification of an input URL.
#[derive(Clone, Debug, PartialEq, Eq)]
pub enum UrlParseResult {
    /// A track, with its catalog identifier.
    SpotifyTrackId(String),
    /// A playlist, with its catalog identifier.
    SpotifyPlaylistId(String),
    /// A short-link, with the URL in its normalised form.
    SpotifyShortLink(String),
    /// Nothing this library can look up.
    ParseError,
}

impl View for UrlParseResult {
    type V = CatalogReference;

    open spec fn view(&self) -> CatalogReference {
        match self {
            UrlParseResult::SpotifyTrackId(id) => CatalogReference::Track(id@),
            UrlParseResult::SpotifyPlaylistId(id) => CatalogReference::Playlist(id@),
            UrlParseResult::SpotifyShortLink(u) => CatalogReference::ShortLink(u@),
            UrlParseResult::ParseError => CatalogReference::Unrecognized,
        }
    }
}

pub open spec fn is_ascii_alnum(c: char) -> bool {
    ('a' <= c && c <= 'z') || ('A' <= c && c <= 'Z') || ('0' <= c && c <= '9')
}

pub open spec fn all_ascii_alnum(s: Seq<char>) -> bool {
    forall|i: int| 0 <= i < s.len() ==> is_ascii_alnum(#[trigger] s[i])
}

/// A well-formed catalog identifier: non-empty, ASCII letters and digits only.
pub open spec fn valid_id(s: Seq<char>) -> bool {
    s.len() > 0 && all_ascii_alnum(s)
}

/// The characters that close a path segment.
pub open spec fn is_segment_end(c: char) -> bool {
    c == '/' || c == '?' || c == '#'
}

pub open spec fn track_marker() -> Seq<char> {
    seq!['/', 't', 'r', 'a', 'c', 'k', '/']
}

pub open spec fn playlist_marker() -> Seq<char> {
    seq!['/', 'p', 'l', 'a', 'y', 'l', 'i', 's', 't', '/']
}

pub open spec fn shortlink_marker() -> Seq<char> {
    seq![
        'h', 't', 't', 'p', 's', ':', '/', '/', 's', 'p', 'o', 't', 'i', 'f', 'y', '.', 'l', 'i',
        'n', 'k', '/',
    ]
}

pub open spec fn occurs_at(s: Seq<char>, pat: Seq<char>, i: nat) -> bool {
    i + pat.len() <= s.len() && s.subrange(i as int, (i + pat.len()) as int) == pat
}

/// The first position at or after `i` where `pat` occurs in `s`.
pub open spec fn find_from(s: Seq<char>, pat: Seq<char>, i: nat) -> Option<nat>
    decreases s.len() + 1 - i,
{
    if i + pat.len() > s.len() {
        None
    } else if occurs_at(s, pat, i) {
        Some(i)
    } else {
        find_from(s, pat, i + 1)
    }
}

/// The end of the path segment that starts at `i`.
pub open spec fn segment_end(s: Seq<char>, i: nat) -> nat
    decreases s.len() - i,
{
    if i < s.len() && !is_segment_end(s[i as int]) {
        segment_end(s, i + 1)
    } else {
        i
    }
}

/// The path segment that follows the first occurrence of `pat` in `s`.
pub open spec fn segment_after(s: Seq<char>, pat: Seq<char>) -> Option<Seq<char>> {
    match find_from(s, pat, 0) {
        Some(i) => Some(s.subrange((i + pat.len()) as int, segment_end(s, i + pat.len()) as int)),
        None => None,
    }
}

/// What `s` refers to, where `parsed` is what URL parsing makes of `s`.
/// The track pattern is tried first, then the playlist pattern, then the
/// short-link host; an ill-formed identifier never falls through.
pub open spec fn reference_of(s: Seq<char>, parsed: Option<Seq<char>>) -> CatalogReference {
    match segment_after(s, track_marker()) {
        Some(id) => if valid_id(id) {
            CatalogReference::Track(id)
        } else {
            CatalogReference::Unrecognized
        },
        None => match segment_after(s, playlist_marker()) {
            Some(id) => if valid_id(id) {
                CatalogReference::Playlist(id)
            } else {
                CatalogReference::Unrecognized
            },
            None => if find_from(s, shortlink_marker(), 0) is Some {
                match parsed {
                    Some(u) => CatalogReference::ShortLink(u),
                    None => CatalogReference::Unrecognized,
                }
            } else {
                CatalogReference::Unrecognized
            },
        },
    }
}

/// What `reqwest::Url::parse` makes of a string: its serialisation, or
/// `None` where it is no absolute URL.
pub uninterp spec fn url_serialization(s: Seq<char>) -> Option<Seq<char>>;

pub open spec fn string_opt_view(o: Option<String>) -> Option<Seq<char>> {
    match o {
        Some(s) => Some(s@),
        None => None,
    }
}

/// Relies on reqwest::Url::parse (url's `Url::parse`) and url's
/// `From<Url> for String`: the normalised URL, or `None` where parsing fails.
#[verifier::external_body]
fn normalise_url(s: &str) -> (r: Option<String>)
    ensures
        string_opt_view(r) == url_serialization(s@),
{
    reqwest::Url::parse(s).ok().map(String::from)
}

/// Relies on rspotify's `TrackId::from_id`, which accepts exactly the strings
/// made of ASCII letters and digits.
#[verifier::external_body]
fn track_id_accepted(id: &str) -> (r: bool)
    ensures
        r == all_ascii_alnum(id@),
{
    rspotify::model::TrackId::from_id(id).is_ok()
}

/// Relies on rspotify's `PlaylistId::from_id`, which accepts exactly the
/// strings made of ASCII letters and digits.
#[verifier::external_body]
fn playlist_id_accepted(id: &str) -> (r: bool)
    ensures
        r == all_ascii_alnum(id@),
{
    rspotify::model::PlaylistId::from_id(id).is_ok()
}

pub(crate) fn chars_of(s: &str) -> (r: Vec<char>)
    ensures
        r@ == s@,
{
    let n = s.unicode_len();
    let mut r: Vec<char> = Vec::new();
    let mut i: usize = 0;
    while i < n
        invariant
            n == s@.len(),
            i <= n,
            r@ == s@.subrange(0, i as int),
        decreases n - i,
    {
        r.push(s.get_char(i));
        i = i + 1;
    }
    assert(r@ =~= s@);
    r
}

fn occurs_at_exec(s: &Vec<char>, pat: &Vec<char>, i: usize) -> (r: bool)
    requires
        i + pat@.len() <= s@.len(),
    ensures
        r == occurs_at(s@, pat@, i as nat),
{
    let n = s.len();
    let mut j: usize = 0;
    while j < pat.len()
        invariant
            n == s@.len(),
            i + pat@.len() <= s@.len(),
            j <= pat@.len(),
            s@.subrange(i as int, i + j) =~= pat@.subrange(0, j as int),
        decreases pat@.len() - j,
    {
        if s[i + j] != pat[j] {
            assert(s@.subrange(i as int, i + pat@.len())[j as int] != pat@[j as int]);
            return false;
        }
        j = j + 1;
        assert(s@.subrange(i as int, i + j) =~= pat@.subrange(0, j as int));
    }
    assert(pat@.subrange(0, j as int) =~= pat@);
    true
}

fn find_marker(s: &Vec<char>, pat: &Vec<char>) -> (r: Option<usize>)
    ensures
        match r {
            Some(i) => find_from(s@, pat@, 0) == Some(i as nat) && i + pat@.len() <= s@.len(),
            None => find_from(s@, pat@, 0) is None,
        },
{
    let n = s.len();
    let m = pat.len();
    if m > n {
        assert(find_from(s@, pat@, 0) is None);
        return None;
    }
    let mut i: usize = 0;
    loop
        invariant
            n == s@.len(),
            m == pat@.len(),
            m <= n,
            i <= n - m,
            find_from(s@, pat@, 0) == find_from(s@, pat@, i as nat),
        decreases n - m - i,
    {
        if occurs_at_exec(s, pat, i) {
            return Some(i);
        }
        if i == n - m {
            assert(find_from(s@, pat@, (i + 1) as nat) is None);
            return None;
        }
        i = i + 1;
    }
}

fn segment_end_exec(s: &Vec<char>, start: usize) -> (r: usize)
    requires
        start <= s@.len(),
    ensures
        r as nat == segment_end(s@, start as nat),
        start <= r <= s@.len(),
{
    let mut k: usize = start;
    while k < s.len() && !(s[k] == '/' || s[k] == '?' || s[k] == '#')
        invariant
            start <= k <= s@.len(),
            segment_end(s@, start as nat) == segment_end(s@, k as nat),
        decreases s@.len() - k,
    {
        k = k + 1;
    }
    k
}

/// The segment after the first occurrence of `pat`, as a string.
fn segment_after_exec(s: &str, chars: &Vec<char>, pat: &Vec<char>) -> (r: Option<String>)
    requires
        chars@ == s@,
    ensures
        string_opt_view(r) == segment_after(s@, pat@),
{
    match find_marker(chars, pat) {
        Some(i) => {
            let n = chars.len();
            let start = i + pat.len();
            let end = segment_end_exec(chars, start);
            Some(s.substring_char(start, end).to_owned())
        },
        None => None,
    }
}

fn is_valid_track_id(id: &str) -> (r: bool)
    ensures
        r == valid_id(id@),
{
    id.unicode_len() > 0 && track_id_accepted(id)
}

fn is_valid_playlist_id(id: &str) -> (r: bool)
    ensures
        r == valid_id(id@),
{
    id.unicode_len() > 0 && playlist_id_accepted(id)
}

/// Classifies `url`, where `parsed` is what URL parsing made of it (it is
/// consulted for short-links only).
pub fn parse_url_with(url: &str, parsed: Option<String>) -> (r: UrlParseResult)
    ensures
        r@ == reference_of(url@, string_opt_view(parsed)),
{
    let chars = chars_of(url);
    let track = vec!['/', 't', 'r', 'a', 'c', 'k', '/'];
    assert(track@ =~= track_marker());
    match segment_after_exec(url, &chars, &track) {
        Some(id) => {
            if is_valid_track_id(id.as_str()) {
                return UrlParseResult::SpotifyTrackId(id);
            } else {
                return UrlParseResult::ParseError;
            }
        },
        None => {},
    }
    let playlist = vec!['/', 'p', 'l', 'a', 'y', 'l', 'i', 's', 't', '/'];
    assert(playlist@ =~= playlist_marker());
    match segment_after_exec(url, &chars, &playlist) {
        Some(id) => {
            if is_valid_playlist_id(id.as_str()) {
                return UrlParseResult::SpotifyPlaylistId(id);
            } else {
                return UrlParseResult::ParseError;
            }
        },
        None => {},
    }
    if has_shortlink_host(&chars) {
        match parsed {
            Some(u) => UrlParseResult::SpotifyShortLink(u),
            None => UrlParseResult::ParseError,
        }
    } else {
        UrlParseResult::ParseError
    }
}

fn has_shortlink_host(chars: &Vec<char>) -> (r: bool)
    ensures
        r == find_from(chars@, shortlink_marker(), 0) is Some,
{
    let host = vec![
        'h', 't', 't', 'p', 's', ':', '/', '/', 's', 'p', 'o', 't', 'i', 'f', 'y', '.', 'l', 'i',
        'n', 'k', '/',
    ];
    assert(host@ =~= shortlink_marker());
    find_marker(chars, &host).is_some()
}

/// Classifies `url` as a track, a playlist, a short-link or nothing known.
pub fn parse_url(url: &str) -> (r: UrlParseResult)
    ensures
        r@ == reference_of(url@, url_serialization(url@)),
{
    if has_shortlink_host(&chars_of(url)) {
        parse_url_with(url, normalise_url(url))
    } else {
        parse_url_with(url, None)
    }
}

proof fn lemma_find_extends(t: Seq<char>, u: Seq<char>, pat: Seq<char>, i: nat)
    requires
        find_from(t, pat, i) is Some,
    ensures
        find_from(t + u, pat, i) == find_from(t, pat, i),
    decreases t.len() + 1 - i,
{
    if i + pat.len() <= t.len() {
        assert((t + u).subrange(i as int, (i + pat.len()) as int) =~= t.subrange(i as int, (i + pat.len()) as int));
        if !occurs_at(t, pat, i) {
            lemma_find_extends(t, u, pat, i + 1);
        }
    }
}

proof fn lemma_segment_end(s: Seq<char>, a: nat, n: nat, j: nat)
    requires
        j <= n,
        a + n <= s.len(),
        forall|k: int| a <= k < a + n ==> !is_segment_end(#[trigger] s[k]),
        a + n == s.len() || is_segment_end(s[(a + n) as int]),
    ensures
        segment_end(s, a + j) == a + n,
    decreases n - j,
{
    if j < n {
        lemma_segment_end(s, a, n, j + 1);
    }
}

/// The segment after `pat` in `pre + pat + seg + rest`, where `pat` first
/// occurs right after `pre` and `seg` is a whole path segment.
proof fn lemma_segment_of(pre: Seq<char>, pat: Seq<char>, seg: Seq<char>, rest: Seq<char>)
    requires
        find_from(pre + pat, pat, 0) == Some(pre.len()),
        forall|k: int| 0 <= k < seg.len() ==> !is_segment_end(#[trigger] seg[k]),
        rest.len() == 0 || is_segment_end(rest[0]),
    ensures
        segment_after(pre + pat + seg + rest, pat) == Some(seg),
{
    let s = pre + pat + seg + rest;
    assert(s =~= (pre + pat) + (seg + rest));
    lemma_find_extends(pre + pat, seg + rest, pat, 0);
    let a = pre.len() + pat.len();
    assert forall|k: int| a <= k < a + seg.len() implies !is_segment_end(#[trigger] s[k]) by {
        assert(s[k] == seg[k - a]);
    }
    if rest.len() > 0 {
        assert(s[(a + seg.len()) as int] == rest[0]);
    }
    lemma_segment_end(s, a as nat, seg.len(), 0);
    assert(s.subrange(a as int, (a + seg.len()) as int) =~= seg);
}

/// A track URL whose path segment after its first `/track/` is a
/// well-formed identifier classifies as that track.
pub proof fn track_url_names_its_track(
    pre: Seq<char>,
    id: Seq<char>,
    rest: Seq<char>,
    parsed: Option<Seq<char>>,
)
    requires
        find_from(pre + track_marker(), track_marker(), 0) == Some(pre.len()),
        valid_id(id),
        rest.len() == 0 || is_segment_end(rest[0]),
    ensures
        reference_of(pre + track_marker() + id + rest, parsed) == CatalogReference::Track(id),
{
    assert forall|k: int| 0 <= k < id.len() implies !is_segment_end(#[trigger] id[k]) by {
        assert(is_ascii_alnum(id[k]));
    }
    lemma_segment_of(pre, track_marker(), id, rest);
}

/// A string in which none of the three patterns occurs is unrecognized.
pub proof fn unmatched_is_unrecognized(s: Seq<char>, parsed: Option<Seq<char>>)
    requires
        find_from(s, track_marker(), 0) is None,
        find_from(s, playlist_marker(), 0) is None,
        find_from(s, shortlink_marker(), 0) is None,
    ensures
        reference_of(s, parsed) == CatalogReference::Unrecognized,
{
}

/// A track URL whose path segment after its first `/track/` holds a
/// character other than an ASCII letter or digit is unrecognized; it does
/// not fall through to the other patterns.
pub proof fn malformed_track_id_is_unrecognized(
    pre: Seq<char>,
    seg: Seq<char>,
    rest: Seq<char>,
    parsed: Option<Seq<char>>,
    bad: int,
)
    requires
        find_from(pre + track_marker(), track_marker(), 0) == Some(pre.len()),
        forall|k: int| 0 <= k < seg.len() ==> !is_segment_end(#[trigger] seg[k]),
        0 <= bad < seg.len(),
        !is_ascii_alnum(seg[bad]),
        rest.len() == 0 || is_segment_end(rest[0]),
    ensures
        reference_of(pre + track_marker() + seg + rest, parsed) == CatalogReference::Unrecognized,
{
    lemma_segment_of(pre, track_marker(), seg, rest);
}

} // verus!
