use crate::error::MySpotifyError;
use crate::genres::views;
use vstd::prelude::*;

verus! {

/// An entry of a playlist, as the catalog lists it.
pub enum PlaylistItem {
    /// A music track; `None` for a local file, which has no catalog id.
    Track(Option<String>),
    /// A podcast episode.
    Episode,
    /// An entry whose content the catalog no longer serves.
    Unavailable,
}

/// The catalog ids of the tracks among the first `n` entries, in playlist order.
pub open spec fn track_ids_of(items: Seq<PlaylistItem>, n: nat) -> Seq<Seq<char>>
    decreases n,
{
    if n == 0 {
        Seq::empty()
    } else {
        track_ids_of(items, (n - 1) as nat) + match items[n - 1] {
            PlaylistItem::Track(Some(id)) => seq![id@],
            _ => Seq::empty(),
        }
    }
}

/// The ids of a playlist's tracks, in playlist order; episodes, unavailable
/// entries and local files are left out.
pub fn track_ids_from_items(items: &Vec<PlaylistItem>) -> (r: Vec<String>)
    ensures
        views(r@) == track_ids_of(items@, items@.len()),
{
    let mut r: Vec<String> = Vec::new();
    let mut i: usize = 0;
    while i < items.len()
        invariant
            i <= items@.len(),
            views(r@) == track_ids_of(items@, i as nat),
        decreases items@.len() - i,
    {
        let ghost old_r = r@;
        match &items[i] {
            PlaylistItem::Track(Some(id)) => {
                r.push(id.clone());
                assert(views(r@) =~= views(old_r).push(id@));
            },
            _ => {},
        }
        i = i + 1;
        assert(views(r@) =~= track_ids_of(items@, i as nat));
    }
    r
}

/// The id of a track's first listed artist. A track without artists, or
/// whose first artist has no id, is inconsistent catalog data.
pub fn primary_artist(artist_ids: &Vec<Option<String>>) -> (r: Result<String, MySpotifyError>)
    ensures
        artist_ids@.len() == 0 ==> r == Err::<String, MySpotifyError>(MySpotifyError::NotFoundError),
        artist_ids@.len() > 0 ==> match artist_ids@[0] {
            Some(id) => r is Ok && r->Ok_0@ == id@,
            None => r == Err::<String, MySpotifyError>(MySpotifyError::NotFoundError),
        },
{
    if artist_ids.len() == 0 {
        return Err(MySpotifyError::NotFoundError);
    }
    match &artist_ids[0] {
        Some(id) => Ok(id.clone()),
        None => Err(MySpotifyError::NotFoundError),
    }
}

} // verus!
