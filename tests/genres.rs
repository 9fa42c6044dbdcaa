use spotify_genres::{aggregate, count_genres, genre_names, GenreCount, MySpotifyError};

fn strings(v: &[&str]) -> Vec<String> {
    v.iter().map(|s| s.to_string()).collect()
}

fn gc(genre: &str, count: u32) -> GenreCount {
    GenreCount { genre: genre.to_owned(), count }
}

#[test]
fn aggregate_of_nothing_is_empty() {
    assert_eq!(aggregate(vec![]), Ok(vec![]));
}

#[test]
fn aggregate_groups_equal_genres() {
    let r = aggregate(vec![
        Ok(strings(&["rock", "pop"])),
        Ok(strings(&["pop"])),
        Ok(strings(&["rock"])),
    ])
    .unwrap();
    assert_eq!(r.len(), 2);
    assert!(r.contains(&gc("rock", 2)));
    assert!(r.contains(&gc("pop", 2)));
    assert_eq!(r, vec![gc("pop", 2), gc("rock", 2)]);
}

#[test]
fn aggregate_fails_when_one_lookup_fails() {
    let r = aggregate(vec![
        Ok(strings(&["rock"])),
        Err(MySpotifyError::TransportError),
        Ok(strings(&["pop"])),
        Err(MySpotifyError::AuthError),
    ]);
    assert_eq!(r, Err(MySpotifyError::TransportError));
}

#[test]
fn aggregate_fails_when_last_lookup_fails() {
    let r = aggregate(vec![Ok(strings(&["rock"])), Err(MySpotifyError::NotFoundError)]);
    assert_eq!(r, Err(MySpotifyError::NotFoundError));
}

#[test]
fn aggregate_ranks_by_count_descending() {
    let r = aggregate(vec![
        Ok(strings(&["jazz", "blues"])),
        Ok(vec![]),
        Ok(strings(&["blues", "soul", "blues"])),
        Ok(strings(&["soul"])),
    ])
    .unwrap();
    assert_eq!(r, vec![gc("blues", 3), gc("soul", 2), gc("jazz", 1)]);
}

#[test]
fn tracks_without_genres_give_empty_ranking() {
    assert_eq!(aggregate(vec![Ok(vec![]), Ok(vec![])]), Ok(vec![]));
}

#[test]
fn genres_are_case_sensitive() {
    let r = count_genres(strings(&["Rock", "rock", "rock"]));
    assert_eq!(r, vec![gc("rock", 2), gc("Rock", 1)]);
}

#[test]
fn ties_ranked_by_name() {
    let r = count_genres(strings(&["c", "b", "a", "b", "a", "c", "d"]));
    assert_eq!(r, vec![gc("a", 2), gc("b", 2), gc("c", 2), gc("d", 1)]);
}

#[test]
fn tie_break_prefix_first() {
    let r = count_genres(strings(&["indie rock", "indie"]));
    assert_eq!(r, vec![gc("indie", 1), gc("indie rock", 1)]);
}

#[test]
fn count_genres_of_nothing() {
    assert_eq!(count_genres(vec![]), vec![]);
}

#[test]
fn genre_names_keep_rank_order() {
    let names = genre_names(&vec![gc("pop", 3), gc("rock", 1)]);
    assert_eq!(names, strings(&["pop", "rock"]));
    assert_eq!(genre_names(&vec![]), Vec::<String>::new());
}
