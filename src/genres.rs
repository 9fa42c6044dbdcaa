use crate::error::MySpotifyError;
use crate::url_parser::chars_of;
use vstd::prelude::*;

verus! {

/// One genre and the number of times it was found.
#[derive(Clone, Debug, PartialEq, Eq)]
pub struct GenreCount {
    pub genre: String,
    pub count: u32,
}

pub open spec fn views(v: Seq<String>) -> Seq<Seq<char>> {
    v.map_values(|s: String| s@)
}

/// How often `g` occurs among `genres`.
pub open spec fn occurrences(genres: Seq<Seq<char>>, g: Seq<char>) -> nat {
    genres.to_multiset().count(g)
}

/// `a` comes before `b` in code-point order, both having `i` equal leading
/// characters.
pub open spec fn lex_less_from(a: Seq<char>, b: Seq<char>, i: nat) -> bool
    decreases b.len() - i,
{
    if i >= b.len() {
        false
    } else if i >= a.len() {
        true
    } else if a[i as int] != b[i as int] {
        a[i as int] < b[i as int]
    } else {
        lex_less_from(a, b, i + 1)
    }
}

pub open spec fn lex_less(a: Seq<char>, b: Seq<char>) -> bool {
    lex_less_from(a, b, 0)
}

/// The ranking order: higher counts first, equal counts by genre name.
pub open spec fn ranks_before(a: GenreCount, b: GenreCount) -> bool {
    a.count > b.count || (a.count == b.count && lex_less(a.genre@, b.genre@))
}

/// `x` carries the number of times its genre occurs among `genres`.
pub open spec fn counted(x: GenreCount, genres: Seq<Seq<char>>) -> bool {
    x.count as nat == occurrences(genres, x.genre@) && x.count >= 1
}

pub open spec fn has_genre(r: Seq<GenreCount>, g: Seq<char>) -> bool {
    exists|i: int| 0 <= i < r.len() && #[trigger] r[i].genre@ == g
}

pub open spec fn distinct_genres(r: Seq<GenreCount>) -> bool {
    forall|i: int, j: int| 0 <= i < j < r.len() ==> r[i].genre@ != r[j].genre@
}

pub open spec fn sorted_by_rank(s: Seq<GenreCount>) -> bool {
    forall|i: int| 0 <= i < s.len() - 1 ==> ranks_before(#[trigger] s[i], s[i + 1])
}

/// `r` holds each genre of `genres` once, with its number of occurrences,
/// in ranking order.
pub open spec fn is_ranking(r: Seq<GenreCount>, genres: Seq<Seq<char>>) -> bool {
    &&& forall|i: int| 0 <= i < r.len() ==> counted(#[trigger] r[i], genres)
    &&& distinct_genres(r)
    &&& forall|k: int| 0 <= k < genres.len() ==> has_genre(r, #[trigger] genres[k])
    &&& forall|i: int, j: int| 0 <= i < j < r.len() ==> ranks_before(#[trigger] r[i], #[trigger] r[j])
}

/// Relies on itertools' `Itertools::counts`: a map from each distinct item
/// to the number of times it occurs, handed out in any order.
#[verifier::external_body]
fn genre_tallies(genres: Vec<String>) -> (r: Vec<(String, usize)>)
    ensures
        forall|i: int|
            0 <= i < r.len() ==> #[trigger] r[i].1 as nat == occurrences(views(genres@), r[i].0@)
                && 1 <= r[i].1 <= genres.len(),
        forall|i: int, j: int| 0 <= i < j < r.len() ==> r[i].0@ != r[j].0@,
        forall|k: int|
            #![trigger genres@[k]]
            0 <= k < genres.len() ==> exists|i: int| 0 <= i < r.len() && #[trigger] r@[i].0@ == genres@[k]@,
{
    itertools::Itertools::counts(genres.into_iter()).into_iter().collect()
}

proof fn lemma_lex_total(a: Seq<char>, b: Seq<char>, i: nat)
    requires
        i <= a.len(),
        i <= b.len(),
        a != b,
        a.subrange(0, i as int) == b.subrange(0, i as int),
    ensures
        lex_less_from(a, b, i) || lex_less_from(b, a, i),
    decreases a.len() + b.len() - 2 * i,
{
    if i == a.len() && i == b.len() {
        assert(a =~= a.subrange(0, i as int));
        assert(b =~= b.subrange(0, i as int));
    } else if i < a.len() && i < b.len() && a[i as int] == b[i as int] {
        assert(a.subrange(0, (i + 1) as int) =~= a.subrange(0, i as int).push(a[i as int]));
        assert(b.subrange(0, (i + 1) as int) =~= b.subrange(0, i as int).push(b[i as int]));
        lemma_lex_total(a, b, i + 1);
    }
}

proof fn lemma_lex_trans(a: Seq<char>, b: Seq<char>, c: Seq<char>, i: nat)
    requires
        lex_less_from(a, b, i),
        lex_less_from(b, c, i),
    ensures
        lex_less_from(a, c, i),
    decreases c.len() - i,
{
    if i < a.len() && a[i as int] == b[i as int] && b[i as int] == c[i as int] {
        lemma_lex_trans(a, b, c, i + 1);
    }
}

proof fn lemma_ranks_trans(a: GenreCount, b: GenreCount, c: GenreCount)
    requires
        ranks_before(a, b),
        ranks_before(b, c),
    ensures
        ranks_before(a, c),
{
    if a.count == b.count && b.count == c.count {
        lemma_lex_trans(a.genre@, b.genre@, c.genre@, 0);
    }
}

proof fn lemma_sorted_pairs(s: Seq<GenreCount>, i: int, j: int)
    requires
        sorted_by_rank(s),
        0 <= i < j < s.len(),
    ensures
        ranks_before(s[i], s[j]),
    decreases j - i,
{
    if j > i + 1 {
        lemma_sorted_pairs(s, i, j - 1);
        assert(ranks_before(s[j - 1], s[j]));
        lemma_ranks_trans(s[i], s[j - 1], s[j]);
    }
}

fn lex_less_exec(a: &Vec<char>, b: &Vec<char>) -> (r: bool)
    ensures
        r == lex_less(a@, b@),
{
    let mut i: usize = 0;
    while i < b.len()
        invariant
            lex_less(a@, b@) == lex_less_from(a@, b@, i as nat),
            i <= b@.len(),
        decreases b@.len() - i,
    {
        if i >= a.len() {
            return true;
        }
        if a[i] != b[i] {
            return a[i] < b[i];
        }
        i = i + 1;
    }
    false
}

fn ranks_before_exec(a: &GenreCount, a_chars: &Vec<char>, b: &GenreCount) -> (r: bool)
    requires
        a_chars@ == a.genre@,
    ensures
        r == ranks_before(*a, *b),
{
    if a.count != b.count {
        a.count > b.count
    } else {
        lex_less_exec(a_chars, &chars_of(b.genre.as_str()))
    }
}

/// Inserts `item` where it keeps `r` in ranking order.
fn insert_ranked(r: &mut Vec<GenreCount>, item: GenreCount) -> (p: usize)
    requires
        sorted_by_rank(old(r)@),
        forall|i: int| 0 <= i < old(r)@.len() ==> #[trigger] old(r)@[i].genre@ != item.genre@,
    ensures
        p <= old(r)@.len(),
        final(r)@ == old(r)@.insert(p as int, item),
        sorted_by_rank(final(r)@),
{
    let item_chars = chars_of(item.genre.as_str());
    let mut p: usize = 0;
    while p < r.len() && !ranks_before_exec(&item, &item_chars, &r[p])
        invariant
            p <= r.len(),
            item_chars@ == item.genre@,
            forall|i: int| 0 <= i < p ==> !ranks_before(item, #[trigger] r[i]),
        decreases r.len() - p,
    {
        p = p + 1;
    }
    proof {
        if p > 0 {
            let a = r[p - 1];
            assert(!ranks_before(item, a));
            assert(a.genre@ != item.genre@);
            if a.count == item.count {
                assert(a.genre@.subrange(0, 0) =~= item.genre@.subrange(0, 0));
                lemma_lex_total(a.genre@, item.genre@, 0);
            }
            assert(ranks_before(a, item));
        }
    }
    let ghost before = r@;
    r.insert(p, item);
    assert forall|i: int| 0 <= i < r.len() - 1 implies ranks_before(#[trigger] r[i], r[i + 1]) by {
        if i < p - 1 {
            assert(r[i] == before[i] && r[i + 1] == before[i + 1]);
        } else if i == p - 1 {
        } else if i == p {
        } else {
            assert(r[i] == before[i - 1] && r[i + 1] == before[i]);
        }
    }
    p
}

/// Some tally from index `from` on is for genre `g`.
spec fn tallied(all: Seq<(String, usize)>, from: int, g: Seq<char>) -> bool {
    exists|k: int| from <= k < all.len() && #[trigger] all[k].0@ == g
}

proof fn lemma_insert_keeps(before: Seq<GenreCount>, p: int, item: GenreCount, g: Seq<Seq<char>>)
    requires
        0 <= p <= before.len(),
        forall|i: int| 0 <= i < before.len() ==> counted(#[trigger] before[i], g),
        distinct_genres(before),
        !has_genre(before, item.genre@),
        counted(item, g),
    ensures
        forall|i: int| 0 <= i < before.len() + 1 ==> counted(#[trigger] before.insert(p, item)[i], g),
        distinct_genres(before.insert(p, item)),
        forall|x: Seq<char>|
            has_genre(before.insert(p, item), x) <==> (has_genre(before, x) || x == item.genre@),
{
    let after = before.insert(p, item);
    assert forall|i: int| 0 <= i < after.len() implies (i < p ==> after[i] == before[i]) && (i == p
        ==> after[i] == item) && (i > p ==> after[i] == before[i - 1]) by {}
    assert forall|i: int, j: int| 0 <= i < j < after.len() implies after[i].genre@ != after[j].genre@ by {
        if i == p {
            assert(before[j - 1].genre@ == after[j].genre@);
        } else if j == p {
            assert(before[i].genre@ == after[i].genre@);
        } else {
            let bi = if i < p { i } else { i - 1 };
            let bj = if j < p { j } else { j - 1 };
            assert(after[i] == before[bi] && after[j] == before[bj]);
        }
    }
    assert forall|x: Seq<char>| has_genre(after, x) implies (has_genre(before, x) || x == item.genre@) by {
        let i = choose|i: int| 0 <= i < after.len() && #[trigger] after[i].genre@ == x;
        if i < p {
            assert(before[i].genre@ == x);
        } else if i > p {
            assert(before[i - 1].genre@ == x);
        }
    }
    assert forall|x: Seq<char>| (has_genre(before, x) || x == item.genre@) implies has_genre(after, x) by {
        if x == item.genre@ {
            assert(after[p].genre@ == x);
        } else {
            let i = choose|i: int| 0 <= i < before.len() && #[trigger] before[i].genre@ == x;
            if i < p {
                assert(after[i].genre@ == x);
            } else {
                assert(after[i + 1].genre@ == x);
            }
        }
    }
}

/// Puts tallied genres in ranking order.
fn rank(tallies: Vec<(String, usize)>, genres: Ghost<Seq<Seq<char>>>) -> (r: Vec<GenreCount>)
    requires
        forall|i: int|
            0 <= i < tallies.len() ==> #[trigger] tallies@[i].1 as nat == occurrences(genres@, tallies@[i].0@)
                && 1 <= tallies@[i].1 <= u32::MAX,
        forall|i: int, j: int| 0 <= i < j < tallies.len() ==> tallies@[i].0@ != tallies@[j].0@,
    ensures
        forall|i: int| 0 <= i < r.len() ==> counted(#[trigger] r@[i], genres@),
        distinct_genres(r@),
        forall|k: int| 0 <= k < tallies.len() ==> has_genre(r@, #[trigger] tallies@[k].0@),
        sorted_by_rank(r@),
{
    let ghost g = genres@;
    let ghost all = tallies@;
    let mut rest = tallies;
    let mut r: Vec<GenreCount> = Vec::new();
    while rest.len() > 0
        invariant
            rest@.len() <= all.len(),
            rest@ == all.subrange(0, rest@.len() as int),
            forall|i: int|
                0 <= i < all.len() ==> #[trigger] all[i].1 as nat == occurrences(g, all[i].0@)
                    && 1 <= all[i].1 <= u32::MAX,
            forall|i: int, j: int| 0 <= i < j < all.len() ==> all[i].0@ != all[j].0@,
            forall|i: int| 0 <= i < r.len() ==> counted(#[trigger] r@[i], g),
            distinct_genres(r@),
            forall|k: int| rest@.len() <= k < all.len() ==> has_genre(r@, #[trigger] all[k].0@),
            forall|i: int| 0 <= i < r.len() ==> tallied(all, rest@.len() as int, #[trigger] r@[i].genre@),
            sorted_by_rank(r@),
        decreases rest@.len(),
    {
        let ghost k = rest@.len() - 1;
        let (genre, count) = rest.pop().unwrap();
        assert(genre@ == all[k].0@);
        let item = GenreCount { genre, count: count as u32 };
        let ghost before = r@;
        assert(!has_genre(before, item.genre@)) by {
            if has_genre(before, item.genre@) {
                let i = choose|i: int| 0 <= i < before.len() && #[trigger] before[i].genre@ == item.genre@;
                assert(tallied(all, k + 1, before[i].genre@));
                let kk = choose|kk: int| k + 1 <= kk < all.len() && #[trigger] all[kk].0@ == before[i].genre@;
                assert(all[k].0@ != all[kk].0@);
            }
        }
        assert forall|i: int| 0 <= i < before.len() implies #[trigger] before[i].genre@ != item.genre@ by {
            if before[i].genre@ == item.genre@ {
                assert(has_genre(before, item.genre@));
            }
        }
        let p = insert_ranked(&mut r, item);
        proof {
            lemma_insert_keeps(before, p as int, item, g);
            assert forall|kk: int| k <= kk < all.len() implies has_genre(r@, #[trigger] all[kk].0@) by {
                if kk > k {
                    assert(has_genre(before, all[kk].0@));
                }
            }
            assert forall|i: int| 0 <= i < r.len() implies tallied(all, k, #[trigger] r@[i].genre@) by {
                if r@[i].genre@ == item.genre@ {
                    assert(all[k].0@ == r@[i].genre@);
                } else {
                    assert(has_genre(r@, r@[i].genre@));
                    assert(has_genre(before, r@[i].genre@));
                    let j = choose|j: int| 0 <= j < before.len() && #[trigger] before[j].genre@ == r@[i].genre@;
                    assert(tallied(all, k + 1, before[j].genre@));
                    let kk = choose|kk: int| k + 1 <= kk < all.len() && #[trigger] all[kk].0@ == before[j].genre@;
                    assert(all[kk].0@ == r@[i].genre@);
                }
            }
        }
    }
    r
}

/// Counts each distinct genre of `genres` and ranks the counts: higher
/// counts first, equal counts in code-point order of the genre names.
pub fn count_genres(genres: Vec<String>) -> (r: Vec<GenreCount>)
    requires
        genres.len() <= u32::MAX,
    ensures
        is_ranking(r@, views(genres@)),
{
    let ghost g = views(genres@);
    let ghost input = genres@;
    let tallies = genre_tallies(genres);
    let ghost t_all = tallies@;
    let r = rank(tallies, Ghost(g));
    assert forall|k: int| 0 <= k < g.len() implies has_genre(r@, #[trigger] g[k]) by {
        assert(g[k] == input[k]@);
        let t = choose|t: int| 0 <= t < t_all.len() && #[trigger] t_all[t].0@ == input[k]@;
        assert(has_genre(r@, t_all[t].0@));
    }
    assert forall|i: int, j: int| 0 <= i < j < r.len() implies ranks_before(#[trigger] r@[i], #[trigger] r@[j]) by {
        lemma_sorted_pairs(r@, i, j);
    }
    r
}

/// The first failed lookup from index `i` on.
pub open spec fn first_failure_from(
    lookups: Seq<Result<Vec<String>, MySpotifyError>>,
    i: nat,
) -> Option<MySpotifyError>
    decreases lookups.len() - i,
{
    if i >= lookups.len() {
        None
    } else {
        match lookups[i as int] {
            Err(e) => Some(e),
            Ok(_) => first_failure_from(lookups, i + 1),
        }
    }
}

/// All genres that the first `n` lookups found, in order.
pub open spec fn found_genres(lookups: Seq<Result<Vec<String>, MySpotifyError>>, n: nat) -> Seq<
    Seq<char>,
>
    decreases n,
{
    if n == 0 {
        Seq::empty()
    } else {
        found_genres(lookups, (n - 1) as nat) + match lookups[n - 1] {
            Ok(v) => views(v@),
            Err(_) => Seq::empty(),
        }
    }
}

/// Ranks the genres found by per-track lookups. All or nothing: where a
/// lookup failed, the first failure is returned and no counts at all.
pub fn aggregate(lookups: Vec<Result<Vec<String>, MySpotifyError>>) -> (r: Result<
    Vec<GenreCount>,
    MySpotifyError,
>)
    requires
        found_genres(lookups@, lookups@.len()).len() <= u32::MAX,
    ensures
        match first_failure_from(lookups@, 0) {
            Some(e) => r == Err::<Vec<GenreCount>, MySpotifyError>(e),
            None => r is Ok && is_ranking(r->Ok_0@, found_genres(lookups@, lookups@.len())),
        },
{
    let mut flat: Vec<String> = Vec::new();
    let mut i: usize = 0;
    while i < lookups.len()
        invariant
            i <= lookups@.len(),
            first_failure_from(lookups@, 0) == first_failure_from(lookups@, i as nat),
            views(flat@) == found_genres(lookups@, i as nat),
        decreases lookups@.len() - i,
    {
        match &lookups[i] {
            Err(e) => {
                return Err(*e);
            },
            Ok(v) => {
                let mut j: usize = 0;
                while j < v.len()
                    invariant
                        j <= v@.len(),
                        views(flat@) == found_genres(lookups@, i as nat) + views(v@.subrange(0, j as int)),
                    decreases v@.len() - j,
                {
                    let ghost old_flat = flat@;
                    let c = v[j].clone();
                    flat.push(c);
                    assert(views(flat@) =~= views(old_flat).push(v@[j as int]@));
                    assert(views(v@.subrange(0, j + 1)) =~= views(v@.subrange(0, j as int)).push(
                        v@[j as int]@,
                    ));
                    j = j + 1;
                    assert(views(flat@) =~= found_genres(lookups@, i as nat) + views(v@.subrange(0, j as int)));
                }
                assert(v@.subrange(0, j as int) =~= v@);
            },
        }
        i = i + 1;
        assert(views(flat@) =~= found_genres(lookups@, i as nat));
    }
    Ok(count_genres(flat))
}

/// The genre names of a ranking, in its order.
pub fn genre_names(counts: &Vec<GenreCount>) -> (r: Vec<String>)
    ensures
        r@.len() == counts@.len(),
        forall|i: int| 0 <= i < r@.len() ==> #[trigger] r@[i]@ == counts@[i].genre@,
{
    let mut r: Vec<String> = Vec::new();
    let mut i: usize = 0;
    while i < counts.len()
        invariant
            i <= counts@.len(),
            r@.len() == i,
            forall|k: int| 0 <= k < i ==> #[trigger] r@[k]@ == counts@[k].genre@,
        decreases counts@.len() - i,
    {
        r.push(counts[i].genre.clone());
        i = i + 1;
    }
    r
}

proof fn lemma_failure_seen_from(lookups: Seq<Result<Vec<String>, MySpotifyError>>, i: int, j: nat)
    requires
        j <= i < lookups.len(),
        lookups[i] is Err,
    ensures
        first_failure_from(lookups, j) is Some,
    decreases i - j,
{
    if j < i && lookups[j as int] is Ok {
        lemma_failure_seen_from(lookups, i, j + 1);
    }
}

/// A single failed lookup, wherever it stands, fails the whole aggregation.
pub proof fn one_failure_fails_all(lookups: Seq<Result<Vec<String>, MySpotifyError>>, i: int)
    requires
        0 <= i < lookups.len(),
        lookups[i] is Err,
    ensures
        first_failure_from(lookups, 0) is Some,
{
    lemma_failure_seen_from(lookups, i, 0);
}

/// With no lookups there is nothing to fail, and the only ranking of no
/// genres is the empty one.
pub proof fn nothing_to_aggregate(lookups: Seq<Result<Vec<String>, MySpotifyError>>, r: Seq<GenreCount>)
    requires
        lookups.len() == 0,
        is_ranking(r, found_genres(lookups, 0)),
    ensures
        first_failure_from(lookups, 0) is None,
        r.len() == 0,
{
    broadcast use vstd::seq_lib::group_to_multiset_ensures;

    if r.len() > 0 {
        assert(counted(r[0], found_genres(lookups, 0)));
        assert(found_genres(lookups, 0).to_multiset() =~= vstd::multiset::Multiset::empty());
    }
}

} // verus!
