//! Recently-played tracks: assembling plain track records out of upstream
//! play history, collecting each track's artist genres, and filtering
//! tracks whose genres match an exclusion list.
//!
//! The HTTP calls and JSON parsing live outside this library; everything
//! here works on plain values handed in by the caller and is verified.

use vstd::prelude::*;
use vstd::string::StringExecFns;
use crate::text::clone_opt_string;
use crate::text::has_substring;
use crate::text::lemma_concat_contains;
use crate::text::lemma_lex_asym;
use crate::text::lemma_lex_irrefl;
use crate::text::lemma_lex_total;
use crate::text::lemma_lex_trans;
use crate::text::lemma_push_contains;
use crate::text::lex_lt;
use crate::text::lower_of;
use crate::text::str_contains_str;
use crate::text::str_lt;
use crate::text::to_lowercase;

verus! {

/// Time-to-live of the token and track caches: fifteen minutes.
pub const SPOTIFY_CACHE_DURATION_SECS: u64 = 900;

/// Default number of tracks shown.
pub const NUMBER_OF_TRACKS_TO_SHOW: usize = 6;

/// Most artist identifiers one genre request may carry.
pub const ARTIST_BATCH_LIMIT: usize = 50;

/// One recently-played track as the response payload shows it.
#[derive(Debug, Clone)]
pub struct SpotifyTrack {
    pub track_name: String,
    pub artist: String,
    pub album_name: String,
    pub played_at: String,
    pub spotify_url: String,
    pub album_image_url: Option<String>,
    pub genres: Vec<String>,
}

/// The mathematical shadow of a `SpotifyTrack`.
pub struct TrackView {
    pub track_name: Seq<char>,
    pub artist: Seq<char>,
    pub album_name: Seq<char>,
    pub played_at: Seq<char>,
    pub spotify_url: Seq<char>,
    pub album_image_url: Option<Seq<char>>,
    pub genres: Seq<Seq<char>>,
}

impl View for SpotifyTrack {
    type V = TrackView;

    open spec fn view(&self) -> TrackView {
        TrackView {
            track_name: self.track_name@,
            artist: self.artist@,
            album_name: self.album_name@,
            played_at: self.played_at@,
            spotify_url: self.spotify_url@,
            album_image_url: self.album_image_url.deep_view(),
            genres: self.genres.deep_view(),
        }
    }
}

impl DeepView for SpotifyTrack {
    type V = TrackView;

    open spec fn deep_view(&self) -> TrackView {
        self.view()
    }
}

/// One artist credited on a play-history entry.
#[derive(Debug)]
pub struct ArtistRef {
    pub id: String,
    pub name: String,
}

/// The mathematical shadow of an `ArtistRef`.
pub struct ArtistRefView {
    pub id: Seq<char>,
    pub name: Seq<char>,
}

impl View for ArtistRef {
    type V = ArtistRefView;

    open spec fn view(&self) -> ArtistRefView {
        ArtistRefView { id: self.id@, name: self.name@ }
    }
}

impl DeepView for ArtistRef {
    type V = ArtistRefView;

    open spec fn deep_view(&self) -> ArtistRefView {
        self.view()
    }
}

/// One play-history entry, as plain values: what the upstream response
/// carries after the caller has parsed it.
#[derive(Debug)]
pub struct PlayedEntry {
    pub track_name: String,
    pub album_name: String,
    pub played_at: String,
    pub spotify_url: String,
    pub album_image_url: Option<String>,
    pub artists: Vec<ArtistRef>,
}

/// The mathematical shadow of a `PlayedEntry`.
pub struct PlayedEntryView {
    pub track_name: Seq<char>,
    pub album_name: Seq<char>,
    pub played_at: Seq<char>,
    pub spotify_url: Seq<char>,
    pub album_image_url: Option<Seq<char>>,
    pub artists: Seq<ArtistRefView>,
}

impl View for PlayedEntry {
    type V = PlayedEntryView;

    open spec fn view(&self) -> PlayedEntryView {
        PlayedEntryView {
            track_name: self.track_name@,
            album_name: self.album_name@,
            played_at: self.played_at@,
            spotify_url: self.spotify_url@,
            album_image_url: self.album_image_url.deep_view(),
            artists: self.artists.deep_view(),
        }
    }
}

impl DeepView for PlayedEntry {
    type V = PlayedEntryView;

    open spec fn deep_view(&self) -> PlayedEntryView {
        self.view()
    }
}

/// The genres of one artist, keyed by the artist's identifier.
#[derive(Debug)]
pub struct ArtistGenres {
    pub id: String,
    pub genres: Vec<String>,
}

/// The mathematical shadow of an `ArtistGenres`.
pub struct ArtistGenresView {
    pub id: Seq<char>,
    pub genres: Seq<Seq<char>>,
}

impl View for ArtistGenres {
    type V = ArtistGenresView;

    open spec fn view(&self) -> ArtistGenresView {
        ArtistGenresView { id: self.id@, genres: self.genres.deep_view() }
    }
}

impl DeepView for ArtistGenres {
    type V = ArtistGenresView;

    open spec fn deep_view(&self) -> ArtistGenresView {
        self.view()
    }
}

/// Strictly ascending lexicographic order: sorted with no duplicates.
pub open spec fn strictly_sorted_lex(s: Seq<Seq<char>>) -> bool {
    forall|i: int, j: int| 0 <= i < j < s.len() ==> lex_lt(#[trigger] s[i], #[trigger] s[j])
}

/// Where `g` goes in the ascending list `t`: before the first entry above it.
pub open spec fn lex_pos(t: Seq<Seq<char>>, g: Seq<char>) -> int
    decreases t.len(),
{
    if t.len() == 0 {
        0
    } else if lex_lt(g, t[0]) {
        0
    } else {
        1 + lex_pos(t.skip(1), g)
    }
}

/// Insert `g` into the ascending genre list `t`, unless already present.
pub open spec fn genre_insert(t: Seq<Seq<char>>, g: Seq<char>) -> Seq<Seq<char>> {
    if t.contains(g) {
        t
    } else {
        t.insert(lex_pos(t, g), g)
    }
}

/// The ascending, duplicate-free genre list built from `gs`, in order.
pub open spec fn genre_list_of(gs: Seq<Seq<char>>) -> Seq<Seq<char>>
    decreases gs.len(),
{
    if gs.len() == 0 {
        Seq::<Seq<char>>::empty()
    } else {
        genre_insert(genre_list_of(gs.drop_last()), gs.last())
    }
}

proof fn lemma_lex_pos_props(t: Seq<Seq<char>>, g: Seq<char>)
    ensures
        0 <= lex_pos(t, g) <= t.len(),
        forall|k: int| 0 <= k < lex_pos(t, g) ==> !lex_lt(g, #[trigger] t[k]),
        lex_pos(t, g) < t.len() ==> lex_lt(g, t[lex_pos(t, g)]),
    decreases t.len(),
{
    if t.len() > 0 && !lex_lt(g, t[0]) {
        lemma_lex_pos_props(t.skip(1), g);
        let p1 = lex_pos(t.skip(1), g);
        assert forall|k: int| 0 <= k < p1 + 1 implies !lex_lt(g, #[trigger] t[k]) by {
            if k > 0 {
                assert(t.skip(1)[k - 1] == t[k]);
            }
        }
        if p1 < t.skip(1).len() {
            assert(t.skip(1)[p1] == t[p1 + 1]);
        }
    }
}

proof fn lemma_lex_pos_at(t: Seq<Seq<char>>, g: Seq<char>, j: int)
    requires
        0 <= j <= t.len(),
        forall|k: int| 0 <= k < j ==> !lex_lt(g, #[trigger] t[k]),
        j < t.len() ==> lex_lt(g, t[j]),
    ensures
        lex_pos(t, g) == j,
    decreases j,
{
    if t.len() > 0 && j > 0 {
        assert forall|k: int| 0 <= k < j - 1 implies !lex_lt(g, #[trigger] t.skip(1)[k]) by {
            assert(t.skip(1)[k] == t[k + 1]);
        }
        if j - 1 < t.skip(1).len() {
            assert(t.skip(1)[j - 1] == t[j]);
        }
        lemma_lex_pos_at(t.skip(1), g, j - 1);
    }
}

/// Inserting into an ascending list keeps it ascending, and adds exactly
/// the inserted genre to its membership.
proof fn lemma_genre_insert_props(t: Seq<Seq<char>>, g: Seq<char>)
    requires
        strictly_sorted_lex(t),
    ensures
        strictly_sorted_lex(genre_insert(t, g)),
        forall|x: Seq<char>| genre_insert(t, g).contains(x) <==> t.contains(x) || x == g,
        genre_insert(t, g).len() <= t.len() + 1,
{
    if t.contains(g) {
        assert forall|x: Seq<char>| genre_insert(t, g).contains(x) implies t.contains(x) || x
            == g by {}
    } else {
        lemma_lex_pos_props(t, g);
        let p = lex_pos(t, g);
        let u = t.insert(p, g);
        t.insert_ensures(p, g);
        assert forall|i: int, j: int| 0 <= i < j < u.len() implies lex_lt(
            #[trigger] u[i],
            #[trigger] u[j],
        ) by {
            if i < p && j == p {
                // everything below the position is at or below g, and g is
                // absent, so strictly below
                assert(!lex_lt(g, t[i]));
                assert(!t.contains(g));
                assert(t[i] != g) by {
                    if t[i] == g {
                        assert(t.contains(g));
                    }
                }
                lemma_lex_total(t[i], g);
            } else if i == p && j > p {
                assert(u[j] == t[j - 1]);
                assert(lex_lt(g, t[p]));
                if j - 1 > p {
                    lemma_lex_trans(g, t[p], t[j - 1]);
                }
            } else if i < p && j > p {
                assert(u[i] == t[i]);
                assert(u[j] == t[j - 1]);
            }
        }
        assert forall|x: Seq<char>| u.contains(x) implies t.contains(x) || x == g by {
            let i = choose|i: int| 0 <= i < u.len() && u[i] == x;
            if i < p {
                assert(t[i] == x);
            } else if i > p {
                assert(t[i - 1] == x);
            }
        }
        assert forall|x: Seq<char>| t.contains(x) || x == g implies u.contains(x) by {
            if t.contains(x) {
                let i = choose|i: int| 0 <= i < t.len() && t[i] == x;
                if i < p {
                    assert(u[i] == x);
                } else {
                    assert(u[i + 1] == x);
                }
            } else {
                assert(u[p] == g);
            }
        }
    }
}

/// The genre list built from any sequence is ascending and holds exactly
/// that sequence's genres.
pub proof fn lemma_genre_list_props(gs: Seq<Seq<char>>)
    ensures
        strictly_sorted_lex(genre_list_of(gs)),
        forall|x: Seq<char>| genre_list_of(gs).contains(x) <==> gs.contains(x),
    decreases gs.len(),
{
    if gs.len() > 0 {
        let d = gs.drop_last();
        lemma_genre_list_props(d);
        lemma_genre_insert_props(genre_list_of(d), gs.last());
        assert forall|x: Seq<char>| genre_list_of(gs).contains(x) <==> gs.contains(x) by {
            lemma_push_contains(d, gs.last(), x);
            assert(d.push(gs.last()) =~= gs);
        }
    }
}

/// First position of `list` at or after which `g` belongs.
fn genre_pos(list: &Vec<String>, g: &String) -> (r: usize)
    ensures
        r <= list@.len(),
        forall|k: int| 0 <= k < r ==> lex_lt(#[trigger] list.deep_view()[k], g@),
        r < list@.len() ==> !lex_lt(list.deep_view()[r as int], g@),
{
    let n = list.len();
    let mut j: usize = 0;
    while j < n
        invariant
            n == list@.len(),
            j <= n,
            forall|k: int| 0 <= k < j ==> lex_lt(#[trigger] list.deep_view()[k], g@),
        decreases n - j,
    {
        if !str_lt(list[j].as_str(), g.as_str()) {
            proof {
                assert(list.deep_view()[j as int] == list@[j as int]@);
            }
            return j;
        }
        j += 1;
    }
    n
}

/// Insert a genre into an ascending genre list, unless already present.
fn genre_insert_exec(list: &mut Vec<String>, g: String)
    requires
        strictly_sorted_lex(old(list).deep_view()),
    ensures
        final(list).deep_view() == genre_insert(old(list).deep_view(), g@),
        strictly_sorted_lex(final(list).deep_view()),
{
    let ghost t = list.deep_view();
    let j = genre_pos(list, &g);
    proof {
        assert forall|k: int| 0 <= k < j implies t[k] != g@ by {
            if t[k] == g@ {
                lemma_lex_irrefl(g@);
            }
        }
        assert forall|k: int| 0 <= k < j implies !lex_lt(g@, #[trigger] t[k]) by {
            lemma_lex_asym(t[k], g@);
        }
    }
    let present = if j < list.len() {
        list[j] == g
    } else {
        false
    };
    if present {
        proof {
            assert(t[j as int] == g@);
            assert(t.contains(g@));
            lemma_genre_insert_props(t, g@);
        }
    } else {
        proof {
            if j < t.len() {
                lemma_lex_total(g@, t[j as int]);
                assert(lex_lt(g@, t[j as int]));
            }
            assert forall|k: int| 0 <= k < t.len() implies t[k] != g@ by {
                if k >= j {
                    if k == j {
                    } else {
                        assert(lex_lt(t[j as int], t[k]));
                        if j < t.len() {
                            lemma_lex_trans(g@, t[j as int], t[k]);
                        }
                    }
                    if t[k] == g@ {
                        lemma_lex_irrefl(g@);
                    }
                }
            }
            if t.contains(g@) {
                let w = choose|w: int| 0 <= w < t.len() && t[w] == g@;
                assert(false);
            }
            lemma_lex_pos_at(t, g@, j as int);
            lemma_genre_insert_props(t, g@);
        }
        list.insert(j, g);
        proof {
            t.insert_ensures(j as int, g@);
            assert(list.deep_view() =~= t.insert(j as int, g@));
        }
    }
}

/// The genres recorded for the artist `id`: those of its first entry in the
/// map, or none.
pub open spec fn lookup_genres(m: Seq<ArtistGenresView>, id: Seq<char>) -> Seq<Seq<char>>
    decreases m.len(),
{
    if m.len() == 0 {
        Seq::<Seq<char>>::empty()
    } else if m[0].id == id {
        m[0].genres
    } else {
        lookup_genres(m.skip(1), id)
    }
}

proof fn lemma_lookup_at(m: Seq<ArtistGenresView>, id: Seq<char>, k: int)
    requires
        0 <= k < m.len(),
        m[k].id == id,
        forall|j: int| 0 <= j < k ==> m[j].id != id,
    ensures
        lookup_genres(m, id) == m[k].genres,
    decreases k,
{
    if k > 0 {
        lemma_lookup_at(m.skip(1), id, k - 1);
    }
}

proof fn lemma_lookup_none(m: Seq<ArtistGenresView>, id: Seq<char>)
    requires
        forall|j: int| 0 <= j < m.len() ==> m[j].id != id,
    ensures
        lookup_genres(m, id) == Seq::<Seq<char>>::empty(),
    decreases m.len(),
{
    if m.len() > 0 {
        lemma_lookup_none(m.skip(1), id);
    }
}

/// Index of the first map entry for the artist `id`, if any.
fn find_artist_genres(map: &Vec<ArtistGenres>, id: &String) -> (r: Option<usize>)
    ensures
        match r {
            Some(k) => k < map@.len() && lookup_genres(map.deep_view(), id@)
                == map.deep_view()[k as int].genres,
            None => lookup_genres(map.deep_view(), id@) == Seq::<Seq<char>>::empty(),
        },
{
    let n = map.len();
    let mut k: usize = 0;
    while k < n
        invariant
            n == map@.len(),
            k <= n,
            forall|j: int| 0 <= j < k ==> map.deep_view()[j].id != id@,
        decreases n - k,
    {
        if map[k].id == *id {
            proof {
                assert(map.deep_view()[k as int] == map@[k as int].deep_view());
                lemma_lookup_at(map.deep_view(), id@, k as int);
            }
            return Some(k);
        }
        k += 1;
    }
    proof {
        lemma_lookup_none(map.deep_view(), id@);
    }
    None
}

/// Every genre contributed by the credited artists, in artist order.
pub open spec fn gathered_genres(
    artists: Seq<ArtistRefView>,
    m: Seq<ArtistGenresView>,
) -> Seq<Seq<char>>
    decreases artists.len(),
{
    if artists.len() == 0 {
        Seq::<Seq<char>>::empty()
    } else {
        gathered_genres(artists.drop_last(), m) + lookup_genres(m, artists.last().id)
    }
}

/// The genre list of one play-history entry: every credited artist's
/// genres, in ascending order with duplicates dropped.
pub open spec fn entry_genre_list(e: PlayedEntryView, m: Seq<ArtistGenresView>) -> Seq<Seq<char>> {
    genre_list_of(gathered_genres(e.artists, m))
}

/// Build the ascending, duplicate-free genre list of one entry.
fn entry_genre_vec(e: &PlayedEntry, map: &Vec<ArtistGenres>) -> (r: Vec<String>)
    ensures
        r.deep_view() == entry_genre_list(e.deep_view(), map.deep_view()),
{
    let ghost adv = e.artists.deep_view();
    let ghost mdv = map.deep_view();
    let mut list: Vec<String> = Vec::new();
    let mut a: usize = 0;
    proof {
        assert(adv.take(0) =~= Seq::<ArtistRefView>::empty());
        assert(list.deep_view() =~= Seq::<Seq<char>>::empty());
    }
    while a < e.artists.len()
        invariant
            a <= e.artists@.len(),
            adv == e.artists.deep_view(),
            mdv == map.deep_view(),
            strictly_sorted_lex(list.deep_view()),
            list.deep_view() == genre_list_of(gathered_genres(adv.take(a as int), mdv)),
        decreases e.artists@.len() - a,
    {
        let ghost gpre = gathered_genres(adv.take(a as int), mdv);
        proof {
            assert(adv.take(a + 1).drop_last() =~= adv.take(a as int));
            assert(adv.take(a + 1).last() == adv[a as int]);
            assert(adv[a as int] == e.artists@[a as int].deep_view());
        }
        match find_artist_genres(map, &e.artists[a].id) {
            None => {
                proof {
                    assert(gathered_genres(adv.take(a + 1), mdv) =~= gpre);
                }
            },
            Some(k) => {
                let ghost found = map.deep_view()[k as int].genres;
                let genres = &map[k].genres;
                let mut g: usize = 0;
                proof {
                    assert(found.take(0) =~= Seq::<Seq<char>>::empty());
                    assert(gpre + found.take(0) =~= gpre);
                }
                while g < genres.len()
                    invariant
                        g <= genres@.len(),
                        found == genres.deep_view(),
                        strictly_sorted_lex(list.deep_view()),
                        list.deep_view() == genre_list_of(gpre + found.take(g as int)),
                    decreases genres@.len() - g,
                {
                    proof {
                        assert((gpre + found.take(g + 1)).drop_last() =~= gpre + found.take(
                            g as int,
                        ));
                        assert((gpre + found.take(g + 1)).last() == found[g as int]);
                        assert(found[g as int] == genres@[g as int]@);
                    }
                    genre_insert_exec(&mut list, genres[g].clone());
                    g += 1;
                }
                proof {
                    assert(found.take(genres@.len() as int) =~= found);
                    assert(gathered_genres(adv.take(a + 1), mdv) == gpre + found);
                }
            },
        }
        a += 1;
    }
    proof {
        assert(adv.take(e.artists@.len() as int) =~= adv);
        assert(e.deep_view().artists == adv);
    }
    list
}

/// A genre falls under an exclusion entry when, after case folding, either
/// contains the other.
pub open spec fn genre_matches(genre: Seq<char>, excluded: Seq<char>) -> bool {
    has_substring(lower_of(genre), excluded) || has_substring(excluded, lower_of(genre))
}

fn genre_matches_exec(genre: &String, excluded: &String) -> (r: bool)
    ensures
        r == genre_matches(genre@, excluded@),
{
    let folded = to_lowercase(genre.as_str());
    str_contains_str(folded.as_str(), excluded.as_str()) || str_contains_str(
        excluded.as_str(),
        folded.as_str(),
    )
}

/// Some genre of the track falls under some entry of the exclusion list.
/// An empty exclusion list excludes nothing.
pub open spec fn track_excluded(genres: Seq<Seq<char>>, excluded: Seq<Seq<char>>) -> bool {
    exists|i: int, j: int|
        0 <= i < genres.len() && 0 <= j < excluded.len() && genre_matches(
            #[trigger] genres[i],
            #[trigger] excluded[j],
        )
}

/// An empty exclusion list excludes no track.
pub proof fn lemma_empty_exclusion(genres: Seq<Seq<char>>)
    ensures
        !track_excluded(genres, Seq::<Seq<char>>::empty()),
{
}

fn is_track_excluded(genres: &Vec<String>, excluded: &Vec<String>) -> (r: bool)
    ensures
        r == track_excluded(genres.deep_view(), excluded.deep_view()),
{
    let n = genres.len();
    let m = excluded.len();
    let mut i: usize = 0;
    while i < n
        invariant
            n == genres@.len(),
            m == excluded@.len(),
            i <= n,
            forall|a: int, b: int|
                0 <= a < i && 0 <= b < m ==> !genre_matches(
                    #[trigger] genres.deep_view()[a],
                    #[trigger] excluded.deep_view()[b],
                ),
        decreases n - i,
    {
        let mut j: usize = 0;
        while j < m
            invariant
                n == genres@.len(),
                m == excluded@.len(),
                i < n,
                j <= m,
                forall|a: int, b: int|
                    0 <= a < i && 0 <= b < m ==> !genre_matches(
                        #[trigger] genres.deep_view()[a],
                        #[trigger] excluded.deep_view()[b],
                    ),
                forall|b: int|
                    0 <= b < j ==> !genre_matches(
                        genres.deep_view()[i as int],
                        #[trigger] excluded.deep_view()[b],
                    ),
            decreases m - j,
        {
            if genre_matches_exec(&genres[i], &excluded[j]) {
                proof {
                    assert(genres.deep_view()[i as int] == genres@[i as int]@);
                    assert(excluded.deep_view()[j as int] == excluded@[j as int]@);
                }
                return true;
            }
            j += 1;
        }
        i += 1;
    }
    false
}

/// The track shown for one play-history entry: the first credited artist
/// names the track's artist line.
pub open spec fn track_of_entry(e: PlayedEntryView, genres: Seq<Seq<char>>) -> TrackView {
    TrackView {
        track_name: e.track_name,
        artist: if e.artists.len() > 0 {
            e.artists[0].name
        } else {
            Seq::<char>::empty()
        },
        album_name: e.album_name,
        played_at: e.played_at,
        spotify_url: e.spotify_url,
        album_image_url: e.album_image_url,
        genres: genres,
    }
}

/// The tracks shown for a play history, in play order: each entry's genre
/// list is gathered from the artist-genre map, and entries whose genres
/// fall under the exclusion list are omitted.
pub open spec fn spec_build(
    es: Seq<PlayedEntryView>,
    m: Seq<ArtistGenresView>,
    ex: Seq<Seq<char>>,
) -> Seq<TrackView>
    decreases es.len(),
{
    if es.len() == 0 {
        Seq::<TrackView>::empty()
    } else {
        let prev = spec_build(es.drop_last(), m, ex);
        let e = es.last();
        let g = entry_genre_list(e, m);
        if track_excluded(g, ex) {
            prev
        } else {
            prev.push(track_of_entry(e, g))
        }
    }
}

/// Every track built comes from an entry whose genre list does not fall
/// under the exclusion list.
pub proof fn lemma_build_omits_excluded(
    es: Seq<PlayedEntryView>,
    m: Seq<ArtistGenresView>,
    ex: Seq<Seq<char>>,
)
    ensures
        forall|k: int|
            0 <= k < spec_build(es, m, ex).len() ==> exists|i: int|
                0 <= i < es.len() && !track_excluded(entry_genre_list(#[trigger] es[i], m), ex)
                    && #[trigger] spec_build(es, m, ex)[k] == track_of_entry(
                    es[i],
                    entry_genre_list(es[i], m),
                ),
    decreases es.len(),
{
    if es.len() > 0 {
        let d = es.drop_last();
        lemma_build_omits_excluded(d, m, ex);
        let out = spec_build(es, m, ex);
        let prev = spec_build(d, m, ex);
        assert forall|k: int| 0 <= k < out.len() implies exists|i: int|
            0 <= i < es.len() && !track_excluded(entry_genre_list(#[trigger] es[i], m), ex)
                && #[trigger] out[k] == track_of_entry(es[i], entry_genre_list(es[i], m)) by {
            if k < prev.len() {
                let i = choose|i: int|
                    0 <= i < d.len() && !track_excluded(entry_genre_list(#[trigger] d[i], m), ex)
                        && prev[k] == track_of_entry(d[i], entry_genre_list(d[i], m));
                assert(es[i] == d[i]);
                assert(out[k] == prev[k]);
            } else {
                let i = es.len() - 1;
                assert(es[i] == es.last());
                assert(out[k] == track_of_entry(es[i], entry_genre_list(es[i], m)));
            }
        }
    }
}

fn make_track(e: &PlayedEntry, genres: Vec<String>) -> (r: SpotifyTrack)
    ensures
        r@ == track_of_entry(e.deep_view(), genres.deep_view()),
{
    let artist = if e.artists.len() > 0 {
        e.artists[0].name.clone()
    } else {
        String::new()
    };
    proof {
        if e.artists@.len() > 0 {
            assert(e.artists.deep_view()[0] == e.artists@[0].deep_view());
        }
    }
    SpotifyTrack {
        track_name: e.track_name.clone(),
        artist,
        album_name: e.album_name.clone(),
        played_at: e.played_at.clone(),
        spotify_url: e.spotify_url.clone(),
        album_image_url: clone_opt_string(&e.album_image_url),
        genres,
    }
}

/// Turn a play history into the tracks shown: gather each entry's genres,
/// drop entries whose genres fall under the exclusion list, and keep the
/// rest in play order.
pub fn build_tracks(
    entries: &Vec<PlayedEntry>,
    genre_map: &Vec<ArtistGenres>,
    excluded: &Vec<String>,
) -> (out: Vec<SpotifyTrack>)
    ensures
        out.deep_view() == spec_build(
            entries.deep_view(),
            genre_map.deep_view(),
            excluded.deep_view(),
        ),
{
    let ghost edv = entries.deep_view();
    let ghost mdv = genre_map.deep_view();
    let ghost xdv = excluded.deep_view();
    let mut out: Vec<SpotifyTrack> = Vec::new();
    let mut i: usize = 0;
    proof {
        assert(edv.take(0) =~= Seq::<PlayedEntryView>::empty());
        assert(out.deep_view() =~= Seq::<TrackView>::empty());
    }
    while i < entries.len()
        invariant
            i <= entries@.len(),
            edv == entries.deep_view(),
            mdv == genre_map.deep_view(),
            xdv == excluded.deep_view(),
            out.deep_view() == spec_build(edv.take(i as int), mdv, xdv),
        decreases entries@.len() - i,
    {
        let ghost pre = out.deep_view();
        let e = &entries[i];
        proof {
            assert(edv.take(i + 1).drop_last() =~= edv.take(i as int));
            assert(edv.take(i + 1).last() == e.deep_view());
        }
        let genres = entry_genre_vec(e, genre_map);
        if !is_track_excluded(&genres, excluded) {
            let t = make_track(e, genres);
            out.push(t);
            proof {
                assert(out.deep_view() =~= pre.push(t@));
            }
        }
        i += 1;
    }
    proof {
        assert(edv.take(entries@.len() as int) =~= edv);
    }
    out
}

/// At most the first `limit` tracks.
pub fn take_limit(tracks: Vec<SpotifyTrack>, limit: usize) -> (r: Vec<SpotifyTrack>)
    ensures
        r.deep_view() == if tracks.deep_view().len() <= limit {
            tracks.deep_view()
        } else {
            tracks.deep_view().take(limit as int)
        },
{
    let ghost whole = tracks.deep_view();
    let mut r = tracks;
    r.truncate(limit);
    proof {
        if whole.len() > limit {
            assert(r.deep_view() =~= whole.take(limit as int));
        } else {
            assert(r.deep_view() =~= whole);
        }
    }
    r
}

/// The artist identifiers of one entry, in credit order.
pub open spec fn entry_artist_ids(e: PlayedEntryView) -> Seq<Seq<char>> {
    Seq::new(e.artists.len(), |j: int| e.artists[j].id)
}

/// Every artist identifier of the play history, in encounter order.
pub open spec fn all_artist_ids(es: Seq<PlayedEntryView>) -> Seq<Seq<char>>
    decreases es.len(),
{
    if es.len() == 0 {
        Seq::<Seq<char>>::empty()
    } else {
        all_artist_ids(es.drop_last()) + entry_artist_ids(es.last())
    }
}

fn vec_contains_string(v: &Vec<String>, s: &String) -> (r: bool)
    ensures
        r == v.deep_view().contains(s@),
{
    let n = v.len();
    let mut k: usize = 0;
    while k < n
        invariant
            n == v@.len(),
            k <= n,
            forall|j: int| 0 <= j < k ==> v.deep_view()[j] != s@,
        decreases n - k,
    {
        if v[k] == *s {
            proof {
                assert(v.deep_view()[k as int] == v@[k as int]@);
            }
            return true;
        }
        k += 1;
    }
    proof {
        if v.deep_view().contains(s@) {
            let w = choose|w: int| 0 <= w < v.deep_view().len() && v.deep_view()[w] == s@;
            assert(false);
        }
    }
    false
}

/// The distinct artist identifiers of the play history, first occurrence
/// first: who to ask the genre service about.
pub fn collect_artist_ids(entries: &Vec<PlayedEntry>) -> (r: Vec<String>)
    ensures
        r.deep_view().no_duplicates(),
        forall|x: Seq<char>|
            r.deep_view().contains(x) <==> all_artist_ids(entries.deep_view()).contains(x),
{
    let ghost edv = entries.deep_view();
    let mut r: Vec<String> = Vec::new();
    let mut i: usize = 0;
    proof {
        assert(edv.take(0) =~= Seq::<PlayedEntryView>::empty());
    }
    while i < entries.len()
        invariant
            i <= entries@.len(),
            edv == entries.deep_view(),
            r.deep_view().no_duplicates(),
            forall|x: Seq<char>|
                r.deep_view().contains(x) <==> all_artist_ids(edv.take(i as int)).contains(x),
        decreases entries@.len() - i,
    {
        let e = &entries[i];
        let ghost ids = entry_artist_ids(e.deep_view());
        proof {
            assert(edv.take(i + 1).drop_last() =~= edv.take(i as int));
            assert(edv.take(i + 1).last() == e.deep_view());
        }
        let m = e.artists.len();
        let mut a: usize = 0;
        proof {
            assert(ids.take(0) =~= Seq::<Seq<char>>::empty());
        }
        while a < m
            invariant
                m == e.artists@.len(),
                a <= m,
                ids == entry_artist_ids(e.deep_view()),
                r.deep_view().no_duplicates(),
                forall|x: Seq<char>|
                    r.deep_view().contains(x) <==> (all_artist_ids(edv.take(i as int)).contains(x)
                        || ids.take(a as int).contains(x)),
            decreases m - a,
        {
            let ghost rpre = r.deep_view();
            let id = &e.artists[a].id;
            proof {
                assert(e.deep_view().artists[a as int] == e.artists@[a as int].deep_view());
                assert(ids[a as int] == id@);
                assert(ids.take(a + 1) =~= ids.take(a as int).push(id@));
            }
            let present = vec_contains_string(&r, id);
            if !present {
                r.push(id.clone());
                proof {
                    assert(r.deep_view() =~= rpre.push(id@));
                    assert(r.deep_view().no_duplicates()) by {
                        assert(forall|j: int|
                            0 <= j < rpre.len() ==> r.deep_view()[j] == rpre[j]);
                        assert(r.deep_view().last() == id@);
                        if !r.deep_view().no_duplicates() {
                            let (p, q) = choose|p: int, q: int|
                                0 <= p < q < r.deep_view().len() && r.deep_view()[p]
                                    == r.deep_view()[q];
                            if q < rpre.len() {
                            } else {
                                assert(rpre[p] == id@);
                                assert(rpre.contains(id@));
                            }
                        }
                    }
                }
            }
            proof {
                assert forall|x: Seq<char>|
                    r.deep_view().contains(x) <==> (all_artist_ids(edv.take(i as int)).contains(x)
                        || ids.take(a + 1).contains(x)) by {
                    lemma_push_contains(ids.take(a as int), id@, x);
                    assert(ids.take(a + 1).contains(x) <==> (ids.take(a as int).contains(x) || x
                        == id@));
                    if present {
                        assert(r.deep_view() == rpre);
                        assert(rpre.contains(id@));
                    } else {
                        lemma_push_contains(rpre, id@, x);
                    }
                }
            }
            a += 1;
        }
        proof {
            assert(ids.take(m as int) =~= ids);
            assert(all_artist_ids(edv.take(i + 1)) == all_artist_ids(edv.take(i as int)) + ids);
            assert forall|x: Seq<char>|
                r.deep_view().contains(x) <==> all_artist_ids(edv.take(i + 1)).contains(x) by {
                lemma_concat_contains(all_artist_ids(edv.take(i as int)), ids, x);
            }
        }
        i += 1;
    }
    proof {
        assert(edv.take(entries@.len() as int) =~= edv);
    }
    r
}

/// The identifiers cut into request batches: concatenated they are the
/// input, and no batch is empty or over the request limit.
pub fn chunk_artist_ids(ids: &Vec<String>) -> (r: Vec<Vec<String>>)
    ensures
        r.deep_view().flatten() == ids.deep_view(),
        forall|k: int|
            0 <= k < r.deep_view().len() ==> 0 < #[trigger] r.deep_view()[k].len()
                <= ARTIST_BATCH_LIMIT,
{
    let ghost idv = ids.deep_view();
    let mut r: Vec<Vec<String>> = Vec::new();
    let mut chunk: Vec<String> = Vec::new();
    let mut i: usize = 0;
    proof {
        assert(r.deep_view() =~= Seq::<Seq<Seq<char>>>::empty());
        assert(r.deep_view().flatten() + chunk.deep_view() =~= idv.take(0));
    }
    while i < ids.len()
        invariant
            i <= ids@.len(),
            idv == ids.deep_view(),
            r.deep_view().flatten() + chunk.deep_view() == idv.take(i as int),
            chunk@.len() < ARTIST_BATCH_LIMIT,
            forall|k: int|
                0 <= k < r.deep_view().len() ==> 0 < #[trigger] r.deep_view()[k].len()
                    <= ARTIST_BATCH_LIMIT,
        decreases ids@.len() - i,
    {
        let ghost rpre = r.deep_view();
        let ghost cpre = chunk.deep_view();
        chunk.push(ids[i].clone());
        proof {
            assert(chunk.deep_view() =~= cpre.push(idv[i as int]));
            assert(rpre.flatten() + chunk.deep_view() =~= (rpre.flatten() + cpre).push(
                idv[i as int],
            ));
            assert((rpre.flatten() + cpre).push(idv[i as int]) =~= idv.take(i + 1));
        }
        if chunk.len() == ARTIST_BATCH_LIMIT {
            let ghost cfull = chunk.deep_view();
            r.push(chunk);
            chunk = Vec::new();
            proof {
                assert(r.deep_view() =~= rpre.push(cfull));
                rpre.lemma_flatten_push(cfull);
                assert(chunk.deep_view() =~= Seq::<Seq<char>>::empty());
                assert(r.deep_view().flatten() + chunk.deep_view() =~= rpre.flatten() + cfull);
            }
        }
        i += 1;
    }
    if chunk.len() > 0 {
        let ghost rpre = r.deep_view();
        let ghost cfull = chunk.deep_view();
        r.push(chunk);
        proof {
            assert(r.deep_view() =~= rpre.push(cfull));
            rpre.lemma_flatten_push(cfull);
        }
    } else {
        proof {
            assert(chunk.deep_view() =~= Seq::<Seq<char>>::empty());
            assert(r.deep_view().flatten() + chunk.deep_view() =~= r.deep_view().flatten());
        }
    }
    proof {
        assert(idv.take(ids@.len() as int) =~= idv);
    }
    r
}

/// The identifiers of one batch, joined with commas.
pub open spec fn joined_ids(s: Seq<Seq<char>>) -> Seq<char>
    decreases s.len(),
{
    if s.len() == 0 {
        Seq::<char>::empty()
    } else if s.len() == 1 {
        s[0]
    } else {
        joined_ids(s.drop_last()) + ","@ + s.last()
    }
}

/// Join a batch of identifiers with commas, for the genre request's query.
pub fn join_ids(chunk: &Vec<String>) -> (r: String)
    ensures
        r@ == joined_ids(chunk.deep_view()),
{
    let ghost cdv = chunk.deep_view();
    let mut r = String::new();
    let mut i: usize = 0;
    while i < chunk.len()
        invariant
            i <= chunk@.len(),
            cdv == chunk.deep_view(),
            r@ == joined_ids(cdv.take(i as int)),
        decreases chunk@.len() - i,
    {
        proof {
            assert(cdv.take(i + 1).drop_last() =~= cdv.take(i as int));
            assert(cdv.take(i + 1).last() == cdv[i as int]);
            assert(cdv[i as int] == chunk@[i as int]@);
        }
        if i > 0 {
            r.append(",");
        }
        r.append(chunk[i].as_str());
        proof {
            if i == 0 {
                assert(joined_ids(cdv.take(1)) == cdv.take(1)[0]);
            }
        }
        i += 1;
    }
    proof {
        assert(cdv.take(chunk@.len() as int) =~= cdv);
    }
    r
}

/// What base64 makes of a string's bytes; a function of the characters
/// alone.
pub uninterp spec fn base64_of(s: Seq<char>) -> Seq<char>;

/// Relies on `base64::encode` over the string's UTF-8 bytes.
#[verifier::external_body]
fn base64_encode_str(s: &str) -> (r: String)
    ensures
        r@ == base64_of(s@),
{
    base64::encode(s)
}

/// The Basic authorization header value for the client-credentials token
/// exchange: `client_id:client_secret`, base64-encoded.
pub fn basic_auth_value(client_id: &str, client_secret: &str) -> (r: String)
    ensures
        r@ == "Basic "@ + base64_of(client_id@ + ":"@ + client_secret@),
{
    let mut joined = String::from_str(client_id);
    joined.append(":");
    joined.append(client_secret);
    let encoded = base64_encode_str(joined.as_str());
    let mut r = String::from_str("Basic ");
    r.append(encoded.as_str());
    r
}

} // verus!
