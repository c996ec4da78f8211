use api_aggregator::spotify::{
    basic_auth_value, build_tracks, chunk_artist_ids, collect_artist_ids, join_ids, take_limit,
    ArtistGenres, ArtistRef, PlayedEntry, SpotifyTrack, ARTIST_BATCH_LIMIT,
};

fn entry(track: &str, artists: Vec<(&str, &str)>) -> PlayedEntry {
    PlayedEntry {
        track_name: String::from(track),
        album_name: format!("{} album", track),
        played_at: format!("{} time", track),
        spotify_url: format!("https://open.spotify.com/{}", track),
        album_image_url: Some(format!("https://img/{}", track)),
        artists: artists
            .into_iter()
            .map(|(id, name)| ArtistRef { id: String::from(id), name: String::from(name) })
            .collect(),
    }
}

fn genres(id: &str, gs: Vec<&str>) -> ArtistGenres {
    ArtistGenres {
        id: String::from(id),
        genres: gs.into_iter().map(String::from).collect(),
    }
}

#[test]
fn genres_are_gathered_sorted_and_deduplicated() {
    let entries = vec![entry("t1", vec![("a1", "Artist One"), ("a2", "Artist Two")])];
    let map = vec![genres("a1", vec!["rock", "pop"]), genres("a2", vec!["pop", "jazz"])];
    let out = build_tracks(&entries, &map, &Vec::new());
    assert_eq!(out.len(), 1);
    assert_eq!(out[0].genres, vec!["jazz", "pop", "rock"]);
    assert_eq!(out[0].artist, "Artist One");
    assert_eq!(out[0].track_name, "t1");
    assert_eq!(out[0].album_image_url.as_deref(), Some("https://img/t1"));
}

#[test]
fn matching_genre_excludes_the_track() {
    let entries = vec![
        entry("funny", vec![("a1", "A1")]),
        entry("serious", vec![("a2", "A2")]),
    ];
    let map = vec![genres("a1", vec!["Dark Comedy"]), genres("a2", vec!["post rock"])];
    let excluded = vec![String::from("comedy")];
    let out = build_tracks(&entries, &map, &excluded);
    assert_eq!(out.len(), 1);
    assert_eq!(out[0].track_name, "serious");
}

#[test]
fn exclusion_matches_both_directions() {
    // the genre, folded, is contained in the excluded entry
    let entries = vec![entry("t", vec![("a1", "A1")])];
    let map = vec![genres("a1", vec!["Com"])];
    let excluded = vec![String::from("comedy")];
    let out = build_tracks(&entries, &map, &excluded);
    assert_eq!(out.len(), 0);
}

#[test]
fn empty_exclusion_list_excludes_nothing() {
    let entries = vec![entry("t1", vec![("a1", "A1")]), entry("t2", vec![("a2", "A2")])];
    let map = vec![genres("a1", vec!["comedy"]), genres("a2", vec!["noise"])];
    let out = build_tracks(&entries, &map, &Vec::new());
    assert_eq!(out.len(), 2);
}

#[test]
fn unknown_artist_contributes_no_genres() {
    let entries = vec![entry("t", vec![("missing", "M")])];
    let map: Vec<ArtistGenres> = Vec::new();
    let out = build_tracks(&entries, &map, &Vec::new());
    assert_eq!(out.len(), 1);
    assert!(out[0].genres.is_empty());
}

#[test]
fn artist_ids_are_collected_once_in_first_seen_order() {
    let entries = vec![
        entry("t1", vec![("a2", "Two"), ("a1", "One")]),
        entry("t2", vec![("a1", "One"), ("a3", "Three")]),
    ];
    let ids = collect_artist_ids(&entries);
    assert_eq!(ids, vec!["a2", "a1", "a3"]);
}

#[test]
fn ids_are_chunked_within_the_batch_limit() {
    let ids: Vec<String> = (0..(2 * ARTIST_BATCH_LIMIT + 20)).map(|i| format!("id{}", i)).collect();
    let chunks = chunk_artist_ids(&ids);
    assert_eq!(chunks.len(), 3);
    assert_eq!(chunks[0].len(), ARTIST_BATCH_LIMIT);
    assert_eq!(chunks[1].len(), ARTIST_BATCH_LIMIT);
    assert_eq!(chunks[2].len(), 20);
    let flat: Vec<String> = chunks.into_iter().flatten().collect();
    assert_eq!(flat, ids);
}

#[test]
fn joined_ids_are_comma_separated() {
    let chunk = vec![String::from("a"), String::from("b"), String::from("c")];
    assert_eq!(join_ids(&chunk), "a,b,c");
    assert_eq!(join_ids(&vec![String::from("only")]), "only");
    assert_eq!(join_ids(&Vec::new()), "");
}

#[test]
fn basic_auth_value_encodes_the_credentials() {
    assert_eq!(basic_auth_value("id", "secret"), "Basic aWQ6c2VjcmV0");
}

#[test]
fn take_limit_keeps_the_first_tracks() {
    let tracks: Vec<SpotifyTrack> = (0..4)
        .map(|i| SpotifyTrack {
            track_name: format!("t{}", i),
            artist: String::new(),
            album_name: String::new(),
            played_at: String::new(),
            spotify_url: String::new(),
            album_image_url: None,
            genres: Vec::new(),
        })
        .collect();
    let limited = take_limit(tracks, 2);
    assert_eq!(limited.len(), 2);
    assert_eq!(limited[0].track_name, "t0");
    assert_eq!(limited[1].track_name, "t1");
}
