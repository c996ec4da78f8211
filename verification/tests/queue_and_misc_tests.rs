use api_aggregator::aggregator::aggregate;
use api_aggregator::auth::validate_api_key;
use api_aggregator::errors::FetchError;
use api_aggregator::letterboxd::LetterboxdMovie;
use api_aggregator::queue::{RecentUrlQueue, QUEUE_CAPACITY};
use api_aggregator::redirect::{may_follow_redirect, resolve_redirect, MAX_REDIRECTS};
use api_aggregator::spotify::SpotifyTrack;

#[test]
fn six_pushes_keep_the_five_most_recent() {
    let mut q = RecentUrlQueue::new();
    for i in 1..=6 {
        q.push(format!("https://example.com/{}", i));
    }
    let got = q.snapshot();
    let want: Vec<String> = (2..=6).map(|i| format!("https://example.com/{}", i)).collect();
    assert_eq!(got, want);
    assert_eq!(q.len(), QUEUE_CAPACITY);
}

#[test]
fn pushes_below_capacity_keep_everything_in_order() {
    let mut q = RecentUrlQueue::new();
    q.push(String::from("a"));
    q.push(String::from("b"));
    assert_eq!(q.snapshot(), vec!["a", "b"]);
}

#[test]
fn snapshot_roundtrips_through_rehydration() {
    let mut q = RecentUrlQueue::new();
    q.push(String::from("a"));
    q.push(String::from("b"));
    let q2 = RecentUrlQueue::from_snapshot(q.snapshot());
    assert_eq!(q2.snapshot(), vec!["a", "b"]);
}

#[test]
fn oversized_snapshot_is_capped_at_capacity() {
    let urls: Vec<String> = (0..8).map(|i| format!("u{}", i)).collect();
    let q = RecentUrlQueue::from_snapshot(urls);
    let got = q.snapshot();
    assert_eq!(got.len(), QUEUE_CAPACITY);
    assert_eq!(got[0], "u0");
    assert_eq!(got[4], "u4");
}

#[test]
fn api_key_must_match_bearer_header_exactly() {
    let key = String::from("secret-key");
    assert!(validate_api_key(Some(&String::from("Bearer secret-key")), &key));
    assert!(!validate_api_key(Some(&String::from("Bearer wrong")), &key));
    assert!(!validate_api_key(Some(&String::from("bearer secret-key")), &key));
    assert!(!validate_api_key(Some(&String::from("secret-key")), &key));
    assert!(!validate_api_key(None, &key));
}

fn one_movie() -> LetterboxdMovie {
    LetterboxdMovie {
        title: String::from("Film"),
        link: String::new(),
        description: String::new(),
        pub_date: None,
        film_title: Some(String::from("Film")),
        rating: None,
        rewatch: None,
    }
}

fn one_track() -> SpotifyTrack {
    SpotifyTrack {
        track_name: String::from("Track"),
        artist: String::new(),
        album_name: String::new(),
        played_at: String::new(),
        spotify_url: String::new(),
        album_image_url: None,
        genres: Vec::new(),
    }
}

#[test]
fn failed_movie_fetch_degrades_to_empty_section() {
    let urls = vec![String::from("https://example.com")];
    let r = aggregate(
        urls.clone(),
        Err(FetchError::Transport(String::from("connection refused"))),
        Ok(vec![one_track()]),
    );
    assert_eq!(r.urls, urls);
    assert!(r.movies.is_empty());
    assert_eq!(r.tracks.len(), 1);
}

#[test]
fn successful_sections_pass_through() {
    let r = aggregate(Vec::new(), Ok(vec![one_movie()]), Ok(vec![one_track()]));
    assert!(r.urls.is_empty());
    assert_eq!(r.movies.len(), 1);
    assert_eq!(r.movies[0].title, "Film");
    assert_eq!(r.tracks.len(), 1);
}

#[test]
fn both_failures_give_empty_sections() {
    let r = aggregate(
        Vec::new(),
        Err(FetchError::Parse(String::from("bad xml"))),
        Err(FetchError::UpstreamStatus(502, String::from("bad gateway"))),
    );
    assert!(r.movies.is_empty());
    assert!(r.tracks.is_empty());
}

#[test]
fn error_text_is_carried() {
    let e = FetchError::Config(String::from("API_KEY must be set."));
    assert_eq!(e.text(), "API_KEY must be set.");
}

#[test]
fn absolute_redirect_location_is_taken_as_is() {
    let r = resolve_redirect(
        &String::from("https://example.com/feed"),
        &String::from("https://other.example.com/rss"),
    );
    assert_eq!(r.unwrap(), "https://other.example.com/rss");
}

#[test]
fn scheme_relative_location_gets_https() {
    let r = resolve_redirect(
        &String::from("https://example.com/feed"),
        &String::from("//cdn.example.com/rss"),
    );
    assert_eq!(r.unwrap(), "https://cdn.example.com/rss");
}

#[test]
fn relative_location_is_joined_to_the_base() {
    let r = resolve_redirect(
        &String::from("https://example.com/user/rss"),
        &String::from("feed.xml"),
    );
    assert_eq!(r.unwrap(), "https://example.com/user/feed.xml");
}

#[test]
fn unusable_location_and_base_fail() {
    let r = resolve_redirect(&String::from("not a url"), &String::from("also relative"));
    assert!(r.is_err());
}

#[test]
fn redirects_stop_at_the_bound() {
    assert!(may_follow_redirect(0));
    assert!(may_follow_redirect(MAX_REDIRECTS - 1));
    assert!(!may_follow_redirect(MAX_REDIRECTS));
}
