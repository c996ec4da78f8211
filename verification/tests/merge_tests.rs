use api_aggregator::letterboxd::{merge_feed_entries, LetterboxdMovie, NUMBER_OF_MOVIES_TO_SHOW};

fn movie(id: &str, rating: Option<&str>, date: Option<&str>, description: &str) -> LetterboxdMovie {
    LetterboxdMovie {
        title: format!("{} - a film", id),
        link: format!("https://example.com/{}", id),
        description: String::from(description),
        pub_date: date.map(String::from),
        film_title: Some(String::from(id)),
        rating: rating.map(String::from),
        rewatch: None,
    }
}

#[test]
fn merge_dedups_and_adopts_rating_and_later_date() {
    let raw = vec![
        movie("A", None, Some("2023-01-01"), "first sighting"),
        movie("A", Some("4"), Some("2023-02-01"), "second sighting"),
    ];
    let out = merge_feed_entries(&raw);
    assert_eq!(out.len(), 1);
    assert_eq!(out[0].film_title.as_deref(), Some("A"));
    assert_eq!(out[0].rating.as_deref(), Some("4"));
    assert_eq!(out[0].description, "second sighting");
    assert_eq!(out[0].pub_date.as_deref(), Some("2023-02-01"));
}

#[test]
fn merge_keeps_existing_rating() {
    let raw = vec![
        movie("A", Some("3"), Some("2023-01-01"), "first"),
        movie("A", Some("5"), Some("2023-01-01"), "first"),
    ];
    let out = merge_feed_entries(&raw);
    assert_eq!(out.len(), 1);
    assert_eq!(out[0].rating.as_deref(), Some("3"));
}

#[test]
fn merge_adopts_title_with_rating_marker() {
    let mut first = movie("A", None, Some("2023-01-01"), "d");
    first.title = String::from("Film A, 2023");
    let mut second = movie("A", Some("4"), Some("2023-01-01"), "d");
    second.title = String::from("Film A, 2023 - \u{2605}\u{2605}\u{2605}\u{2605}");
    let out = merge_feed_entries(&vec![first, second]);
    assert_eq!(out.len(), 1);
    assert_eq!(out[0].title, "Film A, 2023 - \u{2605}\u{2605}\u{2605}\u{2605}");
}

#[test]
fn merge_keeps_marked_title() {
    let mut first = movie("A", Some("4"), Some("2023-01-01"), "d");
    first.title = String::from("Film A - \u{2605}\u{2605}");
    let mut second = movie("A", None, Some("2023-01-01"), "d");
    second.title = String::from("Film A");
    let out = merge_feed_entries(&vec![first, second]);
    assert_eq!(out.len(), 1);
    assert_eq!(out[0].title, "Film A - \u{2605}\u{2605}");
}

#[test]
fn entries_without_identity_are_dropped() {
    let mut anonymous = movie("X", None, Some("2023-01-01"), "d");
    anonymous.film_title = None;
    let out = merge_feed_entries(&vec![anonymous]);
    assert_eq!(out.len(), 0);
}

#[test]
fn empty_input_gives_empty_output() {
    let out = merge_feed_entries(&Vec::new());
    assert_eq!(out.len(), 0);
}

#[test]
fn ten_distinct_dated_films_truncate_to_five_most_recent() {
    // ten consecutive Sundays of early 2023, oldest first
    let dates = [
        "Sun, 01 Jan 2023 00:00:00 +0000",
        "Sun, 08 Jan 2023 00:00:00 +0000",
        "Sun, 15 Jan 2023 00:00:00 +0000",
        "Sun, 22 Jan 2023 00:00:00 +0000",
        "Sun, 29 Jan 2023 00:00:00 +0000",
        "Sun, 05 Feb 2023 00:00:00 +0000",
        "Sun, 12 Feb 2023 00:00:00 +0000",
        "Sun, 19 Feb 2023 00:00:00 +0000",
        "Sun, 26 Feb 2023 00:00:00 +0000",
        "Sun, 05 Mar 2023 00:00:00 +0000",
    ];
    let raw: Vec<LetterboxdMovie> = (0..10)
        .map(|i| movie(&format!("film{}", i), None, Some(dates[i]), "d"))
        .collect();
    let out = merge_feed_entries(&raw);
    assert_eq!(out.len(), NUMBER_OF_MOVIES_TO_SHOW);
    let got: Vec<&str> = out.iter().map(|m| m.pub_date.as_deref().unwrap()).collect();
    assert_eq!(
        got,
        vec![
            "Sun, 05 Mar 2023 00:00:00 +0000",
            "Sun, 26 Feb 2023 00:00:00 +0000",
            "Sun, 19 Feb 2023 00:00:00 +0000",
            "Sun, 12 Feb 2023 00:00:00 +0000",
            "Sun, 05 Feb 2023 00:00:00 +0000",
        ]
    );
}

#[test]
fn chronological_order_wins_over_lexical_order() {
    // lexically "Sun, 01 Jan..." > "Fri, 30 Jun...", but June is more recent
    let raw = vec![
        movie("jan", None, Some("Sun, 01 Jan 2023 00:00:00 +0000"), "d"),
        movie("jun", None, Some("Fri, 30 Jun 2023 00:00:00 +0000"), "d"),
    ];
    let out = merge_feed_entries(&raw);
    assert_eq!(out.len(), 2);
    assert_eq!(out[0].film_title.as_deref(), Some("jun"));
    assert_eq!(out[1].film_title.as_deref(), Some("jan"));
}

#[test]
fn unparsable_dates_fall_back_to_lexical_order() {
    let raw = vec![
        movie("a", None, Some("aaa not a date"), "d"),
        movie("z", None, Some("zzz not a date"), "d"),
    ];
    let out = merge_feed_entries(&raw);
    assert_eq!(out.len(), 2);
    // descending lexical order: "zzz..." before "aaa..."
    assert_eq!(out[0].film_title.as_deref(), Some("z"));
    assert_eq!(out[1].film_title.as_deref(), Some("a"));
}

#[test]
fn undated_records_sort_last() {
    let raw = vec![
        movie("undated", None, None, "d"),
        movie("dated", None, Some("Sun, 01 Jan 2023 00:00:00 +0000"), "d"),
    ];
    let out = merge_feed_entries(&raw);
    assert_eq!(out.len(), 2);
    assert_eq!(out[0].film_title.as_deref(), Some("dated"));
    assert_eq!(out[1].film_title.as_deref(), Some("undated"));
}
