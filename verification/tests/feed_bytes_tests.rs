use api_aggregator::errors::FetchError;
use api_aggregator::letterboxd::process_feed_bytes;

fn feed_with_items(items: &str) -> String {
    let mut body = String::new();
    body.push_str("<?xml version=\"1.0\" encoding=\"UTF-8\"?>");
    body.push_str("<rss version=\"2.0\" xmlns:letterboxd=\"https://letterboxd.com\">");
    body.push_str("<channel><title>diary</title><link>https://example.com</link>");
    body.push_str("<description>watched films</description>");
    body.push_str(items);
    body.push_str("</channel></rss>");
    body
}

fn item(title: &str, link: &str, description: &str, pub_date: &str, extensions: &str) -> String {
    let mut s = String::new();
    s.push_str("<item><title>");
    s.push_str(title);
    s.push_str("</title><link>");
    s.push_str(link);
    s.push_str("</link><description>");
    s.push_str(description);
    s.push_str("</description>");
    if !pub_date.is_empty() {
        s.push_str("<pubDate>");
        s.push_str(pub_date);
        s.push_str("</pubDate>");
    }
    s.push_str(extensions);
    s.push_str("</item>");
    s
}

#[test]
fn parses_and_extracts_letterboxd_fields() {
    let items = item(
        "Film A, 2023 - \u{2605}\u{2605}\u{2605}\u{2605}",
        "https://example.com/a",
        "review of A",
        "Sun, 01 Jan 2023 00:00:00 +0000",
        "<letterboxd:filmTitle>Film A</letterboxd:filmTitle><letterboxd:memberRating>4.0</letterboxd:memberRating>",
    );
    let body = feed_with_items(&items);
    let out = process_feed_bytes(body.as_bytes()).expect("feed should parse");
    assert_eq!(out.len(), 1);
    assert_eq!(out[0].film_title.as_deref(), Some("Film A"));
    assert_eq!(out[0].rating.as_deref(), Some("4.0"));
    assert_eq!(out[0].title, "Film A, 2023 - \u{2605}\u{2605}\u{2605}\u{2605}");
    assert_eq!(out[0].link, "https://example.com/a");
    assert_eq!(out[0].description, "review of A");
    assert_eq!(
        out[0].pub_date.as_deref(),
        Some("Sun, 01 Jan 2023 00:00:00 +0000")
    );
}

#[test]
fn repeated_film_entries_collapse_to_one() {
    let mut items = item(
        "Film A, 2023",
        "https://example.com/a1",
        "first",
        "Sun, 01 Jan 2023 00:00:00 +0000",
        "<letterboxd:filmTitle>Film A</letterboxd:filmTitle>",
    );
    items.push_str(&item(
        "Film A, 2023 - \u{2605}\u{2605}\u{2605}",
        "https://example.com/a2",
        "second",
        "Sun, 08 Jan 2023 00:00:00 +0000",
        "<letterboxd:filmTitle>Film A</letterboxd:filmTitle><letterboxd:memberRating>3.0</letterboxd:memberRating>",
    ));
    let body = feed_with_items(&items);
    let out = process_feed_bytes(body.as_bytes()).expect("feed should parse");
    assert_eq!(out.len(), 1);
    assert_eq!(out[0].rating.as_deref(), Some("3.0"));
    assert_eq!(out[0].description, "second");
    assert_eq!(
        out[0].pub_date.as_deref(),
        Some("Sun, 08 Jan 2023 00:00:00 +0000")
    );
}

#[test]
fn item_without_film_title_is_dropped() {
    let items = item("not a film entry", "https://example.com/x", "d", "", "");
    let body = feed_with_items(&items);
    let out = process_feed_bytes(body.as_bytes()).expect("feed should parse");
    assert_eq!(out.len(), 0);
}

#[test]
fn missing_fields_default_to_empty_strings() {
    let mut items = String::new();
    items.push_str("<item>");
    items.push_str("<letterboxd:filmTitle>Film B</letterboxd:filmTitle>");
    items.push_str("</item>");
    let body = feed_with_items(&items);
    let out = process_feed_bytes(body.as_bytes()).expect("feed should parse");
    assert_eq!(out.len(), 1);
    assert_eq!(out[0].film_title.as_deref(), Some("Film B"));
    assert_eq!(out[0].title, "");
    assert_eq!(out[0].link, "");
    assert_eq!(out[0].description, "");
    assert_eq!(out[0].pub_date, None);
    assert_eq!(out[0].rating, None);
}

#[test]
fn malformed_bytes_give_parse_error() {
    let r = process_feed_bytes(b"this is not xml at all");
    match r {
        Err(FetchError::Parse(msg)) => {
            assert!(msg.starts_with("Failed to parse RSS feed: "));
        }
        _ => panic!("expected a parse error"),
    }
}
