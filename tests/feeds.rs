use uvp::decimal::seconds_ms;
use uvp::feeds::{entry_from_atom, entry_from_rss, parse, AtomEntry, FeedEntries, RssItem};
use uvp::model::Error;
use uvp::time::Timestamp;

const RSS_DOC: &str = r#"<?xml version="1.0"?>
<rss version="2.0" xmlns:itunes="http://www.itunes.com/dtds/podcast-1.0.dtd"><channel><title>T</title><link>http://example.com</link><description>d</description>
<item><title>One</title><link>http://example.com/1</link><pubDate>Tue, 01 Jul 2003 10:52:37 +0200</pubDate></item>
<item><title>Two</title><link>http://example.com/2</link><enclosure url="http://cdn/2.mp4" length="1" type="video/mp4"/><pubDate>2020-01-02T03:04:05Z</pubDate><itunes:duration>123.5</itunes:duration></item>
<item><title>NoDate</title><link>http://example.com/3</link></item>
<item><title>BadDate</title><link>http://example.com/4</link><pubDate>yesterday</pubDate></item>
<item><link>http://example.com/5</link><pubDate>Tue, 01 Jul 2003 10:52:37 +0200</pubDate></item>
</channel></rss>"#;

const ATOM_DOC: &str = r#"<?xml version="1.0" encoding="utf-8"?>
<feed xmlns="http://www.w3.org/2005/Atom"><title>F</title><id>urn:x</id><updated>2021-05-06T07:08:09Z</updated>
<entry><title>A1</title><id>urn:1</id><updated>2021-05-06T07:08:09Z</updated><published>2021-05-06T09:08:09+02:00</published><link href="http://yt/1"/><link href="http://yt/1b"/></entry>
<entry><title>NoPub</title><id>urn:2</id><updated>2021-05-06T07:08:09Z</updated><link href="http://yt/2"/></entry>
<entry><title>NoLink</title><id>urn:3</id><updated>2021-05-06T07:08:09Z</updated><published>2021-05-06T07:08:09Z</published></entry>
</feed>"#;

#[test]
fn rss_document_is_normalized() {
    let doc = parse(RSS_DOC).unwrap();
    assert!(matches!(doc, FeedEntries::RSS(_)));
    let entries = doc.entries();
    assert_eq!(entries.len(), 2);
    assert_eq!(entries[0].title, "One");
    assert_eq!(entries[0].url, "http://example.com/1");
    assert_eq!(entries[0].publication, Timestamp { secs: 1057049557, nanos: 0, offset_secs: 7200 });
    assert_eq!(entries[1].title, "Two");
    assert_eq!(entries[1].url, "http://cdn/2.mp4");
    assert_eq!(entries[1].publication, Timestamp { secs: 1577934245, nanos: 0, offset_secs: 0 });
    assert_eq!(entries[0].duration_ms, None);
    assert_eq!(entries[1].duration_ms, Some(123_500));
}

#[test]
fn durations_in_plain_seconds() {
    assert_eq!(seconds_ms("42"), Some(42_000));
    assert_eq!(seconds_ms("42.5"), Some(42_500));
    assert_eq!(seconds_ms(".5"), Some(500));
    assert_eq!(seconds_ms("42."), Some(42_000));
    assert_eq!(seconds_ms("1.23456"), Some(1_234));
    assert_eq!(seconds_ms("0.05"), Some(50));
    assert_eq!(seconds_ms("12:30"), None);
    assert_eq!(seconds_ms(""), None);
    assert_eq!(seconds_ms("."), None);
    assert_eq!(seconds_ms("1.2.3"), None);
    assert_eq!(seconds_ms("18446744073709551.615"), Some(u64::MAX));
    assert_eq!(seconds_ms("18446744073709551.616"), None);
    assert_eq!(seconds_ms("18446744073709552"), None);
}

#[test]
fn atom_document_is_normalized() {
    let doc = parse(ATOM_DOC).unwrap();
    assert!(matches!(doc, FeedEntries::Atom(_)));
    let entries = doc.entries();
    assert_eq!(entries.len(), 1);
    assert_eq!(entries[0].title, "A1");
    assert_eq!(entries[0].url, "http://yt/1");
    assert_eq!(entries[0].publication, Timestamp { secs: 1620284889, nanos: 0, offset_secs: 7200 });
}

#[test]
fn garbage_is_a_parse_error() {
    assert!(matches!(parse("this is no feed"), Err(Error::Parse(_))));
}

#[test]
fn rss_item_prefers_enclosure_and_needs_all_fields() {
    let mut item = RssItem {
        title: Some("t".to_string()),
        link: Some("http://link".to_string()),
        enclosure_url: None,
        pub_date: Some("2020-01-02T03:04:05Z".to_string()),
        duration: None,
    };
    assert_eq!(entry_from_rss(&item).unwrap().url, "http://link");
    item.enclosure_url = Some("http://media".to_string());
    assert_eq!(entry_from_rss(&item).unwrap().url, "http://media");
    item.title = None;
    assert!(entry_from_rss(&item).is_none());
}

#[test]
fn atom_entry_needs_link_and_date() {
    let e = AtomEntry {
        title: "t".to_string(),
        links: vec!["http://l".to_string(), "http://m".to_string()],
        published: None,
    };
    assert!(entry_from_atom(&e).is_none());
    let e = AtomEntry { published: Some(Timestamp { secs: 1, nanos: 2, offset_secs: 0 }), ..e };
    let entry = entry_from_atom(&e).unwrap();
    assert_eq!(entry.publication.nanos, 2);
    assert_eq!(entry.url, "http://l");
    let e = AtomEntry { links: vec![], ..e };
    assert!(entry_from_atom(&e).is_none());
}
