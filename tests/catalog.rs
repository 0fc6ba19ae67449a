use uvp::catalog::Catalog;
use uvp::model::{Active, Available, Entry, Error, Feed};
use uvp::time::Timestamp;

fn at(secs: i64) -> Timestamp {
    Timestamp { secs, nanos: 0, offset_secs: 0 }
}

fn feed(url: &str, title: &str) -> Feed {
    Feed { title: title.to_string(), url: url.to_string(), last_update: None }
}

fn entry(url: &str, title: &str, secs: i64) -> Entry {
    Entry { title: title.to_string(), url: url.to_string(), publication: at(secs), duration_ms: None }
}

fn item(url: &str, title: &str, f: &Feed) -> Available {
    Available {
        title: title.to_string(),
        url: url.to_string(),
        publication: at(100),
        duration_ms: Some(42_000),
        feed: f.clone(),
    }
}

fn urls_available(c: &Catalog) -> Vec<String> {
    c.all_available().into_iter().map(|a| a.url).collect()
}

#[test]
fn add_feed_twice_is_a_constraint_error() {
    let mut c = Catalog::new();
    let mut f = feed("http://a/feed", "A");
    f.last_update = Some(at(5));
    assert!(c.add_to_feed(&f).is_ok());
    assert!(matches!(c.add_to_feed(&f), Err(Error::Constraint)));
    let feeds = c.all_feeds();
    assert_eq!(feeds.len(), 1);
    assert_eq!(feeds[0].last_update, None);
}

#[test]
fn remove_feed_drops_its_items() {
    let mut c = Catalog::new();
    let a = feed("http://a/feed", "A");
    let b = feed("http://b/feed", "B");
    c.add_to_feed(&a).unwrap();
    c.add_to_feed(&b).unwrap();
    c.add_to_available(&item("http://a/1", "a1", &a)).unwrap();
    c.add_to_available(&item("http://b/1", "b1", &b)).unwrap();
    c.remove_feed("http://a/feed").unwrap();
    assert_eq!(c.all_feeds().len(), 1);
    assert_eq!(urls_available(&c), vec!["http://b/1".to_string()]);
}

#[test]
fn set_last_update_moves_only_that_feed() {
    let mut c = Catalog::new();
    c.add_to_feed(&feed("http://a/feed", "A")).unwrap();
    c.add_to_feed(&feed("http://b/feed", "B")).unwrap();
    c.set_last_update("http://b/feed", at(77)).unwrap();
    let feeds = c.all_feeds();
    assert_eq!(feeds[0].last_update, None);
    assert_eq!(feeds[1].last_update, Some(at(77)));
}

#[test]
fn duplicate_available_is_a_no_op() {
    let mut c = Catalog::new();
    let f = feed("http://a/feed", "A");
    c.add_to_feed(&f).unwrap();
    assert!(c.add_to_available(&item("http://a/1", "first", &f)).is_ok());
    assert!(c.add_to_available(&item("http://a/1", "second", &f)).is_ok());
    let found = c.find_in_available("http://a/1").unwrap();
    assert_eq!(found.title, "first");
    assert_eq!(c.all_available().len(), 1);
}

#[test]
fn available_url_that_is_active_is_not_added() {
    let mut c = Catalog::new();
    let f = feed("http://a/feed", "A");
    c.add_to_feed(&f).unwrap();
    c.make_active("http://a/1").unwrap();
    assert!(c.add_to_available(&item("http://a/1", "x", &f)).is_ok());
    assert!(c.find_in_available("http://a/1").is_none());
    assert!(c.find_in_active("http://a/1").is_some());
}

#[test]
fn active_url_that_is_available_is_not_added() {
    let mut c = Catalog::new();
    let f = feed("http://a/feed", "A");
    c.add_to_feed(&f).unwrap();
    c.add_to_available(&item("http://a/1", "x", &f)).unwrap();
    let a = Active {
        title: None,
        url: "http://a/1".to_string(),
        position_ms: 0,
        duration_ms: None,
        feed_title: None,
    };
    assert!(c.add_to_active(&a).is_ok());
    assert!(c.all_active().is_empty());
    assert!(c.find_in_available("http://a/1").is_some());
    let other = Active { url: "http://b/1".to_string(), ..a };
    assert!(c.add_to_active(&other).is_ok());
    assert_eq!(c.all_active().len(), 1);
}

#[test]
fn promotion_moves_the_item() {
    let mut c = Catalog::new();
    let f = feed("http://a/feed", "Channel");
    c.add_to_feed(&f).unwrap();
    c.add_to_available(&item("U", "X", &f)).unwrap();
    c.make_active("U").unwrap();
    assert!(c.find_in_available("U").is_none());
    let active = c.all_active();
    assert_eq!(active.len(), 1);
    assert_eq!(active[0].url, "U");
    assert_eq!(active[0].title.as_deref(), Some("X"));
    assert_eq!(active[0].position_ms, 0);
    assert_eq!(active[0].duration_ms, Some(42_000));
    assert_eq!(active[0].feed_title.as_deref(), Some("Channel"));
}

#[test]
fn make_active_of_unknown_url_is_bare_and_repeatable() {
    let mut c = Catalog::new();
    c.make_active("http://elsewhere/v").unwrap();
    c.set_position("http://elsewhere/v", 5_000).unwrap();
    c.make_active("http://elsewhere/v").unwrap();
    let active = c.all_active();
    assert_eq!(active.len(), 1);
    assert_eq!(active[0].title, None);
    assert_eq!(active[0].feed_title, None);
    assert_eq!(active[0].position_ms, 5_000);
}

#[test]
fn setters_change_one_field_of_one_item() {
    let mut c = Catalog::new();
    c.make_active("a").unwrap();
    c.make_active("b").unwrap();
    c.set_position("a", 1_500).unwrap();
    c.set_duration("a", 60_000).unwrap();
    c.set_title("a", "Title A").unwrap();
    let a = c.find_in_active("a").unwrap();
    let b = c.find_in_active("b").unwrap();
    assert_eq!(a.position_ms, 1_500);
    assert_eq!(a.duration_ms, Some(60_000));
    assert_eq!(a.title.as_deref(), Some("Title A"));
    assert_eq!(b.position_ms, 0);
    assert_eq!(b.duration_ms, None);
    assert_eq!(b.title, None);
}

#[test]
fn remove_from_active_and_available() {
    let mut c = Catalog::new();
    let f = feed("http://a/feed", "A");
    c.add_to_feed(&f).unwrap();
    c.add_to_available(&item("x", "x", &f)).unwrap();
    c.make_active("y").unwrap();
    c.remove_from_available("x").unwrap();
    c.remove_from_active("y").unwrap();
    c.remove_from_active("missing").unwrap();
    assert!(c.all_available().is_empty());
    assert!(c.all_active().is_empty());
}

#[test]
fn update_feed_merges_new_entries() {
    let mut c = Catalog::new();
    let f = feed("http://a/feed", "A");
    c.add_to_feed(&f).unwrap();
    let entries = vec![entry("u1", "one", 10), entry("u2", "two", 20)];
    c.update_feed(&f, &entries).unwrap();
    assert_eq!(urls_available(&c), vec!["u2".to_string(), "u1".to_string()]);
    assert_eq!(c.all_feeds()[0].last_update, Some(at(20)));
}

#[test]
fn from_parts_accepts_only_well_formed_catalogs() {
    let f = feed("http://a/feed", "A");
    let bare = |url: &str| Active {
        title: None,
        url: url.to_string(),
        position_ms: 0,
        duration_ms: None,
        feed_title: None,
    };
    let ok = Catalog::from_parts(vec![f.clone()], vec![item("x", "x", &f)], vec![bare("y")]);
    assert!(ok.is_some());
    assert_eq!(ok.unwrap().all_available().len(), 1);
    assert!(Catalog::from_parts(vec![f.clone(), f.clone()], vec![], vec![]).is_none());
    assert!(Catalog::from_parts(vec![], vec![item("x", "1", &f), item("x", "2", &f)], vec![]).is_none());
    assert!(Catalog::from_parts(vec![], vec![], vec![bare("y"), bare("y")]).is_none());
    assert!(Catalog::from_parts(vec![], vec![item("z", "z", &f)], vec![bare("z")]).is_none());
    assert!(Catalog::from_parts(vec![], vec![item("x", "x", &f)], vec![]).is_none());
}

#[test]
fn item_of_unsubscribed_feed_is_not_added() {
    let mut c = Catalog::new();
    let f = feed("http://a/feed", "A");
    assert!(c.add_to_available(&item("x", "x", &f)).is_ok());
    assert!(c.all_available().is_empty());
}

#[test]
fn items_are_read_with_the_current_feed_record() {
    let mut c = Catalog::new();
    let f = feed("f", "Old title");
    c.add_to_feed(&f).unwrap();
    c.update_feed(&f, &vec![entry("u1", "one", 10)]).unwrap();
    let found = c.find_in_available("u1").unwrap();
    assert_eq!(found.feed.last_update, Some(at(10)));
    assert_eq!(found.feed.title, "Old title");
    c.set_last_update("f", at(99)).unwrap();
    let listed = c.all_available();
    assert_eq!(listed[0].feed.last_update, Some(at(99)));
    let mut stale = item("u2", "two", &f);
    stale.feed.title = "Stale".to_string();
    stale.feed.last_update = Some(at(1));
    c.add_to_available(&stale).unwrap();
    let read = c.find_in_available("u2").unwrap();
    assert_eq!(read.feed.title, "Old title");
    assert_eq!(read.feed.last_update, Some(at(99)));
    c.make_active("u2").unwrap();
    assert_eq!(c.find_in_active("u2").unwrap().feed_title.as_deref(), Some("Old title"));
}

#[test]
fn available_items_are_listed_newest_first() {
    let mut c = Catalog::new();
    let f = feed("f", "F");
    c.add_to_feed(&f).unwrap();
    let entries = vec![
        entry("b", "b", 20),
        entry("a", "a", 10),
        entry("d", "d", 40),
        entry("c1", "c1", 30),
        entry("c2", "c2", 30),
    ];
    c.update_feed(&f, &entries).unwrap();
    assert_eq!(urls_available(&c), vec!["d", "c1", "c2", "b", "a"]);
}
