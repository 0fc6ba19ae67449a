use uvp::catalog::Catalog;
use uvp::model::{Entry, Feed};
use uvp::sync::plan_feed_update;
use uvp::time::Timestamp;

fn at(secs: i64) -> Timestamp {
    Timestamp { secs, nanos: 0, offset_secs: 0 }
}

fn entry(url: &str, secs: i64) -> Entry {
    Entry { title: format!("title of {}", url), url: url.to_string(), publication: at(secs), duration_ms: None }
}

fn feed(url: &str) -> Feed {
    Feed { title: url.to_string(), url: url.to_string(), last_update: None }
}

fn three_entries() -> Vec<Entry> {
    vec![entry("v1", 100), entry("v2", 200), entry("v3", 300)]
}

fn available_urls(c: &Catalog) -> Vec<String> {
    let mut v: Vec<String> = c.all_available().into_iter().map(|a| a.url).collect();
    v.sort();
    v
}

#[test]
fn new_entries_only() {
    let mut c = Catalog::new();
    c.add_to_feed(&feed("F")).unwrap();
    c.refresh(&vec![Some(three_entries())]).unwrap();
    assert_eq!(available_urls(&c), vec!["v1", "v2", "v3"]);
    assert_eq!(c.all_feeds()[0].last_update, Some(at(300)));
}

#[test]
fn partial_refetch() {
    let mut c = Catalog::new();
    c.add_to_feed(&feed("F")).unwrap();
    c.refresh(&vec![Some(three_entries())]).unwrap();
    c.set_last_update("F", at(200)).unwrap();
    c.refresh(&vec![Some(three_entries())]).unwrap();
    assert_eq!(c.all_available().len(), 3);
    assert_eq!(available_urls(&c), vec!["v1", "v2", "v3"]);
    assert_eq!(c.all_feeds()[0].last_update, Some(at(300)));
}

#[test]
fn unreachable_feed_is_skipped() {
    let mut c = Catalog::new();
    c.add_to_feed(&feed("down")).unwrap();
    c.add_to_feed(&feed("up")).unwrap();
    c.set_last_update("down", at(50)).unwrap();
    let fetched = vec![None, Some(vec![entry("a", 10), entry("b", 20)])];
    assert!(c.refresh(&fetched).is_ok());
    let feeds = c.all_feeds();
    assert_eq!(feeds[0].last_update, Some(at(50)));
    assert_eq!(feeds[1].last_update, Some(at(20)));
    assert_eq!(available_urls(&c), vec!["a", "b"]);
    let a = c.find_in_available("a").unwrap();
    assert_eq!(a.feed.url, "up");
    assert_eq!(a.publication, at(10));
    assert_eq!(a.feed.last_update, Some(at(20)));
    assert_eq!(c.find_in_available("b").unwrap().publication, at(20));
}

#[test]
fn refresh_twice_equals_once() {
    let fetched = vec![Some(three_entries()), Some(vec![entry("w1", 5), entry("v2", 7)])];
    let mut once = Catalog::new();
    once.add_to_feed(&feed("F")).unwrap();
    once.add_to_feed(&feed("G")).unwrap();
    once.refresh(&fetched).unwrap();
    let mut twice = Catalog::new();
    twice.add_to_feed(&feed("F")).unwrap();
    twice.add_to_feed(&feed("G")).unwrap();
    twice.refresh(&fetched).unwrap();
    twice.refresh(&fetched).unwrap();
    assert_eq!(available_urls(&once), available_urls(&twice));
    let (f1, f2) = (once.all_feeds(), twice.all_feeds());
    for i in 0..2 {
        assert_eq!(f1[i].last_update, f2[i].last_update);
    }
    assert_eq!(f2[1].last_update, Some(at(7)));
}

#[test]
fn watermark_never_goes_back() {
    let mut c = Catalog::new();
    c.add_to_feed(&feed("F")).unwrap();
    c.refresh(&vec![Some(three_entries())]).unwrap();
    c.refresh(&vec![Some(vec![entry("old", 50)])]).unwrap();
    assert_eq!(c.all_feeds()[0].last_update, Some(at(300)));
    assert!(c.find_in_available("old").is_none());
}

#[test]
fn equal_urls_in_one_feed_give_one_item() {
    let mut c = Catalog::new();
    c.add_to_feed(&feed("F")).unwrap();
    let entries = vec![entry("same", 10), entry("same", 20), entry("other", 15)];
    c.refresh(&vec![Some(entries.clone())]).unwrap();
    c.refresh(&vec![Some(entries)]).unwrap();
    assert_eq!(available_urls(&c), vec!["other", "same"]);
    assert_eq!(c.find_in_available("same").unwrap().publication, at(10));
}

#[test]
fn entry_at_the_watermark_is_not_merged() {
    let mut c = Catalog::new();
    c.add_to_feed(&feed("F")).unwrap();
    c.set_last_update("F", at(300)).unwrap();
    c.refresh(&vec![Some(vec![entry("tie", 300), entry("newer", 301)])]).unwrap();
    assert_eq!(available_urls(&c), vec!["newer"]);
    assert_eq!(c.all_feeds()[0].last_update, Some(at(301)));
}

#[test]
fn promoted_entry_is_not_merged_again() {
    let mut c = Catalog::new();
    c.add_to_feed(&feed("F")).unwrap();
    c.refresh(&vec![Some(three_entries())]).unwrap();
    c.make_active("v2").unwrap();
    c.set_last_update("F", at(0)).unwrap();
    c.refresh(&vec![Some(three_entries())]).unwrap();
    assert_eq!(available_urls(&c), vec!["v1", "v3"]);
    assert!(c.find_in_active("v2").is_some());
}

#[test]
fn plan_lists_newer_entries_and_watermark() {
    let mut f = feed("F");
    f.last_update = Some(at(150));
    let plan = plan_feed_update(&f, &three_entries());
    let urls: Vec<String> = plan.additions.iter().map(|a| a.url.clone()).collect();
    assert_eq!(urls, vec!["v2", "v3"]);
    assert_eq!(plan.additions[0].feed.url, "F");
    assert_eq!(plan.watermark, Some(at(300)));
    let empty = plan_feed_update(&feed("G"), &vec![]);
    assert!(empty.additions.is_empty());
    assert_eq!(empty.watermark, None);
}

#[test]
fn later_offsets_compare_by_instant() {
    let mut c = Catalog::new();
    c.add_to_feed(&feed("F")).unwrap();
    let east = Timestamp { secs: 1000, nanos: 0, offset_secs: 3600 };
    let mut e = entry("x", 0);
    e.publication = east;
    c.refresh(&vec![Some(vec![e, entry("y", 999)])]).unwrap();
    assert_eq!(c.all_feeds()[0].last_update, Some(east));
}

#[test]
fn refresh_of_an_empty_catalog() {
    let mut c = Catalog::new();
    assert!(c.refresh(&vec![]).is_ok());
    assert!(c.all_feeds().is_empty());
    assert!(c.all_available().is_empty());
}

#[test]
fn feed_with_no_entries_keeps_no_watermark() {
    let mut c = Catalog::new();
    c.add_to_feed(&feed("F")).unwrap();
    c.refresh(&vec![Some(vec![])]).unwrap();
    assert_eq!(c.all_feeds()[0].last_update, None);
}
