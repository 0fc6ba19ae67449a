use uvp::catalog::Catalog;
use uvp::playback::{is_finished, Observation, PlayerEvent};

#[test]
fn end_detection_within_tolerance() {
    assert!(is_finished(Some(599_400), Some(600_000)));
    assert!(!is_finished(Some(598_000), Some(600_000)));
    assert!(is_finished(Some(599_000), Some(600_000)));
    assert!(!is_finished(None, Some(600_000)));
    assert!(!is_finished(Some(600_000), None));
    assert!(is_finished(Some(0), Some(500)));
}

#[test]
fn finished_item_leaves_active() {
    let mut c = Catalog::new();
    let started = c.begin_playback("v");
    assert_eq!(started.position_ms, 0);
    let mut o = Observation::new();
    o.observe(PlayerEvent::Duration(600_000));
    o.observe(PlayerEvent::Position(599_400));
    let done = c.end_playback("v", &o);
    assert!(done.finished);
    assert!(c.find_in_active("v").is_none());
}

#[test]
fn interrupted_item_keeps_position() {
    let mut c = Catalog::new();
    c.begin_playback("v");
    let mut o = Observation::new();
    o.observe(PlayerEvent::Duration(600_000));
    o.observe(PlayerEvent::Position(598_000));
    o.observe(PlayerEvent::Title("Player title".to_string()));
    let done = c.end_playback("v", &o);
    assert!(!done.finished);
    let a = c.find_in_active("v").unwrap();
    assert_eq!(a.position_ms, 598_000);
    assert_eq!(a.duration_ms, Some(600_000));
    assert_eq!(a.title.as_deref(), Some("Player title"));
    let resumed = c.begin_playback("v");
    assert_eq!(resumed.position_ms, 598_000);
}

#[test]
fn reported_title_does_not_replace_stored_one() {
    let mut o = Observation::new();
    o.observe(PlayerEvent::Title("from player".to_string()));
    o.observe(PlayerEvent::Position(10));
    let kept = o.conclusion(&Some("from feed".to_string()));
    assert_eq!(kept.title, None);
    assert_eq!(kept.position_ms, Some(10));
    assert_eq!(kept.duration_ms, None);
    let filled = o.conclusion(&None);
    assert_eq!(filled.title.as_deref(), Some("from player"));
}

#[test]
fn unknown_duration_is_interrupted() {
    let mut c = Catalog::new();
    c.begin_playback("v");
    let mut o = Observation::new();
    o.observe(PlayerEvent::Position(1_000_000));
    let done = c.end_playback("v", &o);
    assert!(!done.finished);
    assert_eq!(c.find_in_active("v").unwrap().position_ms, 1_000_000);
}

#[test]
fn later_reports_replace_earlier_ones() {
    let mut o = Observation::new();
    o.observe(PlayerEvent::Position(1));
    o.observe(PlayerEvent::Position(2));
    assert_eq!(o.position_ms, Some(2));
    assert_eq!(o.duration_ms, None);
    assert_eq!(o.title, None);
}
