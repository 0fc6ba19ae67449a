use uvp::links::{mediathek_url, youtube_url_channelid, youtube_url_user};
use uvp::model::{ignore_constraint_errors, Error};
use uvp::remote::{endpoint_url, Operation};
use uvp::schedule::wait_until_next;

#[test]
fn feed_links() {
    assert_eq!(youtube_url_user("someone"), "https://www.youtube.com/feeds/videos.xml?user=someone");
    assert_eq!(
        youtube_url_channelid("UC123"),
        "https://www.youtube.com/feeds/videos.xml?channel_id=UC123"
    );
    assert_eq!(mediathek_url("tagesschau"), "https://mediathekviewweb.de/feed?query=tagesschau");
}

#[test]
fn operation_paths() {
    assert_eq!(Operation::AllFeeds.name(), "all_feeds");
    assert_eq!(Operation::MakeActive.route(), "/make_active");
    assert_eq!(Operation::RemoveFromActive.name(), "remove_from_active");
}

#[test]
fn endpoints_join_the_base() {
    assert_eq!(
        endpoint_url("http://localhost:3000", Operation::SetTitle).unwrap(),
        "http://localhost:3000/set_title"
    );
    assert_eq!(
        endpoint_url("http://host/api/", Operation::AllActive).unwrap(),
        "http://host/api/all_active"
    );
    assert!(endpoint_url("not a url", Operation::AllActive).is_none());
}

#[test]
fn constraint_errors_are_ignored_and_others_kept() {
    assert!(ignore_constraint_errors(Err(Error::Constraint)).is_ok());
    assert!(ignore_constraint_errors(Ok(())).is_ok());
    assert!(matches!(
        ignore_constraint_errors(Err(Error::Storage("disk".to_string()))),
        Err(Error::Storage(_))
    ));
}

#[test]
fn refresh_waits_until_the_next_slot() {
    assert_eq!(wait_until_next(1_000, 5_000), 4_000);
    assert_eq!(wait_until_next(5_000, 5_000), 86_400_000);
    assert_eq!(wait_until_next(86_000_000, 1_000), 401_000);
}
