use vstd::prelude::*;

verus! {

/// The feed of the YouTube user `channel`.
pub fn youtube_url_user(channel: &str) -> (r: String)
    ensures
        r@ == "https://www.youtube.com/feeds/videos.xml?user="@ + channel@,
{
    String::from_str("https://www.youtube.com/feeds/videos.xml?user=").concat(channel)
}

/// The feed of the YouTube channel of id `channel`.
pub fn youtube_url_channelid(channel: &str) -> (r: String)
    ensures
        r@ == "https://www.youtube.com/feeds/videos.xml?channel_id="@ + channel@,
{
    String::from_str("https://www.youtube.com/feeds/videos.xml?channel_id=").concat(channel)
}

/// The feed of a query of the German public broadcasters' media library.
pub fn mediathek_url(channel: &str) -> (r: String)
    ensures
        r@ == "https://mediathekviewweb.de/feed?query="@ + channel@,
{
    String::from_str("https://mediathekviewweb.de/feed?query=").concat(channel)
}

} // verus!
