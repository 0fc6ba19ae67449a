use vstd::prelude::*;
use crate::decimal::{seconds_ms, seconds_value};
use crate::model::{clone_text, Entry, Error};
use crate::time::{parse_time, parsed_time, Timestamp};

verus! {

/// The fields of an RSS item that entries are made of, as the document
/// writes them.
#[derive(Debug)]
pub struct RssItem {
    pub title: Option<String>,
    pub link: Option<String>,
    pub enclosure_url: Option<String>,
    pub pub_date: Option<String>,
    pub duration: Option<String>,
}

/// The fields of an Atom entry that entries are made of.
#[derive(Debug)]
pub struct AtomEntry {
    pub title: String,
    pub links: Vec<String>,
    pub published: Option<Timestamp>,
}

/// A parsed feed document.
#[derive(Debug)]
pub enum FeedEntries {
    Atom(Vec<AtomEntry>),
    RSS(Vec<RssItem>),
}

/// The items that the RSS library reads from a document, if it is RSS.
pub uninterp spec fn rss_items_of(xml: Seq<char>) -> Option<Seq<RssItem>>;

/// The entries that the Atom library reads from a document, if it is Atom.
pub uninterp spec fn atom_entries_of(xml: Seq<char>) -> Option<Seq<AtomEntry>>;

/// Relies on rss's `Channel` parse (`FromStr`) and on the getters of its
/// items, whose texts are copied as they are.
#[verifier::external_body]
fn read_rss(xml: &str) -> (r: Result<Vec<RssItem>, String>)
    ensures
        r is Ok <==> rss_items_of(xml@) is Some,
        r matches Ok(items) ==> rss_items_of(xml@) == Some(items@),
{
    let channel = xml.parse::<rss::Channel>().map_err(|e| e.to_string())?;
    Ok(channel.items().iter().map(|i| RssItem {
        title: i.title().map(|s| s.to_owned()),
        link: i.link().map(|s| s.to_owned()),
        enclosure_url: i.enclosure().map(|e| e.url().to_owned()),
        pub_date: i.pub_date().map(|s| s.to_owned()),
        duration: i.itunes_ext().and_then(|x| x.duration()).map(|s| s.to_owned()),
    }).collect())
}

/// Relies on atom_syndication's `Feed` parse (`FromStr`) and on the getters
/// of its entries: the title's text, the links' targets and the publication
/// date.
#[verifier::external_body]
fn read_atom(xml: &str) -> (r: Result<Vec<AtomEntry>, String>)
    ensures
        r is Ok <==> atom_entries_of(xml@) is Some,
        r matches Ok(entries) ==> atom_entries_of(xml@) == Some(entries@),
{
    let feed = xml.parse::<atom_syndication::Feed>().map_err(|e| e.to_string())?;
    Ok(feed.entries().iter().map(|e| AtomEntry {
        title: e.title().value.clone(),
        links: e.links().iter().map(|l| l.href().to_owned()).collect(),
        published: e.published().map(|d| Timestamp {
            secs: d.timestamp(),
            nanos: d.timestamp_subsec_nanos(),
            offset_secs: d.offset().local_minus_utc(),
        }),
    }).collect())
}

/// Reads a feed document: as RSS where it is RSS, else as Atom.
pub fn parse(xml: &str) -> (r: Result<FeedEntries, Error>)
    ensures
        r is Ok <==> rss_items_of(xml@) is Some || atom_entries_of(xml@) is Some,
        r matches Ok(FeedEntries::RSS(items)) ==> rss_items_of(xml@) == Some(items@),
        r matches Ok(FeedEntries::Atom(entries)) ==> rss_items_of(xml@) is None
            && atom_entries_of(xml@) == Some(entries@),
        rss_items_of(xml@) is Some ==> r matches Ok(FeedEntries::RSS(_)),
        r is Err ==> r matches Err(Error::Parse(_)),
{
    match read_rss(xml) {
        Ok(items) => Ok(FeedEntries::RSS(items)),
        Err(_) => match read_atom(xml) {
            Ok(entries) => Ok(FeedEntries::Atom(entries)),
            Err(m) => Err(Error::Parse(m)),
        },
    }
}

/// The duration that an item's iTunes extension gives, in milliseconds.
pub open spec fn rss_duration(i: RssItem) -> Option<u64> {
    match i.duration {
        Some(d) => seconds_value(d@),
        None => None,
    }
}

/// The entry an RSS item gives: its url is the enclosure's, else the link;
/// an item without title, url or a readable date gives none. The duration
/// is read where the item writes it in plain seconds.
pub open spec fn rss_entry(i: RssItem) -> Option<Entry> {
    let url = if i.enclosure_url is Some {
        i.enclosure_url
    } else {
        i.link
    };
    match (i.title, url, i.pub_date) {
        (Some(title), Some(url), Some(date)) => match parsed_time(date@) {
            Some(publication) => Some(
                Entry { title, url, publication, duration_ms: rss_duration(i) },
            ),
            None => None,
        },
        _ => None,
    }
}

/// The entry an Atom entry gives: its url is the first link; an entry
/// without link or publication date gives none.
pub open spec fn atom_entry(e: AtomEntry) -> Option<Entry> {
    match e.published {
        Some(publication) => if e.links@.len() > 0 {
            Some(Entry { title: e.title, url: e.links@[0], publication, duration_ms: None })
        } else {
            None
        },
        None => None,
    }
}

/// The normalized entries of a document, in the document's order.
pub open spec fn normalized(doc: FeedEntries) -> Seq<Entry> {
    match doc {
        FeedEntries::Atom(es) => es@.filter_map(|e: AtomEntry| atom_entry(e)),
        FeedEntries::RSS(items) => items@.filter_map(|i: RssItem| rss_entry(i)),
    }
}

pub fn entry_from_rss(i: &RssItem) -> (r: Option<Entry>)
    ensures
        r == rss_entry(*i),
{
    let url = match &i.enclosure_url {
        Some(u) => Some(u.clone()),
        None => clone_text(&i.link),
    };
    match (&i.title, url, &i.pub_date) {
        (Some(title), Some(url), Some(date)) => match parse_time(date.as_str()) {
            Some(publication) => {
                let duration_ms = match &i.duration {
                    Some(d) => seconds_ms(d.as_str()),
                    None => None,
                };
                Some(Entry { title: title.clone(), url, publication, duration_ms })
            },
            None => None,
        },
        _ => None,
    }
}

pub fn entry_from_atom(e: &AtomEntry) -> (r: Option<Entry>)
    ensures
        r == atom_entry(*e),
{
    match e.published {
        Some(publication) => if e.links.len() > 0 {
            Some(
                Entry {
                    title: e.title.clone(),
                    url: e.links[0].clone(),
                    publication,
                    duration_ms: None,
                },
            )
        } else {
            None
        },
        None => None,
    }
}

impl FeedEntries {
    /// The normalized entries; items that lack a field are dropped.
    pub fn entries(&self) -> (r: Vec<Entry>)
        ensures
            r@ == normalized(*self),
    {
        let mut out: Vec<Entry> = Vec::new();
        match self {
            FeedEntries::Atom(es) => {
                let ghost f = |e: AtomEntry| atom_entry(e);
                let mut i: usize = 0;
                while i < es.len()
                    invariant
                        i <= es@.len(),
                        out@ == es@.subrange(0, i as int).filter_map(f),
                        f == (|e: AtomEntry| atom_entry(e)),
                    decreases es@.len() - i,
                {
                    let ghost before = out@;
                    match entry_from_atom(&es[i]) {
                        Some(entry) => out.push(entry),
                        None => {},
                    }
                    proof {
                        let sub = es@.subrange(0, i + 1);
                        assert(sub.drop_last() =~= es@.subrange(0, i as int));
                        assert(sub.last() == es@[i as int]);
                        match atom_entry(es@[i as int]) {
                            Some(x) => assert(out@ =~= before + seq![x]),
                            None => {},
                        }
                    }
                    i += 1;
                }
                proof {
                    assert(es@.subrange(0, es@.len() as int) =~= es@);
                }
            },
            FeedEntries::RSS(items) => {
                let ghost f = |i: RssItem| rss_entry(i);
                let mut i: usize = 0;
                while i < items.len()
                    invariant
                        i <= items@.len(),
                        out@ == items@.subrange(0, i as int).filter_map(f),
                        f == (|i: RssItem| rss_entry(i)),
                    decreases items@.len() - i,
                {
                    let ghost before = out@;
                    match entry_from_rss(&items[i]) {
                        Some(entry) => out.push(entry),
                        None => {},
                    }
                    proof {
                        let sub = items@.subrange(0, i + 1);
                        assert(sub.drop_last() =~= items@.subrange(0, i as int));
                        assert(sub.last() == items@[i as int]);
                        match rss_entry(items@[i as int]) {
                            Some(x) => assert(out@ =~= before + seq![x]),
                            None => {},
                        }
                    }
                    i += 1;
                }
                proof {
                    assert(items@.subrange(0, items@.len() as int) =~= items@);
                }
            },
        }
        out
    }
}

} // verus!
