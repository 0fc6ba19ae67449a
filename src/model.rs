use vstd::prelude::*;
use crate::time::Timestamp;

verus! {

/// A record whose url identifies it within its relation.
pub trait Keyed {
    spec fn key(&self) -> Seq<char>;

    fn key_text(&self) -> (r: &String)
        ensures
            r@ == self.key(),
    ;
}

/// A subscription source. `last_update` is the watermark: the publication
/// time of the newest entry already merged, or `None` before the first merge.
#[derive(Debug)]
pub struct Feed {
    pub title: String,
    pub url: String,
    pub last_update: Option<Timestamp>,
}

/// A catalog entry found in a feed and not yet being watched.
#[derive(Debug)]
pub struct Available {
    pub title: String,
    pub url: String,
    pub publication: Timestamp,
    pub duration_ms: Option<u64>,
    pub feed: Feed,
}

/// An item being watched, with the position to resume from. Times are in
/// milliseconds.
#[derive(Debug)]
pub struct Active {
    pub title: Option<String>,
    pub url: String,
    pub position_ms: u64,
    pub duration_ms: Option<u64>,
    pub feed_title: Option<String>,
}

/// One normalized entry of a feed document.
#[derive(Debug)]
pub struct Entry {
    pub title: String,
    pub url: String,
    pub publication: Timestamp,
    pub duration_ms: Option<u64>,
}

/// What can go wrong in the catalog and around it.
#[derive(Debug)]
pub enum Error {
    /// The feed document could not be fetched.
    Fetch(String),
    /// The feed document could not be read as RSS or Atom.
    Parse(String),
    /// An insert met a url that is already taken.
    Constraint,
    /// The storage backend failed.
    Storage(String),
}

pub fn clone_text(s: &Option<String>) -> (r: Option<String>)
    ensures
        r == *s,
{
    match s {
        Some(t) => Some(t.clone()),
        None => None,
    }
}

impl Clone for Feed {
    fn clone(&self) -> (r: Self)
        ensures
            r == *self,
    {
        Feed { title: self.title.clone(), url: self.url.clone(), last_update: self.last_update }
    }
}

impl Clone for Available {
    fn clone(&self) -> (r: Self)
        ensures
            r == *self,
    {
        Available {
            title: self.title.clone(),
            url: self.url.clone(),
            publication: self.publication,
            duration_ms: self.duration_ms,
            feed: self.feed.clone(),
        }
    }
}

impl Clone for Active {
    fn clone(&self) -> (r: Self)
        ensures
            r == *self,
    {
        Active {
            title: clone_text(&self.title),
            url: self.url.clone(),
            position_ms: self.position_ms,
            duration_ms: self.duration_ms,
            feed_title: clone_text(&self.feed_title),
        }
    }
}

impl Clone for Entry {
    fn clone(&self) -> (r: Self)
        ensures
            r == *self,
    {
        Entry {
            title: self.title.clone(),
            url: self.url.clone(),
            publication: self.publication,
            duration_ms: self.duration_ms,
        }
    }
}

impl Clone for Error {
    fn clone(&self) -> (r: Self)
        ensures
            r == *self,
    {
        match self {
            Error::Fetch(m) => Error::Fetch(m.clone()),
            Error::Parse(m) => Error::Parse(m.clone()),
            Error::Constraint => Error::Constraint,
            Error::Storage(m) => Error::Storage(m.clone()),
        }
    }
}

impl Keyed for Feed {
    open spec fn key(&self) -> Seq<char> {
        self.url@
    }

    fn key_text(&self) -> (r: &String) {
        &self.url
    }
}

impl Keyed for Available {
    open spec fn key(&self) -> Seq<char> {
        self.url@
    }

    fn key_text(&self) -> (r: &String) {
        &self.url
    }
}

impl Keyed for Active {
    open spec fn key(&self) -> Seq<char> {
        self.url@
    }

    fn key_text(&self) -> (r: &String) {
        &self.url
    }
}

/// Turns a uniqueness violation into success and passes anything else on.
pub fn ignore_constraint_errors(res: Result<(), Error>) -> (r: Result<(), Error>)
    ensures
        r == (match res {
            Err(Error::Constraint) => Ok(()),
            other => other,
        }),
{
    match res {
        Err(Error::Constraint) => Ok(()),
        other => other,
    }
}

} // verus!
