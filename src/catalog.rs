use vstd::prelude::*;
use crate::keyed::{
    has_key, holds_key, key_index, keys_unique, lemma_filter_keys, lemma_push_key, lemma_update_at_key, lemma_without_key,
    position_of, remove_key, unique_keys, without_key,
};
use crate::model::{Active, Available, Error, Feed, Keyed};
use crate::time::Timestamp;

verus! {

/// The persisted state: the subscribed feeds, the items not yet acted on
/// and the items being watched. A url names at most one feed, and at most
/// one item across `available` and `active` together.
pub struct Catalog {
    pub feeds: Vec<Feed>,
    pub available: Vec<Available>,
    pub active: Vec<Active>,
}

/// No url is both available and active.
pub open spec fn disjoint(av: Seq<Available>, ac: Seq<Active>) -> bool {
    forall|k: Seq<char>| #[trigger] holds_key(av, k) ==> !holds_key(ac, k)
}

/// Gives the feed of url `url` the watermark `w`; leaves other feeds alone.
pub open spec fn watermark_set(url: Seq<char>, w: Timestamp) -> spec_fn(Feed) -> Feed {
    |f: Feed|
        if f.url@ == url {
            Feed { title: f.title, url: f.url, last_update: Some(w) }
        } else {
            f
        }
}

/// The feeds with the one of url `url` given the watermark `w`.
pub open spec fn with_watermark(feeds: Seq<Feed>, url: Seq<char>, w: Timestamp) -> Seq<Feed> {
    feeds.map_values(watermark_set(url, w))
}

/// Moves the active item of url `url` to position `ms`.
pub open spec fn position_set(url: Seq<char>, ms: u64) -> spec_fn(Active) -> Active {
    |a: Active|
        if a.url@ == url {
            Active {
                title: a.title,
                url: a.url,
                position_ms: ms,
                duration_ms: a.duration_ms,
                feed_title: a.feed_title,
            }
        } else {
            a
        }
}

/// Gives the active item of url `url` the duration `ms`.
pub open spec fn duration_set(url: Seq<char>, ms: u64) -> spec_fn(Active) -> Active {
    |a: Active|
        if a.url@ == url {
            Active {
                title: a.title,
                url: a.url,
                position_ms: a.position_ms,
                duration_ms: Some(ms),
                feed_title: a.feed_title,
            }
        } else {
            a
        }
}

/// Gives the active item of url `url` the title `title`.
pub open spec fn title_set(url: Seq<char>, title: String) -> spec_fn(Active) -> Active {
    |a: Active|
        if a.url@ == url {
            Active {
                title: Some(title),
                url: a.url,
                position_ms: a.position_ms,
                duration_ms: a.duration_ms,
                feed_title: a.feed_title,
            }
        } else {
            a
        }
}

/// Every available item belongs to a subscribed feed.
pub open spec fn feeds_known(av: Seq<Available>, feeds: Seq<Feed>) -> bool {
    forall|i: int| 0 <= i < av.len() ==> holds_key(feeds, #[trigger] av[i].feed.url@)
}

/// The current record of the feed of url `url`.
pub open spec fn feed_of(feeds: Seq<Feed>, url: Seq<char>) -> Feed {
    feeds[key_index(feeds, url)]
}

/// An available item as it is read: the catalog keeps an item's feed by
/// its url, and a read gives the feed's current record (title and watermark
/// as they are now).
pub open spec fn as_read(feeds: Seq<Feed>, a: Available) -> Available {
    Available {
        title: a.title,
        url: a.url,
        publication: a.publication,
        duration_ms: a.duration_ms,
        feed: feed_of(feeds, a.feed.url@),
    }
}

/// Newest publication first: no item is later than one before it.
pub open spec fn newest_first(s: Seq<Available>) -> bool {
    forall|i: int, j: int|
        0 <= i < j < s.len() ==> !(#[trigger] s[j]).publication.later_than(
            (#[trigger] s[i]).publication,
        )
}

/// The items of `v` ordered newest publication first; items of the same
/// instant keep their order.
pub fn newest_first_sorted(v: Vec<Available>) -> (r: Vec<Available>)
    ensures
        r@.to_multiset() == v@.to_multiset(),
        newest_first(r@),
{
    broadcast use vstd::seq_lib::group_to_multiset_ensures;

    let mut r: Vec<Available> = Vec::new();
    let mut i: usize = 0;
    while i < v.len()
        invariant
            i <= v@.len(),
            r@.to_multiset() == v@.subrange(0, i as int).to_multiset(),
            newest_first(r@),
        decreases v@.len() - i,
    {
        let x = v[i].clone();
        let mut p: usize = 0;
        while p < r.len() && !x.publication.is_later_than(&r[p].publication)
            invariant
                p <= r@.len(),
                forall|k: int| 0 <= k < p ==> !x.publication.later_than(#[trigger] r@[k].publication),
            decreases r@.len() - p,
        {
            p += 1;
        }
        let ghost before = r@;
        r.insert(p, x);
        proof {
            let t = r@;
            assert(t == before.insert(p as int, x));
            assert forall|a: int, b: int| 0 <= a < b < t.len() implies !(
            #[trigger] t[b]).publication.later_than((#[trigger] t[a]).publication) by {
                if b < p {
                    assert(t[a] == before[a] && t[b] == before[b]);
                } else if b == p {
                    assert(t[a] == before[a]);
                } else if a < p {
                    assert(t[a] == before[a] && t[b] == before[b - 1]);
                } else if a == p {
                    assert(t[b] == before[b - 1]);
                    assert(x.publication.later_than(before[p as int].publication));
                    if b - 1 > p {
                        assert(!before[b - 1].publication.later_than(before[p as int].publication));
                    }
                } else {
                    assert(t[a] == before[a - 1] && t[b] == before[b - 1]);
                }
            }
            assert(v@.subrange(0, i + 1) =~= v@.subrange(0, i as int).push(v@[i as int]));
            vstd::seq_lib::to_multiset_insert(before, p as int, x);
            v@.subrange(0, i as int).to_multiset_ensures();
            assert(x == v@[i as int]);
        }
        i += 1;
    }
    proof {
        assert(v@.subrange(0, v@.len() as int) =~= v@);
    }
    r
}

/// Insert-if-absent: a url already available or active, or an item of a
/// feed not subscribed, leaves `av` as it is.
pub open spec fn insert_if_absent(
    av: Seq<Available>,
    ac: Seq<Active>,
    feeds: Seq<Feed>,
    a: Available,
) -> Seq<Available> {
    if holds_key(av, a.url@) || holds_key(ac, a.url@) || !holds_key(feeds, a.feed.url@) {
        av
    } else {
        av.push(a)
    }
}

/// The active record that promoting `a` creates; its feed title is the
/// current one.
pub open spec fn promoted(feeds: Seq<Feed>, a: Available) -> Active {
    Active {
        title: Some(a.title),
        url: a.url,
        position_ms: 0,
        duration_ms: a.duration_ms,
        feed_title: Some(feed_of(feeds, a.feed.url@).title),
    }
}

/// The active record created for a url that no feed offered.
pub open spec fn is_bare_active(a: Active, url: Seq<char>) -> bool {
    &&& a.url@ == url
    &&& a.title is None
    &&& a.position_ms == 0
    &&& a.duration_ms is None
    &&& a.feed_title is None
}

/// Items of other feeds than the one of url `url`.
pub open spec fn not_of_feed(url: Seq<char>) -> spec_fn(Available) -> bool {
    |a: Available| a.feed.url@ != url
}

/// A copy of `v`, for records whose `clone` gives an equal value.
pub fn clone_all<T: Clone>(v: &Vec<T>) -> (r: Vec<T>)
    requires
        forall|a: T, b: T| #[trigger] cloned::<T>(a, b) ==> a == b,
    ensures
        r@ == v@,
{
    let r = v.clone();
    assert(r@ =~= v@);
    r
}

impl Catalog {
    /// Urls are unique among feeds, among available items and among active
    /// items, no url is both available and active, and every available item
    /// belongs to a subscribed feed.
    pub open spec fn wf(&self) -> bool {
        &&& unique_keys(self.feeds@)
        &&& unique_keys(self.available@)
        &&& unique_keys(self.active@)
        &&& disjoint(self.available@, self.active@)
        &&& feeds_known(self.available@, self.feeds@)
    }

    /// An empty catalog.
    pub fn new() -> (r: Catalog)
        ensures
            r.wf(),
            r.feeds@ == Seq::<Feed>::empty(),
            r.available@ == Seq::<Available>::empty(),
            r.active@ == Seq::<Active>::empty(),
    {
        Catalog { feeds: Vec::new(), available: Vec::new(), active: Vec::new() }
    }

    /// A catalog of the given records, if they are well-formed.
    pub fn from_parts(feeds: Vec<Feed>, available: Vec<Available>, active: Vec<Active>) -> (r: Option<
        Catalog,
    >)
        ensures
            r is Some <==> (Catalog { feeds, available, active }).wf(),
            r matches Some(c) ==> c == (Catalog { feeds, available, active }),
    {
        if !keys_unique(&feeds) || !keys_unique(&available) || !keys_unique(&active) {
            return None;
        }
        let mut f: usize = 0;
        while f < available.len()
            invariant
                f <= available@.len(),
                forall|j: int| 0 <= j < f ==> holds_key(feeds@, #[trigger] available@[j].feed.url@),
            decreases available@.len() - f,
        {
            if !has_key(&feeds, &available[f].feed.url) {
                return None;
            }
            f += 1;
        }
        let mut i: usize = 0;
        while i < available.len()
            invariant
                i <= available@.len(),
                forall|j: int| 0 <= j < i ==> !holds_key(active@, #[trigger] available@[j].key()),
            decreases available@.len() - i,
        {
            if has_key(&active, available[i].key_text()) {
                proof {
                    assert(holds_key(available@, available@[i as int].key()));
                }
                return None;
            }
            i += 1;
        }
        proof {
            assert forall|k: Seq<char>| #[trigger] holds_key(available@, k) implies !holds_key(
                active@,
                k,
            ) by {
                let j = choose|j: int| 0 <= j < available@.len() && #[trigger] available@[j].key() == k;
                assert(!holds_key(active@, available@[j].key()));
            }
        }
        Some(Catalog { feeds, available, active })
    }

    pub fn all_feeds(&self) -> (r: Vec<Feed>)
        ensures
            r@ == self.feeds@,
    {
        clone_all(&self.feeds)
    }

    /// Subscribes to `feed`, with no watermark yet; a url already subscribed
    /// is a uniqueness violation.
    pub fn add_to_feed(&mut self, feed: &Feed) -> (r: Result<(), Error>)
        requires
            old(self).wf(),
        ensures
            final(self).wf(),
            final(self).available@ == old(self).available@,
            final(self).active@ == old(self).active@,
            holds_key(old(self).feeds@, feed.url@) ==> r == Err::<(), Error>(Error::Constraint)
                && final(self).feeds@ == old(self).feeds@,
            !holds_key(old(self).feeds@, feed.url@) ==> r is Ok && final(self).feeds@
                == old(self).feeds@.push(
                Feed { title: feed.title, url: feed.url, last_update: None },
            ),
    {
        if position_of(&self.feeds, &feed.url).is_some() {
            return Err(Error::Constraint);
        }
        let f = Feed { title: feed.title.clone(), url: feed.url.clone(), last_update: None };
        proof {
            lemma_push_key(self.feeds@, f);
        }
        self.feeds.push(f);
        Ok(())
    }

    /// Unsubscribes from the feed of url `url` and drops the items it offered.
    pub fn remove_feed(&mut self, url: &str) -> (r: Result<(), Error>)
        requires
            old(self).wf(),
        ensures
            final(self).wf(),
            r is Ok,
            final(self).feeds@ == without_key(old(self).feeds@, url@),
            final(self).available@ == old(self).available@.filter(not_of_feed(url@)),
            final(self).active@ == old(self).active@,
    {
        let key = String::from_str(url);
        remove_key(&mut self.feeds, &key);
        proof {
            lemma_without_key(old(self).feeds@, url@);
        }
        let ghost p = not_of_feed(url@);
        let mut kept: Vec<Available> = Vec::new();
        let mut i: usize = 0;
        while i < self.available.len()
            invariant
                i <= self.available@.len(),
                key@ == url@,
                kept@ == self.available@.subrange(0, i as int).filter(p),
                p == not_of_feed(url@),
                self.available@ == old(self).available@,
                self.feeds@ == without_key(old(self).feeds@, url@),
                unique_keys(old(self).feeds@),
                feeds_known(self.available@, old(self).feeds@),
                feeds_known(kept@, self.feeds@),
            decreases self.available@.len() - i,
        {
            let ghost before = kept@;
            if self.available[i].feed.url != key {
                kept.push(self.available[i].clone());
                proof {
                    lemma_without_key(old(self).feeds@, url@);
                    assert(holds_key(old(self).feeds@, self.available@[i as int].feed.url@));
                    assert(holds_key(self.feeds@, self.available@[i as int].feed.url@));
                    assert forall|j: int| 0 <= j < kept@.len() implies holds_key(
                        self.feeds@,
                        #[trigger] kept@[j].feed.url@,
                    ) by {
                        if j < before.len() {
                            assert(kept@[j] == before[j]);
                        }
                    }
                }
            }
            proof {
                reveal(Seq::filter);
                let sub = self.available@.subrange(0, i + 1);
                assert(sub.drop_last() =~= self.available@.subrange(0, i as int));
                assert(sub.last() == self.available@[i as int]);
            }
            i += 1;
        }
        proof {
            assert(self.available@.subrange(0, self.available@.len() as int) =~= self.available@);
            lemma_filter_keys(self.available@, p);
        }
        self.available = kept;
        Ok(())
    }

    /// Moves the watermark of the feed of url `url` to `update`.
    pub fn set_last_update(&mut self, url: &str, update: Timestamp) -> (r: Result<(), Error>)
        requires
            old(self).wf(),
        ensures
            final(self).wf(),
            r is Ok,
            final(self).feeds@ == with_watermark(old(self).feeds@, url@, update),
            final(self).available@ == old(self).available@,
            final(self).active@ == old(self).active@,
    {
        let key = String::from_str(url);
        let ghost s = self.feeds@;
        match position_of(&self.feeds, &key) {
            Some(i) => {
                let f = Feed {
                    title: self.feeds[i].title.clone(),
                    url: self.feeds[i].url.clone(),
                    last_update: Some(update),
                };
                self.feeds.set(i, f);
            },
            None => {},
        }
        proof {
            lemma_update_at_key(s, url@, watermark_set(url@, update));
        }
        Ok(())
    }

    /// The item at `i`, with its feed's current record.
    fn read_available(&self, i: usize) -> (r: Available)
        requires
            self.wf(),
            i < self.available@.len(),
        ensures
            r == as_read(self.feeds@, self.available@[i as int]),
    {
        let a = &self.available[i];
        proof {
            assert(holds_key(self.feeds@, self.available@[i as int].feed.url@));
        }
        let f = position_of(&self.feeds, &a.feed.url).unwrap();
        Available {
            title: a.title.clone(),
            url: a.url.clone(),
            publication: a.publication,
            duration_ms: a.duration_ms,
            feed: self.feeds[f].clone(),
        }
    }

    /// Every available item, newest publication first, each with its feed's
    /// current record.
    pub fn all_available(&self) -> (r: Vec<Available>)
        requires
            self.wf(),
        ensures
            r@.to_multiset() == self.available@.map_values(
                |a: Available| as_read(self.feeds@, a),
            ).to_multiset(),
            newest_first(r@),
    {
        let mut r: Vec<Available> = Vec::new();
        let mut i: usize = 0;
        while i < self.available.len()
            invariant
                self.wf(),
                i <= self.available@.len(),
                r@.len() == i,
                forall|j: int| 0 <= j < i ==> #[trigger] r@[j] == as_read(self.feeds@, self.available@[j]),
            decreases self.available@.len() - i,
        {
            r.push(self.read_available(i));
            i += 1;
        }
        proof {
            assert(r@ =~= self.available@.map_values(|a: Available| as_read(self.feeds@, a)));
        }
        newest_first_sorted(r)
    }

    /// The available item of url `url`, with its feed's current record.
    pub fn find_in_available(&self, url: &str) -> (r: Option<Available>)
        requires
            self.wf(),
        ensures
            r == (if holds_key(self.available@, url@) {
                Some(as_read(self.feeds@, self.available@[key_index(self.available@, url@)]))
            } else {
                None::<Available>
            }),
    {
        let key = String::from_str(url);
        match position_of(&self.available, &key) {
            Some(i) => Some(self.read_available(i)),
            None => None,
        }
    }

    pub fn remove_from_available(&mut self, url: &str) -> (r: Result<(), Error>)
        requires
            old(self).wf(),
        ensures
            final(self).wf(),
            r is Ok,
            final(self).feeds@ == old(self).feeds@,
            final(self).available@ == without_key(old(self).available@, url@),
            final(self).active@ == old(self).active@,
    {
        let key = String::from_str(url);
        remove_key(&mut self.available, &key);
        proof {
            lemma_without_key(old(self).available@, url@);
        }
        Ok(())
    }

    /// Adds an item not yet acted on, if its url is neither available nor
    /// active and its feed is subscribed; otherwise nothing changes and the
    /// first record stays.
    pub fn add_to_available(&mut self, available: &Available) -> (r: Result<(), Error>)
        requires
            old(self).wf(),
        ensures
            final(self).wf(),
            r is Ok,
            final(self).feeds@ == old(self).feeds@,
            final(self).active@ == old(self).active@,
            final(self).available@ == insert_if_absent(
                old(self).available@,
                old(self).active@,
                old(self).feeds@,
                *available,
            ),
    {
        if position_of(&self.available, &available.url).is_some() || position_of(
            &self.active,
            &available.url,
        ).is_some() || !has_key(&self.feeds, &available.feed.url) {
            return Ok(());
        }
        proof {
            lemma_push_key(self.available@, *available);
        }
        self.available.push(available.clone());
        Ok(())
    }

    pub fn all_active(&self) -> (r: Vec<Active>)
        ensures
            r@ == self.active@,
    {
        clone_all(&self.active)
    }

    pub fn find_in_active(&self, url: &str) -> (r: Option<Active>)
        requires
            self.wf(),
        ensures
            r == (if holds_key(self.active@, url@) {
                Some(self.active@[key_index(self.active@, url@)])
            } else {
                None::<Active>
            }),
    {
        let key = String::from_str(url);
        match position_of(&self.active, &key) {
            Some(i) => Some(self.active[i].clone()),
            None => None,
        }
    }

    /// Adds an item to watch, if its url is neither available nor active;
    /// otherwise nothing changes and the first record stays.
    pub fn add_to_active(&mut self, active: &Active) -> (r: Result<(), Error>)
        requires
            old(self).wf(),
        ensures
            final(self).wf(),
            r is Ok,
            final(self).feeds@ == old(self).feeds@,
            final(self).available@ == old(self).available@,
            final(self).active@ == (if holds_key(old(self).available@, active.url@) || holds_key(
                old(self).active@,
                active.url@,
            ) {
                old(self).active@
            } else {
                old(self).active@.push(*active)
            }),
    {
        if position_of(&self.available, &active.url).is_some() || position_of(
            &self.active,
            &active.url,
        ).is_some() {
            return Ok(());
        }
        proof {
            lemma_push_key(self.active@, *active);
        }
        self.active.push(active.clone());
        Ok(())
    }

    /// Starts watching `url`: an available item moves to the active list
    /// with its title, duration and feed title at position zero; an unknown
    /// url becomes a bare active item; an active url stays as it is.
    pub fn make_active(&mut self, url: &str) -> (r: Result<(), Error>)
        requires
            old(self).wf(),
        ensures
            final(self).wf(),
            r is Ok,
            final(self).feeds@ == old(self).feeds@,
            holds_key(old(self).available@, url@) ==> {
                &&& final(self).available@ == without_key(old(self).available@, url@)
                &&& final(self).active@ == old(self).active@.push(
                    promoted(
                        old(self).feeds@,
                        old(self).available@[key_index(old(self).available@, url@)],
                    ),
                )
            },
            holds_key(old(self).active@, url@) ==> final(self).available@ == old(
                self,
            ).available@ && final(self).active@ == old(self).active@,
            !holds_key(old(self).available@, url@) && !holds_key(old(self).active@, url@) ==> {
                &&& final(self).available@ == old(self).available@
                &&& final(self).active@.len() == old(self).active@.len() + 1
                &&& final(self).active@.drop_last() == old(self).active@
                &&& is_bare_active(final(self).active@.last(), url@)
            },
    {
        let key = String::from_str(url);
        match position_of(&self.available, &key) {
            Some(i) => {
                let ghost av = self.available@;
                let a = self.read_available(i);
                let promoted_item = Active {
                    title: Some(a.title),
                    url: a.url,
                    position_ms: 0,
                    duration_ms: a.duration_ms,
                    feed_title: Some(a.feed.title),
                };
                proof {
                    assert(!holds_key(self.active@, url@));
                    lemma_push_key(self.active@, promoted_item);
                }
                self.active.push(promoted_item);
                self.available.remove(i);
                proof {
                    lemma_without_key(av, url@);
                    let t = self.available@;
                    assert forall|k: Seq<char>| #[trigger] holds_key(t, k) implies !holds_key(
                        self.active@,
                        k,
                    ) by {
                        assert(holds_key(av, k));
                    }
                }
                Ok(())
            },
            None => {
                if position_of(&self.active, &key).is_some() {
                    return Ok(());
                }
                let bare = Active {
                    title: None,
                    url: key,
                    position_ms: 0,
                    duration_ms: None,
                    feed_title: None,
                };
                proof {
                    lemma_push_key(self.active@, bare);
                }
                self.active.push(bare);
                proof {
                    assert(self.active@.drop_last() =~= old(self).active@);
                }
                Ok(())
            },
        }
    }

    pub fn set_position(&mut self, url: &str, position_ms: u64) -> (r: Result<(), Error>)
        requires
            old(self).wf(),
        ensures
            final(self).wf(),
            r is Ok,
            final(self).feeds@ == old(self).feeds@,
            final(self).available@ == old(self).available@,
            final(self).active@ == old(self).active@.map_values(position_set(url@, position_ms)),
    {
        let key = String::from_str(url);
        let ghost s = self.active@;
        match position_of(&self.active, &key) {
            Some(i) => {
                let mut a = self.active[i].clone();
                a.position_ms = position_ms;
                self.active.set(i, a);
            },
            None => {},
        }
        proof {
            lemma_update_at_key(s, url@, position_set(url@, position_ms));
        }
        Ok(())
    }

    pub fn set_duration(&mut self, url: &str, duration_ms: u64) -> (r: Result<(), Error>)
        requires
            old(self).wf(),
        ensures
            final(self).wf(),
            r is Ok,
            final(self).feeds@ == old(self).feeds@,
            final(self).available@ == old(self).available@,
            final(self).active@ == old(self).active@.map_values(duration_set(url@, duration_ms)),
    {
        let key = String::from_str(url);
        let ghost s = self.active@;
        match position_of(&self.active, &key) {
            Some(i) => {
                let mut a = self.active[i].clone();
                a.duration_ms = Some(duration_ms);
                self.active.set(i, a);
            },
            None => {},
        }
        proof {
            lemma_update_at_key(s, url@, duration_set(url@, duration_ms));
        }
        Ok(())
    }

    pub fn set_title(&mut self, url: &str, title: &str) -> (r: Result<(), Error>)
        requires
            old(self).wf(),
        ensures
            final(self).wf(),
            r is Ok,
            final(self).feeds@ == old(self).feeds@,
            final(self).available@ == old(self).available@,
            exists|t: String|
                t@ == title@ && final(self).active@ == old(self).active@.map_values(
                    #[trigger] title_set(url@, t),
                ),
    {
        let text = String::from_str(title);
        self.store_title(url, text);
        Ok(())
    }

    pub(crate) fn store_title(&mut self, url: &str, title: String)
        requires
            old(self).wf(),
        ensures
            final(self).wf(),
            final(self).feeds@ == old(self).feeds@,
            final(self).available@ == old(self).available@,
            final(self).active@ == old(self).active@.map_values(title_set(url@, title)),
    {
        let key = String::from_str(url);
        let ghost s = self.active@;
        let ghost t = title;
        match position_of(&self.active, &key) {
            Some(i) => {
                let mut a = self.active[i].clone();
                a.title = Some(title);
                self.active.set(i, a);
            },
            None => {},
        }
        proof {
            lemma_update_at_key(s, url@, title_set(url@, t));
        }
    }

    pub fn remove_from_active(&mut self, url: &str) -> (r: Result<(), Error>)
        requires
            old(self).wf(),
        ensures
            final(self).wf(),
            r is Ok,
            final(self).feeds@ == old(self).feeds@,
            final(self).available@ == old(self).available@,
            final(self).active@ == without_key(old(self).active@, url@),
    {
        let key = String::from_str(url);
        remove_key(&mut self.active, &key);
        proof {
            lemma_without_key(old(self).active@, url@);
        }
        Ok(())
    }
}


/// An item is never available and active at once: in a well-formed catalog,
/// which every operation keeps, no url stands in both lists.
pub proof fn lemma_exclusive_membership(c: Catalog, url: Seq<char>)
    requires
        c.wf(),
    ensures
        !(holds_key(c.available@, url) && holds_key(c.active@, url)),
{
}

} // verus!
