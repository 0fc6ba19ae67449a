use vstd::prelude::*;
use crate::catalog::{disjoint, insert_if_absent, with_watermark, Catalog};
use crate::keyed::{holds_key, lemma_push_key, unique_keys};
use crate::model::{Keyed, Active, Available, Entry, Error, Feed};
use crate::time::{latest, latest_of, Timestamp};

verus! {

/// An entry is merged only when it is strictly newer than the watermark,
/// or when the feed has none yet.
pub open spec fn considered(watermark: Option<Timestamp>, e: Entry) -> bool {
    match watermark {
        None => true,
        Some(w) => e.publication.later_than(w),
    }
}

/// The available item that entry `e` of `feed` becomes.
pub open spec fn available_from(feed: Feed, e: Entry) -> Available {
    Available {
        title: e.title,
        url: e.url,
        publication: e.publication,
        duration_ms: e.duration_ms,
        feed,
    }
}

/// The available items after the entries of `feed` have been considered in order.
pub open spec fn merged(
    av: Seq<Available>,
    ac: Seq<Active>,
    fs: Seq<Feed>,
    feed: Feed,
    es: Seq<Entry>,
) -> Seq<Available>
    decreases es.len(),
{
    if es.len() == 0 {
        av
    } else {
        let prev = merged(av, ac, fs, feed, es.drop_last());
        if considered(feed.last_update, es.last()) {
            insert_if_absent(prev, ac, fs, available_from(feed, es.last()))
        } else {
            prev
        }
    }
}

/// The watermark after a pass over `es`: the latest of the old one and of
/// every publication seen.
pub open spec fn advanced(w: Option<Timestamp>, es: Seq<Entry>) -> Option<Timestamp>
    decreases es.len(),
{
    if es.len() == 0 {
        w
    } else {
        let p = es.last().publication;
        match advanced(w, es.drop_last()) {
            Some(l) => Some(latest(p, l)),
            None => Some(p),
        }
    }
}

/// The feeds and available items after one feed's entries are merged.
pub open spec fn merge_feed(
    fs: Seq<Feed>,
    av: Seq<Available>,
    ac: Seq<Active>,
    feed: Feed,
    es: Seq<Entry>,
) -> (Seq<Feed>, Seq<Available>) {
    (
        match advanced(feed.last_update, es) {
            Some(w) => with_watermark(fs, feed.url@, w),
            None => fs,
        },
        merged(av, ac, fs, feed, es),
    )
}

/// The feeds and available items after the first `n` feeds of the snapshot
/// `feeds` are merged with what was fetched for them (`None`: the fetch or
/// the parse failed, and the feed is left alone).
pub open spec fn refreshed(
    feeds: Seq<Feed>,
    av: Seq<Available>,
    ac: Seq<Active>,
    fetched: Seq<Option<Vec<Entry>>>,
    n: nat,
) -> (Seq<Feed>, Seq<Available>)
    decreases n,
{
    if n == 0 {
        (feeds, av)
    } else {
        let prev = refreshed(feeds, av, ac, fetched, (n - 1) as nat);
        match fetched[n - 1] {
            Some(es) => merge_feed(prev.0, prev.1, ac, feeds[n - 1], es@),
            None => prev,
        }
    }
}

pub fn is_considered(watermark: Option<Timestamp>, e: &Entry) -> (r: bool)
    ensures
        r == considered(watermark, *e),
{
    match watermark {
        None => true,
        Some(w) => e.publication.is_later_than(&w),
    }
}

impl Catalog {
    /// Merges the entries fetched for `feed`: each entry strictly newer than
    /// the feed's watermark is inserted unless its url is taken, and the
    /// watermark then moves to the latest publication seen, never back.
    pub fn update_feed(&mut self, feed: &Feed, entries: &Vec<Entry>) -> (r: Result<(), Error>)
        requires
            old(self).wf(),
        ensures
            final(self).wf(),
            r is Ok,
            final(self).active@ == old(self).active@,
            (final(self).feeds@, final(self).available@) == merge_feed(
                old(self).feeds@,
                old(self).available@,
                old(self).active@,
                *feed,
                entries@,
            ),
    {
        let mut last = feed.last_update;
        let mut i: usize = 0;
        while i < entries.len()
            invariant
                self.wf(),
                i <= entries@.len(),
                self.feeds@ == old(self).feeds@,
                self.active@ == old(self).active@,
                self.available@ == merged(
                    old(self).available@,
                    old(self).active@,
                    old(self).feeds@,
                    *feed,
                    entries@.subrange(0, i as int),
                ),
                last == advanced(feed.last_update, entries@.subrange(0, i as int)),
            decreases entries@.len() - i,
        {
            let e = &entries[i];
            proof {
                let sub = entries@.subrange(0, i + 1);
                assert(sub.drop_last() =~= entries@.subrange(0, i as int));
                assert(sub.last() == entries@[i as int]);
            }
            if is_considered(feed.last_update, e) {
                let a = Available {
                    title: e.title.clone(),
                    url: e.url.clone(),
                    publication: e.publication,
                    duration_ms: e.duration_ms,
                    feed: feed.clone(),
                };
                let _ = self.add_to_available(&a);
            }
            last = match last {
                Some(l) => Some(latest_of(e.publication, l)),
                None => Some(e.publication),
            };
            i += 1;
        }
        proof {
            assert(entries@.subrange(0, entries@.len() as int) =~= entries@);
        }
        match last {
            Some(w) => {
                let _ = self.set_last_update(feed.url.as_str(), w);
            },
            None => {},
        }
        Ok(())
    }

    /// One refresh pass over fetched feed documents: `fetched[i]` holds the
    /// normalized entries of the `i`-th subscribed feed, or `None` where
    /// fetching or parsing it failed. Feeds are merged in order, each from
    /// the snapshot taken at the start; a failed feed is skipped.
    pub fn refresh(&mut self, fetched: &Vec<Option<Vec<Entry>>>) -> (r: Result<(), Error>)
        requires
            old(self).wf(),
            fetched@.len() == old(self).feeds@.len(),
        ensures
            final(self).wf(),
            r is Ok,
            final(self).active@ == old(self).active@,
            (final(self).feeds@, final(self).available@) == refreshed(
                old(self).feeds@,
                old(self).available@,
                old(self).active@,
                fetched@,
                fetched@.len(),
            ),
    {
        let snapshot = self.all_feeds();
        let mut i: usize = 0;
        while i < fetched.len()
            invariant
                self.wf(),
                i <= fetched@.len(),
                fetched@.len() == snapshot@.len(),
                snapshot@ == old(self).feeds@,
                self.active@ == old(self).active@,
                (self.feeds@, self.available@) == refreshed(
                    old(self).feeds@,
                    old(self).available@,
                    old(self).active@,
                    fetched@,
                    i as nat,
                ),
            decreases fetched@.len() - i,
        {
            match &fetched[i] {
                Some(es) => {
                    let _ = self.update_feed(&snapshot[i], es);
                },
                None => {},
            }
            i += 1;
        }
        Ok(())
    }
}


/// The feed as one refresh pass leaves it, given what was fetched for it.
pub open spec fn feed_after(f: Feed, fetched: Option<Vec<Entry>>) -> Feed {
    match fetched {
        Some(es) => match advanced(f.last_update, es@) {
            Some(w) => Feed { title: f.title, url: f.url, last_update: Some(w) },
            None => f,
        },
        None => f,
    }
}

/// After a pass, the watermark is set, and no entry seen and no earlier
/// watermark lies after it.
pub proof fn lemma_advanced_bounds(w: Option<Timestamp>, es: Seq<Entry>)
    ensures
        (w is Some || es.len() > 0) ==> advanced(w, es) is Some,
        advanced(w, es) matches Some(y) ==> {
            &&& forall|k: int| 0 <= k < es.len() ==> !(#[trigger] es[k]).publication.later_than(y)
            &&& w matches Some(x) ==> !x.later_than(y)
        },
    decreases es.len(),
{
    if es.len() > 0 {
        let d = es.drop_last();
        lemma_advanced_bounds(w, d);
        let p = es.last().publication;
        assert(es.last() == es[es.len() - 1]);
        match advanced(w, d) {
            Some(l) => {
                let y = latest(p, l);
                assert forall|k: int| 0 <= k < es.len() implies !(
                #[trigger] es[k]).publication.later_than(y) by {
                    if k < d.len() {
                        assert(d[k] == es[k]);
                    }
                }
            },
            None => {
                assert forall|k: int| 0 <= k < es.len() implies !(
                #[trigger] es[k]).publication.later_than(p) by {
                    if k < d.len() {
                        assert(d[k] == es[k]);
                    }
                }
            },
        }
    }
}

/// Entries none of which lies after the watermark leave it where it is.
pub proof fn lemma_advanced_settled(y: Timestamp, es: Seq<Entry>)
    requires
        forall|k: int| 0 <= k < es.len() ==> !(#[trigger] es[k]).publication.later_than(y),
    ensures
        advanced(Some(y), es) == Some(y),
    decreases es.len(),
{
    if es.len() > 0 {
        let d = es.drop_last();
        assert forall|k: int| 0 <= k < d.len() implies !(#[trigger] d[k]).publication.later_than(
            y,
        ) by {
            assert(d[k] == es[k]);
        }
        lemma_advanced_settled(y, d);
        assert(es.last() == es[es.len() - 1]);
    }
}

/// Entries none of which is newer than the watermark insert nothing.
pub proof fn lemma_merged_nothing_new(
    av: Seq<Available>,
    ac: Seq<Active>,
    fs: Seq<Feed>,
    feed: Feed,
    es: Seq<Entry>,
)
    requires
        forall|k: int| 0 <= k < es.len() ==> !considered(feed.last_update, #[trigger] es[k]),
    ensures
        merged(av, ac, fs, feed, es) == av,
    decreases es.len(),
{
    if es.len() > 0 {
        let d = es.drop_last();
        assert forall|k: int| 0 <= k < d.len() implies !considered(
            feed.last_update,
            #[trigger] d[k],
        ) by {
            assert(d[k] == es[k]);
        }
        lemma_merged_nothing_new(av, ac, fs, feed, d);
        assert(es.last() == es[es.len() - 1]);
    }
}

/// A refresh pass changes feeds only in their watermarks: after the first
/// `n` feeds are merged, each of them is as `feed_after` says and the rest
/// are untouched.
pub proof fn lemma_refresh_shape(
    feeds: Seq<Feed>,
    av: Seq<Available>,
    ac: Seq<Active>,
    fetched: Seq<Option<Vec<Entry>>>,
    n: nat,
)
    requires
        unique_keys(feeds),
        n <= fetched.len(),
        fetched.len() == feeds.len(),
    ensures
        refreshed(feeds, av, ac, fetched, n).0.len() == feeds.len(),
        forall|i: int|
            0 <= i < feeds.len() ==> #[trigger] refreshed(feeds, av, ac, fetched, n).0[i] == (if i
                < n {
                feed_after(feeds[i], fetched[i])
            } else {
                feeds[i]
            }),
    decreases n,
{
    if n > 0 {
        let m = (n - 1) as nat;
        lemma_refresh_shape(feeds, av, ac, fetched, m);
        let prev = refreshed(feeds, av, ac, fetched, m);
        let cur = refreshed(feeds, av, ac, fetched, n);
        match fetched[n - 1] {
            Some(es) => {
                let f = feeds[n - 1];
                match advanced(f.last_update, es@) {
                    Some(w) => {
                        assert forall|i: int| 0 <= i < feeds.len() implies #[trigger] cur.0[i] == (
                        if i < n {
                            feed_after(feeds[i], fetched[i])
                        } else {
                            feeds[i]
                        }) by {
                            assert(prev.0[i] == (if i < m {
                                feed_after(feeds[i], fetched[i])
                            } else {
                                feeds[i]
                            }));
                            if i != n - 1 {
                                assert(feeds[i].key() != feeds[n - 1].key());
                            }
                        }
                    },
                    None => {},
                }
            },
            None => {},
        }
    }
}

/// Merging keeps every url unique among the available items and apart
/// from the active ones, whatever the entries hold.
pub proof fn lemma_merge_no_duplicates(
    av: Seq<Available>,
    ac: Seq<Active>,
    fs: Seq<Feed>,
    feed: Feed,
    es: Seq<Entry>,
)
    requires
        unique_keys(av),
        disjoint(av, ac),
    ensures
        unique_keys(merged(av, ac, fs, feed, es)),
        disjoint(merged(av, ac, fs, feed, es), ac),
    decreases es.len(),
{
    if es.len() > 0 {
        let d = es.drop_last();
        lemma_merge_no_duplicates(av, ac, fs, feed, d);
        let prev = merged(av, ac, fs, feed, d);
        let a = available_from(feed, es.last());
        if considered(feed.last_update, es.last()) && !holds_key(prev, a.url@) && !holds_key(
            ac,
            a.url@,
        ) && holds_key(fs, feed.url@) {
            lemma_push_key(prev, a);
        }
    }
}

/// The watermark of a feed never moves back: after a refresh pass every
/// feed that had one has one that is not earlier, and keeps its url and title.
pub proof fn lemma_refresh_monotonic(
    feeds: Seq<Feed>,
    av: Seq<Available>,
    ac: Seq<Active>,
    fetched: Seq<Option<Vec<Entry>>>,
)
    requires
        unique_keys(feeds),
        fetched.len() == feeds.len(),
    ensures
        ({
            let after = refreshed(feeds, av, ac, fetched, fetched.len()).0;
            &&& after.len() == feeds.len()
            &&& forall|i: int|
                0 <= i < feeds.len() ==> {
                    &&& (#[trigger] after[i]).url == feeds[i].url
                    &&& after[i].title == feeds[i].title
                    &&& feeds[i].last_update matches Some(x) ==> after[i].last_update matches Some(
                        y,
                    ) && !x.later_than(y)
                }
        }),
{
    lemma_refresh_shape(feeds, av, ac, fetched, fetched.len());
    let after = refreshed(feeds, av, ac, fetched, fetched.len()).0;
    assert forall|i: int| 0 <= i < feeds.len() implies {
        &&& (#[trigger] after[i]).url == feeds[i].url
        &&& after[i].title == feeds[i].title
        &&& feeds[i].last_update matches Some(x) ==> after[i].last_update matches Some(y)
            && !x.later_than(y)
    } by {
        match fetched[i] {
            Some(es) => {
                lemma_advanced_bounds(feeds[i].last_update, es@);
            },
            None => {},
        }
    }
}

/// Refreshing twice against unchanged documents ends where refreshing once
/// does: the same feeds, watermarks included, and the same available items.
pub proof fn lemma_refresh_idempotent(
    feeds: Seq<Feed>,
    av: Seq<Available>,
    ac: Seq<Active>,
    fetched: Seq<Option<Vec<Entry>>>,
)
    requires
        unique_keys(feeds),
        fetched.len() == feeds.len(),
    ensures
        ({
            let once = refreshed(feeds, av, ac, fetched, fetched.len());
            refreshed(once.0, once.1, ac, fetched, fetched.len()) == once
        }),
{
    let once = refreshed(feeds, av, ac, fetched, fetched.len());
    lemma_refresh_shape(feeds, av, ac, fetched, fetched.len());
    let f1 = once.0;
    assert(unique_keys(f1)) by {
        assert forall|a: int, b: int|
            #![trigger f1[a].key(), f1[b].key()]
            0 <= a < f1.len() && 0 <= b < f1.len() && a != b implies f1[a].key() != f1[b].key() by {
            assert(f1[a].url == feeds[a].url);
            assert(f1[b].url == feeds[b].url);
            assert(feeds[a].key() != feeds[b].key());
        }
    }
    lemma_refresh_settled(feeds, f1, once.1, ac, fetched, fetched.len());
}

/// The second pass of `lemma_refresh_idempotent`, one feed at a time.
proof fn lemma_refresh_settled(
    feeds: Seq<Feed>,
    f1: Seq<Feed>,
    a1: Seq<Available>,
    ac: Seq<Active>,
    fetched: Seq<Option<Vec<Entry>>>,
    n: nat,
)
    requires
        unique_keys(f1),
        n <= fetched.len(),
        fetched.len() == feeds.len(),
        f1.len() == feeds.len(),
        forall|i: int| 0 <= i < feeds.len() ==> #[trigger] f1[i] == feed_after(feeds[i], fetched[i]),
    ensures
        refreshed(f1, a1, ac, fetched, n) == (f1, a1),
    decreases n,
{
    if n > 0 {
        let m = (n - 1) as nat;
        lemma_refresh_settled(feeds, f1, a1, ac, fetched, m);
        let j = n - 1;
        match fetched[j] {
            Some(es) => {
                let f = f1[j];
                assert(f == feed_after(feeds[j], fetched[j]));
                lemma_advanced_bounds(feeds[j].last_update, es@);
                match f.last_update {
                    Some(y) => {
                        if advanced(feeds[j].last_update, es@) is None {
                            assert(f == feeds[j]);
                            assert(false);
                        }
                        assert forall|k: int| 0 <= k < es@.len() implies !considered(
                            f.last_update,
                            #[trigger] es@[k],
                        ) by {}
                        lemma_merged_nothing_new(a1, ac, f1, f, es@);
                        lemma_advanced_settled(y, es@);
                        assert forall|i: int| 0 <= i < f1.len() implies #[trigger] with_watermark(
                            f1,
                            f.url@,
                            y,
                        )[i] == f1[i] by {
                            if i != j {
                                assert(f1[i].key() != f1[j].key());
                            }
                        }
                        assert(with_watermark(f1, f.url@, y) =~= f1);
                    },
                    None => {
                        assert(advanced(feeds[j].last_update, es@) is None);
                        assert(es@.len() == 0);
                    },
                }
            },
            None => {},
        }
    }
}


/// The writes that merging a feed's entries asks of a store: the items to
/// insert if absent, in order, and the watermark to set, if any.
#[derive(Debug)]
pub struct FeedUpdate {
    pub additions: Vec<Available>,
    pub watermark: Option<Timestamp>,
}

/// The items that the entries of `feed` newer than its watermark become.
pub open spec fn additions(feed: Feed, es: Seq<Entry>) -> Seq<Available>
    decreases es.len(),
{
    if es.len() == 0 {
        Seq::empty()
    } else {
        let prev = additions(feed, es.drop_last());
        if considered(feed.last_update, es.last()) {
            prev.push(available_from(feed, es.last()))
        } else {
            prev
        }
    }
}

/// Plans the merge of `entries` into the catalog for `feed`, for a store
/// that applies it through its own operations.
pub fn plan_feed_update(feed: &Feed, entries: &Vec<Entry>) -> (r: FeedUpdate)
    ensures
        r.additions@ == additions(*feed, entries@),
        r.watermark == advanced(feed.last_update, entries@),
{
    let mut out: Vec<Available> = Vec::new();
    let mut last = feed.last_update;
    let mut i: usize = 0;
    while i < entries.len()
        invariant
            i <= entries@.len(),
            out@ == additions(*feed, entries@.subrange(0, i as int)),
            last == advanced(feed.last_update, entries@.subrange(0, i as int)),
        decreases entries@.len() - i,
    {
        let e = &entries[i];
        proof {
            let sub = entries@.subrange(0, i + 1);
            assert(sub.drop_last() =~= entries@.subrange(0, i as int));
            assert(sub.last() == entries@[i as int]);
        }
        if is_considered(feed.last_update, e) {
            out.push(
                Available {
                    title: e.title.clone(),
                    url: e.url.clone(),
                    publication: e.publication,
                    duration_ms: e.duration_ms,
                    feed: feed.clone(),
                },
            );
        }
        last = match last {
            Some(l) => Some(latest_of(e.publication, l)),
            None => Some(e.publication),
        };
        i += 1;
    }
    proof {
        assert(entries@.subrange(0, entries@.len() as int) =~= entries@);
    }
    FeedUpdate { additions: out, watermark: last }
}


/// Appending keeps every url that was held and adds the new one.
proof fn lemma_push_keeps<T: Keyed>(s: Seq<T>, a: T)
    ensures
        forall|x: Seq<char>| holds_key(s, x) ==> #[trigger] holds_key(s.push(a), x),
        holds_key(s.push(a), a.key()),
{
    assert forall|x: Seq<char>| holds_key(s, x) implies #[trigger] holds_key(s.push(a), x) by {
        let j = choose|j: int| 0 <= j < s.len() && #[trigger] s[j].key() == x;
        assert(s.push(a)[j] == s[j]);
    }
    assert(s.push(a)[s.len() as int] == a);
}

/// Merging keeps every available url, and for a subscribed feed every entry
/// newer than the watermark ends with its url available, unless it is active.
pub proof fn lemma_merged_takes_new_entries(
    av: Seq<Available>,
    ac: Seq<Active>,
    fs: Seq<Feed>,
    feed: Feed,
    es: Seq<Entry>,
)
    ensures
        forall|x: Seq<char>| holds_key(av, x) ==> #[trigger] holds_key(merged(av, ac, fs, feed, es), x),
        holds_key(fs, feed.url@) ==> forall|k: int|
            0 <= k < es.len() && considered(feed.last_update, #[trigger] es[k]) ==> holds_key(
                merged(av, ac, fs, feed, es),
                es[k].url@,
            ) || holds_key(ac, es[k].url@),
    decreases es.len(),
{
    if es.len() > 0 {
        let d = es.drop_last();
        lemma_merged_takes_new_entries(av, ac, fs, feed, d);
        let prev = merged(av, ac, fs, feed, d);
        let a = available_from(feed, es.last());
        lemma_push_keeps(prev, a);
        let m = merged(av, ac, fs, feed, es);
        assert(forall|x: Seq<char>| holds_key(prev, x) ==> #[trigger] holds_key(m, x));
        if holds_key(fs, feed.url@) {
            assert forall|k: int|
                0 <= k < es.len() && considered(feed.last_update, #[trigger] es[k]) implies holds_key(
                m,
                es[k].url@,
            ) || holds_key(ac, es[k].url@) by {
                if k < d.len() {
                    assert(d[k] == es[k]);
                    assert(holds_key(prev, d[k].url@) || holds_key(ac, d[k].url@));
                } else {
                    assert(es[k] == es.last());
                    assert(a.key() == es[k].url@);
                }
            }
        }
    }
}

/// A url available after the first `m` feeds of a pass stays available
/// after the first `n`.
proof fn lemma_refresh_keeps(
    feeds: Seq<Feed>,
    av: Seq<Available>,
    ac: Seq<Active>,
    fetched: Seq<Option<Vec<Entry>>>,
    m: nat,
    n: nat,
    x: Seq<char>,
)
    requires
        m <= n,
        holds_key(refreshed(feeds, av, ac, fetched, m).1, x),
    ensures
        holds_key(refreshed(feeds, av, ac, fetched, n).1, x),
    decreases n,
{
    if m < n {
        let p = (n - 1) as nat;
        lemma_refresh_keeps(feeds, av, ac, fetched, m, p, x);
        let prev = refreshed(feeds, av, ac, fetched, p);
        match fetched[n - 1] {
            Some(es) => {
                lemma_merged_takes_new_entries(prev.1, ac, prev.0, feeds[n - 1], es@);
            },
            None => {},
        }
    }
}

/// One feed failing stops no other: after a refresh pass, a feed whose
/// fetch or parse failed keeps its record; a feed that was fetched has the
/// watermark that `feed_after` gives, and every one of its entries newer
/// than its old watermark has its url available, unless the url is active.
pub proof fn lemma_refresh_failed_and_fetched(
    feeds: Seq<Feed>,
    av: Seq<Available>,
    ac: Seq<Active>,
    fetched: Seq<Option<Vec<Entry>>>,
    i: int,
)
    requires
        unique_keys(feeds),
        fetched.len() == feeds.len(),
        0 <= i < feeds.len(),
    ensures
        ({
            let after = refreshed(feeds, av, ac, fetched, fetched.len());
            &&& fetched[i] is None ==> after.0[i] == feeds[i]
            &&& fetched[i] matches Some(es) ==> {
                &&& after.0[i] == feed_after(feeds[i], fetched[i])
                &&& forall|k: int|
                    0 <= k < es@.len() && considered(feeds[i].last_update, #[trigger] es@[k])
                        ==> holds_key(after.1, es@[k].url@) || holds_key(ac, es@[k].url@)
            }
        }),
{
    let n = fetched.len();
    lemma_refresh_shape(feeds, av, ac, fetched, n);
    let after = refreshed(feeds, av, ac, fetched, n);
    assert(after.0[i] == (if i < n {
        feed_after(feeds[i], fetched[i])
    } else {
        feeds[i]
    }));
    match fetched[i] {
        Some(es) => {
            let j = i as nat;
            lemma_refresh_shape(feeds, av, ac, fetched, j);
            let prev = refreshed(feeds, av, ac, fetched, j);
            assert(prev.0[i] == feeds[i]);
            assert(prev.0[i].key() == feeds[i].url@);
            assert(holds_key(prev.0, feeds[i].url@));
            lemma_merged_takes_new_entries(prev.1, ac, prev.0, feeds[i], es@);
            let next = refreshed(feeds, av, ac, fetched, j + 1);
            assert(next.1 == merged(prev.1, ac, prev.0, feeds[i], es@));
            assert forall|k: int|
                0 <= k < es@.len() && considered(feeds[i].last_update, #[trigger] es@[k])
                    implies holds_key(after.1, es@[k].url@) || holds_key(ac, es@[k].url@) by {
                if !holds_key(ac, es@[k].url@) {
                    assert(holds_key(next.1, es@[k].url@));
                    lemma_refresh_keeps(feeds, av, ac, fetched, j + 1, n, es@[k].url@);
                }
            }
        },
        None => {},
    }
}

/// With no watermark, the pass sets one and it is the latest publication
/// of the entries.
proof fn lemma_advanced_attained(es: Seq<Entry>)
    requires
        es.len() > 0,
    ensures
        advanced(None, es) matches Some(w) && exists|k: int|
            0 <= k < es.len() && w == (#[trigger] es[k]).publication,
    decreases es.len(),
{
    let d = es.drop_last();
    assert(es.last() == es[es.len() - 1]);
    if d.len() > 0 {
        lemma_advanced_attained(d);
        let k = choose|k: int| 0 <= k < d.len() && advanced(None, d) == Some(
            (#[trigger] d[k]).publication,
        );
        assert(d[k] == es[k]);
    }
}

/// New entries only: when a subscribed feed has no watermark yet and its
/// entries have distinct urls, none of them available or active, merging
/// adds every entry, in order, as the item it becomes, and the watermark
/// becomes the latest of their publications.
pub proof fn lemma_new_entries_only(
    fs: Seq<Feed>,
    av: Seq<Available>,
    ac: Seq<Active>,
    feed: Feed,
    es: Seq<Entry>,
)
    requires
        feed.last_update is None,
        holds_key(fs, feed.url@),
        forall|i: int, j: int|
            0 <= i < es.len() && 0 <= j < es.len() && i != j ==> (#[trigger] es[i]).url@ != (
            #[trigger] es[j]).url@,
        forall|i: int|
            0 <= i < es.len() ==> !holds_key(av, (#[trigger] es[i]).url@) && !holds_key(
                ac,
                es[i].url@,
            ),
    ensures
        merge_feed(fs, av, ac, feed, es).1 == av + es.map_values(
            |e: Entry| available_from(feed, e),
        ),
        es.len() > 0 ==> {
            &&& advanced(None, es) matches Some(w)
            &&& exists|k: int| 0 <= k < es.len() && w == (#[trigger] es[k]).publication
            &&& forall|m: int| 0 <= m < es.len() ==> !(#[trigger] es[m]).publication.later_than(w)
        },
    decreases es.len(),
{
    let f = |e: Entry| available_from(feed, e);
    if es.len() > 0 {
        let d = es.drop_last();
        lemma_new_entries_only(fs, av, ac, feed, d);
        let prev = av + d.map_values(f);
        assert(merged(av, ac, fs, feed, d) == prev);
        let a = available_from(feed, es.last());
        assert(es.last() == es[es.len() - 1]);
        assert(!holds_key(prev, a.url@)) by {
            if holds_key(prev, a.url@) {
                let j = choose|j: int| 0 <= j < prev.len() && #[trigger] prev[j].key() == a.url@;
                if j < av.len() {
                    assert(prev[j] == av[j]);
                    assert(av[j].key() == a.url@);
                } else {
                    let m = j - av.len();
                    assert(prev[j] == f(d[m]));
                    assert(d[m] == es[m]);
                }
            }
        }
        assert(prev.push(a) =~= av + es.map_values(f));
        lemma_advanced_attained(es);
        lemma_advanced_bounds(None, es);
    } else {
        assert(av + es.map_values(f) =~= av);
    }
}

} // verus!
