use vstd::prelude::*;
use crate::catalog::{duration_set, is_bare_active, position_set, promoted, title_set, Catalog};
use crate::keyed::{holds_key, key_index, without_key};
use crate::model::{clone_text, Active, Keyed};

verus! {

/// How far before the nominal end a stop still counts as watched to the end.
pub const END_DETECTION_TOLERANCE_MS: u64 = 1000;

/// A change that the player reports while an item plays.
#[derive(Debug)]
pub enum PlayerEvent {
    /// The elapsed time, in milliseconds.
    Position(u64),
    /// The total duration, in milliseconds.
    Duration(u64),
    /// The title that the player shows.
    Title(String),
}

/// What has been seen of the player during one playback session.
#[derive(Debug)]
pub struct Observation {
    pub position_ms: Option<u64>,
    pub duration_ms: Option<u64>,
    pub title: Option<String>,
}

/// The catalog writes that end a playback session.
#[derive(Debug)]
pub struct Conclusion {
    /// The item was watched to its end and leaves the active list.
    pub finished: bool,
    /// The position to store, where the item stays active.
    pub position_ms: Option<u64>,
    /// The duration to store, where the item stays active.
    pub duration_ms: Option<u64>,
    /// The title to store, where none was stored before.
    pub title: Option<String>,
}

/// Both times are known and the position lies within the tolerance of the end.
pub open spec fn finished(position_ms: Option<u64>, duration_ms: Option<u64>) -> bool {
    match (position_ms, duration_ms) {
        (Some(p), Some(d)) => p + END_DETECTION_TOLERANCE_MS >= d,
        _ => false,
    }
}

/// Decides whether a session whose player last reported these times has
/// reached the end of its item.
pub fn is_finished(position_ms: Option<u64>, duration_ms: Option<u64>) -> (r: bool)
    ensures
        r == finished(position_ms, duration_ms),
{
    match (position_ms, duration_ms) {
        (Some(p), Some(d)) => d <= p || d - p <= END_DETECTION_TOLERANCE_MS,
        _ => false,
    }
}

impl Observation {
    /// A session in which nothing has been reported yet.
    pub fn new() -> (r: Observation)
        ensures
            r.position_ms is None,
            r.duration_ms is None,
            r.title is None,
    {
        Observation { position_ms: None, duration_ms: None, title: None }
    }

    /// Records one report: only the field it speaks of changes.
    pub fn observe(&mut self, event: PlayerEvent)
        ensures
            match event {
                PlayerEvent::Position(p) => *final(self) == Observation {
                    position_ms: Some(p),
                    ..*old(self)
                },
                PlayerEvent::Duration(d) => *final(self) == Observation {
                    duration_ms: Some(d),
                    ..*old(self)
                },
                PlayerEvent::Title(t) => *final(self) == Observation { title: Some(t), ..*old(self) },
            },
    {
        match event {
            PlayerEvent::Position(p) => self.position_ms = Some(p),
            PlayerEvent::Duration(d) => self.duration_ms = Some(d),
            PlayerEvent::Title(t) => self.title = Some(t),
        }
    }

    /// The session reached the end of its item.
    pub fn is_finished(&self) -> (r: bool)
        ensures
            r == finished(self.position_ms, self.duration_ms),
    {
        is_finished(self.position_ms, self.duration_ms)
    }

    /// The writes that end the session, given the title stored for the item
    /// before it: a finished item is removed, any other keeps the times
    /// that were reported; a reported title is stored only where none was.
    pub fn conclusion(&self, stored_title: &Option<String>) -> (r: Conclusion)
        ensures
            r == conclusion_of(*self, *stored_title),
    {
        let done = self.is_finished();
        let title = match stored_title {
            None => clone_text(&self.title),
            Some(_) => None,
        };
        if done {
            Conclusion { finished: true, position_ms: None, duration_ms: None, title }
        } else {
            Conclusion {
                finished: false,
                position_ms: self.position_ms,
                duration_ms: self.duration_ms,
                title,
            }
        }
    }
}

/// The writes that end a session, given the title stored before it.
pub open spec fn conclusion_of(o: Observation, stored_title: Option<String>) -> Conclusion {
    let done = finished(o.position_ms, o.duration_ms);
    Conclusion {
        finished: done,
        position_ms: if done {
            None
        } else {
            o.position_ms
        },
        duration_ms: if done {
            None
        } else {
            o.duration_ms
        },
        title: if stored_title is None {
            o.title
        } else {
            None
        },
    }
}

/// The active items after a session on `url` ends as `c` says.
pub open spec fn concluded(ac: Seq<Active>, url: Seq<char>, c: Conclusion) -> Seq<Active> {
    let timed = if c.finished {
        without_key(ac, url)
    } else {
        let p = match c.position_ms {
            Some(ms) => ac.map_values(position_set(url, ms)),
            None => ac,
        };
        match c.duration_ms {
            Some(ms) => p.map_values(duration_set(url, ms)),
            None => p,
        }
    };
    match c.title {
        Some(t) => timed.map_values(title_set(url, t)),
        None => timed,
    }
}

impl Catalog {
    /// Starts a session on `url`: the item is made active as `make_active`
    /// says, and its record (with the position to resume from) is returned.
    pub fn begin_playback(&mut self, url: &str) -> (r: Active)
        requires
            old(self).wf(),
        ensures
            final(self).wf(),
            holds_key(final(self).active@, url@),
            r == final(self).active@[key_index(final(self).active@, url@)],
            final(self).feeds@ == old(self).feeds@,
            holds_key(old(self).available@, url@) ==> {
                &&& final(self).available@ == without_key(old(self).available@, url@)
                &&& final(self).active@ == old(self).active@.push(
                    promoted(
                        old(self).feeds@,
                        old(self).available@[key_index(old(self).available@, url@)],
                    ),
                )
            },
            holds_key(old(self).active@, url@) ==> final(self).available@ == old(
                self,
            ).available@ && final(self).active@ == old(self).active@,
            !holds_key(old(self).available@, url@) && !holds_key(old(self).active@, url@) ==> {
                &&& final(self).available@ == old(self).available@
                &&& final(self).active@ == old(self).active@.push(final(self).active@.last())
                &&& is_bare_active(final(self).active@.last(), url@)
            },
    {
        let _ = self.make_active(url);
        proof {
            let ac = self.active@;
            if holds_key(old(self).available@, url@) {
                let av = old(self).available@;
                assert(av[key_index(av, url@)].key() == url@);
                assert(ac[ac.len() - 1].key() == url@);
                assert(holds_key(ac, url@));
            } else if !holds_key(old(self).active@, url@) {
                assert(ac[ac.len() - 1].key() == url@);
                assert(holds_key(ac, url@));
            }
            if !holds_key(old(self).available@, url@) && !holds_key(old(self).active@, url@) {
                assert(ac =~= old(self).active@.push(ac.last()));
            }
        }
        self.find_in_active(url).unwrap()
    }

    /// Ends a session on `url` with what was observed: the conclusion drawn
    /// against the title stored now is applied, and returned.
    pub fn end_playback(&mut self, url: &str, observed: &Observation) -> (r: Conclusion)
        requires
            old(self).wf(),
        ensures
            final(self).wf(),
            r == conclusion_of(
                *observed,
                if holds_key(old(self).active@, url@) {
                    old(self).active@[key_index(old(self).active@, url@)].title
                } else {
                    None
                },
            ),
            final(self).feeds@ == old(self).feeds@,
            final(self).available@ == old(self).available@,
            final(self).active@ == concluded(old(self).active@, url@, r),
    {
        let stored = match self.find_in_active(url) {
            Some(a) => a.title,
            None => None,
        };
        let c = observed.conclusion(&stored);
        if c.finished {
            let _ = self.remove_from_active(url);
        } else {
            match c.position_ms {
                Some(ms) => {
                    let _ = self.set_position(url, ms);
                },
                None => {},
            }
            match c.duration_ms {
                Some(ms) => {
                    let _ = self.set_duration(url, ms);
                },
                None => {},
            }
        }
        match &c.title {
            Some(t) => {
                self.store_title(url, t.clone());
            },
            None => {},
        }
        c
    }
}

} // verus!
