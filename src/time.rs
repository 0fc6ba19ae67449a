use vstd::prelude::*;

verus! {

/// An instant with the UTC offset it was written in, as plain integers:
/// seconds since the Unix epoch (UTC), the nanoseconds within that second
/// (a leap second runs past one billion) and the offset east of UTC.
#[derive(Clone, Copy, Debug, PartialEq, Eq, Structural)]
pub struct Timestamp {
    pub secs: i64,
    pub nanos: u32,
    pub offset_secs: i32,
}

impl Timestamp {
    /// The ranges that the calendar library keeps for a parsed date.
    pub open spec fn wf(self) -> bool {
        &&& self.nanos < 2_000_000_000
        &&& -86_400 < self.offset_secs < 86_400
    }

    /// Well inside the span of years that the calendar library can write:
    /// about a quarter million years either side of 1970, no leap second.
    pub open spec fn representable(self) -> bool {
        &&& self.nanos < 1_000_000_000
        &&& -86_400 < self.offset_secs < 86_400
        &&& -8_000_000_000_000 <= self.secs <= 8_000_000_000_000
    }

    /// `self` lies strictly after `other`; the offset does not take part.
    pub open spec fn later_than(self, other: Timestamp) -> bool {
        self.secs > other.secs || (self.secs == other.secs && self.nanos > other.nanos)
    }

    /// `self` and `other` are the same instant, whatever their offsets.
    pub open spec fn same_instant(self, other: Timestamp) -> bool {
        self.secs == other.secs && self.nanos == other.nanos
    }

    pub fn is_later_than(&self, other: &Timestamp) -> (r: bool)
        ensures
            r == self.later_than(*other),
    {
        self.secs > other.secs || (self.secs == other.secs && self.nanos > other.nanos)
    }

    /// Reads a timestamp in the stored text form (RFC 3339).
    pub fn from_text(s: &str) -> (r: Option<Timestamp>)
        ensures
            r == rfc3339_of(s@),
            r matches Some(t) ==> t.wf(),
    {
        parse_rfc3339(s)
    }

    /// Writes the timestamp in the stored text form (RFC 3339); `None` where
    /// the calendar library cannot represent it.
    pub fn to_text(&self) -> (r: Option<String>)
        ensures
            r matches Some(s) ==> s@ == rfc3339_text_of(*self),
            self.representable() ==> r is Some,
    {
        format_rfc3339(self)
    }
}

/// The later of two instants; on the same instant, `b`.
pub open spec fn latest(a: Timestamp, b: Timestamp) -> Timestamp {
    if a.later_than(b) {
        a
    } else {
        b
    }
}

pub fn latest_of(a: Timestamp, b: Timestamp) -> (r: Timestamp)
    ensures
        r == latest(a, b),
{
    if a.is_later_than(&b) {
        a
    } else {
        b
    }
}

/// What the calendar library reads from an RFC 2822 date, if anything.
pub uninterp spec fn rfc2822_of(s: Seq<char>) -> Option<Timestamp>;

/// What the calendar library reads from an RFC 3339 date, if anything.
pub uninterp spec fn rfc3339_of(s: Seq<char>) -> Option<Timestamp>;

/// The RFC 3339 text that the calendar library writes for an instant.
pub uninterp spec fn rfc3339_text_of(t: Timestamp) -> Seq<char>;

/// Relies on chrono's `DateTime::parse_from_rfc2822`: a deterministic parse
/// whose results hold an offset within a day and a sub-second part below two
/// billion nanoseconds.
#[verifier::external_body]
fn parse_rfc2822(s: &str) -> (r: Option<Timestamp>)
    ensures
        r == rfc2822_of(s@),
        r matches Some(t) ==> t.wf(),
{
    chrono::DateTime::parse_from_rfc2822(s).ok().map(
        |d| Timestamp {
            secs: d.timestamp(),
            nanos: d.timestamp_subsec_nanos(),
            offset_secs: d.offset().local_minus_utc(),
        },
    )
}

/// Relies on chrono's `DateTime::parse_from_rfc3339`: a deterministic parse
/// whose results hold an offset within a day and a sub-second part below two
/// billion nanoseconds.
#[verifier::external_body]
fn parse_rfc3339(s: &str) -> (r: Option<Timestamp>)
    ensures
        r == rfc3339_of(s@),
        r matches Some(t) ==> t.wf(),
{
    chrono::DateTime::parse_from_rfc3339(s).ok().map(
        |d| Timestamp {
            secs: d.timestamp(),
            nanos: d.timestamp_subsec_nanos(),
            offset_secs: d.offset().local_minus_utc(),
        },
    )
}

/// Relies on chrono's `DateTime::to_rfc3339`, after `FixedOffset::east_opt`
/// and `DateTime::from_timestamp` have rebuilt the instant; these accept an
/// offset within a day, a sub-second part below a billion nanoseconds and
/// dates within years -262143 to 262142.
#[verifier::external_body]
fn format_rfc3339(t: &Timestamp) -> (r: Option<String>)
    ensures
        r matches Some(s) ==> s@ == rfc3339_text_of(*t),
        t.representable() ==> r is Some,
{
    let offset = chrono::FixedOffset::east_opt(t.offset_secs)?;
    let utc = chrono::DateTime::from_timestamp(t.secs, t.nanos)?;
    Some(utc.with_timezone(&offset).to_rfc3339())
}

/// What a feed's date field means: RFC 2822 first, then RFC 3339.
pub open spec fn parsed_time(s: Seq<char>) -> Option<Timestamp> {
    match rfc2822_of(s) {
        Some(t) => Some(t),
        None => rfc3339_of(s),
    }
}

/// Reads a publication date as feeds write it: in the e-mail form of
/// RFC 2822, or else in the form of RFC 3339.
pub fn parse_time(s: &str) -> (r: Option<Timestamp>)
    ensures
        r == parsed_time(s@),
        r matches Some(t) ==> t.wf(),
{
    match parse_rfc2822(s) {
        Some(t) => Some(t),
        None => parse_rfc3339(s),
    }
}

} // verus!
