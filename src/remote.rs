use vstd::prelude::*;

verus! {

/// The operations of the storage port, each served at a path of its name.
#[derive(Clone, Copy, Debug, PartialEq, Eq, Structural)]
pub enum Operation {
    AllFeeds,
    AddToFeed,
    RemoveFeed,
    SetLastUpdate,
    AllAvailable,
    FindInAvailable,
    RemoveFromAvailable,
    AddToAvailable,
    AllActive,
    FindInActive,
    AddToActive,
    MakeActive,
    SetPosition,
    SetDuration,
    SetTitle,
    RemoveFromActive,
}

pub open spec fn operation_name(op: Operation) -> Seq<char> {
    match op {
        Operation::AllFeeds => "all_feeds"@,
        Operation::AddToFeed => "add_to_feed"@,
        Operation::RemoveFeed => "remove_feed"@,
        Operation::SetLastUpdate => "set_last_update"@,
        Operation::AllAvailable => "all_available"@,
        Operation::FindInAvailable => "find_in_available"@,
        Operation::RemoveFromAvailable => "remove_from_available"@,
        Operation::AddToAvailable => "add_to_available"@,
        Operation::AllActive => "all_active"@,
        Operation::FindInActive => "find_in_active"@,
        Operation::AddToActive => "add_to_active"@,
        Operation::MakeActive => "make_active"@,
        Operation::SetPosition => "set_position"@,
        Operation::SetDuration => "set_duration"@,
        Operation::SetTitle => "set_title"@,
        Operation::RemoveFromActive => "remove_from_active"@,
    }
}

impl Operation {
    pub fn name(&self) -> (r: &'static str)
        ensures
            r@ == operation_name(*self),
    {
        match self {
            Operation::AllFeeds => "all_feeds",
            Operation::AddToFeed => "add_to_feed",
            Operation::RemoveFeed => "remove_feed",
            Operation::SetLastUpdate => "set_last_update",
            Operation::AllAvailable => "all_available",
            Operation::FindInAvailable => "find_in_available",
            Operation::RemoveFromAvailable => "remove_from_available",
            Operation::AddToAvailable => "add_to_available",
            Operation::AllActive => "all_active",
            Operation::FindInActive => "find_in_active",
            Operation::AddToActive => "add_to_active",
            Operation::MakeActive => "make_active",
            Operation::SetPosition => "set_position",
            Operation::SetDuration => "set_duration",
            Operation::SetTitle => "set_title",
            Operation::RemoveFromActive => "remove_from_active",
        }
    }

    /// The path at which the network service answers the operation.
    pub fn route(&self) -> (r: String)
        ensures
            r@ == "/"@ + operation_name(*self),
    {
        String::from_str("/").concat(self.name())
    }
}

/// The URL that resolving `path` against the URL `base` gives, if `base`
/// parses.
pub uninterp spec fn url_join_of(base: Seq<char>, path: Seq<char>) -> Option<Seq<char>>;

/// Relies on url's `Url::parse` and `Url::join`, and the text of the
/// joined URL.
#[verifier::external_body]
fn join_url(base: &str, path: &str) -> (r: Option<String>)
    ensures
        r is Some <==> url_join_of(base@, path@) is Some,
        r matches Some(s) ==> url_join_of(base@, path@) == Some(s@),
{
    url::Url::parse(base).and_then(|b| b.join(path)).ok().map(|u| u.to_string())
}

/// Where a remote store at `base` serves `op`; `None` where `base` is no URL.
pub fn endpoint_url(base: &str, op: Operation) -> (r: Option<String>)
    ensures
        r is Some <==> url_join_of(base@, operation_name(op)) is Some,
        r matches Some(s) ==> url_join_of(base@, operation_name(op)) == Some(s@),
{
    join_url(base, op.name())
}

} // verus!
