//! The settings of the portal that attendees wait on, and its front page.

use vstd::prelude::*;

verus! {

/// The port on which the portal listens.
pub const PORTAL_PORT: u16 = 8080;

/// How many attendees may be in the registration website at once.
pub const DEFAULT_MAX_USERS_IN_REG_SIMULTANEOUSLY: i16 = 2;

/// How many messages each of the portal's broadcast channels holds.
pub const CHANNEL_CAPACITY: usize = 10;

/// How many seconds pass between two polls of the registration website.
pub const POLL_INTERVAL_SECS: u64 = 1;

/// The text of the portal's front page.
pub open spec fn wall_text() -> Seq<char> {
    "Hello, World"@
}

/// The portal's front page.
pub fn wall() -> (page: String)
    ensures
        page@ == wall_text(),
{
    "Hello, World".to_owned()
}

/// Where the portal polls the registration website for the tickets left.
pub open spec fn tickets_count_url_text() -> Seq<char> {
    "http://127.0.0.1:8081/tickets_count"@
}

/// Where the portal polls the registration website for the tickets left.
pub fn tickets_count_url() -> (url: String)
    ensures
        url@ == tickets_count_url_text(),
{
    "http://127.0.0.1:8081/tickets_count".to_owned()
}

} // verus!
