//! The events that the portal sends to attendees, and who receives them.

use vstd::prelude::*;

verus! {

/// A number of tickets, as the registration website reports it.
pub type TicketAmount = i64;

/// An attendee's identifier: the 128 bits of a UUID, most significant first.
pub type UserId = u128;

/// An access token to the registration website: the 128 bits of a UUID.
pub type AccessToken = u128;

/// These events can be seen by all users.
#[derive(Clone, Copy, Debug, PartialEq, Eq, Structural)]
pub enum PublicEvent {
    AllowedToRegister,
    TicketsLeft(TicketAmount),
    RegistrationClosed,
    RegistrationStarting,
    RegistrationStarted,
}

/// These events are transmitted to only one user, while they fetch events.
#[derive(Clone, Copy, Debug, PartialEq, Eq, Structural)]
pub struct SingleUserEvent {
    pub user_id: UserId,
    pub evt: PublicEvent,
}

/// An event of the portal: either for everybody, or for one user.
#[derive(Clone, Copy, Debug, PartialEq, Eq, Structural)]
pub enum Event {
    PublicEvent(PublicEvent),
    SingleUser(SingleUserEvent),
}

/// A pre-registered attendee.
#[derive(Clone, Copy, Debug, PartialEq, Eq, Structural)]
pub struct UserAccount {
    pub id: UserId,
}

/// What the attendee `user_id` sees of `evt` on their event stream:
/// a public event reaches everybody, a single-user event reaches its user only.
pub open spec fn delivered_to(evt: Event, user_id: UserId) -> Option<PublicEvent> {
    match evt {
        Event::PublicEvent(public_evt) => Some(public_evt),
        Event::SingleUser(user_evt) => if user_evt.user_id == user_id {
            Some(user_evt.evt)
        } else {
            None
        },
    }
}

/// Decides what the event stream of `user_id` yields for `evt`: `None` when the
/// event is meant for another user.
pub fn event_for_user(evt: &Event, user_id: UserId) -> (seen: Option<PublicEvent>)
    ensures
        seen == delivered_to(*evt, user_id),
        *evt matches Event::PublicEvent(public_evt) ==> seen == Some(public_evt),
        *evt matches Event::SingleUser(user_evt) ==> (seen is Some <==> user_evt.user_id == user_id),
        *evt matches Event::SingleUser(user_evt) ==> (user_evt.user_id == user_id ==> seen == Some(
            user_evt.evt,
        )),
{
    match evt {
        Event::PublicEvent(public_evt) => Some(*public_evt),
        Event::SingleUser(user_evt) => {
            if user_evt.user_id == user_id {
                Some(user_evt.evt)
            } else {
                None
            }
        },
    }
}

/// Public events are seen by all users: whatever the public event and
/// whoever the user, their stream shows that very event.
pub proof fn lemma_public_event_reaches_everybody(public_evt: PublicEvent, user_id: UserId)
    ensures
        delivered_to(Event::PublicEvent(public_evt), user_id) == Some(public_evt),
{
}

/// A single-user event reaches its user, who sees the event it carries, and
/// no other user sees anything of it.
pub proof fn lemma_single_user_event_reaches_its_user_only(
    user_evt: SingleUserEvent,
    other: UserId,
)
    requires
        other != user_evt.user_id,
    ensures
        delivered_to(Event::SingleUser(user_evt), user_evt.user_id) == Some(user_evt.evt),
        delivered_to(Event::SingleUser(user_evt), other) == None::<PublicEvent>,
{
}

} // verus!
