//! Squirrel: a fair waiting list in front of a convention's ticket registration.
//!
//! Attendees pre-register during the year; when registration opens every
//! pre-registered attendee gets a place in a waiting list, and the list is
//! depiled from the front, a batch at a time, while tickets are left.

pub mod event;
pub mod fake_reg;
pub mod portal;
pub mod registration;
pub mod waiting_list;

pub use event::{
    event_for_user, AccessToken, Event, PublicEvent, SingleUserEvent, TicketAmount, UserAccount,
    UserId,
};
pub use fake_reg::{home, FakeRegistrationState, TicketCount};
pub use portal::wall;
pub use registration::{start_registration, RegistrationOpening, RegistrationQueue, TicketCountWatch};
pub use waiting_list::{RegistrationList, WaitingList, MAX_USERS_PER_REG_BATCHES};
