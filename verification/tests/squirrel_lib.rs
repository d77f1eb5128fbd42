use squirrel::fake_reg::{FAKE_REG_PORT, INITIAL_TICKETS};
use squirrel::portal::{tickets_count_url, CHANNEL_CAPACITY, PORTAL_PORT};
use squirrel::{
    event_for_user, home, start_registration, wall, Event, FakeRegistrationState, PublicEvent,
    RegistrationList, SingleUserEvent, TicketCount, TicketCountWatch, UserId,
    MAX_USERS_PER_REG_BATCHES,
};

fn allowed(user_id: UserId) -> Event {
    Event::SingleUser(SingleUserEvent { user_id, evt: PublicEvent::AllowedToRegister })
}

fn allowed_users(events: &[Event]) -> Vec<UserId> {
    let mut users = Vec::new();
    for evt in events {
        if let Event::SingleUser(user_evt) = evt {
            if user_evt.evt == PublicEvent::AllowedToRegister {
                users.push(user_evt.user_id);
            }
        }
    }
    users
}

#[test]
fn home_page_text() {
    assert_eq!(home(), "This is a fake registration website");
}

#[test]
fn wall_page_text() {
    assert_eq!(wall(), "Hello, World");
}

#[test]
fn settings() {
    assert_eq!(INITIAL_TICKETS, 10);
    assert_eq!(FAKE_REG_PORT, 8081);
    assert_eq!(PORTAL_PORT, 8080);
    assert_eq!(CHANNEL_CAPACITY, 10);
    assert_eq!(MAX_USERS_PER_REG_BATCHES, 1);
    assert_eq!(tickets_count_url(), "http://127.0.0.1:8081/tickets_count");
}

#[test]
fn fresh_website_has_all_tickets() {
    let state = FakeRegistrationState::new();
    assert_eq!(state.get_ticket_count(), TicketCount { count: 10 });
}

#[test]
fn buying_takes_one_ticket() {
    let mut state = FakeRegistrationState::new();
    assert!(state.buy_ticket());
    assert_eq!(state.get_ticket_count().count, 9);
}

#[test]
fn website_never_oversells() {
    let mut state = FakeRegistrationState::new();
    let mut sold = 0;
    for _ in 0..15 {
        if state.buy_ticket() {
            sold += 1;
        }
    }
    assert_eq!(sold, 10);
    assert_eq!(state.get_ticket_count().count, 0);
    assert!(!state.buy_ticket());
    assert_eq!(state.get_ticket_count().count, 0);
}

#[test]
fn public_event_reaches_everybody() {
    let evt = Event::PublicEvent(PublicEvent::TicketsLeft(4));
    assert_eq!(event_for_user(&evt, 1), Some(PublicEvent::TicketsLeft(4)));
    assert_eq!(event_for_user(&evt, 2), Some(PublicEvent::TicketsLeft(4)));
}

#[test]
fn single_user_event_reaches_its_user_only() {
    let evt = allowed(7);
    assert_eq!(event_for_user(&evt, 7), Some(PublicEvent::AllowedToRegister));
    assert_eq!(event_for_user(&evt, 8), None);
}

#[test]
fn register_gives_a_random_uuid() {
    let mut list = RegistrationList::new();
    let account = list.register();
    let uuid = uuid::Uuid::from_u128(account.id);
    assert_eq!(uuid.get_version_num(), 4);
    assert_eq!(uuid.get_variant(), uuid::Variant::RFC4122);
    assert!(list.is_registered(account.id));
    assert_eq!(list.len(), 1);
    let other = list.register();
    assert_ne!(account.id, other.id);
    assert_eq!(list.len(), 2);
}

#[test]
fn registering_twice_keeps_one_place() {
    let mut list = RegistrationList::new();
    let first = list.register_account(42);
    let second = list.register_account(42);
    assert_eq!(first, second);
    assert_eq!(first.id, 42);
    assert_eq!(list.len(), 1);
    assert!(list.is_registered(42));
    assert!(!list.is_registered(43));
}

#[test]
fn every_registered_attendee_gets_one_place() {
    let mut list = RegistrationList::new();
    for id in 1..=5u128 {
        list.register_account(id);
    }
    let queue = start_registration(&list, &TicketCountWatch::new()).queue;
    let mut waiting = queue.waiting();
    assert_eq!(waiting.len(), 5);
    waiting.sort();
    assert_eq!(waiting, vec![1, 2, 3, 4, 5]);
}

#[test]
fn empty_registration_list_gives_empty_queue() {
    let list = RegistrationList::new();
    let mut queue = start_registration(&list, &TicketCountWatch::new()).queue;
    assert!(queue.waiting().is_empty());
    let events = queue.on_ticket_count(3);
    assert_eq!(events, vec![Event::PublicEvent(PublicEvent::TicketsLeft(3))]);
}

#[test]
fn tickets_left_lets_in_the_first_attendee() {
    let mut list = RegistrationList::new();
    list.register_account(10);
    list.register_account(20);
    let mut queue = start_registration(&list, &TicketCountWatch::new()).queue;
    let order = queue.waiting();
    let events = queue.on_ticket_count(5);
    assert_eq!(events, vec![Event::PublicEvent(PublicEvent::TicketsLeft(5)), allowed(order[0])]);
    assert_eq!(queue.waiting(), vec![order[1]]);
}

#[test]
fn no_ticket_left_closes_registration() {
    let mut list = RegistrationList::new();
    list.register_account(10);
    let mut queue = start_registration(&list, &TicketCountWatch::new()).queue;
    assert_eq!(
        queue.on_ticket_count(0),
        vec![Event::PublicEvent(PublicEvent::RegistrationClosed)]
    );
    assert_eq!(
        queue.on_ticket_count(-3),
        vec![Event::PublicEvent(PublicEvent::RegistrationClosed)]
    );
    assert_eq!(queue.waiting(), vec![10]);
}

#[test]
fn waiting_list_is_depiled_in_order_and_once() {
    let mut list = RegistrationList::new();
    for id in [11u128, 22, 33, 44] {
        list.register_account(id);
    }
    let mut queue = start_registration(&list, &TicketCountWatch::new()).queue;
    let order = queue.waiting();
    let counts = [3i64, 0, 2, -1, 1, 5, 4];
    let mut sent = Vec::new();
    for count in counts {
        sent.extend(queue.on_ticket_count(count));
    }
    let let_in = allowed_users(&sent);
    // four reports had tickets left, one attendee per report, four attendees
    assert_eq!(let_in.len(), 4);
    assert_eq!(let_in, order);
    assert!(queue.waiting().is_empty());
    let mut dedup = let_in.clone();
    dedup.sort();
    dedup.dedup();
    assert_eq!(dedup.len(), let_in.len());
}

#[test]
fn number_let_in_is_bounded_by_reports() {
    let mut list = RegistrationList::new();
    for id in 1..=6u128 {
        list.register_account(id);
    }
    let mut queue = start_registration(&list, &TicketCountWatch::new()).queue;
    let mut sent = Vec::new();
    for count in [2i64, 2, 0] {
        sent.extend(queue.on_ticket_count(count));
    }
    assert_eq!(allowed_users(&sent).len(), 2);
    assert_eq!(queue.waiting().len(), 4);
}

#[test]
fn allowed_event_reaches_only_the_user_let_in() {
    let mut list = RegistrationList::new();
    list.register_account(1);
    list.register_account(2);
    let mut queue = start_registration(&list, &TicketCountWatch::new()).queue;
    let order = queue.waiting();
    let events = queue.on_ticket_count(1);
    let seen_by = |user: UserId| {
        events
            .iter()
            .filter(|e| event_for_user(e, user) == Some(PublicEvent::AllowedToRegister))
            .count()
    };
    assert_eq!(seen_by(order[0]), 1);
    assert_eq!(seen_by(order[1]), 0);
}

#[test]
fn watch_passes_on_changes_only() {
    let mut watch = TicketCountWatch::new();
    assert_eq!(watch.last_seen(), 0);
    assert_eq!(watch.observe(0), None);
    assert_eq!(watch.observe(10), Some(10));
    assert_eq!(watch.last_seen(), 10);
    assert_eq!(watch.observe(10), None);
    assert_eq!(watch.observe(9), Some(9));
    assert_eq!(watch.last_seen(), 9);
}

fn opening_with(last_seen: i64) -> (Vec<Event>, squirrel::RegistrationQueue) {
    let mut list = RegistrationList::new();
    list.register_account(1);
    let mut watch = TicketCountWatch::new();
    watch.observe(last_seen);
    let opening = start_registration(&list, &watch);
    let mut sent = opening.announcements;
    let mut queue = opening.queue;
    sent.extend(queue.on_ticket_count(opening.first_count));
    (sent, queue)
}

#[test]
fn opening_announces_then_lets_in_with_tickets_left() {
    let (sent, queue) = opening_with(3);
    assert_eq!(
        sent,
        vec![
            Event::PublicEvent(PublicEvent::RegistrationStarting),
            Event::PublicEvent(PublicEvent::RegistrationStarted),
            Event::PublicEvent(PublicEvent::TicketsLeft(3)),
            allowed(1),
        ]
    );
    assert!(queue.waiting().is_empty());
}

#[test]
fn opening_without_tickets_closes_and_keeps_waiting() {
    let (sent, queue) = opening_with(0);
    assert_eq!(
        sent,
        vec![
            Event::PublicEvent(PublicEvent::RegistrationStarting),
            Event::PublicEvent(PublicEvent::RegistrationStarted),
            Event::PublicEvent(PublicEvent::RegistrationClosed),
        ]
    );
    assert_eq!(queue.waiting(), vec![1]);
}

#[test]
fn opening_hands_over_last_count_seen() {
    let list = RegistrationList::new();
    let mut watch = TicketCountWatch::new();
    watch.observe(7);
    let opening = start_registration(&list, &watch);
    assert_eq!(opening.first_count, 7);
}

#[test]
fn reload_sends_attendee_to_the_end() {
    let mut list = RegistrationList::new();
    for id in [1u128, 2, 3] {
        list.register_account(id);
    }
    let mut queue = start_registration(&list, &TicketCountWatch::new()).queue;
    let order = queue.waiting();
    queue.requeue(order[0]);
    assert_eq!(queue.waiting(), vec![order[1], order[2], order[0]]);
    queue.requeue(order[2]);
    assert_eq!(queue.waiting(), vec![order[1], order[0], order[2]]);
    let events = queue.on_ticket_count(2);
    assert_eq!(allowed_users(&events), vec![order[1]]);
}

#[test]
fn reload_of_someone_not_waiting_changes_nothing() {
    let mut list = RegistrationList::new();
    list.register_account(1);
    list.register_account(2);
    let mut queue = start_registration(&list, &TicketCountWatch::new()).queue;
    let order = queue.waiting();
    queue.on_ticket_count(1);
    queue.requeue(order[0]);
    queue.requeue(99);
    assert_eq!(queue.waiting(), vec![order[1]]);
}
