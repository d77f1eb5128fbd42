//! The registration itself: the waiting list is depiled, a batch at a time,
//! each time the registration website reports tickets left.

use std::collections::VecDeque;
use vstd::prelude::*;

use crate::event::{delivered_to, Event, PublicEvent, SingleUserEvent, TicketAmount, UserId};
use crate::waiting_list::{RegistrationList, MAX_USERS_PER_REG_BATCHES};

verus! {

/// The event that lets the attendee `user_id` into the registration website.
pub open spec fn allowed_event(user_id: UserId) -> Event {
    Event::SingleUser(SingleUserEvent { user_id, evt: PublicEvent::AllowedToRegister })
}

/// The attendees let in when the website reports `count` tickets left to a
/// waiting list `queue`: none when no ticket is left, else the first batch.
pub open spec fn batch(queue: Seq<UserId>, count: int) -> Seq<UserId> {
    if count > 0 {
        queue.take(
            if queue.len() < MAX_USERS_PER_REG_BATCHES {
                queue.len() as int
            } else {
                MAX_USERS_PER_REG_BATCHES as int
            },
        )
    } else {
        seq![]
    }
}

/// What the portal does on a report of `count` tickets left: the waiting list
/// after it, and the events it sends, in order. With no ticket left it closes
/// the registration; else it tells everybody how many tickets are left, then
/// lets in the first attendees of the waiting list.
pub open spec fn ticket_step(queue: Seq<UserId>, count: TicketAmount) -> (Seq<UserId>, Seq<Event>) {
    if count <= 0 {
        (queue, seq![Event::PublicEvent(PublicEvent::RegistrationClosed)])
    } else {
        let let_in = batch(queue, count as int);
        (
            queue.skip(let_in.len() as int),
            seq![Event::PublicEvent(PublicEvent::TicketsLeft(count))] + let_in.map_values(
                |u: UserId| allowed_event(u),
            ),
        )
    }
}

/// The waiting list of an open registration.
pub struct RegistrationQueue {
    waiting: VecDeque<UserId>,
}

impl View for RegistrationQueue {
    type V = Seq<UserId>;

    /// The attendees still waiting, the next one first.
    closed spec fn view(&self) -> Seq<UserId> {
        self.waiting@
    }
}

/// The announcements that open the registration, in the order they are sent.
pub open spec fn opening_announcements() -> Seq<Event> {
    seq![
        Event::PublicEvent(PublicEvent::RegistrationStarting),
        Event::PublicEvent(PublicEvent::RegistrationStarted),
    ]
}

/// What opening the registration produces: the announcements to send to
/// everybody, in order, the waiting list, and the ticket count to hand to the
/// task that runs the registration so that it acts on it at once.
pub struct RegistrationOpening {
    pub announcements: Vec<Event>,
    pub queue: RegistrationQueue,
    pub first_count: TicketAmount,
}

/// Opens the registration: announces that it starts, then that it has
/// started; every pre-registered attendee gets exactly one place in the
/// waiting list, in the order in which the pre-registration map is walked;
/// and the last ticket count seen is handed over to be acted on first.
pub fn start_registration(prereg: &RegistrationList, watch: &TicketCountWatch) -> (opening:
    RegistrationOpening)
    ensures
        opening.announcements@ == opening_announcements(),
        opening.queue@.no_duplicates(),
        opening.queue@.to_set() == prereg@,
        opening.queue@.len() == prereg@.len(),
        opening.first_count == watch@,
{
    let mut announcements: Vec<Event> = Vec::new();
    announcements.push(Event::PublicEvent(PublicEvent::RegistrationStarting));
    let queue = RegistrationQueue { waiting: prereg.compile_waiting_list() };
    announcements.push(Event::PublicEvent(PublicEvent::RegistrationStarted));
    proof {
        assert(announcements@ =~= opening_announcements());
    }
    RegistrationOpening { announcements, queue, first_count: watch.last_seen() }
}

/// The waiting list `queue` without the attendee `user_id`, the others in the
/// same order.
pub open spec fn without(queue: Seq<UserId>, user_id: UserId) -> Seq<UserId>
    decreases queue.len(),
{
    if queue.len() == 0 {
        seq![]
    } else if queue.last() == user_id {
        without(queue.drop_last(), user_id)
    } else {
        without(queue.drop_last(), user_id).push(queue.last())
    }
}

/// What a reload of the page by `user_id` does to the waiting list: an
/// attendee still waiting goes to the end of it; anybody else leaves it as it
/// is.
pub open spec fn requeue_step(queue: Seq<UserId>, user_id: UserId) -> Seq<UserId> {
    if queue.contains(user_id) {
        without(queue, user_id).push(user_id)
    } else {
        queue
    }
}

impl RegistrationQueue {
    /// Puts the attendee `user_id`, who reloaded their page, at the end of
    /// the waiting list; does nothing if they are not waiting.
    pub fn requeue(&mut self, user_id: UserId)
        ensures
            final(self)@ == requeue_step(old(self)@, user_id),
    {
        let ghost start = self.waiting@;
        let n = self.waiting.len();
        let mut kept: VecDeque<UserId> = VecDeque::new();
        let mut found = false;
        let mut i: usize = 0;
        while i < n
            invariant
                n == start.len(),
                self.waiting@ == start,
                i <= n,
                kept@ == without(start.take(i as int), user_id),
                found == start.take(i as int).contains(user_id),
            decreases n - i,
        {
            let id = self.waiting[i];
            proof {
                assert(start.take(i + 1).drop_last() =~= start.take(i as int));
                assert(start.take(i + 1).last() == id);
                let before = start.take(i as int);
                let next = start.take(i + 1);
                if before.contains(user_id) {
                    let j = choose|j: int| 0 <= j < before.len() && before[j] == user_id;
                    assert(next[j] == user_id);
                }
                if next.contains(user_id) && id != user_id {
                    let j = choose|j: int| 0 <= j < next.len() && next[j] == user_id;
                    assert(before[j] == user_id);
                }
            }
            if id == user_id {
                found = true;
            } else {
                kept.push_back(id);
            }
            i = i + 1;
        }
        proof {
            assert(start.take(n as int) =~= start);
        }
        if found {
            kept.push_back(user_id);
            self.waiting = kept;
        }
    }

    /// The attendees still waiting, the next one first.
    pub fn waiting(&self) -> (ids: Vec<UserId>)
        ensures
            ids@ == self@,
    {
        let mut ids: Vec<UserId> = Vec::new();
        let n = self.waiting.len();
        let mut i: usize = 0;
        while i < n
            invariant
                n == self.waiting@.len(),
                i <= n,
                ids@ == self.waiting@.take(i as int),
            decreases n - i,
        {
            ids.push(self.waiting[i]);
            i = i + 1;
            proof {
                assert(ids@ =~= self.waiting@.take(i as int));
            }
        }
        proof {
            assert(self.waiting@.take(n as int) =~= self.waiting@);
        }
        ids
    }

    /// Reacts to a report of `count` tickets left: gives back the events to
    /// send, in order, and depiles the attendees it lets in.
    pub fn on_ticket_count(&mut self, count: TicketAmount) -> (events: Vec<Event>)
        ensures
            (final(self)@, events@) == ticket_step(old(self)@, count),
            count <= 0 ==> events@ == seq![Event::PublicEvent(PublicEvent::RegistrationClosed)]
                && final(self)@ == old(self)@,
            count > 0 ==> events@.len() >= 1 && events@[0] == Event::PublicEvent(
                PublicEvent::TicketsLeft(count),
            ),
            events@.contains(Event::PublicEvent(PublicEvent::RegistrationClosed)) <==> count <= 0,
            count > 0 ==> ({
                let waited = old(self)@;
                let k = if waited.len() < MAX_USERS_PER_REG_BATCHES {
                    waited.len() as int
                } else {
                    MAX_USERS_PER_REG_BATCHES as int
                };
                &&& events@.len() == k + 1
                &&& forall|i: int|
                    0 <= i < k ==> events@[i + 1] == Event::SingleUser(
                        SingleUserEvent { user_id: waited[i], evt: PublicEvent::AllowedToRegister },
                    )
                &&& final(self)@ == waited.subrange(k, waited.len() as int)
            }),
    {
        proof {
            lemma_ticket_report(self.waiting@, count);
        }
        let mut events: Vec<Event> = Vec::new();
        if count <= 0 {
            events.push(Event::PublicEvent(PublicEvent::RegistrationClosed));
            return events;
        }
        events.push(Event::PublicEvent(PublicEvent::TicketsLeft(count)));
        let ghost start = self.waiting@;
        let ghost let_in = batch(start, count as int);
        let mut i: i64 = 0;
        while i < MAX_USERS_PER_REG_BATCHES
            invariant
                0 <= i <= MAX_USERS_PER_REG_BATCHES,
                count > 0,
                let_in == batch(start, count as int),
                ({
                    let taken = if start.len() < i { start.len() as int } else { i as int };
                    &&& self.waiting@ == start.skip(taken)
                    &&& events@ == seq![Event::PublicEvent(PublicEvent::TicketsLeft(count))]
                        + start.take(taken).map_values(|u: UserId| allowed_event(u))
                }),
            decreases MAX_USERS_PER_REG_BATCHES - i,
        {
            let ghost before = self.waiting@;
            let ghost events_before = events@;
            let next_user = self.waiting.pop_front();
            if let Some(user_id) = next_user {
                events.push(
                    Event::SingleUser(
                        SingleUserEvent { user_id, evt: PublicEvent::AllowedToRegister },
                    ),
                );
                proof {
                    let taken = if start.len() < i { start.len() as int } else { i as int };
                    assert(taken == i);
                    assert(start.skip(i + 1) =~= before.drop_first());
                    assert(start.take(i + 1) =~= start.take(i as int).push(user_id));
                    assert(start.take(i + 1).map_values(|u: UserId| allowed_event(u))
                        =~= start.take(i as int).map_values(|u: UserId| allowed_event(u)).push(
                        allowed_event(user_id),
                    ));
                    assert(events@ =~= events_before.push(allowed_event(user_id)));
                }
            }
            i = i + 1;
        }
        proof {
            assert(let_in =~= start.take(
                if start.len() < MAX_USERS_PER_REG_BATCHES {
                    start.len() as int
                } else {
                    MAX_USERS_PER_REG_BATCHES as int
                },
            ));
        }
        events
    }
}

/// What the portal remembers of the registration website's ticket count: the
/// last count it has seen, so that it passes on changes only.
pub struct TicketCountWatch {
    last_seen: TicketAmount,
}

impl View for TicketCountWatch {
    type V = TicketAmount;

    /// The last count seen.
    closed spec fn view(&self) -> TicketAmount {
        self.last_seen
    }
}

/// What taking in the count `count` does to a watch that last saw `last`:
/// the count it remembers after, and the count it passes on, if any.
pub open spec fn observe_step(last: TicketAmount, count: TicketAmount) -> (
    TicketAmount,
    Option<TicketAmount>,
) {
    if last != count {
        (count, Some(count))
    } else {
        (last, None)
    }
}

/// A count is passed on once: after a count is taken in, taking in the same
/// count again passes nothing on and changes nothing, and a different count
/// is always passed on.
pub proof fn lemma_count_passed_on_once(last: TicketAmount, count: TicketAmount, next: TicketAmount)
    ensures
        observe_step(observe_step(last, count).0, count) == (count, None::<TicketAmount>),
        next != count ==> observe_step(observe_step(last, count).0, next).1 == Some(next),
{
}

/// Every attendee registered when the registration opens waits in exactly one
/// place: in a waiting list that holds each pre-registered attendee once, as
/// the one `start_registration` gives, the attendee `user_id` stands at one
/// index and at no other.
pub proof fn lemma_registered_attendee_has_one_place(
    registered: Set<UserId>,
    queue: Seq<UserId>,
    user_id: UserId,
)
    requires
        registered.contains(user_id),
        queue.no_duplicates(),
        queue.to_set() == registered,
    ensures
        exists|i: int|
            0 <= i < queue.len() && queue[i] == user_id && forall|j: int|
                0 <= j < queue.len() && #[trigger] queue[j] == user_id ==> j == i,
{
    assert(queue.to_set().contains(user_id));
    let i = choose|i: int| 0 <= i < queue.len() && queue[i] == user_id;
    assert(forall|j: int| 0 <= j < queue.len() && #[trigger] queue[j] == user_id ==> j == i);
}

impl TicketCountWatch {
    /// A watch that has seen no ticket yet.
    pub fn new() -> (watch: Self)
        ensures
            watch@ == 0,
    {
        TicketCountWatch { last_seen: 0 }
    }

    /// The last count seen.
    pub fn last_seen(&self) -> (count: TicketAmount)
        ensures
            count == self@,
    {
        self.last_seen
    }

    /// Takes in a count polled from the registration website: gives it back
    /// when it differs from the last one seen, `None` when it does not, and
    /// remembers it either way.
    pub fn observe(&mut self, count: TicketAmount) -> (changed: Option<TicketAmount>)
        ensures
            (final(self)@, changed) == observe_step(old(self)@, count),
    {
        if self.last_seen != count {
            self.last_seen = count;
            Some(count)
        } else {
            None
        }
    }
}

/// The attendees let in by a sequence of events, in the order of the events.
pub open spec fn allowed_users(events: Seq<Event>) -> Seq<UserId>
    decreases events.len(),
{
    if events.len() == 0 {
        seq![]
    } else {
        let rest = allowed_users(events.drop_first());
        match events[0] {
            Event::SingleUser(user_evt) => if user_evt.evt == PublicEvent::AllowedToRegister {
                seq![user_evt.user_id] + rest
            } else {
                rest
            },
            Event::PublicEvent(_) => rest,
        }
    }
}

/// The waiting list after the reports `counts`, one after the other, from
/// the waiting list `queue`, and all the events sent meanwhile, in order.
pub open spec fn run(queue: Seq<UserId>, counts: Seq<TicketAmount>) -> (Seq<UserId>, Seq<Event>)
    decreases counts.len(),
{
    if counts.len() == 0 {
        (queue, seq![])
    } else {
        let (after, sent) = ticket_step(queue, counts[0]);
        let (last, sent_later) = run(after, counts.drop_first());
        (last, sent + sent_later)
    }
}

/// How many of the reports `counts` had tickets left.
pub open spec fn reports_with_tickets(counts: Seq<TicketAmount>) -> nat
    decreases counts.len(),
{
    if counts.len() == 0 {
        0
    } else {
        reports_with_tickets(counts.drop_first()) + if counts[0] > 0 { 1nat } else { 0nat }
    }
}

proof fn lemma_allowed_users_append(a: Seq<Event>, b: Seq<Event>)
    ensures
        allowed_users(a + b) == allowed_users(a) + allowed_users(b),
    decreases a.len(),
{
    if a.len() == 0 {
        assert(a + b =~= b);
        assert(allowed_users(a) + allowed_users(b) =~= allowed_users(b));
    } else {
        assert((a + b).drop_first() =~= a.drop_first() + b);
        lemma_allowed_users_append(a.drop_first(), b);
        assert((a + b)[0] == a[0]);
        match a[0] {
            Event::SingleUser(user_evt) => {
                if user_evt.evt == PublicEvent::AllowedToRegister {
                    assert(seq![user_evt.user_id] + (allowed_users(a.drop_first()) + allowed_users(b))
                        =~= (seq![user_evt.user_id] + allowed_users(a.drop_first())) + allowed_users(b));
                }
            },
            Event::PublicEvent(_) => {},
        }
    }
}

proof fn lemma_allowed_users_of_batch(users: Seq<UserId>)
    ensures
        allowed_users(users.map_values(|u: UserId| allowed_event(u))) == users,
    decreases users.len(),
{
    let events = users.map_values(|u: UserId| allowed_event(u));
    if users.len() > 0 {
        assert(events.drop_first() =~= users.drop_first().map_values(|u: UserId| allowed_event(u)));
        lemma_allowed_users_of_batch(users.drop_first());
        assert(events[0] == allowed_event(users[0]));
        assert(seq![users[0]] + users.drop_first() =~= users);
    } else {
        assert(users =~= seq![]);
    }
}

/// What one report lets in, as read back from the events it sends.
proof fn lemma_step_lets_in_batch(queue: Seq<UserId>, count: TicketAmount)
    ensures
        allowed_users(ticket_step(queue, count).1) == batch(queue, count as int),
        batch(queue, count as int) + ticket_step(queue, count).0 == queue,
{
    let step = ticket_step(queue, count);
    if count <= 0 {
        let closed = seq![Event::PublicEvent(PublicEvent::RegistrationClosed)];
        assert(closed.drop_first() =~= Seq::<Event>::empty());
        assert(allowed_users(Seq::<Event>::empty()) =~= Seq::<UserId>::empty());
        assert(allowed_users(closed) =~= Seq::<UserId>::empty());
        assert(seq![] + queue =~= queue);
    } else {
        let let_in = batch(queue, count as int);
        let first = seq![Event::PublicEvent(PublicEvent::TicketsLeft(count))];
        lemma_allowed_users_append(first, let_in.map_values(|u: UserId| allowed_event(u)));
        assert(first.drop_first() =~= Seq::<Event>::empty());
        assert(allowed_users(Seq::<Event>::empty()) =~= Seq::<UserId>::empty());
        assert(allowed_users(first) =~= Seq::<UserId>::empty());
        lemma_allowed_users_of_batch(let_in);
        assert(Seq::<UserId>::empty() + let_in =~= let_in);
        assert(let_in + queue.skip(let_in.len() as int) =~= queue);
    }
}

/// Access is granted only while tickets are left: a report of no ticket left
/// lets nobody in, closes the registration and keeps the waiting list as it
/// is; a report of tickets left lets in the first attendees of the waiting
/// list, at most a batch of them, and nobody else.
pub proof fn lemma_access_only_with_tickets_left(queue: Seq<UserId>, count: TicketAmount)
    ensures
        count <= 0 ==> allowed_users(ticket_step(queue, count).1).len() == 0,
        count <= 0 ==> ticket_step(queue, count).0 == queue,
        count <= 0 ==> ticket_step(queue, count).1 == seq![
            Event::PublicEvent(PublicEvent::RegistrationClosed),
        ],
        allowed_users(ticket_step(queue, count).1).len() <= MAX_USERS_PER_REG_BATCHES,
        allowed_users(ticket_step(queue, count).1) == batch(queue, count as int),
        count > 0 ==> allowed_users(ticket_step(queue, count).1) == queue.take(
            allowed_users(ticket_step(queue, count).1).len() as int,
        ),
{
    lemma_step_lets_in_batch(queue, count);
}

/// On one report, the attendee `user_id` is told to go to the registration
/// exactly when they are in the batch that the report lets in; every other
/// attendee's stream yields no such event.
pub proof fn lemma_allowed_event_reaches_its_user(
    queue: Seq<UserId>,
    count: TicketAmount,
    user_id: UserId,
)
    ensures
        (exists|i: int|
            0 <= i < ticket_step(queue, count).1.len() && #[trigger] delivered_to(
                ticket_step(queue, count).1[i],
                user_id,
            ) == Some(PublicEvent::AllowedToRegister)) <==> batch(queue, count as int).contains(
            user_id,
        ),
{
    let events = ticket_step(queue, count).1;
    let let_in = batch(queue, count as int);
    if count > 0 {
        let lets = let_in.map_values(|u: UserId| allowed_event(u));
        let first = seq![Event::PublicEvent(PublicEvent::TicketsLeft(count))];
        assert(events == first + lets);
        if let_in.contains(user_id) {
            let j = choose|j: int| 0 <= j < let_in.len() && let_in[j] == user_id;
            assert(events[j + 1] == lets[j]);
            assert(delivered_to(events[j + 1], user_id) == Some(PublicEvent::AllowedToRegister));
        }
        assert forall|i: int|
            0 <= i < events.len() && #[trigger] delivered_to(events[i], user_id) == Some(
                PublicEvent::AllowedToRegister,
            ) implies let_in.contains(user_id) by {
            if i == 0 {
                assert(events[0] == first[0]);
            } else {
                assert(events[i] == lets[i - 1]);
                assert(let_in[i - 1] == user_id);
            }
        }
    } else {
        assert forall|i: int|
            0 <= i < events.len() implies #[trigger] delivered_to(events[i], user_id) != Some(
                PublicEvent::AllowedToRegister,
            ) by {
            assert(events[i] == Event::PublicEvent(PublicEvent::RegistrationClosed));
        }
    }
}

/// The waiting list is depiled from first to last: over any sequence of
/// reports, the attendees let in, in the order in which they are let in,
/// followed by those still waiting, are the waiting list as it was.
pub proof fn lemma_depiled_in_order(queue: Seq<UserId>, counts: Seq<TicketAmount>)
    ensures
        allowed_users(run(queue, counts).1) + run(queue, counts).0 == queue,
    decreases counts.len(),
{
    if counts.len() == 0 {
        assert(allowed_users(Seq::<Event>::empty()) + queue =~= queue);
    } else {
        let (after, sent) = ticket_step(queue, counts[0]);
        let (last, sent_later) = run(after, counts.drop_first());
        lemma_step_lets_in_batch(queue, counts[0]);
        lemma_depiled_in_order(after, counts.drop_first());
        lemma_allowed_users_append(sent, sent_later);
        assert(allowed_users(sent + sent_later) + last =~= allowed_users(sent) + (allowed_users(
            sent_later,
        ) + last));
    }
}

/// Nobody is let in twice: when the waiting list gives each attendee one
/// place, as the one that opens the registration does, no attendee is let in
/// more than once over any sequence of reports.
pub proof fn lemma_nobody_let_in_twice(queue: Seq<UserId>, counts: Seq<TicketAmount>)
    requires
        queue.no_duplicates(),
    ensures
        allowed_users(run(queue, counts).1).no_duplicates(),
{
    lemma_depiled_in_order(queue, counts);
    let let_in = allowed_users(run(queue, counts).1);
    let rest = run(queue, counts).0;
    assert forall|i: int, j: int| 0 <= i < j < let_in.len() implies let_in[i] != let_in[j] by {
        assert(let_in[i] == (let_in + rest)[i]);
        assert(let_in[j] == (let_in + rest)[j]);
    }
}

/// How many attendees get in: over any sequence of reports, a batch per
/// report with tickets left, until the waiting list is empty.
pub proof fn lemma_number_let_in(queue: Seq<UserId>, counts: Seq<TicketAmount>)
    ensures
        allowed_users(run(queue, counts).1).len() == if queue.len() < MAX_USERS_PER_REG_BATCHES
            * reports_with_tickets(counts) {
            queue.len() as int
        } else {
            MAX_USERS_PER_REG_BATCHES * reports_with_tickets(counts)
        },
    decreases counts.len(),
{
    if counts.len() == 0 {
        assert(allowed_users(Seq::<Event>::empty()).len() == 0);
    } else {
        let (after, sent) = ticket_step(queue, counts[0]);
        let (last, sent_later) = run(after, counts.drop_first());
        lemma_step_lets_in_batch(queue, counts[0]);
        lemma_number_let_in(after, counts.drop_first());
        lemma_allowed_users_append(sent, sent_later);
        assert((batch(queue, counts[0] as int) + after).len() == queue.len());
    }
}

proof fn lemma_without(queue: Seq<UserId>, user_id: UserId)
    ensures
        !without(queue, user_id).contains(user_id),
        forall|x: UserId|
            x != user_id ==> (#[trigger] without(queue, user_id).contains(x) <==> queue.contains(x)),
        queue.no_duplicates() ==> without(queue, user_id).no_duplicates(),
        queue.no_duplicates() && queue.contains(user_id) ==> without(queue, user_id).len()
            == queue.len() - 1,
        !queue.contains(user_id) ==> without(queue, user_id) == queue,
    decreases queue.len(),
{
    if queue.len() > 0 {
        let front = queue.drop_last();
        let last = queue.last();
        lemma_without(front, user_id);
        assert(queue =~= front.push(last));
        let rest = without(front, user_id);
        assert forall|x: UserId| #[trigger] queue.contains(x) <==> (front.contains(x) || x == last) by {
            if queue.contains(x) {
                let j = choose|j: int| 0 <= j < queue.len() && queue[j] == x;
                if j < front.len() {
                    assert(front[j] == x);
                }
            }
            if front.contains(x) {
                let j = choose|j: int| 0 <= j < front.len() && front[j] == x;
                assert(queue[j] == x);
            }
            if x == last {
                assert(queue[queue.len() - 1] == x);
            }
        }
        if last != user_id {
            assert forall|x: UserId| #[trigger] rest.push(last).contains(x) <==> (rest.contains(x) || x == last) by {
                if rest.push(last).contains(x) {
                    let j = choose|j: int| 0 <= j < rest.push(last).len() && rest.push(last)[j] == x;
                    if j < rest.len() {
                        assert(rest[j] == x);
                    }
                }
                if rest.contains(x) {
                    let j = choose|j: int| 0 <= j < rest.len() && rest[j] == x;
                    assert(rest.push(last)[j] == x);
                }
                if x == last {
                    assert(rest.push(last)[rest.len() as int] == x);
                }
            }
            if queue.no_duplicates() {
                assert(front.no_duplicates());
                assert(!front.contains(last)) by {
                    if front.contains(last) {
                        let j = choose|j: int| 0 <= j < front.len() && front[j] == last;
                        assert(queue[j] == queue[queue.len() - 1]);
                    }
                }
                assert(!rest.contains(last));
                assert forall|a: int, b: int|
                    0 <= a < b < rest.push(last).len() implies rest.push(last)[a] != rest.push(
                    last,
                )[b] by {
                    if b == rest.len() {
                        assert(rest.push(last)[a] == rest[a]);
                    }
                }
            }
        } else {
            if queue.no_duplicates() {
                assert(front.no_duplicates());
                assert(!front.contains(last)) by {
                    if front.contains(last) {
                        let j = choose|j: int| 0 <= j < front.len() && front[j] == last;
                        assert(queue[j] == queue[queue.len() - 1]);
                    }
                }
            }
        }
    } else {
        assert(without(queue, user_id) =~= queue);
    }
}

/// Reloading the page moves only the attendee who reloaded: in a waiting list
/// that holds each attendee once, the same attendees keep waiting, each
/// once; the one who reloaded is now last; and everybody else keeps their
/// order.
pub proof fn lemma_reload_moves_only_its_attendee(queue: Seq<UserId>, user_id: UserId)
    requires
        queue.no_duplicates(),
    ensures
        requeue_step(queue, user_id).no_duplicates(),
        requeue_step(queue, user_id).to_set() == queue.to_set(),
        requeue_step(queue, user_id).len() == queue.len(),
        queue.contains(user_id) ==> requeue_step(queue, user_id).last() == user_id,
        without(requeue_step(queue, user_id), user_id) == without(queue, user_id),
{
    lemma_without(queue, user_id);
    if queue.contains(user_id) {
        let rest = without(queue, user_id);
        let moved = rest.push(user_id);
        lemma_without(rest, user_id);
        assert(moved.drop_last() =~= rest);
        assert forall|a: int, b: int| 0 <= a < b < moved.len() implies moved[a] != moved[b] by {
            if b == rest.len() {
                assert(moved[a] == rest[a]);
                assert(rest.contains(rest[a]));
            }
        }
        assert forall|x: UserId| moved.to_set().contains(x) <==> queue.to_set().contains(x) by {
            if moved.contains(x) {
                let j = choose|j: int| 0 <= j < moved.len() && moved[j] == x;
                if j < rest.len() {
                    assert(rest[j] == x);
                    assert(rest.contains(x));
                }
            }
            if queue.contains(x) && x != user_id {
                assert(rest.contains(x));
                let j = choose|j: int| 0 <= j < rest.len() && rest[j] == x;
                assert(moved[j] == x);
            }
            if x == user_id {
                assert(moved[rest.len() as int] == x);
            }
        }
        assert(moved.to_set() =~= queue.to_set());
    }
}

/// What a ticket-count report does, said event by event: with no ticket left
/// the registration is closed and nobody moves; with tickets left the first
/// event announces the count, then the first attendees of the waiting list,
/// a batch at most, are each told to register, in waiting order, and leave the
/// waiting list. The registration is announced closed exactly when no ticket
/// is left.
pub proof fn lemma_ticket_report(queue: Seq<UserId>, count: TicketAmount)
    ensures
        count <= 0 ==> ticket_step(queue, count).1 == seq![
            Event::PublicEvent(PublicEvent::RegistrationClosed),
        ] && ticket_step(queue, count).0 == queue,
        count > 0 ==> ticket_step(queue, count).1.len() >= 1 && ticket_step(queue, count).1[0]
            == Event::PublicEvent(PublicEvent::TicketsLeft(count)),
        ticket_step(queue, count).1.contains(Event::PublicEvent(PublicEvent::RegistrationClosed))
            <==> count <= 0,
        count > 0 ==> ({
            let events = ticket_step(queue, count).1;
            let k = if queue.len() < MAX_USERS_PER_REG_BATCHES {
                queue.len() as int
            } else {
                MAX_USERS_PER_REG_BATCHES as int
            };
            &&& events.len() == k + 1
            &&& forall|i: int|
                0 <= i < k ==> events[i + 1] == Event::SingleUser(
                    SingleUserEvent { user_id: queue[i], evt: PublicEvent::AllowedToRegister },
                )
            &&& ticket_step(queue, count).0 == queue.subrange(k, queue.len() as int)
        }),
{
    let events = ticket_step(queue, count).1;
    let closed = Event::PublicEvent(PublicEvent::RegistrationClosed);
    if count <= 0 {
        assert(events[0] == closed);
    } else {
        let let_in = batch(queue, count as int);
        let k = let_in.len() as int;
        assert(events[0] == Event::PublicEvent(PublicEvent::TicketsLeft(count)));
        assert forall|i: int| 0 <= i < k implies events[i + 1] == Event::SingleUser(
            SingleUserEvent { user_id: queue[i], evt: PublicEvent::AllowedToRegister },
        ) by {
            assert(events[i + 1] == allowed_event(let_in[i]));
        }
        assert(queue.skip(k) =~= queue.subrange(k, queue.len() as int));
        if events.contains(closed) {
            let j = choose|j: int| 0 <= j < events.len() && events[j] == closed;
            if j > 0 {
                assert(events[j] == allowed_event(let_in[j - 1]));
            }
        }
    }
}

} // verus!
