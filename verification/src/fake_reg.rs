//! A stand-in for the convention's registration website: it holds a stock of
//! tickets, tells how many are left and sells them one by one.

use vstd::prelude::*;

verus! {

/// The number of tickets that the registration website starts with.
pub const INITIAL_TICKETS: i16 = 10;

/// The port on which the registration website listens.
pub const FAKE_REG_PORT: u16 = 8081;

/// The body of the registration website's `/tickets_count` answer.
#[derive(Clone, Copy, Debug, PartialEq, Eq, Structural)]
pub struct TicketCount {
    pub count: i16,
}

/// The text of the registration website's home page.
pub open spec fn home_text() -> Seq<char> {
    "This is a fake registration website"@
}

/// The registration website's home page.
pub fn home() -> (page: String)
    ensures
        page@ == home_text(),
{
    "This is a fake registration website".to_owned()
}

/// What one purchase does to a stock of `count` tickets: the stock after it,
/// and whether a ticket was sold.
pub open spec fn buy_step(count: int) -> (int, bool) {
    if count > 0 {
        (count - 1, true)
    } else {
        (count, false)
    }
}

/// The registration website's stock of tickets.
pub struct FakeRegistrationState {
    tickets_count: i16,
}

impl View for FakeRegistrationState {
    type V = int;

    /// The number of tickets left.
    closed spec fn view(&self) -> int {
        self.tickets_count as int
    }
}

impl FakeRegistrationState {
    /// The stock never goes below zero.
    #[verifier::type_invariant]
    spec fn stock_is_not_negative(self) -> bool {
        self.tickets_count >= 0
    }

    /// A website that has all of its tickets left.
    pub fn new() -> (state: Self)
        ensures
            state@ == INITIAL_TICKETS,
    {
        FakeRegistrationState { tickets_count: INITIAL_TICKETS }
    }

    /// How many tickets are left.
    pub fn get_ticket_count(&self) -> (ticket_count: TicketCount)
        ensures
            ticket_count.count == self@,
            ticket_count.count >= 0,
    {
        proof {
            use_type_invariant(self);
        }
        TicketCount { count: self.tickets_count }
    }

    /// Sells one ticket if any is left: `true` and one ticket fewer, or
    /// `false` and the stock unchanged when none is left.
    pub fn buy_ticket(&mut self) -> (sold: bool)
        ensures
            (final(self)@, sold) == buy_step(old(self)@),
    {
        proof {
            use_type_invariant(&*self);
        }
        if self.tickets_count > 0 {
            self.tickets_count = self.tickets_count - 1;
            true
        } else {
            false
        }
    }
}

/// The stock after `n` purchases from a stock of `count` tickets, and how many
/// of those purchases sold a ticket.
pub open spec fn buy_run(count: int, n: nat) -> (int, nat)
    decreases n,
{
    if n == 0 {
        (count, 0)
    } else {
        let (after, sold) = buy_step(count);
        let (last, sold_later) = buy_run(after, (n - 1) as nat);
        (last, sold_later + if sold { 1nat } else { 0nat })
    }
}

/// The website never sells more tickets than it has: of `n` purchases from a
/// stock of `count` tickets, exactly `min(count, n)` sell one, and the stock
/// left is what remains of it, never below zero.
pub proof fn lemma_no_oversell(count: int, n: nat)
    requires
        count >= 0,
    ensures
        buy_run(count, n).1 == if count < n { count } else { n as int },
        buy_run(count, n).0 == count - buy_run(count, n).1,
        buy_run(count, n).0 >= 0,
    decreases n,
{
    if n > 0 {
        lemma_no_oversell(buy_step(count).0, (n - 1) as nat);
    }
}

} // verus!
