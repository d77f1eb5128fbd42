//! The pre-registration list, and the waiting list compiled from it when
//! registration opens.

use std::collections::HashMap;
use std::collections::VecDeque;
use vstd::prelude::*;
use vstd::std_specs::iter::IteratorSpec;

use crate::event::{UserAccount, UserId};

verus! {

broadcast use vstd::std_specs::hash::group_hash_axioms;

/// How many attendees of the waiting list are let into the registration each
/// time the registration website reports tickets left.
pub const MAX_USERS_PER_REG_BATCHES: i64 = 1;

/// The waiting list: the first attendee in it is the next one let in.
pub type WaitingList = VecDeque<UserId>;

/// The bits that mark a UUID as random (version 4) and of the RFC variant.
pub open spec fn is_random_uuid(id: UserId) -> bool {
    id & 0xF000_C000_0000_0000_0000u128 == 0x4000_8000_0000_0000_0000u128
}

/// Draws a fresh random identifier with `uuid::Uuid::new_v4`, taken as its
/// 128 bits by `uuid::Uuid::as_u128`. The crate's source builds it from random
/// bits with the version set to 4 and the variant to RFC 4122, which is all
/// that is claimed of it; which identifier comes back is chance.
#[verifier::external_body]
fn random_user_id() -> (id: UserId)
    ensures
        is_random_uuid(id),
{
    uuid::Uuid::new_v4().as_u128()
}


/// The candidate identifiers tried when a random draw is already held: the
/// random-UUID bits with `k` spread over the bits that the version and the
/// variant leave free.
pub open spec fn candidate_id(k: u128) -> UserId {
    0x4000_8000_0000_0000_0000u128 | (k & 0x3FFF_FFFF_FFFF_FFFFu128) | ((k >> 62u128) << 64u128)
}

fn candidate_id_exec(k: u128) -> (id: UserId)
    requires
        k < 0x2_0000_0000_0000_0000u128,
    ensures
        id == candidate_id(k),
{
    0x4000_8000_0000_0000_0000u128 | (k & 0x3FFF_FFFF_FFFF_FFFFu128) | ((k >> 62u128) << 64u128)
}

proof fn lemma_candidate_shape(k: u128)
    requires
        k < 0x2_0000_0000_0000_0000u128,
    ensures
        is_random_uuid(candidate_id(k)),
{
    assert((0x4000_8000_0000_0000_0000u128 | (k & 0x3FFF_FFFF_FFFF_FFFFu128) | ((k >> 62u128)
        << 64u128)) & 0xF000_C000_0000_0000_0000u128 == 0x4000_8000_0000_0000_0000u128)
        by (bit_vector)
        requires
            k < 0x2_0000_0000_0000_0000u128,
    ;
}

proof fn lemma_candidates_distinct(a: u128, b: u128)
    requires
        a < 0x2_0000_0000_0000_0000u128,
        b < 0x2_0000_0000_0000_0000u128,
        a != b,
    ensures
        candidate_id(a) != candidate_id(b),
{
    assert((0x4000_8000_0000_0000_0000u128 | (a & 0x3FFF_FFFF_FFFF_FFFFu128) | ((a >> 62u128)
        << 64u128)) != (0x4000_8000_0000_0000_0000u128 | (b & 0x3FFF_FFFF_FFFF_FFFFu128) | ((b
        >> 62u128) << 64u128))) by (bit_vector)
        requires
            a < 0x2_0000_0000_0000_0000u128,
            b < 0x2_0000_0000_0000_0000u128,
            a != b,
    ;
}

/// A finite set that holds the first `m` candidates has at least `m` members.
proof fn lemma_holds_candidates(held: Set<UserId>, m: u128)
    requires
        held.finite(),
        m < 0x2_0000_0000_0000_0000u128,
        forall|j: u128| j < m ==> #[trigger] held.contains(candidate_id(j)),
    ensures
        held.len() >= m,
    decreases m,
{
    if m > 0 {
        let last = candidate_id((m - 1) as u128);
        let rest = held.remove(last);
        assert forall|j: u128| j < (m - 1) as u128 implies #[trigger] rest.contains(candidate_id(j)) by {
            lemma_candidates_distinct(j, (m - 1) as u128);
            assert(held.contains(candidate_id(j)));
        }
        lemma_holds_candidates(rest, (m - 1) as u128);
        assert(held.contains(last));
    }
}

/// The attendees who pre-registered, each under their own identifier.
pub struct RegistrationList {
    accounts: HashMap<UserId, UserAccount>,
}

impl View for RegistrationList {
    type V = Set<UserId>;

    /// The identifiers of the pre-registered attendees.
    closed spec fn view(&self) -> Set<UserId> {
        self.accounts@.dom()
    }
}

impl RegistrationList {
    /// Each account is filed under its own identifier.
    #[verifier::type_invariant]
    spec fn accounts_are_filed_by_id(self) -> bool {
        forall|id: UserId| #[trigger] self.accounts@.contains_key(id) ==> self.accounts@[id].id == id
    }

    /// An empty pre-registration list.
    pub fn new() -> (list: Self)
        ensures
            list@ == Set::<UserId>::empty(),
    {
        RegistrationList { accounts: HashMap::new() }
    }

    /// Whether the attendee `id` pre-registered.
    pub fn is_registered(&self, id: UserId) -> (registered: bool)
        ensures
            registered == self@.contains(id),
    {
        self.accounts.contains_key(&id)
    }

    /// How many attendees pre-registered.
    pub fn len(&self) -> (n: usize)
        ensures
            n == self@.len(),
    {
        self.accounts.len()
    }

    /// Files an account for the attendee `id`; filing the same identifier
    /// twice leaves the list as it was.
    pub fn register_account(&mut self, id: UserId) -> (account: UserAccount)
        ensures
            account == (UserAccount { id }),
            final(self)@ == old(self)@.insert(id),
    {
        proof {
            use_type_invariant(&*self);
        }
        let account = UserAccount { id };
        let mut accounts = HashMap::new();
        std::mem::swap(&mut accounts, &mut self.accounts);
        accounts.insert(id, account);
        self.accounts = accounts;
        account
    }

    /// Pre-registers a new attendee under a fresh random identifier and gives
    /// back their account. Should the draw hit an identifier already held,
    /// the attendee gets the first free identifier of the random-UUID shape
    /// instead, so that every attendee has an account of their own.
    pub fn register(&mut self) -> (account: UserAccount)
        ensures
            is_random_uuid(account.id),
            !old(self)@.contains(account.id),
            final(self)@ == old(self)@.insert(account.id),
            final(self)@.len() == old(self)@.len() + 1,
    {
        proof {
            use_type_invariant(&*self);
        }
        let drawn = random_user_id();
        let id = if self.is_registered(drawn) {
            self.unused_id()
        } else {
            drawn
        };
        self.register_account(id)
    }

    /// The first of the candidate identifiers that nobody holds: among
    /// `len() + 1` distinct candidates at least one is free.
    fn unused_id(&self) -> (id: UserId)
        ensures
            is_random_uuid(id),
            !self@.contains(id),
    {
        let n = self.len();
        let bound: u128 = n as u128;
        let mut k: u128 = 0;
        while k <= bound
            invariant
                bound == self@.len(),
                bound < 0x1_0000_0000_0000_0000u128,
                k <= bound + 1,
                forall|j: u128| j < k ==> #[trigger] self@.contains(candidate_id(j)),
            decreases bound + 1 - k,
        {
            let id = candidate_id_exec(k);
            if !self.is_registered(id) {
                proof {
                    lemma_candidate_shape(k);
                }
                return id;
            }
            k = k + 1;
        }
        proof {
            lemma_holds_candidates(self@, k);
        }
        candidate_id_exec(0)
    }

    /// The waiting list for this pre-registration list: every pre-registered
    /// attendee gets exactly one place, in the order in which the map is
    /// walked, which the library does not fix.
    pub fn compile_waiting_list(&self) -> (waiting: WaitingList)
        ensures
            waiting@.no_duplicates(),
            waiting@.to_set() == self@,
            waiting@.len() == self@.len(),
    {
        let mut waiting: WaitingList = VecDeque::new();
        let ghost keys = self.accounts.keys().remaining().unref();
        for id in it: self.accounts.keys()
            invariant
                keys == it.seq().unref(),
                keys.no_duplicates(),
                keys.to_set() == self.accounts@.dom(),
                keys.len() == self.accounts@.dom().len(),
                waiting@ == keys.take(it.index() as int),
        {
            waiting.push_back(*id);
        }
        proof {
            assert(keys.take(keys.len() as int) =~= keys);
        }
        waiting
    }
}

} // verus!
