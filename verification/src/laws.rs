//! What holds of the ledger, proved of the model. The operations of the
//! ledger are bound to the model by their contracts, so each law holds of the
//! ledger as it runs.

use vstd::prelude::*;
use crate::decimal::{decimal_text, lemma_text_is_injective};
use crate::election::ElectionData;
use crate::error::{ElectionError, ValidationError};
use crate::fee::required_payment;
use crate::model::{
    LedgerState, lemma_create_inv, lemma_init_inv, lemma_register_inv, lemma_sum_grows,
    lemma_sum_skips_zeros, lemma_vote_inv, sum_tallies, tally_in, voters_in,
};

verus! {

/// An operation on the ledger that may change it.
pub enum Operation {
    Register { caller: Seq<char>, account: Seq<char> },
    Create { caller: Seq<char>, payment: nat, election: ElectionData, now: nat },
    Vote { org: Seq<char>, id: nat, voter: Seq<char>, candidate: u8, now: nat },
}

/// The ledger after one operation.
pub open spec fn step(s: LedgerState, operation: Operation) -> LedgerState {
    match operation {
        Operation::Register { caller, account } => s.register(caller, account),
        Operation::Create { caller, payment, election, now } => s.create(
            caller,
            payment,
            election,
            now,
        ),
        Operation::Vote { org, id, voter, candidate, now } => s.vote(
            org,
            id,
            voter,
            candidate,
            now,
        ),
    }
}

/// The ledger after a run of operations.
pub open spec fn run(s: LedgerState, operations: Seq<Operation>) -> LedgerState
    decreases operations.len(),
{
    if operations.len() == 0 {
        s
    } else {
        step(run(s, operations.drop_last()), operations.last())
    }
}

/// Whether `operation` is a creation by `org` that the ledger `s` grants.
pub open spec fn creates_for(s: LedgerState, operation: Operation, org: Seq<char>) -> bool {
    operation matches Operation::Create { caller, payment, election, now } && caller == org
        && s.create_error(caller, payment, election, now) is None
}

/// Whether `operation` is a registration of `org` by `owner`.
pub open spec fn registers(operation: Operation, owner: Seq<char>, org: Seq<char>) -> bool {
    operation matches Operation::Register { caller, account } && caller == owner && account == org
}

/// Whether `operation` is a vote of `voter` in the election `(org, id)` that
/// the ledger `s` takes.
pub open spec fn votes_as(
    s: LedgerState,
    operation: Operation,
    org: Seq<char>,
    id: nat,
    voter: Seq<char>,
) -> bool {
    operation matches Operation::Vote { org: o, id: i, voter: v, candidate, now } && o == org && i
        == id && v == voter && s.vote_error(o, i, v, now) is None
}

/// Whether `operation` is a vote for `candidate` in the election `(org, id)`
/// that the ledger `s` takes.
pub open spec fn votes_for(
    s: LedgerState,
    operation: Operation,
    org: Seq<char>,
    id: nat,
    candidate: u8,
) -> bool {
    operation matches Operation::Vote { org: o, id: i, voter, candidate: c, now } && o == org && i
        == id && c == candidate && s.vote_error(o, i, voter, now) is None
}

/// The sequence numbers that the creations of `org` were answered with
/// during a run of operations, in the order of the creations that succeeded.
pub open spec fn answered_ids(
    s: LedgerState,
    operations: Seq<Operation>,
    org: Seq<char>,
) -> Seq<nat>
    decreases operations.len(),
{
    if operations.len() == 0 {
        Seq::empty()
    } else {
        let before = run(s, operations.drop_last());
        let earlier = answered_ids(s, operations.drop_last(), org);
        if creates_for(before, operations.last(), org) {
            earlier.push(before.organizations[org])
        } else {
            earlier
        }
    }
}

/// Whatever is done to the ledger, by whomever and with whatever success, as
/// long as a registered organization is not registered anew: the sequence
/// numbers that its creations are answered with count up by one from its
/// counter, so they rise strictly and none comes twice, as numbers and as
/// text; and after the run its counter has gone up by the number of its
/// creations that succeeded.
pub proof fn lemma_ids_count_up(s: LedgerState, operations: Seq<Operation>, org: Seq<char>)
    requires
        s.organizations.contains_key(org),
        forall|i: int| 0 <= i < operations.len() ==> !registers(#[trigger] operations[i], s.owner, org),
    ensures
        run(s, operations).owner == s.owner,
        run(s, operations).organizations.contains_key(org),
        run(s, operations).organizations[org] == s.organizations[org] + answered_ids(
            s,
            operations,
            org,
        ).len(),
        forall|k: int|
            0 <= k < answered_ids(s, operations, org).len() ==> #[trigger] answered_ids(
                s,
                operations,
                org,
            )[k] == s.organizations[org] + k,
        forall|j: int, k: int|
            0 <= j < k < answered_ids(s, operations, org).len() ==> #[trigger] answered_ids(
                s,
                operations,
                org,
            )[j] < #[trigger] answered_ids(s, operations, org)[k],
        forall|j: int, k: int|
            0 <= j < k < answered_ids(s, operations, org).len() ==> decimal_text(
                #[trigger] answered_ids(s, operations, org)[j],
            ) != decimal_text(#[trigger] answered_ids(s, operations, org)[k]),
    decreases operations.len(),
{
    let ids = answered_ids(s, operations, org);
    if operations.len() > 0 {
        let earlier_operations = operations.drop_last();
        assert forall|i: int| 0 <= i < earlier_operations.len() implies !registers(
            #[trigger] earlier_operations[i],
            s.owner,
            org,
        ) by {
            assert(earlier_operations[i] == operations[i]);
        }
        lemma_ids_count_up(s, earlier_operations, org);
        let earlier = answered_ids(s, earlier_operations, org);
        assert(!registers(operations[operations.len() - 1], s.owner, org));
        assert forall|k: int| 0 <= k < ids.len() implies #[trigger] ids[k] == s.organizations[org]
            + k by {
            if k < earlier.len() {
                assert(ids[k] == earlier[k]);
            }
        }
    }
    assert forall|j: int, k: int| 0 <= j < k < ids.len() implies decimal_text(#[trigger] ids[j])
        != decimal_text(#[trigger] ids[k]) by {
        if decimal_text(ids[j]) == decimal_text(ids[k]) {
            lemma_text_is_injective(ids[j], ids[k]);
        }
    }
}

/// Counted from its registration, an organization's creations are answered
/// with 0, 1, 2 and so on, and its counter is the number of elections that it
/// has created since.
pub proof fn lemma_ids_count_from_zero(
    s: LedgerState,
    operations: Seq<Operation>,
    org: Seq<char>,
)
    requires
        forall|i: int| 0 <= i < operations.len() ==> !registers(#[trigger] operations[i], s.owner, org),
    ensures
        forall|k: int|
            0 <= k < answered_ids(s.register(s.owner, org), operations, org).len()
                ==> #[trigger] answered_ids(s.register(s.owner, org), operations, org)[k] == k,
        run(s.register(s.owner, org), operations).organizations[org] == answered_ids(
            s.register(s.owner, org),
            operations,
            org,
        ).len(),
{
    lemma_ids_count_up(s.register(s.owner, org), operations, org);
}

/// A successful creation answers the counter as it stood and raises it by one.
/// Right after a registration the counter stands at zero.
pub proof fn lemma_counter_steps(
    s: LedgerState,
    caller: Seq<char>,
    payment: nat,
    election: ElectionData,
    now: nat,
)
    requires
        s.create_error(caller, payment, election, now) is None,
    ensures
        s.create(caller, payment, election, now).organizations[caller] == s.organizations[caller]
            + 1,
        s.create(caller, payment, election, now).elections[(caller, s.organizations[caller])]
            == election,
        s.register(s.owner, caller).organizations[caller] == 0,
{
}

/// Each rule of creation refuses on its own, whatever else holds of the
/// request; a refused request changes nothing; and a request that breaks no
/// rule is granted.
pub proof fn lemma_create_refusals(
    s: LedgerState,
    caller: Seq<char>,
    payment: nat,
    election: ElectionData,
    now: nat,
)
    ensures
        election.candidates.len() <= 1 ==> s.create_error(caller, payment, election, now)
            == Some(ElectionError::Validation(ValidationError::CandidateCountLow)),
        election.candidates.len() > 256 ==> s.create_error(caller, payment, election, now)
            == Some(ElectionError::Validation(ValidationError::CandidateCountHigh)),
        election.start <= now ==> s.create_error(caller, payment, election, now) is Some,
        election.start >= election.end ==> s.create_error(caller, payment, election, now) is Some,
        !s.organizations.contains_key(caller) ==> s.create_error(caller, payment, election, now)
            is Some,
        payment != required_payment() ==> s.create_error(caller, payment, election, now) is Some,
        s.create_error(caller, payment, election, now) is Some ==> s.create(
            caller,
            payment,
            election,
            now,
        ) == s,
        s.create_error(caller, payment, election, now) is None <==> {
            &&& 2 <= election.candidates.len() <= 256
            &&& now < election.start < election.end
            &&& s.organizations.contains_key(caller)
            &&& payment == required_payment()
        },
{
}

/// The view of a stored election lists its candidates in their order, each
/// with its tally as text; a candidate that nobody voted for stands at zero.
pub proof fn lemma_view_lists_candidates(s: LedgerState, org: Seq<char>, id: nat)
    requires
        s.elections.contains_key((org, id)),
    ensures
        s.election_view(org, id).candidates.len() == s.elections[(org, id)].candidates.len(),
        forall|i: int|
            0 <= i < s.elections[(org, id)].candidates.len() ==> {
                &&& (#[trigger] s.election_view(org, id).candidates[i]).name == s.elections[(
                    org,
                    id,
                )].candidates[i]
                &&& s.election_view(org, id).candidates[i].votes == decimal_text(
                    s.tally(org, id, i as u8),
                )
            },
        forall|candidate: u8|
            !s.tallies.contains_key((org, id, candidate)) ==> #[trigger] s.tally(
                org,
                id,
                candidate,
            ) == 0,
{
}

/// A stored election takes votes strictly between its start and its end, and
/// at no other time.
pub proof fn lemma_voting_window(
    s: LedgerState,
    org: Seq<char>,
    id: nat,
    voter: Seq<char>,
    now: nat,
)
    requires
        s.inv(),
        s.elections.contains_key((org, id)),
    ensures
        now <= s.elections[(org, id)].start ==> s.vote_error(org, id, voter, now) == Some(
            ElectionError::NotStarted,
        ),
        now >= s.elections[(org, id)].end ==> s.vote_error(org, id, voter, now) == Some(
            ElectionError::Ended,
        ),
        s.elections[(org, id)].start < now < s.elections[(org, id)].end && !s.has_voted(
            org,
            id,
            voter,
        ) ==> s.vote_error(org, id, voter, now) is None,
        s.vote_error(org, id, voter, now) is None ==> s.elections[(org, id)].start < now
            < s.elections[(org, id)].end,
{
}

/// After a vote that was taken, the voter is on record, and another vote of
/// the same voter in the same election, for whatever candidate and at
/// whatever time, is refused and changes nothing: every tally stands as it
/// stood. While the election is open the refusal says that the voter has
/// voted already.
pub proof fn lemma_one_vote_each(
    s: LedgerState,
    org: Seq<char>,
    id: nat,
    voter: Seq<char>,
    candidate: u8,
    now: nat,
    other_candidate: u8,
    later: nat,
)
    requires
        s.vote_error(org, id, voter, now) is None,
    ensures
        !s.has_voted(org, id, voter),
        s.vote(org, id, voter, candidate, now).has_voted(org, id, voter),
        s.vote(org, id, voter, candidate, now).tally(org, id, candidate) == s.tally(
            org,
            id,
            candidate,
        ) + 1,
        s.vote(org, id, voter, candidate, now).vote_error(org, id, voter, later) is Some,
        s.elections[(org, id)].start < later < s.elections[(org, id)].end ==> s.vote(
            org,
            id,
            voter,
            candidate,
            now,
        ).vote_error(org, id, voter, later) == Some(ElectionError::AlreadyVoted),
        s.vote(org, id, voter, candidate, now).vote(org, id, voter, other_candidate, later)
            == s.vote(org, id, voter, candidate, now),
{
}

/// Every operation keeps the invariant.
pub proof fn lemma_step_inv(s: LedgerState, operation: Operation)
    requires
        s.inv(),
    ensures
        step(s, operation).inv(),
{
    match operation {
        Operation::Register { caller, account } => lemma_register_inv(s, caller, account),
        Operation::Create { caller, payment, election, now } => lemma_create_inv(
            s,
            caller,
            payment,
            election,
            now,
        ),
        Operation::Vote { org, id, voter, candidate, now } => lemma_vote_inv(
            s,
            org,
            id,
            voter,
            candidate,
            now,
        ),
    }
}

/// Every ledger that a run of operations reaches from a new one satisfies the
/// invariant.
pub proof fn lemma_run_inv(owner: Seq<char>, operations: Seq<Operation>)
    ensures
        run(LedgerState::init(owner), operations).inv(),
    decreases operations.len(),
{
    if operations.len() == 0 {
        lemma_init_inv(owner);
    } else {
        lemma_run_inv(owner, operations.drop_last());
        lemma_step_inv(run(LedgerState::init(owner), operations.drop_last()), operations.last());
    }
}

/// Conservation: whatever operations were made, by whomever and in whatever
/// order, the tallies of an election add up to the number of voters on record
/// for it.
pub proof fn lemma_conservation(
    owner: Seq<char>,
    operations: Seq<Operation>,
    org: Seq<char>,
    id: nat,
)
    ensures
        run(LedgerState::init(owner), operations).tally_sum(org, id) == run(
            LedgerState::init(owner),
            operations,
        ).voter_count(org, id),
{
    lemma_run_inv(owner, operations);
}

/// The tallies that a view lists add up to no more than the voters on
/// record; and to exactly that number where every vote went to a candidate on
/// the list.
pub proof fn lemma_listed_tallies(s: LedgerState, org: Seq<char>, id: nat)
    requires
        s.inv(),
        s.elections.contains_key((org, id)),
    ensures
        sum_tallies(s.tallies, org, id, s.elections[(org, id)].candidates.len()) <= s.voter_count(
            org,
            id,
        ),
        (forall|candidate: u8|
            candidate >= s.elections[(org, id)].candidates.len() ==> s.tally(org, id, candidate)
                == 0) ==> sum_tallies(s.tallies, org, id, s.elections[(org, id)].candidates.len())
            == s.voter_count(org, id),
{
    let listed = s.elections[(org, id)].candidates.len();
    assert(sum_tallies(s.tallies, org, id, 256) == voters_in(s.voters, org, id).len());
    lemma_sum_grows(s.tallies, org, id, listed, 256);
    if forall|candidate: u8| candidate >= listed ==> s.tally(org, id, candidate) == 0 {
        assert forall|candidate: u8| listed <= candidate < 256 implies tally_in(
            s.tallies,
            org,
            id,
            candidate,
        ) == 0 by {
            assert(s.tally(org, id, candidate) == 0);
        }
        lemma_sum_skips_zeros(s.tallies, org, id, listed, 256);
    }
}

/// No operation takes anything away. The owner stays; a registered
/// organization stays registered; a stored election stays stored; a voter on
/// record stays on record; no tally goes down.
pub proof fn lemma_nothing_is_lost(s: LedgerState, operation: Operation)
    ensures
        step(s, operation).owner == s.owner,
        forall|org: Seq<char>|
            s.organizations.contains_key(org) ==> #[trigger] step(
                s,
                operation,
            ).organizations.contains_key(org),
        forall|key: (Seq<char>, nat)|
            s.elections.contains_key(key) ==> #[trigger] step(s, operation).elections.contains_key(
                key,
            ),
        forall|record: (Seq<char>, nat, Seq<char>)|
            s.voters.contains(record) ==> #[trigger] step(s, operation).voters.contains(record),
        forall|org: Seq<char>, id: nat, candidate: u8|
            s.tally(org, id, candidate) <= #[trigger] step(s, operation).tally(org, id, candidate),
{
}

/// What changes, changes by the operation that is there to change it. A
/// counter moves only when its organization is registered, which sets it to
/// zero, or creates an election, which raises it by one. A stored election is
/// replaced only by a creation that is answered with its sequence number. A
/// voter goes on record only by a vote of that voter in that election that
/// was taken, and a tally goes up only by such a vote, by one.
pub proof fn lemma_who_changes_what(s: LedgerState, operation: Operation)
    ensures
        forall|org: Seq<char>|
            s.organizations.contains_key(org) && #[trigger] step(s, operation).organizations[org]
                != s.organizations[org] ==> {
                ||| registers(operation, s.owner, org) && step(s, operation).organizations[org] == 0
                ||| creates_for(s, operation, org) && step(s, operation).organizations[org]
                    == s.organizations[org] + 1
            },
        forall|key: (Seq<char>, nat)|
            s.elections.contains_key(key) && #[trigger] step(s, operation).elections[key]
                != s.elections[key] ==> creates_for(s, operation, key.0) && s.organizations[key.0]
                == key.1,
        forall|record: (Seq<char>, nat, Seq<char>)|
            !s.voters.contains(record) && #[trigger] step(s, operation).voters.contains(record)
                ==> votes_as(s, operation, record.0, record.1, record.2),
        forall|org: Seq<char>, id: nat, candidate: u8|
            s.tally(org, id, candidate) != #[trigger] step(s, operation).tally(org, id, candidate)
                ==> votes_for(s, operation, org, id, candidate) && step(s, operation).tally(
                org,
                id,
                candidate,
            ) == s.tally(org, id, candidate) + 1,
{
}

} // verus!
