//! The ledger as mathematics: its state, what each operation makes of a
//! state, and what holds of every state that operations can reach.
//!
//! Organizations and voters are known by their names, elections by the name
//! of their organization and a sequence number, candidates by their position
//! in the election's list.

use vstd::prelude::*;
use vstd::relations::injective_on;
use vstd::set_lib::{lemma_int_range, lemma_len_subset, lemma_map_size, set_int_range};
use crate::decimal::decimal_text;
use crate::election::{CandidateData, ElectionData, ElectionViewData};
use crate::error::{ElectionError, ValidationError};
use crate::fee::required_payment;

verus! {

/// The five tables of the ledger.
#[verifier::ext_equal]
pub struct LedgerState {
    /// The one principal that may register organizations.
    pub owner: Seq<char>,
    /// For each registered organization, the number it will give its next election.
    pub organizations: Map<Seq<char>, nat>,
    /// The elections, by organization and sequence number.
    pub elections: Map<(Seq<char>, nat), ElectionData>,
    /// The votes counted so far, by organization, sequence number and candidate.
    /// A missing entry counts as zero.
    pub tallies: Map<(Seq<char>, nat, u8), nat>,
    /// Who has voted, by organization, sequence number and voter.
    pub voters: Set<(Seq<char>, nat, Seq<char>)>,
}

/// The votes counted for one candidate of one election.
pub open spec fn tally_in(
    tallies: Map<(Seq<char>, nat, u8), nat>,
    org: Seq<char>,
    id: nat,
    candidate: u8,
) -> nat {
    if tallies.contains_key((org, id, candidate)) {
        tallies[(org, id, candidate)]
    } else {
        0
    }
}

/// The votes counted for the candidates below `bound` of one election, together.
pub open spec fn sum_tallies(
    tallies: Map<(Seq<char>, nat, u8), nat>,
    org: Seq<char>,
    id: nat,
    bound: nat,
) -> nat
    decreases bound,
{
    if bound == 0 {
        0
    } else {
        sum_tallies(tallies, org, id, (bound - 1) as nat) + tally_in(
            tallies,
            org,
            id,
            (bound - 1) as u8,
        )
    }
}

/// The voter records of one election.
pub open spec fn voters_in(
    voters: Set<(Seq<char>, nat, Seq<char>)>,
    org: Seq<char>,
    id: nat,
) -> Set<(Seq<char>, nat, Seq<char>)> {
    voters.filter(|record: (Seq<char>, nat, Seq<char>)| record.0 == org && record.1 == id)
}

/// What an operation answers when the ledger found this fault, or none.
pub open spec fn outcome(fault: Option<ElectionError>) -> Result<(), ElectionError> {
    match fault {
        Some(error) => Err(error),
        None => Ok(()),
    }
}

impl LedgerState {
    /// The ledger of a new system: an owner and four empty tables.
    pub open spec fn init(owner: Seq<char>) -> LedgerState {
        LedgerState {
            owner,
            organizations: Map::empty(),
            elections: Map::empty(),
            tallies: Map::empty(),
            voters: Set::empty(),
        }
    }

    /// The votes counted for `candidate` in the election `(org, id)`.
    pub open spec fn tally(self, org: Seq<char>, id: nat, candidate: u8) -> nat {
        tally_in(self.tallies, org, id, candidate)
    }

    /// All votes counted in the election `(org, id)`, whatever the candidate.
    pub open spec fn tally_sum(self, org: Seq<char>, id: nat) -> nat {
        sum_tallies(self.tallies, org, id, 256)
    }

    /// The number of voters on record for the election `(org, id)`.
    pub open spec fn voter_count(self, org: Seq<char>, id: nat) -> nat {
        voters_in(self.voters, org, id).len()
    }

    /// Whether `voter` is on record for the election `(org, id)`.
    pub open spec fn has_voted(self, org: Seq<char>, id: nat, voter: Seq<char>) -> bool {
        self.voters.contains((org, id, voter))
    }

    /// The election `(org, id)` as clients see it: each candidate in its
    /// place, with its tally beside it.
    pub open spec fn election_view(self, org: Seq<char>, id: nat) -> ElectionViewData {
        let election = self.elections[(org, id)];
        ElectionViewData {
            start: decimal_text(election.start),
            end: decimal_text(election.end),
            title: election.title,
            description: election.description,
            candidates: Seq::new(
                election.candidates.len(),
                |i: int|
                    CandidateData {
                        name: election.candidates[i],
                        votes: decimal_text(self.tally(org, id, i as u8)),
                    },
            ),
        }
    }

    /// Why `caller` may not register an organization, if it may not.
    pub open spec fn register_error(self, caller: Seq<char>) -> Option<ElectionError> {
        if caller == self.owner {
            None
        } else {
            Some(ElectionError::Authorization)
        }
    }

    /// The ledger after `caller` asked to register `account`. The counter of
    /// `account` starts at zero, also where `account` was registered before.
    pub open spec fn register(self, caller: Seq<char>, account: Seq<char>) -> LedgerState {
        if self.register_error(caller) is Some {
            self
        } else {
            LedgerState { organizations: self.organizations.insert(account, 0), ..self }
        }
    }

    /// Why `caller` may not create `election` at time `now` with `payment`
    /// attached, if it may not. The draft's own rules come first, then the
    /// registration of the caller, then the payment.
    pub open spec fn create_error(
        self,
        caller: Seq<char>,
        payment: nat,
        election: ElectionData,
        now: nat,
    ) -> Option<ElectionError> {
        match election.creation_error(now) {
            Some(error) => Some(ElectionError::Validation(error)),
            None => if !self.organizations.contains_key(caller) {
                Some(ElectionError::NotRegistered)
            } else if payment != required_payment() {
                Some(ElectionError::Validation(ValidationError::PaymentMismatch))
            } else {
                None
            },
        }
    }

    /// The ledger after `caller` asked to create `election`. On success the
    /// election is stored under the caller's counter, and the counter goes up
    /// by one.
    pub open spec fn create(
        self,
        caller: Seq<char>,
        payment: nat,
        election: ElectionData,
        now: nat,
    ) -> LedgerState {
        if self.create_error(caller, payment, election, now) is Some {
            self
        } else {
            let id = self.organizations[caller];
            LedgerState {
                organizations: self.organizations.insert(caller, id + 1),
                elections: self.elections.insert((caller, id), election),
                ..self
            }
        }
    }

    /// Why `voter` may not vote in the election `(org, id)` at time `now`, if
    /// it may not. Voting is open strictly between start and end.
    pub open spec fn vote_error(
        self,
        org: Seq<char>,
        id: nat,
        voter: Seq<char>,
        now: nat,
    ) -> Option<ElectionError> {
        if !self.elections.contains_key((org, id)) {
            Some(ElectionError::NotFound)
        } else if now <= self.elections[(org, id)].start {
            Some(ElectionError::NotStarted)
        } else if now >= self.elections[(org, id)].end {
            Some(ElectionError::Ended)
        } else if self.voters.contains((org, id, voter)) {
            Some(ElectionError::AlreadyVoted)
        } else {
            None
        }
    }

    /// The ledger after `voter` asked to vote for `candidate` in the election
    /// `(org, id)`. On success the candidate's tally goes up by one and the
    /// voter goes on record. The candidate's number is not held against the
    /// election's list: a vote for a number beyond the list is counted under
    /// that number and shows in no view.
    pub open spec fn vote(
        self,
        org: Seq<char>,
        id: nat,
        voter: Seq<char>,
        candidate: u8,
        now: nat,
    ) -> LedgerState {
        if self.vote_error(org, id, voter, now) is Some {
            self
        } else {
            LedgerState {
                tallies: self.tallies.insert(
                    (org, id, candidate),
                    self.tally(org, id, candidate) + 1,
                ),
                voters: self.voters.insert((org, id, voter)),
                ..self
            }
        }
    }

    /// What holds of the ledger after every operation: the voter records
    /// are finitely many, every stored election is well formed, every
    /// counter is covered, and votes are conserved.
    pub open spec fn inv(self) -> bool {
        &&& self.voters.finite()
        &&& catalog_well_formed(self.elections)
        &&& counters_covered(self.organizations, self.elections)
        &&& votes_conserved(self.tallies, self.voters)
    }
}

/// Whether every election of the catalog starts before it ends and has
/// between 2 and 256 candidates.
pub open spec fn catalog_well_formed(elections: Map<(Seq<char>, nat), ElectionData>) -> bool {
    forall|key: (Seq<char>, nat)| #[trigger]
        elections.contains_key(key) ==> elections[key].well_formed()
}

/// Whether every sequence number below an organization's counter has an
/// election of that organization in the catalog.
pub open spec fn counters_covered(
    organizations: Map<Seq<char>, nat>,
    elections: Map<(Seq<char>, nat), ElectionData>,
) -> bool {
    forall|org: Seq<char>, id: nat|
        organizations.contains_key(org) && id < organizations[org] ==> #[trigger]
        elections.contains_key((org, id))
}

/// Whether, for every election, the tallies add up to the number of voters
/// on record.
pub open spec fn votes_conserved(
    tallies: Map<(Seq<char>, nat, u8), nat>,
    voters: Set<(Seq<char>, nat, Seq<char>)>,
) -> bool {
    forall|org: Seq<char>, id: nat| #[trigger]
        sum_tallies(tallies, org, id, 256) == voters_in(voters, org, id).len()
}

/// A table of machine numbers read as a table of natural numbers.
pub open spec fn counts<K>(numbers: Map<K, u128>) -> Map<K, nat> {
    numbers.map_values(|n: u128| n as nat)
}

/// The ledger that an owner and four tables make.
pub open spec fn ledger_of(
    owner: Seq<char>,
    organizations: Map<Seq<char>, u128>,
    elections: Map<(Seq<char>, nat), ElectionData>,
    votes: Map<(Seq<char>, nat, u8), u128>,
    voters: Map<(Seq<char>, nat, Seq<char>), ()>,
) -> LedgerState {
    LedgerState {
        owner,
        organizations: counts(organizations),
        elections,
        tallies: counts(votes),
        voters: voters.dom(),
    }
}

/// Tables that agree on the candidates below `bound` of an election have the
/// same sum there.
pub proof fn lemma_sum_agrees(
    a: Map<(Seq<char>, nat, u8), nat>,
    b: Map<(Seq<char>, nat, u8), nat>,
    org: Seq<char>,
    id: nat,
    bound: nat,
)
    requires
        bound <= 256,
        forall|candidate: u8|
            candidate < bound ==> tally_in(a, org, id, candidate) == tally_in(
                b,
                org,
                id,
                candidate,
            ),
    ensures
        sum_tallies(a, org, id, bound) == sum_tallies(b, org, id, bound),
    decreases bound,
{
    if bound > 0 {
        lemma_sum_agrees(a, b, org, id, (bound - 1) as nat);
    }
}

/// One more vote for a candidate below `bound` makes the sum one larger; one
/// for a candidate at or beyond `bound` leaves it.
pub proof fn lemma_sum_after_vote(
    tallies: Map<(Seq<char>, nat, u8), nat>,
    org: Seq<char>,
    id: nat,
    candidate: u8,
    bound: nat,
)
    requires
        bound <= 256,
    ensures
        sum_tallies(
            tallies.insert((org, id, candidate), tally_in(tallies, org, id, candidate) + 1),
            org,
            id,
            bound,
        ) == sum_tallies(tallies, org, id, bound) + (if candidate < bound {
            1nat
        } else {
            0nat
        }),
    decreases bound,
{
    if bound > 0 {
        lemma_sum_after_vote(tallies, org, id, candidate, (bound - 1) as nat);
    }
}

/// No tally is larger than the sum it is part of.
pub proof fn lemma_tally_within_sum(
    tallies: Map<(Seq<char>, nat, u8), nat>,
    org: Seq<char>,
    id: nat,
    candidate: u8,
    bound: nat,
)
    requires
        candidate < bound <= 256,
    ensures
        tally_in(tallies, org, id, candidate) <= sum_tallies(tallies, org, id, bound),
    decreases bound,
{
    if candidate < bound - 1 {
        lemma_tally_within_sum(tallies, org, id, candidate, (bound - 1) as nat);
    }
}

/// The sum over fewer candidates is no larger than the sum over more.
pub proof fn lemma_sum_grows(
    tallies: Map<(Seq<char>, nat, u8), nat>,
    org: Seq<char>,
    id: nat,
    fewer: nat,
    more: nat,
)
    requires
        fewer <= more,
    ensures
        sum_tallies(tallies, org, id, fewer) <= sum_tallies(tallies, org, id, more),
    decreases more,
{
    if fewer < more {
        lemma_sum_grows(tallies, org, id, fewer, (more - 1) as nat);
    }
}

/// Candidates without votes add nothing to a sum.
pub proof fn lemma_sum_skips_zeros(
    tallies: Map<(Seq<char>, nat, u8), nat>,
    org: Seq<char>,
    id: nat,
    fewer: nat,
    more: nat,
)
    requires
        fewer <= more <= 256,
        forall|candidate: u8| fewer <= candidate < more ==> tally_in(tallies, org, id, candidate) == 0,
    ensures
        sum_tallies(tallies, org, id, fewer) == sum_tallies(tallies, org, id, more),
    decreases more,
{
    if fewer < more {
        lemma_sum_skips_zeros(tallies, org, id, fewer, (more - 1) as nat);
    }
}

/// With no tally stored, every sum is zero.
pub proof fn lemma_sum_of_nothing(org: Seq<char>, id: nat, bound: nat)
    ensures
        sum_tallies(Map::empty(), org, id, bound) == 0,
    decreases bound,
{
    if bound > 0 {
        lemma_sum_of_nothing(org, id, (bound - 1) as nat);
    }
}

/// A new ledger satisfies the invariant.
pub proof fn lemma_init_inv(owner: Seq<char>)
    ensures
        LedgerState::init(owner).inv(),
{
    let s = LedgerState::init(owner);
    assert forall|org: Seq<char>, id: nat| #[trigger]
        sum_tallies(s.tallies, org, id, 256) == voters_in(s.voters, org, id).len() by {
        lemma_sum_of_nothing(org, id, 256);
        assert(voters_in(s.voters, org, id) =~= Set::empty());
    }
}

/// Registration keeps the invariant.
pub proof fn lemma_register_inv(s: LedgerState, caller: Seq<char>, account: Seq<char>)
    requires
        s.inv(),
    ensures
        s.register(caller, account).inv(),
{
}

/// Creation keeps the invariant.
pub proof fn lemma_create_inv(
    s: LedgerState,
    caller: Seq<char>,
    payment: nat,
    election: ElectionData,
    now: nat,
)
    requires
        s.inv(),
    ensures
        s.create(caller, payment, election, now).inv(),
{
    let t = s.create(caller, payment, election, now);
    if s.create_error(caller, payment, election, now) is None {
        let next = s.organizations[caller];
        assert forall|org: Seq<char>, id: nat|
            t.organizations.contains_key(org) && id < t.organizations[org] implies #[trigger]
            t.elections.contains_key((org, id)) by {
            if org == caller {
                if id < next {
                    assert(s.elections.contains_key((org, id)));
                }
            } else {
                assert(s.elections.contains_key((org, id)));
            }
        }
    }
}

/// Voting keeps the invariant.
pub proof fn lemma_vote_inv(
    s: LedgerState,
    org: Seq<char>,
    id: nat,
    voter: Seq<char>,
    candidate: u8,
    now: nat,
)
    requires
        s.inv(),
    ensures
        s.vote(org, id, voter, candidate, now).inv(),
{
    let t = s.vote(org, id, voter, candidate, now);
    if s.vote_error(org, id, voter, now) is None {
        assert forall|o: Seq<char>, i: nat| #[trigger]
            sum_tallies(t.tallies, o, i, 256) == voters_in(t.voters, o, i).len() by {
            assert(sum_tallies(s.tallies, o, i, 256) == voters_in(s.voters, o, i).len());
            lemma_len_subset(voters_in(s.voters, o, i), s.voters);
            if o == org && i == id {
                lemma_sum_after_vote(s.tallies, org, id, candidate, 256);
                assert(voters_in(t.voters, o, i) =~= voters_in(s.voters, o, i).insert(
                    (org, id, voter),
                ));
            } else {
                lemma_sum_agrees(s.tallies, t.tallies, o, i, 256);
                assert(voters_in(t.voters, o, i) =~= voters_in(s.voters, o, i));
            }
        }
    }
}

/// A counter that is covered is no larger than the catalog: every number
/// below it has an election of its own there.
pub proof fn lemma_counter_within_catalog(
    elections: Map<(Seq<char>, nat), ElectionData>,
    org: Seq<char>,
    count: nat,
)
    requires
        elections.dom().finite(),
        forall|id: nat| id < count ==> #[trigger] elections.contains_key((org, id)),
    ensures
        count <= elections.dom().len(),
{
    let numbers = set_int_range(0, count as int);
    let key_of = |i: int| (org, i as nat);
    let keys = numbers.map(key_of);
    lemma_int_range(0, count as int);
    assert(injective_on(key_of, numbers));
    lemma_map_size(numbers, keys, key_of);
    assert forall|key: (Seq<char>, nat)| keys.contains(key) implies elections.dom().contains(
        key,
    ) by {
        let i = choose|i: int| numbers.contains(i) && key == key_of(i);
        assert(elections.contains_key((org, i as nat)));
    }
    lemma_len_subset(keys, elections.dom());
}

/// A tally is no larger than the number of voter records in the ledger.
pub proof fn lemma_tally_within_voters(s: LedgerState, org: Seq<char>, id: nat, candidate: u8)
    requires
        s.inv(),
    ensures
        s.tally(org, id, candidate) <= s.voters.len(),
{
    lemma_tally_within_sum(s.tallies, org, id, candidate, 256);
    assert(sum_tallies(s.tallies, org, id, 256) == voters_in(s.voters, org, id).len());
    lemma_len_subset(voters_in(s.voters, org, id), s.voters);
}

} // verus!
