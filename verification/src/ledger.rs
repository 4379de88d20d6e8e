//! The election ledger.
//!
//! Every operation takes what the host knows as plain values: who calls, what
//! time it is, what payment is attached. An operation either succeeds or is
//! refused; a refusal changes nothing.
//!
//! Election identifiers and counters leave and enter as decimal text.

use vstd::prelude::*;
use vstd::string::*;
use crate::account::AccountId;
use crate::audit::{catalog_is_well_formed, counters_are_covered, votes_are_conserved};
use crate::decimal::{
    decimal_text, decimal_value, denotes_at_most, parse_u128, u128_to_string, u64_to_string,
};
use crate::election::{Candidate, Election, ElectionInput, ElectionView};
use crate::error::{ElectionError, ValidationError};
use crate::fee::creation_fee;
use crate::keys::{ElectionKey, TallyKey, VoterKey};
use crate::model::{
    LedgerState, ledger_of, lemma_counter_within_catalog, lemma_create_inv, lemma_init_inv,
    lemma_register_inv, lemma_tally_within_voters, lemma_vote_inv, outcome,
};
use crate::snapshot::Snapshot;
use crate::table::Table;

verus! {

/// The ledger: the owner, the registry of organizations, the catalog of
/// elections, the tallies and the voter records.
pub struct Elections {
    owner_id: AccountId,
    organizations: Table<AccountId, u128>,
    elections: Table<ElectionKey, Election>,
    votes: Table<TallyKey, u128>,
    voters: Table<VoterKey, ()>,
}

impl View for Elections {
    type V = LedgerState;

    closed spec fn view(&self) -> LedgerState {
        ledger_of(
            self.owner_id@,
            self.organizations@,
            self.elections@,
            self.votes@,
            self.voters@,
        )
    }
}

impl Elections {
    /// Whether the ledger is well formed: its tables are, and its state
    /// satisfies the invariant of the model.
    pub closed spec fn wf(&self) -> bool {
        &&& self.organizations.wf()
        &&& self.elections.wf()
        &&& self.votes.wf()
        &&& self.voters.wf()
        &&& self@.inv()
    }

    /// The state of a well-formed ledger satisfies the invariant of the model.
    pub proof fn lemma_wf_inv(&self)
        requires
            self.wf(),
        ensures
            self@.inv(),
    {
    }

    /// The ledger of a new system, owned by `owner_id`.
    pub fn new(owner_id: AccountId) -> (ledger: Self)
        ensures
            ledger.wf(),
            ledger@ == LedgerState::init(owner_id@),
    {
        let ledger = Elections {
            owner_id,
            organizations: Table::new(),
            elections: Table::new(),
            votes: Table::new(),
            voters: Table::new(),
        };
        proof {
            lemma_init_inv(owner_id@);
            assert(ledger@ =~= LedgerState::init(owner_id@));
        }
        ledger
    }

    /// Registers `account` as an organization, with its counter at zero. Only
    /// the owner may do this.
    pub fn register_organization(&mut self, caller: &AccountId, account: &AccountId) -> (result:
        Result<(), ElectionError>)
        requires
            old(self).wf(),
        ensures
            final(self).wf(),
            result == outcome(old(self)@.register_error(caller@)),
            final(self)@ == old(self)@.register(caller@, account@),
    {
        if !caller.same(&self.owner_id) {
            return Err(ElectionError::Authorization);
        }
        self.organizations.insert(account.clone(), 0);
        proof {
            lemma_register_inv(old(self)@, caller@, account@);
            assert(self@ =~= old(self)@.register(caller@, account@));
        }
        Ok(())
    }

    /// The counter of `organization_id` as decimal text: the number of
    /// elections that it has created since it was last registered.
    pub fn elections_count(&self, organization_id: &AccountId) -> (result: Result<
        String,
        ElectionError,
    >)
        requires
            self.wf(),
        ensures
            match result {
                Ok(text) => self@.organizations.contains_key(organization_id@) && text@
                    == decimal_text(self@.organizations[organization_id@]) && denotes_at_most(
                    text@,
                    u128::MAX as nat,
                ),
                Err(error) => !self@.organizations.contains_key(organization_id@) && error
                    == ElectionError::NotRegistered,
            },
    {
        match self.organizations.get(organization_id) {
            Some(count) => Ok(u128_to_string(*count)),
            None => Err(ElectionError::NotRegistered),
        }
    }

    /// Creates the election that `input` describes, for the organization
    /// `caller`, and answers its sequence number as decimal text.
    ///
    /// The rules are tried in this order: at least two candidates; at most
    /// 256; a start after `now`; a start before the end; a registered caller;
    /// a payment of exactly the creation fee.
    pub fn create_election(
        &mut self,
        caller: &AccountId,
        payment: u128,
        input: &ElectionInput,
        now: u64,
    ) -> (result: Result<String, ElectionError>)
        requires
            old(self).wf(),
            input@.timestamps_readable(),
        ensures
            final(self).wf(),
            match old(self)@.create_error(caller@, payment as nat, input@.election(), now as nat) {
                Some(fault) => result matches Err(error) && error == fault,
                None => result matches Ok(id) && id@ == decimal_text(
                    old(self)@.organizations[caller@],
                ) && denotes_at_most(id@, u128::MAX as nat),
            },
            final(self)@ == old(self)@.create(
                caller@,
                payment as nat,
                input@.election(),
                now as nat,
            ),
    {
        let election = Election::new(input);
        if let Err(error) = election.validate(now) {
            return Err(ElectionError::Validation(error));
        }
        let id: u128 = match self.organizations.get(caller) {
            Some(count) => *count,
            None => {
                return Err(ElectionError::NotRegistered);
            },
        };
        if payment != creation_fee() {
            return Err(ElectionError::Validation(ValidationError::PaymentMismatch));
        }
        proof {
            self.elections.lemma_size();
            lemma_counter_within_catalog(self@.elections, caller@, id as nat);
            lemma_create_inv(self@, caller@, payment as nat, input@.election(), now as nat);
        }
        self.organizations.insert(caller.clone(), id + 1);
        self.elections.insert(ElectionKey { organization: caller.clone(), id }, election);
        proof {
            assert(self@ =~= old(self)@.create(
                caller@,
                payment as nat,
                input@.election(),
                now as nat,
            ));
        }
        Ok(u128_to_string(id))
    }

    /// Whether `caller` has voted in the election `election_id` of
    /// `organization_id`.
    pub fn have_voted(
        &self,
        organization_id: &AccountId,
        election_id: &String,
        caller: &AccountId,
    ) -> (voted: bool)
        requires
            self.wf(),
            denotes_at_most(election_id@, u128::MAX as nat),
        ensures
            voted == self@.has_voted(organization_id@, decimal_value(election_id@), caller@),
    {
        let id = parse_u128(election_id.as_str()).unwrap();
        let key = VoterKey { organization: organization_id.clone(), id, voter: caller.clone() };
        self.voters.contains_key(&key)
    }

    /// Casts the vote of `caller` for the candidate at position
    /// `candidate_id` in the election `election_id` of `organization_id`.
    ///
    /// Voting is open strictly after the election's start and strictly before
    /// its end, once to every voter. The position is taken as it comes: a
    /// vote for a position beyond the election's list is counted under that
    /// position and shows in no view.
    pub fn vote(
        &mut self,
        organization_id: &AccountId,
        election_id: &String,
        caller: &AccountId,
        candidate_id: u8,
        now: u64,
    ) -> (result: Result<(), ElectionError>)
        requires
            old(self).wf(),
            denotes_at_most(election_id@, u128::MAX as nat),
        ensures
            final(self).wf(),
            result == outcome(
                old(self)@.vote_error(
                    organization_id@,
                    decimal_value(election_id@),
                    caller@,
                    now as nat,
                ),
            ),
            final(self)@ == old(self)@.vote(
                organization_id@,
                decimal_value(election_id@),
                caller@,
                candidate_id,
                now as nat,
            ),
    {
        let id = parse_u128(election_id.as_str()).unwrap();
        let election_key = ElectionKey { organization: organization_id.clone(), id };
        match self.elections.get(&election_key) {
            None => {
                return Err(ElectionError::NotFound);
            },
            Some(election) => {
                if now <= election.start {
                    return Err(ElectionError::NotStarted);
                }
                if now >= election.end {
                    return Err(ElectionError::Ended);
                }
            },
        }
        let voter_key = VoterKey { organization: organization_id.clone(), id, voter: caller.clone() };
        if self.voters.contains_key(&voter_key) {
            return Err(ElectionError::AlreadyVoted);
        }
        let tally_key = TallyKey {
            organization: organization_id.clone(),
            id,
            candidate: candidate_id,
        };
        let votes: u128 = match self.votes.get(&tally_key) {
            Some(votes) => *votes,
            None => 0,
        };
        proof {
            self.voters.lemma_size();
            lemma_tally_within_voters(self@, organization_id@, id as nat, candidate_id);
            lemma_vote_inv(self@, organization_id@, id as nat, caller@, candidate_id, now as nat);
        }
        self.votes.insert(tally_key, votes + 1);
        self.voters.insert(voter_key, ());
        proof {
            assert(self@ =~= old(self)@.vote(
                organization_id@,
                id as nat,
                caller@,
                candidate_id,
                now as nat,
            ));
        }
        Ok(())
    }

    /// The election `election_id` of `organization_id` as clients see it: what
    /// was stored, and beside each candidate, in the order of the list, the
    /// votes counted for it so far.
    pub fn get_election(&self, organization_id: &AccountId, election_id: &String) -> (result:
        Result<ElectionView, ElectionError>)
        requires
            self.wf(),
            denotes_at_most(election_id@, u128::MAX as nat),
        ensures
            match result {
                Ok(view) => self@.elections.contains_key(
                    (organization_id@, decimal_value(election_id@)),
                ) && view@ == self@.election_view(organization_id@, decimal_value(election_id@)),
                Err(error) => !self@.elections.contains_key(
                    (organization_id@, decimal_value(election_id@)),
                ) && error == ElectionError::NotFound,
            },
    {
        let id = parse_u128(election_id.as_str()).unwrap();
        let election_key = ElectionKey { organization: organization_id.clone(), id };
        let election = match self.elections.get(&election_key) {
            Some(election) => election,
            None => {
                return Err(ElectionError::NotFound);
            },
        };
        assert(self@.elections.contains_key(election_key@));
        assert(election@.well_formed());
        let mut candidates: Vec<Candidate> = Vec::new();
        let mut i: usize = 0;
        while i < election.candidates.len()
            invariant
                self.wf(),
                i <= election.candidates@.len() <= 256,
                candidates@.len() == i,
                forall|j: int|
                    0 <= j < i ==> (#[trigger] candidates@[j])@.name == election.candidates@[j]@
                        && candidates@[j]@.votes == decimal_text(
                        self@.tally(organization_id@, id as nat, j as u8),
                    ),
            decreases election.candidates@.len() - i,
        {
            let tally_key = TallyKey {
                organization: organization_id.clone(),
                id,
                candidate: i as u8,
            };
            let votes: u128 = match self.votes.get(&tally_key) {
                Some(votes) => *votes,
                None => 0,
            };
            candidates.push(
                Candidate { name: election.candidates[i].clone(), votes: u128_to_string(votes) },
            );
            i = i + 1;
        }
        let view = ElectionView {
            start: u64_to_string(election.start),
            end: u64_to_string(election.end),
            title: election.title.clone(),
            description: election.description.clone(),
            candidates,
        };
        proof {
            let expected = self@.election_view(organization_id@, id as nat);
            assert(view@.candidates =~= expected.candidates);
            assert(view@ == expected);
        }
        Ok(view)
    }

    /// Hands the tables over as plain lists.
    pub fn into_snapshot(self) -> (snapshot: Snapshot)
        requires
            self.wf(),
        ensures
            snapshot.valid(),
            snapshot.state() == self@,
    {
        Snapshot {
            owner: self.owner_id,
            organizations: self.organizations.into_entries(),
            elections: self.elections.into_entries(),
            votes: self.votes.into_entries(),
            voters: self.voters.into_entries(),
        }
    }

    /// The ledger that holds what `snapshot` lists, if the lists are those of
    /// a ledger. Lists in which a key occurs twice, or which break the
    /// invariant, give no ledger.
    pub fn restore(snapshot: Snapshot) -> (ledger: Option<Self>)
        ensures
            match ledger {
                Some(ledger) => snapshot.valid() && ledger.wf() && ledger@ == snapshot.state(),
                None => !snapshot.valid(),
            },
    {
        let Snapshot { owner, organizations, elections, votes, voters } = snapshot;
        let organizations = match Table::from_entries(organizations) {
            Some(table) => table,
            None => {
                return None;
            },
        };
        let elections = match Table::from_entries(elections) {
            Some(table) => table,
            None => {
                return None;
            },
        };
        let votes = match Table::from_entries(votes) {
            Some(table) => table,
            None => {
                return None;
            },
        };
        let voters = match Table::from_entries(voters) {
            Some(table) => table,
            None => {
                return None;
            },
        };
        proof {
            voters.lemma_size();
        }
        if !catalog_is_well_formed(&elections) {
            return None;
        }
        if !counters_are_covered(&organizations, &elections) {
            return None;
        }
        if !votes_are_conserved(&votes, &voters) {
            return None;
        }
        Some(Elections { owner_id: owner, organizations, elections, votes, voters })
    }
}

} // verus!
