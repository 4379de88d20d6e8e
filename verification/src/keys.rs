//! The keys of the ledger's tables.

use vstd::prelude::*;
use crate::account::AccountId;
use crate::table::TableKey;

verus! {

impl TableKey for AccountId {
    fn same_key(&self, other: &Self) -> (equal: bool) {
        self.same(other)
    }
}

/// The key of an election: its organization and its sequence number.
pub struct ElectionKey {
    pub organization: AccountId,
    pub id: u128,
}

impl View for ElectionKey {
    type V = (Seq<char>, nat);

    open spec fn view(&self) -> (Seq<char>, nat) {
        (self.organization@, self.id as nat)
    }
}

impl TableKey for ElectionKey {
    fn same_key(&self, other: &Self) -> (equal: bool) {
        self.id == other.id && self.organization.same(&other.organization)
    }
}

/// The key of a tally: an election and the position of a candidate.
pub struct TallyKey {
    pub organization: AccountId,
    pub id: u128,
    pub candidate: u8,
}

impl View for TallyKey {
    type V = (Seq<char>, nat, u8);

    open spec fn view(&self) -> (Seq<char>, nat, u8) {
        (self.organization@, self.id as nat, self.candidate)
    }
}

impl TableKey for TallyKey {
    fn same_key(&self, other: &Self) -> (equal: bool) {
        self.id == other.id && self.candidate == other.candidate && self.organization.same(
            &other.organization,
        )
    }
}

/// The key of a voter record: an election and a voter.
pub struct VoterKey {
    pub organization: AccountId,
    pub id: u128,
    pub voter: AccountId,
}

impl View for VoterKey {
    type V = (Seq<char>, nat, Seq<char>);

    open spec fn view(&self) -> (Seq<char>, nat, Seq<char>) {
        (self.organization@, self.id as nat, self.voter@)
    }
}

impl TableKey for VoterKey {
    fn same_key(&self, other: &Self) -> (equal: bool) {
        self.id == other.id && self.organization.same(&other.organization) && self.voter.same(
            &other.voter,
        )
    }
}

} // verus!
