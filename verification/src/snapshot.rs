//! The ledger's tables as plain lists, for a host that stores them.

use vstd::prelude::*;
use crate::account::AccountId;
use crate::assoc::{as_map, keys_distinct};
use crate::election::Election;
use crate::keys::{ElectionKey, TallyKey, VoterKey};
use crate::model::{LedgerState, ledger_of};
use crate::table::entries_model;

verus! {

/// What a ledger holds, table by table: the owner, each organization with
/// its counter, each election under its key, each tally under its key, and
/// the key of each voter record.
pub struct Snapshot {
    pub owner: AccountId,
    pub organizations: Vec<(AccountId, u128)>,
    pub elections: Vec<(ElectionKey, Election)>,
    pub votes: Vec<(TallyKey, u128)>,
    pub voters: Vec<(VoterKey, ())>,
}

impl Snapshot {
    /// The ledger that the lists spell out.
    pub open spec fn state(&self) -> LedgerState {
        ledger_of(
            self.owner@,
            as_map(entries_model(self.organizations@)),
            as_map(entries_model(self.elections@)),
            as_map(entries_model(self.votes@)),
            as_map(entries_model(self.voters@)),
        )
    }

    /// Whether the lists are those of a ledger: no key occurs twice in a
    /// list, and what they spell out satisfies the ledger's invariant.
    pub open spec fn valid(&self) -> bool {
        &&& keys_distinct(entries_model(self.organizations@))
        &&& keys_distinct(entries_model(self.elections@))
        &&& keys_distinct(entries_model(self.votes@))
        &&& keys_distinct(entries_model(self.voters@))
        &&& self.state().inv()
    }
}

} // verus!
