//! Checks of the ledger's invariant on tables that came from outside.
//!
//! A ledger that only its own operations have touched satisfies the invariant
//! by proof. Tables read back from storage are held to it by these checks.

use vstd::prelude::*;
use vstd::set_lib::lemma_len_subset;
use crate::account::AccountId;
use crate::assoc::{as_map, keys_distinct, lemma_entry_in_map, lemma_map_size, position_of};
use crate::election::Election;
use crate::keys::{ElectionKey, TallyKey, VoterKey};
use crate::model::{
    catalog_well_formed, counters_covered, counts, lemma_counter_within_catalog, lemma_sum_agrees,
    lemma_sum_grows, lemma_sum_of_nothing, sum_tallies, votes_conserved, voters_in,
};
use crate::table::Table;

verus! {

/// Whether every stored election starts before it ends and has between 2 and
/// 256 candidates.
pub fn catalog_is_well_formed(elections: &Table<ElectionKey, Election>) -> (ok: bool)
    requires
        elections.wf(),
    ensures
        ok == catalog_well_formed(elections@),
{
    let entries = elections.as_vec();
    let mut i: usize = 0;
    while i < entries.len()
        invariant
            i <= entries@.len(),
            entries@ == elections.records(),
            elections.wf(),
            forall|j: int| 0 <= j < i ==> (#[trigger] elections.model()[j]).1.well_formed(),
        decreases entries@.len() - i,
    {
        let election = &entries[i].1;
        let count = election.candidates.len();
        if !(election.start < election.end && 2 <= count && count <= 256) {
            proof {
                lemma_entry_in_map(elections.model(), i as int);
                assert(elections@.contains_key(elections.model()[i as int].0));
            }
            return false;
        }
        i = i + 1;
    }
    proof {
        assert forall|key: (Seq<char>, nat)| #[trigger]
            elections@.contains_key(key) implies elections@[key].well_formed() by {
            let j = position_of(elections.model(), key);
            lemma_entry_in_map(elections.model(), j);
        }
    }
    true
}

/// Whether every sequence number below an organization's counter has an
/// election of that organization in the catalog.
pub fn counters_are_covered(
    organizations: &Table<AccountId, u128>,
    elections: &Table<ElectionKey, Election>,
) -> (ok: bool)
    requires
        organizations.wf(),
        elections.wf(),
    ensures
        ok == counters_covered(counts(organizations@), elections@),
{
    let entries = organizations.as_vec();
    let stored = elections.as_vec().len();
    proof {
        lemma_map_size(elections.model());
    }
    let mut i: usize = 0;
    while i < entries.len()
        invariant
            i <= entries@.len(),
            entries@ == organizations.records(),
            organizations.wf(),
            elections.wf(),
            stored == elections@.dom().len(),
            elections@.dom().finite(),
            forall|j: int, id: nat|
                0 <= j < i && id < organizations.model()[j].1 ==> #[trigger] elections@.contains_key(
                    (organizations.model()[j].0, id),
                ),
        decreases entries@.len() - i,
    {
        let organization = &entries[i].0;
        let count = entries[i].1;
        proof {
            lemma_entry_in_map(organizations.model(), i as int);
        }
        if count > stored as u128 {
            proof {
                if counters_covered(counts(organizations@), elections@) {
                    lemma_counter_within_catalog(elections@, organization@, count as nat);
                }
            }
            return false;
        }
        let mut id: u128 = 0;
        while id < count
            invariant
                id <= count,
                organizations@.contains_key(organization@),
                organizations@[organization@] == count,
                elections.wf(),
                forall|n: nat| n < id ==> #[trigger] elections@.contains_key((organization@, n)),
            decreases count - id,
        {
            let key = ElectionKey { organization: organization.clone(), id };
            if !elections.contains_key(&key) {
                return false;
            }
            id = id + 1;
        }
        i = i + 1;
    }
    proof {
        assert forall|org: Seq<char>, id: nat|
            counts(organizations@).contains_key(org) && id < counts(organizations@)[org]
            implies #[trigger] elections@.contains_key((org, id)) by {
            let j = position_of(organizations.model(), org);
            lemma_entry_in_map(organizations.model(), j);
        }
    }
    true
}

/// How many of the first `n` voter records belong to the election `(org, id)`.
pub open spec fn records_of(
    records: Seq<((Seq<char>, nat, Seq<char>), ())>,
    org: Seq<char>,
    id: nat,
    n: nat,
) -> nat
    decreases n,
{
    if n == 0 {
        0
    } else {
        records_of(records, org, id, (n - 1) as nat) + (if records[n - 1].0.0 == org && records[n
            - 1].0.1 == id {
            1nat
        } else {
            0nat
        })
    }
}

/// The keys of the first `n` voter records.
pub open spec fn first_keys(records: Seq<((Seq<char>, nat, Seq<char>), ())>, n: nat) -> Set<
    (Seq<char>, nat, Seq<char>),
> {
    Set::new(
        |key: (Seq<char>, nat, Seq<char>)|
            exists|i: int| 0 <= i < n && #[trigger] records[i].0 == key,
    )
}

/// Among records with distinct keys, the count of those that belong to an
/// election is the size of the set of their keys.
proof fn lemma_records_counted(
    records: Seq<((Seq<char>, nat, Seq<char>), ())>,
    org: Seq<char>,
    id: nat,
    n: nat,
)
    requires
        keys_distinct(records),
        n <= records.len(),
    ensures
        first_keys(records, n).finite(),
        voters_in(first_keys(records, n), org, id).len() == records_of(records, org, id, n),
        records_of(records, org, id, n) <= n,
    decreases n,
{
    if n == 0 {
        assert(first_keys(records, n) =~= Set::empty());
        assert(voters_in(first_keys(records, n), org, id) =~= Set::empty());
    } else {
        let m = (n - 1) as nat;
        lemma_records_counted(records, org, id, m);
        let before = first_keys(records, m);
        let key = records[n - 1].0;
        assert(!before.contains(key)) by {
            if before.contains(key) {
                let i = choose|i: int| 0 <= i < m && #[trigger] records[i].0 == key;
                assert(records[i].0 != records[n - 1].0);
            }
        }
        assert(first_keys(records, n) =~= before.insert(key)) by {
            assert forall|k: (Seq<char>, nat, Seq<char>)| first_keys(records, n).contains(k)
                <==> before.insert(key).contains(k) by {
                if first_keys(records, n).contains(k) {
                    let i = choose|i: int| 0 <= i < n && #[trigger] records[i].0 == k;
                    if i < m {
                        assert(before.contains(k));
                    }
                }
                if before.contains(k) {
                    let i = choose|i: int| 0 <= i < m && #[trigger] records[i].0 == k;
                    assert(0 <= i < n && records[i].0 == k);
                }
                if k == key {
                    assert(records[n - 1].0 == k);
                }
            }
        }
        lemma_len_subset(voters_in(before, org, id), before);
        if key.0 == org && key.1 == id {
            assert(voters_in(first_keys(records, n), org, id) =~= voters_in(before, org, id).insert(
                key,
            ));
        } else {
            assert(voters_in(first_keys(records, n), org, id) =~= voters_in(before, org, id));
        }
    }
}

/// The keys of all records are the keys of the map that the records spell out.
proof fn lemma_all_keys(records: Seq<((Seq<char>, nat, Seq<char>), ())>)
    ensures
        first_keys(records, records.len()) == as_map(records).dom(),
{
    assert(first_keys(records, records.len()) =~= as_map(records).dom());
}

/// The number of voters on record for the election `id` of `organization`.
pub fn count_voters(voters: &Table<VoterKey, ()>, organization: &AccountId, id: u128) -> (count:
    usize)
    requires
        voters.wf(),
    ensures
        count == voters_in(voters@.dom(), organization@, id as nat).len(),
{
    let entries = voters.as_vec();
    let mut count: usize = 0;
    let mut i: usize = 0;
    while i < entries.len()
        invariant
            i <= entries@.len(),
            entries@ == voters.records(),
            voters.wf(),
            count == records_of(voters.model(), organization@, id as nat, i as nat),
            count <= i,
        decreases entries@.len() - i,
    {
        let key = &entries[i].0;
        if key.id == id && key.organization.same(organization) {
            count = count + 1;
        }
        i = i + 1;
    }
    proof {
        lemma_records_counted(voters.model(), organization@, id as nat, i as nat);
        lemma_all_keys(voters.model());
    }
    count
}

/// Whether the tallies of the election `id` of `organization` add up to the
/// number of voters on record for it.
pub fn election_is_conserved(
    votes: &Table<TallyKey, u128>,
    voters: &Table<VoterKey, ()>,
    organization: &AccountId,
    id: u128,
) -> (ok: bool)
    requires
        votes.wf(),
        voters.wf(),
    ensures
        ok == (sum_tallies(counts(votes@), organization@, id as nat, 256) == voters_in(
            voters@.dom(),
            organization@,
            id as nat,
        ).len()),
{
    let expected: u128 = count_voters(voters, organization, id) as u128;
    let mut sum: u128 = 0;
    let mut candidate: u16 = 0;
    while candidate < 256
        invariant
            candidate <= 256,
            votes.wf(),
            sum == sum_tallies(counts(votes@), organization@, id as nat, candidate as nat),
            sum <= expected,
            expected == voters_in(voters@.dom(), organization@, id as nat).len(),
        decreases 256 - candidate,
    {
        let key = TallyKey { organization: organization.clone(), id, candidate: candidate as u8 };
        let tally: u128 = match votes.get(&key) {
            Some(tally) => *tally,
            None => 0,
        };
        if tally > expected - sum {
            proof {
                assert(sum_tallies(
                    counts(votes@),
                    organization@,
                    id as nat,
                    (candidate + 1) as nat,
                ) == sum + tally);
                lemma_sum_grows(
                    counts(votes@),
                    organization@,
                    id as nat,
                    (candidate + 1) as nat,
                    256,
                );
            }
            return false;
        }
        sum = sum + tally;
        candidate = candidate + 1;
    }
    sum == expected
}

/// Whether, for every election, the tallies add up to the number of voters
/// on record.
pub fn votes_are_conserved(votes: &Table<TallyKey, u128>, voters: &Table<VoterKey, ()>) -> (ok:
    bool)
    requires
        votes.wf(),
        voters.wf(),
    ensures
        ok == votes_conserved(counts(votes@), voters@.dom()),
{
    let records = voters.as_vec();
    let mut i: usize = 0;
    while i < records.len()
        invariant
            i <= records@.len(),
            records@ == voters.records(),
            votes.wf(),
            voters.wf(),
            forall|j: int|
                0 <= j < i ==> sum_tallies(
                    counts(votes@),
                    (#[trigger] voters.model()[j]).0.0,
                    voters.model()[j].0.1,
                    256,
                ) == voters_in(voters@.dom(), voters.model()[j].0.0, voters.model()[j].0.1).len(),
        decreases records@.len() - i,
    {
        let key = &records[i].0;
        if !election_is_conserved(votes, voters, &key.organization, key.id) {
            return false;
        }
        i = i + 1;
    }
    let tallies = votes.as_vec();
    let mut k: usize = 0;
    while k < tallies.len()
        invariant
            k <= tallies@.len(),
            tallies@ == votes.records(),
            votes.wf(),
            voters.wf(),
            forall|j: int|
                0 <= j < k ==> sum_tallies(
                    counts(votes@),
                    (#[trigger] votes.model()[j]).0.0,
                    votes.model()[j].0.1,
                    256,
                ) == voters_in(voters@.dom(), votes.model()[j].0.0, votes.model()[j].0.1).len(),
        decreases tallies@.len() - k,
    {
        let key = &tallies[k].0;
        if !election_is_conserved(votes, voters, &key.organization, key.id) {
            return false;
        }
        k = k + 1;
    }
    proof {
        assert forall|org: Seq<char>, id: nat| #[trigger]
            sum_tallies(counts(votes@), org, id, 256) == voters_in(voters@.dom(), org, id).len() by {
            let on_record = voters_in(voters@.dom(), org, id);
            if exists|key: (Seq<char>, nat, Seq<char>)| on_record.contains(key) {
                let key = choose|key: (Seq<char>, nat, Seq<char>)| on_record.contains(key);
                let j = position_of(voters.model(), key);
                assert(voters.model()[j].0 == key);
            } else if exists|c: u8| counts(votes@).contains_key((org, id, c)) {
                let c = choose|c: u8| counts(votes@).contains_key((org, id, c));
                let j = position_of(votes.model(), (org, id, c));
                assert(votes.model()[j].0 == (org, id, c));
            } else {
                assert(on_record =~= Set::empty());
                lemma_sum_agrees(counts(votes@), Map::empty(), org, id, 256);
                lemma_sum_of_nothing(org, id, 256);
            }
        }
    }
    true
}

} // verus!
