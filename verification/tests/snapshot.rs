use elections::audit::{
    catalog_is_well_formed, count_voters, counters_are_covered, election_is_conserved,
    votes_are_conserved,
};
use elections::keys::{ElectionKey, TallyKey, VoterKey};
use elections::table::Table;
use elections::{AccountId, Election, ElectionError, ElectionInput, Elections, Snapshot};

const FEE: u128 = 1_000_000_000_000_000_000_000_000;
const NOW: u64 = 1_700_000_000_000_000_000;
const DAY: u64 = 86_400_000_000_000;

fn id(name: &str) -> AccountId {
    AccountId::new(name.to_string())
}

fn election(start: u64, end: u64, candidates: usize) -> Election {
    Election {
        start,
        end,
        title: "Board".to_string(),
        description: "Yearly vote".to_string(),
        candidates: (0..candidates).map(|i| format!("c{}", i)).collect(),
    }
}

fn election_key(org: &str, n: u128) -> ElectionKey {
    ElectionKey { organization: id(org), id: n }
}

fn tally_key(org: &str, n: u128, candidate: u8) -> TallyKey {
    TallyKey { organization: id(org), id: n, candidate }
}

fn voter_key(org: &str, n: u128, voter: &str) -> VoterKey {
    VoterKey { organization: id(org), id: n, voter: id(voter) }
}

fn sample() -> Snapshot {
    Snapshot {
        owner: id("owner"),
        organizations: vec![(id("org1"), 2), (id("org2"), 0)],
        elections: vec![
            (election_key("org1", 0), election(10, 20, 2)),
            (election_key("org1", 1), election(10, 20, 3)),
            (election_key("org2", 5), election(1, 2, 256)),
        ],
        votes: vec![
            (tally_key("org1", 0, 0), 1),
            (tally_key("org1", 0, 1), 2),
            (tally_key("org1", 1, 2), 1),
            (tally_key("org1", 1, 7), 0),
        ],
        voters: vec![
            (voter_key("org1", 0, "ann"), ()),
            (voter_key("org1", 1, "ann"), ()),
            (voter_key("org1", 0, "bob"), ()),
            (voter_key("org1", 0, "cy"), ()),
        ],
    }
}

fn input() -> ElectionInput {
    ElectionInput {
        start: (NOW + DAY).to_string(),
        end: (NOW + 3 * DAY).to_string(),
        title: "Board".to_string(),
        description: "Yearly vote".to_string(),
        candidates: vec!["Alice".to_string(), "Bob".to_string()],
    }
}

#[test]
fn restore_takes_the_lists_of_a_ledger() {
    let ledger = Elections::restore(sample()).unwrap();
    assert_eq!(ledger.elections_count(&id("org1")), Ok("2".to_string()));
    assert_eq!(ledger.elections_count(&id("org2")), Ok("0".to_string()));
    assert_eq!(ledger.elections_count(&id("owner")), Err(ElectionError::NotRegistered));
    let view = ledger.get_election(&id("org1"), &"0".to_string()).unwrap();
    let counted: Vec<String> = view.candidates.into_iter().map(|c| c.votes).collect();
    assert_eq!(counted, vec!["1", "2"]);
    let view = ledger.get_election(&id("org1"), &"1".to_string()).unwrap();
    let counted: Vec<String> = view.candidates.into_iter().map(|c| c.votes).collect();
    assert_eq!(counted, vec!["0", "0", "1"]);
    assert!(ledger.get_election(&id("org2"), &"5".to_string()).is_ok());
    assert!(ledger.have_voted(&id("org1"), &"0".to_string(), &id("bob")));
    assert!(!ledger.have_voted(&id("org1"), &"1".to_string(), &id("bob")));
}

#[test]
fn restored_ledger_goes_on_where_the_lists_stopped() {
    let mut ledger = Elections::restore(sample()).unwrap();
    assert_eq!(ledger.register_organization(&id("org1"), &id("org3")), Err(ElectionError::Authorization));
    assert_eq!(ledger.create_election(&id("org1"), FEE, &input(), NOW), Ok("2".to_string()));
    assert_eq!(
        ledger.vote(&id("org1"), &"2".to_string(), &id("ann"), 1, NOW + 2 * DAY),
        Ok(())
    );
    assert_eq!(
        ledger.vote(&id("org1"), &"0".to_string(), &id("ann"), 1, 15),
        Err(ElectionError::AlreadyVoted)
    );
    assert_eq!(ledger.vote(&id("org1"), &"0".to_string(), &id("dee"), 1, 15), Ok(()));
    let view = ledger.get_election(&id("org1"), &"0".to_string()).unwrap();
    let counted: Vec<String> = view.candidates.into_iter().map(|c| c.votes).collect();
    assert_eq!(counted, vec!["1", "3"]);
}

#[test]
fn snapshot_lists_what_the_ledger_holds() {
    let mut ledger = Elections::new(id("owner"));
    ledger.register_organization(&id("owner"), &id("org1")).unwrap();
    ledger.create_election(&id("org1"), FEE, &input(), NOW).unwrap();
    ledger.vote(&id("org1"), &"0".to_string(), &id("bob"), 1, NOW + 2 * DAY).unwrap();
    ledger.vote(&id("org1"), &"0".to_string(), &id("ann"), 1, NOW + 2 * DAY).unwrap();

    let snapshot = ledger.into_snapshot();

    assert_eq!(snapshot.owner, id("owner"));
    assert_eq!(snapshot.organizations, vec![(id("org1"), 1)]);
    assert_eq!(snapshot.elections.len(), 1);
    assert!(snapshot.elections[0].0.organization == id("org1") && snapshot.elections[0].0.id == 0);
    assert_eq!(snapshot.elections[0].1, Election::new(&input()));
    assert_eq!(snapshot.votes.len(), 1);
    assert!(snapshot.votes[0].0.organization == id("org1"));
    assert_eq!((snapshot.votes[0].0.id, snapshot.votes[0].0.candidate, snapshot.votes[0].1), (0, 1, 2));
    let voters: Vec<&str> = snapshot.voters.iter().map(|(key, _)| key.voter.as_str()).collect();
    assert_eq!(voters, vec!["bob", "ann"]);
}

#[test]
fn snapshot_and_restore_round_trip() {
    let mut ledger = Elections::new(id("owner"));
    ledger.register_organization(&id("owner"), &id("org1")).unwrap();
    ledger.register_organization(&id("owner"), &id("org2")).unwrap();
    for _ in 0..3 {
        ledger.create_election(&id("org1"), FEE, &input(), NOW).unwrap();
    }
    ledger.create_election(&id("org2"), FEE, &input(), NOW).unwrap();
    for (n, voter) in ["ann", "bob", "cy", "dee"].iter().enumerate() {
        let candidate = (n % 3) as u8;
        ledger.vote(&id("org1"), &"1".to_string(), &id(voter), candidate, NOW + 2 * DAY).unwrap();
    }
    let view_before = ledger.get_election(&id("org1"), &"1".to_string()).unwrap();

    let restored = Elections::restore(ledger.into_snapshot()).unwrap();

    assert_eq!(restored.get_election(&id("org1"), &"1".to_string()).unwrap(), view_before);
    assert_eq!(restored.elections_count(&id("org1")), Ok("3".to_string()));
    assert_eq!(restored.elections_count(&id("org2")), Ok("1".to_string()));
    for voter in ["ann", "bob", "cy", "dee"] {
        assert!(restored.have_voted(&id("org1"), &"1".to_string(), &id(voter)));
        assert!(!restored.have_voted(&id("org1"), &"0".to_string(), &id(voter)));
    }
    let again = Elections::restore(restored.into_snapshot());
    assert!(again.is_some());
}

#[test]
fn restore_takes_an_empty_ledger() {
    let snapshot = Elections::new(id("owner")).into_snapshot();
    assert!(snapshot.organizations.is_empty());
    assert!(snapshot.elections.is_empty());
    assert!(snapshot.votes.is_empty());
    assert!(snapshot.voters.is_empty());
    assert!(Elections::restore(snapshot).is_some());
}

#[test]
fn restore_refuses_a_key_that_occurs_twice() {
    let mut snapshot = sample();
    snapshot.organizations.push((id("org1"), 2));
    assert!(Elections::restore(snapshot).is_none());

    let mut snapshot = sample();
    snapshot.elections.push((election_key("org1", 1), election(10, 20, 3)));
    assert!(Elections::restore(snapshot).is_none());

    let mut snapshot = sample();
    snapshot.votes.push((tally_key("org1", 1, 7), 0));
    assert!(Elections::restore(snapshot).is_none());

    let mut snapshot = sample();
    snapshot.voters.push((voter_key("org1", 0, "ann"), ()));
    snapshot.votes[0].1 = 2;
    assert!(Elections::restore(snapshot).is_none());
}

#[test]
fn restore_refuses_an_election_that_is_not_well_formed() {
    for bad in [election(20, 20, 2), election(21, 20, 2), election(10, 20, 1), election(10, 20, 0), election(10, 20, 257)] {
        let mut snapshot = sample();
        snapshot.elections.push((election_key("org2", 9), bad));
        assert!(Elections::restore(snapshot).is_none());
    }
    let mut snapshot = sample();
    snapshot.elections.push((election_key("org2", 9), election(19, 20, 256)));
    assert!(Elections::restore(snapshot).is_some());
}

#[test]
fn restore_refuses_a_counter_that_is_not_covered() {
    let mut snapshot = sample();
    snapshot.organizations[0].1 = 3;
    assert!(Elections::restore(snapshot).is_none());

    let mut snapshot = sample();
    snapshot.organizations[1].1 = 1;
    assert!(Elections::restore(snapshot).is_none());

    let mut snapshot = sample();
    snapshot.organizations[0].1 = u128::MAX;
    assert!(Elections::restore(snapshot).is_none());

    let mut snapshot = sample();
    snapshot.organizations[0].1 = 1;
    assert!(Elections::restore(snapshot).is_some());
}

#[test]
fn restore_refuses_votes_that_are_not_conserved() {
    // a tally too high
    let mut snapshot = sample();
    snapshot.votes[1].1 = 3;
    assert!(Elections::restore(snapshot).is_none());
    // a tally too low
    let mut snapshot = sample();
    snapshot.votes[1].1 = 1;
    assert!(Elections::restore(snapshot).is_none());
    // a tally that no number of voters could match
    let mut snapshot = sample();
    snapshot.votes[0].1 = u128::MAX;
    assert!(Elections::restore(snapshot).is_none());
    let mut snapshot = sample();
    snapshot.votes[0].1 = u128::MAX;
    snapshot.votes[1].1 = u128::MAX;
    assert!(Elections::restore(snapshot).is_none());
    // a voter without a vote
    let mut snapshot = sample();
    snapshot.voters.push((voter_key("org2", 5, "ann"), ()));
    assert!(Elections::restore(snapshot).is_none());
    // a vote without a voter
    let mut snapshot = sample();
    snapshot.votes.push((tally_key("org3", 0, 0), 1));
    assert!(Elections::restore(snapshot).is_none());
    // a vote beyond the list of candidates is a vote all the same
    let mut snapshot = sample();
    snapshot.votes.push((tally_key("org1", 0, 255), 1));
    snapshot.voters.push((voter_key("org1", 0, "dee"), ()));
    assert!(Elections::restore(snapshot).is_some());
}

#[test]
fn audit_of_the_catalog() {
    let mut catalog: Table<ElectionKey, Election> = Table::new();
    assert!(catalog_is_well_formed(&catalog));
    catalog.insert(election_key("org1", 0), election(1, 2, 2));
    catalog.insert(election_key("org1", 1), election(0, u64::MAX, 256));
    assert!(catalog_is_well_formed(&catalog));
    catalog.insert(election_key("org1", 2), election(2, 2, 2));
    assert!(!catalog_is_well_formed(&catalog));
    catalog.insert(election_key("org1", 2), election(2, 3, 2));
    assert!(catalog_is_well_formed(&catalog));
}

#[test]
fn audit_of_the_counters() {
    let mut catalog: Table<ElectionKey, Election> = Table::new();
    let mut registry: Table<AccountId, u128> = Table::new();
    assert!(counters_are_covered(&registry, &catalog));
    registry.insert(id("org1"), 0);
    assert!(counters_are_covered(&registry, &catalog));
    registry.insert(id("org1"), 2);
    assert!(!counters_are_covered(&registry, &catalog));
    catalog.insert(election_key("org1", 1), election(1, 2, 2));
    assert!(!counters_are_covered(&registry, &catalog));
    catalog.insert(election_key("org2", 0), election(1, 2, 2));
    assert!(!counters_are_covered(&registry, &catalog));
    catalog.insert(election_key("org1", 0), election(1, 2, 2));
    assert!(counters_are_covered(&registry, &catalog));
    registry.insert(id("org2"), 1);
    assert!(counters_are_covered(&registry, &catalog));
    registry.insert(id("org2"), 2);
    assert!(!counters_are_covered(&registry, &catalog));
}

#[test]
fn audit_of_the_votes() {
    let mut votes: Table<TallyKey, u128> = Table::new();
    let mut voters: Table<VoterKey, ()> = Table::new();
    assert!(votes_are_conserved(&votes, &voters));
    assert_eq!(count_voters(&voters, &id("org1"), 0), 0);

    voters.insert(voter_key("org1", 0, "ann"), ());
    voters.insert(voter_key("org1", 0, "bob"), ());
    voters.insert(voter_key("org1", 1, "ann"), ());
    voters.insert(voter_key("org2", 0, "ann"), ());
    assert_eq!(count_voters(&voters, &id("org1"), 0), 2);
    assert_eq!(count_voters(&voters, &id("org1"), 1), 1);
    assert_eq!(count_voters(&voters, &id("org2"), 0), 1);
    assert_eq!(count_voters(&voters, &id("org2"), 1), 0);
    assert!(!votes_are_conserved(&votes, &voters));

    votes.insert(tally_key("org1", 0, 3), 2);
    votes.insert(tally_key("org1", 1, 0), 1);
    assert!(election_is_conserved(&votes, &voters, &id("org1"), 0));
    assert!(election_is_conserved(&votes, &voters, &id("org1"), 1));
    assert!(!election_is_conserved(&votes, &voters, &id("org2"), 0));
    assert!(election_is_conserved(&votes, &voters, &id("org2"), 1));
    assert!(!votes_are_conserved(&votes, &voters));

    votes.insert(tally_key("org2", 0, 255), 1);
    assert!(votes_are_conserved(&votes, &voters));

    votes.insert(tally_key("org1", 0, 4), 1);
    votes.insert(tally_key("org1", 0, 3), 1);
    assert!(votes_are_conserved(&votes, &voters));
    votes.insert(tally_key("org1", 0, 3), 0);
    assert!(!votes_are_conserved(&votes, &voters));
}
