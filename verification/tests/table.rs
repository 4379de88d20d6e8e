use elections::keys::{ElectionKey, TallyKey, VoterKey};
use elections::table::{Table, TableKey};
use elections::AccountId;

fn id(name: &str) -> AccountId {
    AccountId::new(name.to_string())
}

#[test]
fn empty_table_holds_nothing() {
    let table: Table<AccountId, u128> = Table::new();
    assert_eq!(table.get(&id("org1")), None);
    assert!(!table.contains_key(&id("org1")));
}

#[test]
fn insert_then_get() {
    let mut table: Table<AccountId, u128> = Table::new();
    table.insert(id("org1"), 3);
    table.insert(id("org2"), 5);
    assert_eq!(table.get(&id("org1")), Some(&3));
    assert_eq!(table.get(&id("org2")), Some(&5));
    assert_eq!(table.get(&id("org3")), None);
    assert!(table.contains_key(&id("org2")));
    assert!(!table.contains_key(&id("org")));
}

#[test]
fn insert_replaces_the_value_of_a_stored_key() {
    let mut table: Table<AccountId, u128> = Table::new();
    table.insert(id("org1"), 3);
    table.insert(id("org2"), 5);
    table.insert(id("org1"), 4);
    assert_eq!(table.get(&id("org1")), Some(&4));
    assert_eq!(table.get(&id("org2")), Some(&5));
    table.insert(id("org2"), 0);
    assert_eq!(table.get(&id("org1")), Some(&4));
    assert_eq!(table.get(&id("org2")), Some(&0));
}

#[test]
fn keys_are_the_same_when_every_part_is() {
    let key = |org: &str, n: u128| ElectionKey { organization: id(org), id: n };
    assert!(key("org1", 1).same_key(&key("org1", 1)));
    assert!(!key("org1", 1).same_key(&key("org1", 2)));
    assert!(!key("org1", 1).same_key(&key("org2", 1)));

    let tally = |org: &str, n: u128, c: u8| TallyKey { organization: id(org), id: n, candidate: c };
    assert!(tally("org1", 1, 7).same_key(&tally("org1", 1, 7)));
    assert!(!tally("org1", 1, 7).same_key(&tally("org1", 1, 8)));
    assert!(!tally("org1", 1, 7).same_key(&tally("org1", 0, 7)));
    assert!(!tally("org1", 1, 7).same_key(&tally("org", 1, 7)));

    let voter = |org: &str, n: u128, v: &str| VoterKey { organization: id(org), id: n, voter: id(v) };
    assert!(voter("org1", 1, "bob").same_key(&voter("org1", 1, "bob")));
    assert!(!voter("org1", 1, "bob").same_key(&voter("org1", 1, "carol")));
    assert!(!voter("org1", 1, "bob").same_key(&voter("org1", 2, "bob")));
    assert!(!voter("org1", 1, "bob").same_key(&voter("org2", 1, "bob")));

    assert!(id("bob").same_key(&id("bob")));
    assert!(!id("bob").same_key(&id("carol")));
}

#[test]
fn table_of_composite_keys() {
    let mut table: Table<TallyKey, u128> = Table::new();
    for candidate in 0..=255u8 {
        table.insert(TallyKey { organization: id("org1"), id: 0, candidate }, candidate as u128);
    }
    table.insert(TallyKey { organization: id("org1"), id: 1, candidate: 9 }, 1000);
    for candidate in 0..=255u8 {
        let key = TallyKey { organization: id("org1"), id: 0, candidate };
        assert_eq!(table.get(&key), Some(&(candidate as u128)));
    }
    assert_eq!(table.get(&TallyKey { organization: id("org1"), id: 1, candidate: 9 }), Some(&1000));
    assert_eq!(table.get(&TallyKey { organization: id("org1"), id: 1, candidate: 8 }), None);
    assert_eq!(table.get(&TallyKey { organization: id("org2"), id: 0, candidate: 9 }), None);
}
