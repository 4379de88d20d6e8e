//! Principal identifiers.

use vstd::prelude::*;
use vstd::string::*;

verus! {

/// The name of a principal: the owner, an organization or a voter.
///
/// The ledger never inspects a name. It only asks whether two names are the
/// same, so the view of an identifier is the text it was made from.
#[derive(Debug, PartialEq, Eq)]
pub struct AccountId {
    name: String,
}

impl View for AccountId {
    type V = Seq<char>;

    closed spec fn view(&self) -> Seq<char> {
        self.name@
    }
}

impl Clone for AccountId {
    fn clone(&self) -> (copy: Self)
        ensures
            copy@ == self@,
    {
        AccountId { name: self.name.clone() }
    }
}

impl AccountId {
    /// Makes an identifier from a name, taken as it is.
    pub fn new(name: String) -> (id: Self)
        ensures
            id@ == name@,
    {
        AccountId { name }
    }

    /// The name as text.
    pub fn as_str(&self) -> (name: &str)
        ensures
            name@ == self@,
    {
        self.name.as_str()
    }

    /// Whether `self` and `other` name the same principal.
    pub fn same(&self, other: &AccountId) -> (equal: bool)
        ensures
            equal == (self@ == other@),
    {
        self.name == other.name
    }
}

} // verus!
