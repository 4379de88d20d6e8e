//! The flat fee charged for creating an election.

use vstd::prelude::*;

verus! {

/// Price of creating one election, in whole tokens.
pub const CREATE_ELECTION_COST: u128 = 1;

/// Number of indivisible units in one whole token: ten to the power 24.
pub const YOCTO_PER_TOKEN: u128 = 1_000_000_000_000_000_000_000_000;

/// The amount, in indivisible units, that a call creating an election must carry.
pub open spec fn required_payment() -> u128 {
    1_000_000_000_000_000_000_000_000
}

/// Converts whole tokens to indivisible units.
pub fn to_yocto(n: u128) -> (amount: u128)
    requires
        n * YOCTO_PER_TOKEN <= u128::MAX,
    ensures
        amount == n * YOCTO_PER_TOKEN,
{
    n * YOCTO_PER_TOKEN
}

/// The payment that `create_election` insists on.
pub fn creation_fee() -> (amount: u128)
    ensures
        amount == required_payment(),
{
    to_yocto(CREATE_ELECTION_COST)
}

} // verus!
