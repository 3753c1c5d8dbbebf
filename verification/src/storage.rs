//! Storage accounting: what a change of the accounted state costs, and how a
//! call's deposit is settled against it.

use vstd::prelude::*;
use crate::error::LedgerError;

verus! {

/// The price of one byte of state that the protocol fixes, in the smallest
/// unit of the native currency.
pub const PROTOCOL_BYTE_COST: u128 = 10_000_000_000_000_000_000;

/// `near_sdk::env::storage_byte_cost`, as a plain number of the smallest unit.
/// The function returns a constant amount; the contract states that constant.
#[verifier::external_body]
fn storage_byte_cost() -> (price: u128)
    ensures
        price == PROTOCOL_BYTE_COST,
{
    near_sdk::env::storage_byte_cost().as_yoctonear()
}

/// How the money of one call is split.
#[derive(Clone, Copy, Debug, PartialEq, Eq, Structural)]
pub struct Settlement {
    /// Kept from the attached deposit to pay for new storage.
    pub charged: u128,
    /// Handed back to the caller out of the attached deposit.
    pub refunded: u128,
    /// Paid to the caller out of the contract's balance for storage set free.
    pub released: u128,
}

/// Growth of the state from `before` to `after`, negative where it shrank.
pub open spec fn spec_measure(before: u64, after: u64) -> int {
    after as int - before as int
}

/// The number of bytes that changed, whichever the direction.
pub open spec fn spec_magnitude(delta: int) -> nat {
    if delta >= 0 {
        delta as nat
    } else {
        (-delta) as nat
    }
}

/// The amount that `delta` bytes are worth at `byte_cost` a byte.
pub open spec fn spec_cost(byte_cost: u128, delta: int) -> nat {
    spec_magnitude(delta) * (byte_cost as nat)
}

/// The outcome of settling a change of `delta` bytes against the deposit
/// `attached`: growth is charged, the rest of the deposit goes back; bytes set
/// free are paid for out of the contract's balance and the deposit goes back
/// whole.
pub open spec fn spec_settlement(byte_cost: u128, attached: u128, delta: int) -> Result<
    Settlement,
    LedgerError,
> {
    let cost = spec_cost(byte_cost, delta);
    if cost > u128::MAX {
        Err(LedgerError::ResourceExhausted)
    } else if delta > 0 {
        if attached < cost {
            Err(LedgerError::InsufficientDeposit)
        } else {
            Ok(
                Settlement {
                    charged: cost as u128,
                    refunded: (attached - cost) as u128,
                    released: 0,
                },
            )
        }
    } else {
        Ok(Settlement { charged: 0, refunded: attached, released: cost as u128 })
    }
}

/// Prices changes of the accounted state.
#[derive(Clone, Copy, Debug, PartialEq, Eq, Structural)]
pub struct StorageAccountant {
    /// Price of one byte.
    pub byte_cost: u128,
}

impl StorageAccountant {
    /// An accountant that prices a byte at `byte_cost`.
    pub fn new(byte_cost: u128) -> (accountant: Self)
        ensures
            accountant.byte_cost == byte_cost,
    {
        StorageAccountant { byte_cost }
    }

    /// An accountant that prices a byte as the protocol does.
    pub fn at_protocol_price() -> (accountant: Self)
        ensures
            accountant.byte_cost == PROTOCOL_BYTE_COST,
    {
        StorageAccountant { byte_cost: storage_byte_cost() }
    }

    /// Growth of the state between two readings of its size.
    pub fn measure(before: u64, after: u64) -> (delta: i128)
        ensures
            delta == spec_measure(before, after),
    {
        after as i128 - before as i128
    }

    /// The amount that a change of `delta` bytes is worth. Fails with
    /// `ResourceExhausted` exactly when that amount does not fit in 128 bits.
    pub fn cost(&self, delta: i128) -> (amount: Result<u128, LedgerError>)
        ensures
            match amount {
                Ok(a) => a == spec_cost(self.byte_cost, delta as int),
                Err(e) => e == LedgerError::ResourceExhausted && spec_cost(
                    self.byte_cost,
                    delta as int,
                ) > u128::MAX,
            },
    {
        let bytes: u128 = if delta >= 0 {
            delta as u128
        } else if delta == i128::MIN {
            0x8000_0000_0000_0000_0000_0000_0000_0000u128
        } else {
            (-delta) as u128
        };
        match bytes.checked_mul(self.byte_cost) {
            Some(a) => Ok(a),
            None => Err(LedgerError::ResourceExhausted),
        }
    }

    /// Splits the deposit `attached` into what is kept and what goes back.
    /// Fails with `InsufficientDeposit` exactly when `attached < required`.
    pub fn settle(attached: u128, required: u128) -> (split: Result<(u128, u128), LedgerError>)
        ensures
            match split {
                Ok((accepted, refund)) => attached >= required && accepted == required && refund
                    == attached - required,
                Err(e) => e == LedgerError::InsufficientDeposit && attached < required,
            },
    {
        if attached < required {
            Err(LedgerError::InsufficientDeposit)
        } else {
            Ok((required, attached - required))
        }
    }

    /// Settles a change of `delta` bytes against the deposit `attached`.
    pub fn settle_delta(&self, attached: u128, delta: i128) -> (outcome: Result<
        Settlement,
        LedgerError,
    >)
        ensures
            outcome == spec_settlement(self.byte_cost, attached, delta as int),
    {
        let cost = match self.cost(delta) {
            Ok(c) => c,
            Err(e) => { return Err(e); },
        };
        if delta > 0 {
            match Self::settle(attached, cost) {
                Ok((accepted, refund)) => Ok(
                    Settlement { charged: accepted, refunded: refund, released: 0 },
                ),
                Err(e) => Err(e),
            }
        } else {
            Ok(Settlement { charged: 0, refunded: attached, released: cost })
        }
    }
}

/// What is charged for growing from `before` to `after` is what is paid back
/// for shrinking from `after` to `before`, at the same price.
pub proof fn lemma_cost_round_trip(byte_cost: u128, before: u64, after: u64)
    ensures
        spec_cost(byte_cost, spec_measure(before, after)) == spec_cost(
            byte_cost,
            spec_measure(after, before),
        ),
{
}

/// A settlement never loses money: what is charged and what is refunded add up
/// to the deposit.
pub proof fn lemma_settlement_conserves_deposit(byte_cost: u128, attached: u128, delta: int)
    ensures
        match spec_settlement(byte_cost, attached, delta) {
            Ok(s) => s.charged + s.refunded == attached,
            Err(_) => true,
        },
{
}

} // verus!
