use vstd::prelude::*;
use crate::coin::{Coin, Coins};
use crate::types::Addr;

verus! {

/// What the bank contract's transfer entry point is asked to do.
#[derive(Debug, Clone)]
pub struct TransferMsg {
    pub from: Addr,
    pub to: Addr,
    pub coins: Coins,
}

/// A question to the bank contract.
#[derive(Debug, Clone)]
pub enum BankQuery {
    Balance { address: Addr, denom: String },
    Balances { address: Addr, start_after: Option<String>, limit: Option<u32> },
    Supply { denom: String },
    Supplies { start_after: Option<String>, limit: Option<u32> },
}

/// The bank contract's answer to a `BankQuery`.
#[derive(Debug, Clone)]
pub enum BankQueryResponse {
    Balance(Coin),
    Balances(Coins),
    Supply(Coin),
    Supplies(Coins),
}

} // verus!
