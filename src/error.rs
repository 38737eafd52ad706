use vstd::prelude::*;
use crate::types::{Addr, Hash256};

verus! {

/// Why a list of coins was rejected.
#[derive(Debug, Clone, Copy, PartialEq, Eq, Structural)]
pub enum ParseCoinsError {
    /// A record is not of the form `denom:amount`.
    MissingColon,
    /// An amount is not a decimal `u128`.
    InvalidAmount,
    /// An amount is zero.
    ZeroAmount,
    /// A denomination occurs twice.
    DuplicateDenom,
}

/// Errors of the value types.
#[derive(Debug, Clone)]
pub enum StdError {
    DenomNotFound { denom: String },
    /// Adding to an amount would pass `u128::MAX`.
    Overflow { denom: String },
    /// Subtracting from an amount would go below zero.
    Underflow { denom: String },
    ParseCoins(ParseCoinsError),
}

/// Errors at the boundary between the host and a sandboxed contract.
#[derive(Debug, Clone)]
pub enum VmError {
    Std(StdError),
    FromUtf8(String),
    Export(String),
    MemoryAccess(String),
    Runtime(String),
    /// The bytecode failed to compile or instantiate.
    Instantiation(String),
    WasmerMemoryNotSet,
    WasmerMemoryAlreadySet,
    WasmerInstanceNotSet,
    WasmerInstanceAlreadySet,
    IteratorNotFound { iterator_id: i32 },
    RegionTooSmall { offset: u32, capacity: u32, data_len: u32 },
    ReturnCount { name: String, expect: usize, actual: usize },
    ReturnType(String),
    /// Gas ran out while calling an import function.
    ///
    /// Not to be confused with `GasDepletion`.
    OutOfGas { limit: u64, used: u64, comment: String },
    /// Gas ran out while executing the contract.
    ///
    /// Not to be confused with `OutOfGas`.
    GasDepletion,
    /// A storage write was made by a read-only instance.
    ReadOnly,
}

/// Errors of message processing.
#[derive(Debug, Clone)]
pub enum AppError {
    Std(StdError),
    Vm(VmError),
    /// The contract ran and returned an error of its own.
    Guest(String),
    CodeAlreadyExists { code_hash: Hash256 },
    CodeNotFound { code_hash: Hash256 },
    AccountAlreadyExists { address: Addr },
    AccountNotFound { address: Addr },
    /// A stored account record could not be decoded.
    CorruptAccount { address: Addr },
    ConfigNotFound,
    ChainIdNotFound,
    /// A contract asked for submessages where none can be run.
    UnexpectedSubmessages,
}

impl From<VmError> for AppError {
    fn from(err: VmError) -> (r: AppError)
        ensures
            r == AppError::Vm(err),
    {
        AppError::Vm(err)
    }
}

impl vstd::std_specs::convert::FromSpecImpl<VmError> for AppError {
    open spec fn obeys_from_spec() -> bool {
        true
    }

    open spec fn from_spec(v: VmError) -> AppError {
        AppError::Vm(v)
    }
}

impl From<StdError> for VmError {
    fn from(err: StdError) -> (r: VmError)
        ensures
            r == VmError::Std(err),
    {
        VmError::Std(err)
    }
}

impl vstd::std_specs::convert::FromSpecImpl<StdError> for VmError {
    open spec fn obeys_from_spec() -> bool {
        true
    }

    open spec fn from_spec(v: StdError) -> VmError {
        VmError::Std(v)
    }
}

} // verus!
