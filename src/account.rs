use vstd::prelude::*;
use crate::error::AppError;
use crate::execute::{contract_call, contract_ready, is_call_of, is_contract_error, Payload, Run};
use crate::registry::{chain_id_key, load_chain_id};
use crate::storage::Storage;
use crate::types::{Addr, BlockInfo, EntryPoint, Tx};

verus! {

/// The one call of a transaction hook: `entry` of the sender's account, with
/// no caller and no funds, handed the transaction.
pub open spec fn is_hook_run(run: Run, m: Map<Seq<u8>, Seq<u8>>, block: BlockInfo, tx: Tx, entry: EntryPoint) -> bool {
    &&& run.wf()
    &&& run.position() == 0
    &&& run.events().len() == 0
    &&& run.calls().len() == 1
    &&& is_call_of(run.calls()[0], m, block, entry, tx.sender@, None)
    &&& run.calls()[0].ctx.funds is None
    &&& run.calls()[0].payload == Payload::Tx(tx)
}

/// `e` is why the sender's hook cannot be called.
pub open spec fn is_hook_error(e: AppError, m: Map<Seq<u8>, Seq<u8>>, tx: Tx) -> bool {
    if !m.contains_key(chain_id_key()) {
        e == AppError::ChainIdNotFound
    } else {
        is_contract_error(e, m, tx.sender@)
    }
}

fn hook(store: &Storage, block: &BlockInfo, tx: Tx, entry: EntryPoint) -> (r: Result<Run, AppError>)
    requires
        store.wf(),
    ensures
        r is Ok == (store@.contains_key(chain_id_key()) && contract_ready(store@, tx.sender@)),
        r matches Ok(run) ==> is_hook_run(run, store@, *block, tx, entry),
        r matches Err(e) ==> is_hook_error(e, store@, tx),
{
    let chain_id = load_chain_id(store)?;
    let sender: Addr = tx.sender;
    let req = contract_call(store, block, &chain_id, entry, sender, None, None, Payload::Tx(tx))?;
    let mut calls = Vec::new();
    calls.push(req);
    Ok(Run::new(calls))
}

/// The call of the sender's `before_tx` entry point, made before any of the
/// transaction's messages.
pub fn before_tx(store: &Storage, block: &BlockInfo, tx: Tx) -> (r: Result<Run, AppError>)
    requires
        store.wf(),
    ensures
        r is Ok == (store@.contains_key(chain_id_key()) && contract_ready(store@, tx.sender@)),
        r matches Ok(run) ==> is_hook_run(run, store@, *block, tx, EntryPoint::BeforeTx),
        r matches Err(e) ==> is_hook_error(e, store@, tx),
{
    hook(store, block, tx, EntryPoint::BeforeTx)
}

/// The call of the sender's `after_tx` entry point, made after the
/// transaction's messages.
pub fn after_tx(store: &Storage, block: &BlockInfo, tx: Tx) -> (r: Result<Run, AppError>)
    requires
        store.wf(),
    ensures
        r is Ok == (store@.contains_key(chain_id_key()) && contract_ready(store@, tx.sender@)),
        r matches Ok(run) ==> is_hook_run(run, store@, *block, tx, EntryPoint::AfterTx),
        r matches Err(e) ==> is_hook_error(e, store@, tx),
{
    hook(store, block, tx, EntryPoint::AfterTx)
}

/// A hook run whose call succeeded, with no submessages, holds exactly one
/// event: from the sender, tagged with the hook.
pub proof fn lemma_hook_single_event(
    start: Run,
    end: Run,
    m: Map<Seq<u8>, Seq<u8>>,
    block: BlockInfo,
    tx: Tx,
    entry: EntryPoint,
)
    requires
        is_hook_run(start, m, block, tx, entry),
        end.calls() == start.calls(),
        end.events().len() == start.events().len() + 1,
        end.events().last().contract == start.calls()[start.position()].ctx.contract,
        end.events().last().kind == start.calls()[start.position()].entry,
    ensures
        end.events().len() == 1,
        end.events()[0].contract@ == tx.sender@,
        end.events()[0].kind == entry,
{
}

} // verus!
