use cw_engine::account::{after_tx, before_tx};
use cw_engine::coin::{Coin, Coins};
use cw_engine::error::{AppError, VmError};
use cw_engine::execute::{
    apply_outcome, process_msg, scoped_get, CallRequest, GuestOutput, Payload, Run,
};
use cw_engine::hash::{derive_address, hash};
use cw_engine::registry::{
    contract_key_of, create_account, has_code, load_account, load_code, store_code,
    CHAIN_ID_TAG, CONFIG_TAG,
};
use cw_engine::storage::{Storage, Write};
use cw_engine::types::{
    Account, Addr, Attribute, BlockInfo, EntryPoint, Hash256, Message, Response, SubMessage,
    ReplyOn, Tx,
};

fn addr(b: u8) -> Addr {
    Addr([b; 32])
}

fn block() -> BlockInfo {
    BlockInfo { height: 7, timestamp: 1_000, hash: Hash256([9; 32]) }
}

const BANK_CODE: &[u8] = b"bank bytecode";
const TOKEN_CODE: &[u8] = b"token bytecode";

/// A store with a chain identifier, a bank, and token code stored.
fn genesis() -> (Storage, Addr, Hash256) {
    let mut store = Storage::new();
    store.set(&[CHAIN_ID_TAG], b"dev-1");
    let bank_hash = store_code(&mut store, BANK_CODE).unwrap();
    let bank = addr(0xbb);
    create_account(&mut store, &bank, &Account { code_hash: bank_hash, admin: None }).unwrap();
    store.set(&[CONFIG_TAG], &bank.0);
    let token_hash = store_code(&mut store, TOKEN_CODE).unwrap();
    (store, bank, token_hash)
}

fn ok_output(writes: Vec<Write>) -> Result<GuestOutput, VmError> {
    Ok(GuestOutput { result: Ok(Response { attributes: vec![], submsgs: vec![] }), writes })
}

fn set(key: &[u8], value: &[u8]) -> Write {
    Write { key: key.to_vec(), value: Some(value.to_vec()) }
}

/// Runs every call of `run`, answering each with `sandbox`.
fn drive(
    store: &mut Storage,
    mut run: Run,
    mut sandbox: impl FnMut(&Storage, &CallRequest) -> Result<GuestOutput, VmError>,
) -> Result<Run, AppError> {
    loop {
        let out = match run.next_call() {
            Some(req) => sandbox(&*store, req),
            None => return Ok(run),
        };
        run.finish_call(store, out)?;
    }
}

/// A bank that records each transfer as the balance `to ++ denom` in its
/// storage.
fn bank_sandbox(store: &Storage, req: &CallRequest) -> Vec<Write> {
    match &req.payload {
        Payload::Transfer(t) => {
            let mut writes = Vec::new();
            for c in t.coins.clone().into_vec() {
                let mut key = t.to.0.to_vec();
                key.extend_from_slice(c.denom.as_bytes());
                let old = scoped_get(store, &req.ctx.contract, &key)
                    .map(|v| u128::from_be_bytes(v.try_into().unwrap()))
                    .unwrap_or(0);
                writes.push(set(&key, &(old + c.amount).to_be_bytes()));
            }
            writes
        },
        _ => vec![],
    }
}

#[test]
fn store_code_twice_fails_and_load_returns_bytes() {
    let (mut store, _, _) = genesis();
    let blob = b"some wasm".to_vec();
    let h = store_code(&mut store, &blob).unwrap();
    assert_eq!(h, hash(&blob));
    assert!(has_code(&store, &h));
    assert_eq!(load_code(&store, &h).unwrap(), blob);
    let before = store.clone();
    match store_code(&mut store, &blob) {
        Err(AppError::CodeAlreadyExists { code_hash }) => assert_eq!(code_hash, h),
        other => panic!("unexpected {:?}", other),
    }
    assert_eq!(format!("{:?}", store), format!("{:?}", before));
    assert!(matches!(load_code(&store, &Hash256([0; 32])), Err(AppError::CodeNotFound { .. })));
}

#[test]
fn store_code_message_stores_and_plans_nothing() {
    let (mut store, _, _) = genesis();
    let run = process_msg(&mut store, &block(), &addr(1), Message::StoreCode {
        wasm_byte_code: b"abc".to_vec(),
    })
    .unwrap();
    assert!(run.next_call().is_none());
    assert!(has_code(&store, &hash(b"abc")));
    assert!(process_msg(&mut store, &block(), &addr(1), Message::StoreCode {
        wasm_byte_code: b"abc".to_vec(),
    })
    .is_err());
}

#[test]
fn sha256_digest_is_the_real_one() {
    // SHA-256 of the empty string
    let h = hash(b"");
    assert_eq!(h.0[0], 0xe3);
    assert_eq!(h.0[1], 0xb0);
    assert_eq!(h.0[31], 0x55);
}

#[test]
fn derive_is_deterministic_and_input_sensitive() {
    let d = addr(1);
    let h = Hash256([2; 32]);
    let a1 = derive_address(&d, &h, b"salt");
    let a2 = derive_address(&d, &h, b"salt");
    assert_eq!(a1, a2);
    assert_ne!(a1, derive_address(&addr(3), &h, b"salt"));
    assert_ne!(a1, derive_address(&d, &Hash256([4; 32]), b"salt"));
    assert_ne!(a1, derive_address(&d, &h, b"salt2"));
    assert_ne!(a1, d);
}

#[test]
fn instantiate_twice_fails_and_keeps_first_account() {
    let (mut store, _, token) = genesis();
    let sender = addr(1);
    let msg = || Message::Instantiate {
        code_hash: token,
        msg: b"{}".to_vec(),
        salt: b"s".to_vec(),
        funds: Coins::empty(),
        admin: Some(addr(2)),
    };
    let run = process_msg(&mut store, &block(), &sender, msg()).unwrap();
    let address = derive_address(&sender, &token, b"s");
    let req = run.next_call().unwrap();
    assert_eq!(req.entry, EntryPoint::Instantiate);
    assert_eq!(req.ctx.contract, address);
    assert_eq!(req.ctx.sender, Some(sender));
    assert_eq!(req.code, TOKEN_CODE.to_vec());
    let first = load_account(&store, &address).unwrap();
    assert_eq!(first, Account { code_hash: token, admin: Some(addr(2)) });
    match process_msg(&mut store, &block(), &sender, msg()) {
        Err(AppError::AccountAlreadyExists { address: a }) => assert_eq!(a, address),
        other => panic!("unexpected {:?}", other.map(|_| ())),
    }
    assert_eq!(load_account(&store, &address).unwrap(), first);
}

#[test]
fn instantiate_missing_code_fails() {
    let (mut store, _, _) = genesis();
    let r = process_msg(&mut store, &block(), &addr(1), Message::Instantiate {
        code_hash: Hash256([0; 32]),
        msg: vec![],
        salt: vec![],
        funds: Coins::empty(),
        admin: None,
    });
    assert!(matches!(r, Err(AppError::CodeNotFound { .. })));
}

#[test]
fn scoped_writes_are_prefixed_and_isolated() {
    let (mut store, _, _) = genesis();
    let a = addr(0xa1);
    let b = addr(0xb2);
    let req = CallRequest {
        entry: EntryPoint::Execute,
        code: vec![],
        ctx: cw_engine::types::Context {
            chain_id: b"dev-1".to_vec(),
            block_height: 1,
            block_timestamp: 1,
            block_hash: Hash256([0; 32]),
            contract: a,
            sender: None,
            funds: None,
            simulate: Some(false),
        },
        payload: Payload::Msg(vec![]),
    };
    let ev = apply_outcome(&mut store, &req, ok_output(vec![set(b"k", b"v")])).unwrap();
    assert_eq!(ev.contract, a);
    assert_eq!(scoped_get(&store, &a, b"k"), Some(b"v".to_vec()));
    assert_eq!(scoped_get(&store, &b, b"k"), None);
    assert_eq!(store.get(b"k"), None);
    let raw = contract_key_of(&a, b"k");
    assert_eq!(raw[0], 0x77);
    assert_eq!(&raw[1..33], &a.0[..]);
    assert_eq!(&raw[33..], b"k");
    assert_eq!(store.get(&raw), Some(b"v".to_vec()));
}

#[test]
fn funds_move_before_instantiate_runs() {
    let (mut store, bank, token) = genesis();
    let sender = addr(1);
    let funds = Coins::from_str("uatom:100").unwrap();
    let run = process_msg(&mut store, &block(), &sender, Message::Instantiate {
        code_hash: token,
        msg: vec![],
        salt: vec![],
        funds,
        admin: None,
    })
    .unwrap();
    let address = derive_address(&sender, &token, b"");
    let mut seen = Vec::new();
    let mut observed = None;
    let run = drive(&mut store, run, |store, req| {
        seen.push(req.entry);
        if req.entry == EntryPoint::Transfer {
            assert_eq!(req.ctx.contract, bank);
            assert_eq!(req.code, BANK_CODE.to_vec());
            ok_output(bank_sandbox(store, req))
        } else {
            let mut key = address.0.to_vec();
            key.extend_from_slice(b"uatom");
            observed = scoped_get(store, &bank, &key);
            assert_eq!(req.ctx.funds.as_ref().unwrap().amount_of("uatom"), 100);
            ok_output(vec![])
        }
    })
    .unwrap();
    assert_eq!(seen, vec![EntryPoint::Transfer, EntryPoint::Instantiate]);
    assert_eq!(observed, Some(100u128.to_be_bytes().to_vec()));
    assert_eq!(run.into_events().len(), 2);
}

#[test]
fn execute_with_funds_transfers_first() {
    let (mut store, _, token) = genesis();
    let sender = addr(1);
    let run = process_msg(&mut store, &block(), &sender, Message::Instantiate {
        code_hash: token,
        msg: vec![],
        salt: vec![],
        funds: Coins::empty(),
        admin: None,
    })
    .unwrap();
    let contract = derive_address(&sender, &token, b"");
    drive(&mut store, run, |_, _| ok_output(vec![])).unwrap();
    let run = process_msg(&mut store, &block(), &sender, Message::Execute {
        contract,
        msg: b"go".to_vec(),
        funds: Coins::from_str("uatom:5").unwrap(),
    })
    .unwrap();
    let req = run.next_call().unwrap();
    assert_eq!(req.entry, EntryPoint::Transfer);
    match &req.payload {
        Payload::Transfer(t) => {
            assert_eq!(t.from, sender);
            assert_eq!(t.to, contract);
            assert_eq!(t.coins.amount_of("uatom"), 5);
        },
        _ => panic!("not a transfer"),
    }
    // no funds: the entry point is the only call
    let run = process_msg(&mut store, &block(), &sender, Message::Execute {
        contract,
        msg: b"go".to_vec(),
        funds: Coins::empty(),
    })
    .unwrap();
    assert_eq!(run.next_call().unwrap().entry, EntryPoint::Execute);
    // unknown contract
    assert!(matches!(
        process_msg(&mut store, &block(), &sender, Message::Execute {
            contract: addr(0x55),
            msg: vec![],
            funds: Coins::empty(),
        }),
        Err(AppError::AccountNotFound { .. })
    ));
}

#[test]
fn transfer_message_calls_the_bank() {
    let (mut store, bank, _) = genesis();
    let coins = Coins::from_vec_unchecked(vec![Coin { denom: "uatom".to_string(), amount: 3 }]);
    let run = process_msg(&mut store, &block(), &addr(1), Message::Transfer { to: addr(2), coins })
        .unwrap();
    let req = run.next_call().unwrap();
    assert_eq!(req.entry, EntryPoint::Transfer);
    assert_eq!(req.ctx.contract, bank);
    assert_eq!(req.ctx.sender, None);
    assert_eq!(req.ctx.chain_id, b"dev-1".to_vec());
    let mut bare = Storage::new();
    assert!(matches!(
        process_msg(&mut bare, &block(), &addr(1), Message::Transfer {
            to: addr(2),
            coins: Coins::empty()
        }),
        Err(AppError::ChainIdNotFound)
    ));
}

fn account_setup() -> (Storage, Tx) {
    let (mut store, _, token) = genesis();
    let sender = addr(0x42);
    create_account(&mut store, &sender, &Account { code_hash: token, admin: None }).unwrap();
    (store, Tx { sender, msgs: vec![] })
}

#[test]
fn hooks_produce_one_event_each() {
    let (mut store, tx) = account_setup();
    let attrs = vec![Attribute { key: "k".to_string(), value: "v".to_string() }];
    for (run, kind) in [
        (before_tx(&store, &block(), tx.clone()).unwrap(), EntryPoint::BeforeTx),
        (after_tx(&store, &block(), tx.clone()).unwrap(), EntryPoint::AfterTx),
    ] {
        let req = run.next_call().unwrap();
        assert_eq!(req.entry, kind);
        assert_eq!(req.ctx.sender, None);
        assert!(req.ctx.funds.is_none());
        assert_eq!(req.ctx.simulate, Some(false));
        let run = drive(&mut store, run, |_, _| {
            Ok(GuestOutput {
                result: Ok(Response { attributes: attrs.clone(), submsgs: vec![] }),
                writes: vec![],
            })
        })
        .unwrap();
        let events = run.into_events();
        assert_eq!(events.len(), 1);
        assert_eq!(events[0].contract, tx.sender);
        assert_eq!(events[0].kind, kind);
        assert_eq!(events[0].attributes.len(), 1);
    }
}

#[test]
fn hook_failure_is_surfaced() {
    let (mut store, tx) = account_setup();
    let run = before_tx(&store, &block(), tx.clone()).unwrap();
    let r = drive(&mut store, run, |_, _| {
        Ok(GuestOutput { result: Err("rejected".to_string()), writes: vec![set(b"x", b"y")] })
    });
    assert!(matches!(r, Err(AppError::Guest(m)) if m == "rejected"));
    assert_eq!(scoped_get(&store, &tx.sender, b"x"), None);
    let run = before_tx(&store, &block(), tx.clone()).unwrap();
    let r = drive(&mut store, run, |_, _| {
        Ok(GuestOutput {
            result: Ok(Response {
                attributes: vec![],
                submsgs: vec![SubMessage {
                    msg: Message::StoreCode { wasm_byte_code: vec![] },
                    reply_on: ReplyOn::Never,
                }],
            }),
            writes: vec![],
        })
    });
    assert!(matches!(r, Err(AppError::UnexpectedSubmessages)));
    let unknown = Tx { sender: addr(0x99), msgs: vec![] };
    assert!(matches!(after_tx(&store, &block(), unknown), Err(AppError::AccountNotFound { .. })));
}

#[test]
fn gas_depletion_discards_writes() {
    let (mut store, tx) = account_setup();
    let run = before_tx(&store, &block(), tx.clone()).unwrap();
    let r = drive(&mut store, run, |_, _| Err(VmError::GasDepletion));
    assert!(matches!(r, Err(AppError::Vm(VmError::GasDepletion))));
    assert_eq!(scoped_get(&store, &tx.sender, b"x"), None);
}

#[test]
fn read_only_call_may_not_write() {
    let (mut store, tx) = account_setup();
    let run = before_tx(&store, &block(), tx.clone()).unwrap();
    let mut req = run.next_call().unwrap().clone();
    req.ctx.simulate = Some(true);
    let r = apply_outcome(&mut store, &req, ok_output(vec![set(b"x", b"y")]));
    assert!(matches!(r, Err(AppError::Vm(VmError::ReadOnly))));
    assert_eq!(scoped_get(&store, &tx.sender, b"x"), None);
    assert!(apply_outcome(&mut store, &req, ok_output(vec![])).is_ok());
}

#[test]
fn writes_apply_in_order_and_remove() {
    let (mut store, tx) = account_setup();
    let run = before_tx(&store, &block(), tx.clone()).unwrap();
    drive(&mut store, run, |_, _| {
        ok_output(vec![
            set(b"a", b"1"),
            set(b"a", b"2"),
            set(b"b", b"3"),
            Write { key: b"b".to_vec(), value: None },
        ])
    })
    .unwrap();
    assert_eq!(scoped_get(&store, &tx.sender, b"a"), Some(b"2".to_vec()));
    assert_eq!(scoped_get(&store, &tx.sender, b"b"), None);
}
