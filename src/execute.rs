use vstd::prelude::*;
use crate::bank::TransferMsg;
use crate::coin::Coins;
use crate::error::{AppError, VmError};
use crate::hash::{derive_address, derived_address, sha256_of};
use crate::registry::{
    account_bytes, account_key, lemma_account_bytes_injective, code_key, contract_key, create_account, is_account_encoding,
    has_account, load_account, load_bank, load_chain_id, load_code, store_code, store_code_spec,
    stored_account, chain_id_key, config_key,
};
use crate::storage::{apply_write, Storage, Write};
use crate::types::{
    Account, Addr, BlockInfo, Context, EntryPoint, Event, Hash256, Message, Response, Tx,
};
use crate::registry::contract_key_of;

verus! {

/// What an entry point is handed besides its context.
#[derive(Debug, Clone)]
pub enum Payload {
    Transfer(TransferMsg),
    Msg(Vec<u8>),
    Tx(Tx),
}

/// One call of an entry point, for the sandbox to make.
#[derive(Debug, Clone)]
pub struct CallRequest {
    pub entry: EntryPoint,
    pub code: Vec<u8>,
    pub ctx: Context,
    pub payload: Payload,
}

/// What a sandboxed call came back with: the contract's own result, and the
/// writes it made to its storage, in order.
#[derive(Debug)]
pub struct GuestOutput {
    pub result: Result<Response, String>,
    pub writes: Vec<Write>,
}

pub open spec fn write_value(w: Write) -> Option<Seq<u8>> {
    match w.value {
        Some(v) => Some(v@),
        None => None,
    }
}

/// `m` after contract `a` made the writes `ws`, each under its namespace.
pub open spec fn writes_applied(m: Map<Seq<u8>, Seq<u8>>, a: Seq<u8>, ws: Seq<Write>) -> Map<
    Seq<u8>,
    Seq<u8>,
>
    decreases ws.len(),
{
    if ws.len() == 0 {
        m
    } else {
        apply_write(writes_applied(m, a, ws.drop_last()), contract_key(a, ws.last().key@), write_value(ws.last()))
    }
}

/// What contract `a` sees of `m`: its own keys, without the prefix.
pub open spec fn scoped_view(m: Map<Seq<u8>, Seq<u8>>, a: Seq<u8>) -> Map<Seq<u8>, Seq<u8>> {
    Map::new(|k: Seq<u8>| m.contains_key(contract_key(a, k)), |k: Seq<u8>| m[contract_key(a, k)])
}

/// Whether a call of `req` may not write.
pub open spec fn is_read_only(ctx: Context) -> bool {
    ctx.simulate == Some(true)
}

/// A contract's writes reach only its own namespace: what any other contract
/// sees of the store is unchanged, and the raw store holds each write under the
/// writer's prefix.
pub proof fn lemma_writes_isolated(m: Map<Seq<u8>, Seq<u8>>, a: Addr, ws: Seq<Write>, b: Addr)
    requires
        a@ != b@,
    ensures
        scoped_view(writes_applied(m, a@, ws), b@) == scoped_view(m, b@),
        ws.len() > 0 ==> (writes_applied(m, a@, ws).contains_key(contract_key(a@, ws.last().key@))
            <==> ws.last().value is Some),
        ws.len() > 0 && ws.last().value is Some ==> writes_applied(m, a@, ws)[contract_key(
            a@,
            ws.last().key@,
        )] == write_value(ws.last())->Some_0,
    decreases ws.len(),
{
    if ws.len() > 0 {
        lemma_writes_isolated(m, a, ws.drop_last(), b);
        let prev = writes_applied(m, a@, ws.drop_last());
        let k = contract_key(a@, ws.last().key@);
        assert forall|x: Seq<u8>| contract_key(b@, x) != k by {
            if contract_key(b@, x) == k {
                assert(contract_key(b@, x).subrange(1, 33) =~= b@);
                assert(k.subrange(1, 33) =~= a@);
            }
        }
        assert(scoped_view(writes_applied(m, a@, ws), b@) =~= scoped_view(prev, b@));
    }
}

/// Reads key `key` of contract `contract`.
pub fn scoped_get(store: &Storage, contract: &Addr, key: &[u8]) -> (r: Option<Vec<u8>>)
    requires
        store.wf(),
    ensures
        r is Some == scoped_view(store@, contract@).contains_key(key@),
        r matches Some(v) ==> v@ == scoped_view(store@, contract@)[key@],
{
    store.get(contract_key_of(contract, key).as_slice())
}

/// Makes the writes `ws` of contract `contract`, in order.
pub fn apply_writes(store: &mut Storage, contract: &Addr, ws: &Vec<Write>)
    requires
        old(store).wf(),
    ensures
        final(store).wf(),
        final(store)@ == writes_applied(old(store)@, contract@, ws@),
{
    let mut i: usize = 0;
    while i < ws.len()
        invariant
            i <= ws@.len(),
            store.wf(),
            store@ == writes_applied(old(store)@, contract@, ws@.subrange(0, i as int)),
        decreases ws@.len() - i,
    {
        let key = contract_key_of(contract, ws[i].key.as_slice());
        match &ws[i].value {
            Some(v) => store.set(key.as_slice(), v.as_slice()),
            None => store.remove(key.as_slice()),
        }
        proof {
            assert(ws@.subrange(0, i + 1).drop_last() =~= ws@.subrange(0, i as int));
        }
        i = i + 1;
    }
    assert(ws@.subrange(0, ws@.len() as int) =~= ws@);
}

/// Whether an outcome is taken: the sandbox ran, the contract succeeded, asked
/// for no submessages, and wrote nothing if it was read-only.
pub open spec fn outcome_accepted(ctx: Context, outcome: Result<GuestOutput, VmError>) -> bool {
    &&& outcome matches Ok(out)
    &&& !(is_read_only(ctx) && out.writes@.len() > 0)
    &&& out.result matches Ok(resp)
    &&& resp.submsgs@.len() == 0
}

/// The error that a refused outcome gives.
pub open spec fn outcome_error(ctx: Context, outcome: Result<GuestOutput, VmError>) -> AppError {
    match outcome {
        Err(e) => AppError::Vm(e),
        Ok(out) => if is_read_only(ctx) && out.writes@.len() > 0 {
            AppError::Vm(VmError::ReadOnly)
        } else {
            match out.result {
                Err(msg) => AppError::Guest(msg),
                Ok(_) => AppError::UnexpectedSubmessages,
            }
        },
    }
}

/// Takes the outcome of a call of `req`. A call that failed, in the sandbox or
/// in the contract, leaves the store as it was; one that succeeded has its
/// writes made under the contract's namespace and gives one event.
pub fn apply_outcome(store: &mut Storage, req: &CallRequest, outcome: Result<GuestOutput, VmError>) -> (r: Result<Event, AppError>)
    requires
        old(store).wf(),
    ensures
        final(store).wf(),
        r is Ok == outcome_accepted(req.ctx, outcome),
        r matches Ok(ev) ==> outcome matches Ok(out) && out.result matches Ok(resp)
            && final(store)@ == writes_applied(old(store)@, req.ctx.contract@, out.writes@)
            && ev.contract == req.ctx.contract && ev.kind == req.entry
            && ev.attributes == resp.attributes,
        r is Err ==> final(store)@ == old(store)@,
        r matches Err(e) ==> e == outcome_error(req.ctx, outcome),
{
    let out = match outcome {
        Err(e) => return Err(AppError::Vm(e)),
        Ok(out) => out,
    };
    if req.ctx.simulate == Some(true) && out.writes.len() > 0 {
        return Err(AppError::Vm(VmError::ReadOnly));
    }
    let resp = match out.result {
        Err(msg) => return Err(AppError::Guest(msg)),
        Ok(resp) => resp,
    };
    if resp.submsgs.len() > 0 {
        return Err(AppError::UnexpectedSubmessages);
    }
    apply_writes(store, &req.ctx.contract, &out.writes);
    Ok(Event { contract: req.ctx.contract, kind: req.entry, attributes: resp.attributes })
}

} // verus!
verus! {

/// The sandbox calls that one message or hook needs, in order, and how far
/// they have gone.
#[derive(Debug)]
pub struct Run {
    calls: Vec<CallRequest>,
    next: usize,
    events: Vec<Event>,
}

impl Run {
    pub closed spec fn calls(&self) -> Seq<CallRequest> {
        self.calls@
    }

    /// How many calls have been made.
    pub closed spec fn position(&self) -> int {
        self.next as int
    }

    /// The events of the calls made so far.
    pub closed spec fn events(&self) -> Seq<Event> {
        self.events@
    }

    pub open spec fn wf(&self) -> bool {
        0 <= self.position() <= self.calls().len()
    }

    pub(crate) fn new(calls: Vec<CallRequest>) -> (r: Run)
        ensures
            r.wf(),
            r.calls() == calls@,
            r.position() == 0,
            r.events().len() == 0,
    {
        Run { calls, next: 0, events: Vec::new() }
    }

    /// The call to make next, if any is left.
    pub fn next_call(&self) -> (r: Option<&CallRequest>)
        requires
            self.wf(),
        ensures
            self.position() < self.calls().len() ==> r == Some(&self.calls()[self.position()]),
            self.position() == self.calls().len() ==> r is None,
    {
        if self.next < self.calls.len() {
            Some(&self.calls[self.next])
        } else {
            None
        }
    }

    /// Takes the outcome of the next call. On success the run moves on and
    /// has one more event; on failure it stops, and the store is as it was
    /// before this call.
    pub fn finish_call(&mut self, store: &mut Storage, outcome: Result<GuestOutput, VmError>) -> (r:
        Result<(), AppError>)
        requires
            old(self).wf(),
            old(self).position() < old(self).calls().len(),
            old(store).wf(),
        ensures
            final(self).wf(),
            final(store).wf(),
            final(self).calls() == old(self).calls(),
            r is Ok == outcome_accepted(old(self).calls()[old(self).position()].ctx, outcome),
            r is Ok ==> final(self).position() == old(self).position() + 1
                && final(self).events().len() == old(self).events().len() + 1
                && final(self).events().drop_last() == old(self).events()
                && final(self).events().last().contract == old(self).calls()[old(self).position()].ctx.contract
                && final(self).events().last().kind == old(self).calls()[old(self).position()].entry
                && final(self).events().last().attributes == outcome->Ok_0.result->Ok_0.attributes,
            r is Ok ==> final(store)@ == writes_applied(
                old(store)@,
                old(self).calls()[old(self).position()].ctx.contract@,
                outcome->Ok_0.writes@,
            ),
            r matches Err(e) ==> final(store)@ == old(store)@ && final(self).position() == final(self).calls().len() && final(self).events() == old(self).events() && e == outcome_error(
                old(self).calls()[old(self).position()].ctx,
                outcome,
            ),
    {
        let n = self.calls.len();
        let i = self.next;
        match apply_outcome(store, &self.calls[i], outcome) {
            Ok(ev) => {
                self.events.push(ev);
                self.next = i + 1;
                proof {
                    assert(self.events@.drop_last() =~= old(self).events@);
                }
                Ok(())
            },
            Err(e) => {
                self.next = n;
                Err(e)
            },
        }
    }

    /// The events of the calls made.
    pub fn into_events(self) -> (r: Vec<Event>)
        ensures
            r@ == self.events(),
    {
        self.events
    }
}

/// The context of a call of `contract`'s entry point, not simulated.
fn make_ctx(
    chain_id: &Vec<u8>,
    block: &BlockInfo,
    contract: Addr,
    sender: Option<Addr>,
    funds: Option<Coins>,
) -> (r: Context)
    ensures
        r.chain_id@ == chain_id@,
        r.block_height == block.height,
        r.block_timestamp == block.timestamp,
        r.block_hash == block.hash,
        r.contract == contract,
        r.sender == sender,
        r.funds == funds,
        r.simulate == Some(false),
{
    Context {
        chain_id: vstd::slice::slice_to_vec(chain_id.as_slice()),
        block_height: block.height,
        block_timestamp: block.timestamp,
        block_hash: block.hash,
        contract,
        sender,
        funds,
        simulate: Some(false),
    }
}

/// The code digest that an account record names.
pub open spec fn record_code_hash(b: Seq<u8>) -> Seq<u8> {
    b.subrange(0, 32)
}

/// There is a decodable account at `a` whose code is stored.
pub open spec fn contract_ready(m: Map<Seq<u8>, Seq<u8>>, a: Seq<u8>) -> bool {
    &&& stored_account(m, a) matches Some(b)
    &&& is_account_encoding(b)
    &&& m.contains_key(code_key(record_code_hash(b)))
}

/// The code of the contract at `a`.
pub open spec fn contract_code(m: Map<Seq<u8>, Seq<u8>>, a: Seq<u8>) -> Seq<u8> {
    m[code_key(record_code_hash(stored_account(m, a)->Some_0))]
}

/// The bank contract's address is configured and the bank can be called.
pub open spec fn bank_ready(m: Map<Seq<u8>, Seq<u8>>) -> bool {
    &&& m.contains_key(config_key())
    &&& m[config_key()].len() == 32
    &&& contract_ready(m, m[config_key()])
}

/// `req` calls `entry` of the contract at `a`, with its stored code and the
/// stored chain identifier, on behalf of `sender`.
pub open spec fn is_call_of(
    req: CallRequest,
    m: Map<Seq<u8>, Seq<u8>>,
    block: BlockInfo,
    entry: EntryPoint,
    a: Seq<u8>,
    sender: Option<Addr>,
) -> bool {
    &&& req.entry == entry
    &&& req.ctx.contract@ == a
    &&& req.ctx.sender == sender
    &&& req.code@ == contract_code(m, a)
    &&& req.ctx.chain_id@ == m[chain_id_key()]
    &&& req.ctx.block_height == block.height
    &&& req.ctx.block_timestamp == block.timestamp
    &&& req.ctx.block_hash == block.hash
    &&& req.ctx.simulate == Some(false)
}

/// `req` asks the bank to move `coins` from `from` to `to`.
pub open spec fn is_transfer_call(
    req: CallRequest,
    m: Map<Seq<u8>, Seq<u8>>,
    block: BlockInfo,
    from: Addr,
    to: Addr,
    coins: Map<Seq<char>, u128>,
) -> bool {
    &&& is_call_of(req, m, block, EntryPoint::Transfer, m[config_key()], None)
    &&& req.ctx.funds is None
    &&& req.payload matches Payload::Transfer(t) && t.from == from && t.to == to && t.coins@ == coins
        && t.coins.wf()
}

/// `e` is why the contract at `a` cannot be called: no account, an account
/// record that does not decode, or its code missing, checked in that order.
pub open spec fn is_contract_error(e: AppError, m: Map<Seq<u8>, Seq<u8>>, a: Seq<u8>) -> bool {
    match stored_account(m, a) {
        None => e matches AppError::AccountNotFound { address } && address@ == a,
        Some(b) => if !is_account_encoding(b) {
            e matches AppError::CorruptAccount { address } && address@ == a
        } else {
            e matches AppError::CodeNotFound { code_hash } && code_hash@ == record_code_hash(b)
        },
    }
}

/// `e` is why the bank cannot be called.
pub open spec fn is_bank_error(e: AppError, m: Map<Seq<u8>, Seq<u8>>) -> bool {
    if !(m.contains_key(config_key()) && m[config_key()].len() == 32) {
        e == AppError::ConfigNotFound
    } else {
        is_contract_error(e, m, m[config_key()])
    }
}

pub(crate) fn contract_call(
    store: &Storage,
    block: &BlockInfo,
    chain_id: &Vec<u8>,
    entry: EntryPoint,
    contract: Addr,
    sender: Option<Addr>,
    funds: Option<Coins>,
    payload: Payload,
) -> (r: Result<CallRequest, AppError>)
    requires
        store.wf(),
        store@.contains_key(chain_id_key()),
        chain_id@ == store@[chain_id_key()],
    ensures
        r is Ok == contract_ready(store@, contract@),
        r matches Ok(req) ==> is_call_of(req, store@, *block, entry, contract@, sender)
            && req.ctx.funds == funds && req.payload == payload,
        r matches Err(e) ==> is_contract_error(e, store@, contract@),
{
    let account = load_account(store, &contract)?;
    let code = load_code(store, &account.code_hash);
    proof {
        assert(account.code_hash@ =~= record_code_hash(account_bytes(account)));
    }
    let code = code?;
    Ok(CallRequest { entry, code, ctx: make_ctx(chain_id, block, contract, sender, funds), payload })
}

fn transfer_call(
    store: &Storage,
    block: &BlockInfo,
    chain_id: &Vec<u8>,
    from: Addr,
    to: Addr,
    coins: Coins,
) -> (r: Result<CallRequest, AppError>)
    requires
        store.wf(),
        coins.wf(),
        store@.contains_key(chain_id_key()),
        chain_id@ == store@[chain_id_key()],
    ensures
        r is Ok == bank_ready(store@),
        r matches Ok(req) ==> is_transfer_call(req, store@, *block, from, to, coins@),
        r matches Err(e) ==> is_bank_error(e, store@),
{
    let bank = load_bank(store)?;
    let msg = TransferMsg { from, to, coins };
    contract_call(store, block, chain_id, EntryPoint::Transfer, bank, None, None, Payload::Transfer(msg))
}

} // verus!
verus! {

/// The account that instantiating `code_hash` with `admin` records.
pub open spec fn new_account(code_hash: Hash256, admin: Option<Addr>) -> Account {
    Account { code_hash, admin }
}

/// `e` says that there is an account at `a` already.
pub open spec fn already_exists_at(e: AppError, a: Seq<u8>) -> bool {
    e matches AppError::AccountAlreadyExists { address } && address@ == a
}

/// Processes one message sent by `sender`. Whatever needs no sandbox is done
/// here: code is stored, a new contract's account is created. The result lists
/// the sandbox calls still to make, in order: attached funds go to the target
/// by a call of the bank before the target's own entry point runs. On failure
/// the store is as it was.
pub fn process_msg(store: &mut Storage, block: &BlockInfo, sender: &Addr, msg: Message) -> (r: Result<
    Run,
    AppError,
>)
    requires
        old(store).wf(),
        msg matches Message::Transfer { coins, .. } ==> coins.wf(),
        msg matches Message::Instantiate { funds, .. } ==> funds.wf(),
        msg matches Message::Execute { funds, .. } ==> funds.wf(),
    ensures
        final(store).wf(),
        r matches Ok(run) ==> run.wf() && run.position() == 0 && run.events().len() == 0,
        r is Err ==> final(store)@ == old(store)@,
        match msg {
            Message::StoreCode { wasm_byte_code } => {
                &&& final(store)@ == store_code_spec(old(store)@, wasm_byte_code@)
                &&& r is Ok == !old(store)@.contains_key(code_key(sha256_of(wasm_byte_code@)))
                &&& r matches Ok(run) ==> run.calls().len() == 0
                &&& r matches Err(e) ==> (e matches AppError::CodeAlreadyExists { code_hash }
                    && code_hash@ == sha256_of(wasm_byte_code@))
            },
            Message::Transfer { to, coins } => {
                &&& final(store)@ == old(store)@
                &&& r is Ok == (old(store)@.contains_key(chain_id_key()) && bank_ready(old(store)@))
                &&& r matches Err(e) ==> if !old(store)@.contains_key(chain_id_key()) {
                    e == AppError::ChainIdNotFound
                } else {
                    is_bank_error(e, old(store)@)
                }
                &&& r matches Ok(run) ==> run.calls().len() == 1 && is_transfer_call(
                    run.calls()[0],
                    old(store)@,
                    *block,
                    *sender,
                    to,
                    coins@,
                )
            },
            Message::Instantiate { code_hash, msg, salt, funds, admin } => {
                let address = derived_address(sender@, code_hash@, salt@);
                let m = old(store)@;
                let m2 = m.insert(account_key(address), account_bytes(new_account(code_hash, admin)));
                let pays = funds@ != Map::<Seq<char>, u128>::empty();
                &&& r is Ok == (m.contains_key(chain_id_key()) && m.contains_key(code_key(code_hash@))
                    && stored_account(m, address) is None && (pays ==> bank_ready(m)))
                &&& r matches Err(e) ==> if !m.contains_key(chain_id_key()) {
                    e == AppError::ChainIdNotFound
                } else if !m.contains_key(code_key(code_hash@)) {
                    e == (AppError::CodeNotFound { code_hash })
                } else if stored_account(m, address) is Some {
                    already_exists_at(e, address)
                } else {
                    is_bank_error(e, m)
                }
                &&& r matches Ok(run) ==> {
                    &&& final(store)@ == m2
                    &&& run.calls().len() == if pays { 2int } else { 1int }
                    &&& pays ==> is_transfer_call(run.calls()[0], m, *block, *sender, run.calls().last().ctx.contract, funds@)
                    &&& is_call_of(run.calls().last(), m2, *block, EntryPoint::Instantiate, address, Some(*sender))
                    &&& run.calls().last().payload == Payload::Msg(msg)
                    &&& run.calls().last().ctx.funds matches Some(f) && f@ == funds@
                }
            },
            Message::Execute { contract, msg, funds } => {
                let m = old(store)@;
                let pays = funds@ != Map::<Seq<char>, u128>::empty();
                &&& final(store)@ == m
                &&& r is Ok == (m.contains_key(chain_id_key()) && contract_ready(m, contract@)
                    && (pays ==> bank_ready(m)))
                &&& r matches Err(e) ==> if !m.contains_key(chain_id_key()) {
                    e == AppError::ChainIdNotFound
                } else if pays && !bank_ready(m) {
                    is_bank_error(e, m)
                } else {
                    is_contract_error(e, m, contract@)
                }
                &&& r matches Ok(run) ==> {
                    &&& run.calls().len() == if pays { 2int } else { 1int }
                    &&& pays ==> is_transfer_call(run.calls()[0], m, *block, *sender, contract, funds@)
                    &&& is_call_of(run.calls().last(), m, *block, EntryPoint::Execute, contract@, Some(*sender))
                    &&& run.calls().last().payload == Payload::Msg(msg)
                    &&& run.calls().last().ctx.funds matches Some(f) && f@ == funds@
                }
            },
        },
{
    match msg {
        Message::StoreCode { wasm_byte_code } => {
            store_code(store, wasm_byte_code.as_slice())?;
            Ok(Run::new(Vec::new()))
        },
        Message::Transfer { to, coins } => {
            let chain_id = load_chain_id(store)?;
            let req = transfer_call(store, block, &chain_id, *sender, to, coins)?;
            let mut calls: Vec<CallRequest> = Vec::new();
            calls.push(req);
            Ok(Run::new(calls))
        },
        Message::Instantiate { code_hash, msg, salt, funds, admin } => {
            let chain_id = load_chain_id(store)?;
            let code = load_code(store, &code_hash)?;
            let address = derive_address(sender, &code_hash, salt.as_slice());
            if has_account(store, &address) {
                return Err(AppError::AccountAlreadyExists { address });
            }
            let mut calls: Vec<CallRequest> = Vec::new();
            if !funds.is_empty() {
                let req = transfer_call(store, block, &chain_id, *sender, address, funds.duplicate())?;
                calls.push(req);
            }
            let account = Account { code_hash, admin };
            let created = create_account(store, &address, &account);
            proof {
                assert(account.code_hash@ =~= record_code_hash(account_bytes(account)));
                assert(stored_account(store@, address@) == Some(account_bytes(account)));
            }
            let ctx = make_ctx(&chain_id, block, address, Some(*sender), Some(funds));
            calls.push(CallRequest { entry: EntryPoint::Instantiate, code, ctx, payload: Payload::Msg(msg) });
            Ok(Run::new(calls))
        },
        Message::Execute { contract, msg, funds } => {
            let chain_id = load_chain_id(store)?;
            let mut calls: Vec<CallRequest> = Vec::new();
            if !funds.is_empty() {
                let req = transfer_call(store, block, &chain_id, *sender, contract, funds.duplicate())?;
                calls.push(req);
            }
            let req = contract_call(
                store,
                block,
                &chain_id,
                EntryPoint::Execute,
                contract,
                Some(*sender),
                Some(funds),
                Payload::Msg(msg),
            )?;
            calls.push(req);
            Ok(Run::new(calls))
        },
    }
}

} // verus!
verus! {

/// Instantiating twice at one derived address fails the second time: the
/// first leaves an account there, which the second finds, while what the
/// second needs besides is still in place; a failed call changes nothing, so
/// the first account stays as it was, and reads back with the fields it was
/// created with.
pub proof fn lemma_instantiate_twice(
    m: Map<Seq<u8>, Seq<u8>>,
    sender: Addr,
    code_hash: Hash256,
    salt: Seq<u8>,
    admin: Option<Addr>,
)
    ensures
        ({
            let a = derived_address(sender@, code_hash@, salt);
            let m2 = m.insert(account_key(a), account_bytes(new_account(code_hash, admin)));
            &&& stored_account(m2, a) == Some(account_bytes(new_account(code_hash, admin)))
            &&& m2.contains_key(chain_id_key()) == m.contains_key(chain_id_key())
            &&& m2.contains_key(code_key(code_hash@)) == m.contains_key(code_key(code_hash@))
        }),
        forall|read: Account|
            account_bytes(read) == account_bytes(new_account(code_hash, admin)) ==> read.code_hash@
                == code_hash@ && read.admin is Some == admin is Some && (read.admin is Some
                ==> read.admin->Some_0@ == admin->Some_0@),
{
    assert forall|read: Account|
        account_bytes(read) == account_bytes(new_account(code_hash, admin)) implies read.code_hash@
            == code_hash@ && read.admin is Some == admin is Some && (read.admin is Some
            ==> read.admin->Some_0@ == admin->Some_0@) by {
        lemma_account_bytes_injective(read, new_account(code_hash, admin));
    }
    let a = derived_address(sender@, code_hash@, salt);
    assert(account_key(a)[0] != chain_id_key()[0]);
    assert(account_key(a)[0] != code_key(code_hash@)[0]);
}

} // verus!
verus! {

/// A call whose guest ran out of gas is refused with `GasDepletion`; a refused
/// outcome leaves the store as it was (see `apply_outcome`), so none of the
/// call's writes is ever visible.
pub proof fn lemma_gas_depletion_discards(ctx: Context)
    ensures
        !outcome_accepted(ctx, Err(VmError::GasDepletion)),
        outcome_error(ctx, Err(VmError::GasDepletion)) == AppError::Vm(VmError::GasDepletion),
{
}

} // verus!
