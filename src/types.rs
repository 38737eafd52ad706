use vstd::prelude::*;
use crate::coin::Coins;

verus! {

/// An account's address.
#[derive(Debug, Clone, Copy, PartialEq, Eq)]
pub struct Addr(pub [u8; 32]);

/// A SHA-256 digest.
#[derive(Debug, Clone, Copy, PartialEq, Eq)]
pub struct Hash256(pub [u8; 32]);

impl View for Addr {
    type V = Seq<u8>;

    open spec fn view(&self) -> Seq<u8> {
        self.0@
    }
}

impl View for Hash256 {
    type V = Seq<u8>;

    open spec fn view(&self) -> Seq<u8> {
        self.0@
    }
}

/// The block in which messages are processed.
#[derive(Debug, Clone, Copy)]
pub struct BlockInfo {
    pub height: u64,
    pub timestamp: u64,
    pub hash: Hash256,
}

/// What the engine keeps of a contract: its code and its administrator.
#[derive(Debug, Clone, Copy, PartialEq, Eq)]
pub struct Account {
    pub code_hash: Hash256,
    pub admin: Option<Addr>,
}

/// What a call of an entry point is told about itself.
#[derive(Debug, Clone)]
pub struct Context {
    pub chain_id: Vec<u8>,
    pub block_height: u64,
    pub block_timestamp: u64,
    pub block_hash: Hash256,
    pub contract: Addr,
    pub sender: Option<Addr>,
    pub funds: Option<Coins>,
    pub simulate: Option<bool>,
}

#[derive(Debug, Clone)]
pub struct Attribute {
    pub key: String,
    pub value: String,
}

/// The entry points of a contract that the engine calls.
#[derive(Debug, Clone, Copy, PartialEq, Eq, Structural)]
pub enum EntryPoint {
    Transfer,
    Instantiate,
    Execute,
    BeforeTx,
    AfterTx,
}

/// A log entry of one successful call.
#[derive(Debug, Clone)]
pub struct Event {
    pub contract: Addr,
    pub kind: EntryPoint,
    pub attributes: Vec<Attribute>,
}

/// A state-transition message.
#[derive(Debug, Clone)]
pub enum Message {
    Transfer { to: Addr, coins: Coins },
    StoreCode { wasm_byte_code: Vec<u8> },
    Instantiate {
        code_hash: Hash256,
        msg: Vec<u8>,
        salt: Vec<u8>,
        funds: Coins,
        admin: Option<Addr>,
    },
    Execute { contract: Addr, msg: Vec<u8>, funds: Coins },
}

/// A transaction: its sender and its messages.
#[derive(Debug, Clone)]
pub struct Tx {
    pub sender: Addr,
    pub msgs: Vec<Message>,
}

/// When the result of a submessage goes back to the contract that asked for it.
#[derive(Debug, Clone, Copy, PartialEq, Eq, Structural)]
pub enum ReplyOn {
    Always,
    Error,
    Success,
    Never,
}

/// A message that a contract asks to be run as part of its own call.
#[derive(Debug, Clone)]
pub struct SubMessage {
    pub msg: Message,
    pub reply_on: ReplyOn,
}

/// What an entry point returns on success.
#[derive(Debug, Clone)]
pub struct Response {
    pub attributes: Vec<Attribute>,
    pub submsgs: Vec<SubMessage>,
}

} // verus!
