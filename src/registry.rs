use vstd::prelude::*;
use crate::error::AppError;
use crate::hash::{hash, sha256_of};
use crate::storage::Storage;
use crate::types::{Account, Addr, Hash256};

verus! {

/// First byte of the keys of stored bytecode.
pub const CODE_TAG: u8 = 0x63;

/// First byte of the keys of account records.
pub const ACCOUNT_TAG: u8 = 0x61;

/// First byte of the keys of contracts' own storage.
pub const CONTRACT_TAG: u8 = 0x77;

/// The key of the bank contract's address.
pub const CONFIG_TAG: u8 = 0x67;

/// The key of the chain identifier.
pub const CHAIN_ID_TAG: u8 = 0x69;

pub open spec fn code_key(h: Seq<u8>) -> Seq<u8> {
    seq![CODE_TAG] + h
}

pub open spec fn account_key(a: Seq<u8>) -> Seq<u8> {
    seq![ACCOUNT_TAG] + a
}

/// The prefix under which a contract's own keys are stored.
pub open spec fn namespace(a: Seq<u8>) -> Seq<u8> {
    seq![CONTRACT_TAG] + a
}

/// Where key `k` of contract `a` is stored.
pub open spec fn contract_key(a: Seq<u8>, k: Seq<u8>) -> Seq<u8> {
    namespace(a) + k
}

pub open spec fn config_key() -> Seq<u8> {
    seq![CONFIG_TAG]
}

pub open spec fn chain_id_key() -> Seq<u8> {
    seq![CHAIN_ID_TAG]
}

/// The bytes an account record is stored as: the code digest, then `0`, or
/// `1` and the administrator.
pub open spec fn account_bytes(a: Account) -> Seq<u8> {
    a.code_hash@ + match a.admin {
        None => seq![0u8],
        Some(admin) => seq![1u8] + admin@,
    }
}

pub open spec fn is_account_encoding(b: Seq<u8>) -> bool {
    (b.len() == 33 && b[32] == 0) || (b.len() == 65 && b[32] == 1)
}

/// `tag`, then `id`, then `rest`.
pub fn tagged_key(tag: u8, id: &[u8; 32], rest: &[u8]) -> (r: Vec<u8>)
    ensures
        r@ == seq![tag] + id@ + rest@,
{
    let mut k: Vec<u8> = Vec::new();
    k.push(tag);
    let mut i: usize = 0;
    while i < 32
        invariant
            i <= 32,
            k@ =~= seq![tag] + id@.subrange(0, i as int),
        decreases 32 - i,
    {
        k.push(id[i]);
        i = i + 1;
    }
    i = 0;
    while i < rest.len()
        invariant
            i <= rest@.len(),
            k@ =~= seq![tag] + id@ + rest@.subrange(0, i as int),
        decreases rest@.len() - i,
    {
        k.push(rest[i]);
        i = i + 1;
    }
    assert(k@ =~= seq![tag] + id@ + rest@);
    k
}

fn code_key_of(h: &Hash256) -> (r: Vec<u8>)
    ensures
        r@ == code_key(h@),
{
    let r = tagged_key(CODE_TAG, &h.0, &[]);
    assert(r@ =~= code_key(h@));
    r
}

fn account_key_of(a: &Addr) -> (r: Vec<u8>)
    ensures
        r@ == account_key(a@),
{
    let r = tagged_key(ACCOUNT_TAG, &a.0, &[]);
    assert(r@ =~= account_key(a@));
    r
}

/// Where key `k` of contract `a` is stored.
pub fn contract_key_of(a: &Addr, k: &[u8]) -> (r: Vec<u8>)
    ensures
        r@ == contract_key(a@, k@),
{
    let r = tagged_key(CONTRACT_TAG, &a.0, k);
    assert(r@ =~= contract_key(a@, k@));
    r
}

/// The 32 bytes of `b` from `start` on.
fn read_32(b: &[u8], start: usize) -> (r: [u8; 32])
    requires
        start + 32 <= b@.len(),
    ensures
        r@ == b@.subrange(start as int, start + 32),
{
    let mut r = [0u8; 32];
    let n = b.len();
    let mut i: usize = 0;
    while i < 32
        invariant
            i <= 32,
            start + 32 <= b@.len(),
            n == b@.len(),
            r@.len() == 32,
            forall|j: int| 0 <= j < i ==> r@[j] == b@[start + j],
        decreases 32 - i,
    {
        r.set(i, b[start + i]);
        i = i + 1;
    }
    assert(r@ =~= b@.subrange(start as int, start + 32));
    r
}

pub fn encode_account(a: &Account) -> (r: Vec<u8>)
    ensures
        r@ == account_bytes(*a),
{
    match a.admin {
        None => {
            let r = tagged_key(0, &a.code_hash.0, &[]);
            let mut out: Vec<u8> = Vec::new();
            let mut i: usize = 1;
            while i < 33
                invariant
                    1 <= i <= 33,
                    r@ == seq![0u8] + a.code_hash@,
                    out@ =~= r@.subrange(1, i as int),
                decreases 33 - i,
            {
                out.push(r[i]);
                i = i + 1;
            }
            out.push(0);
            assert(out@ =~= account_bytes(*a));
            out
        },
        Some(admin) => {
            let mut out: Vec<u8> = Vec::new();
            let mut i: usize = 0;
            while i < 32
                invariant
                    i <= 32,
                    out@ =~= a.code_hash@.subrange(0, i as int),
                decreases 32 - i,
            {
                out.push(a.code_hash.0[i]);
                i = i + 1;
            }
            let tail = tagged_key(1, &admin.0, &[]);
            i = 0;
            while i < 33
                invariant
                    i <= 33,
                    tail@ == seq![1u8] + admin@,
                    out@ =~= a.code_hash@ + tail@.subrange(0, i as int),
                decreases 33 - i,
            {
                out.push(tail[i]);
                i = i + 1;
            }
            assert(out@ =~= account_bytes(*a));
            out
        },
    }
}

pub fn decode_account(b: &[u8]) -> (r: Option<Account>)
    ensures
        r is Some == is_account_encoding(b@),
        r matches Some(a) ==> account_bytes(a) == b@,
{
    if b.len() == 33 && b[32] == 0 {
        let h = read_32(b, 0);
        let a = Account { code_hash: Hash256(h), admin: None };
        assert(account_bytes(a) =~= b@);
        Some(a)
    } else if b.len() == 65 && b[32] == 1 {
        let h = read_32(b, 0);
        let admin = read_32(b, 33);
        let a = Account { code_hash: Hash256(h), admin: Some(Addr(admin)) };
        assert(account_bytes(a) =~= b@);
        Some(a)
    } else {
        None
    }
}

/// An account record is read back as it was written.
pub proof fn lemma_account_bytes_injective(a: Account, b: Account)
    requires
        account_bytes(a) == account_bytes(b),
    ensures
        a.code_hash@ == b.code_hash@,
        a.admin is Some == b.admin is Some,
        a.admin matches Some(x) ==> b.admin matches Some(y) && x@ == y@,
{
    let ea = account_bytes(a);
    assert(a.code_hash@ =~= ea.subrange(0, 32));
    assert(b.code_hash@ =~= ea.subrange(0, 32));
    assert(ea[32] == if a.admin is Some { 1u8 } else { 0u8 });
    if let Some(x) = a.admin {
        if let Some(y) = b.admin {
            assert(x@ =~= ea.subrange(33, 65));
            assert(y@ =~= ea.subrange(33, 65));
        }
    }
}

/// The account stored at `address`, if one is.
pub open spec fn stored_account(m: Map<Seq<u8>, Seq<u8>>, address: Seq<u8>) -> Option<Seq<u8>> {
    if m.contains_key(account_key(address)) {
        Some(m[account_key(address)])
    } else {
        None
    }
}

/// Whether bytecode with digest `h` is stored.
pub fn has_code(store: &Storage, h: &Hash256) -> (r: bool)
    requires
        store.wf(),
    ensures
        r == store@.contains_key(code_key(h@)),
{
    store.has(code_key_of(h).as_slice())
}

/// The bytecode stored under digest `h`.
pub fn load_code(store: &Storage, h: &Hash256) -> (r: Result<Vec<u8>, AppError>)
    requires
        store.wf(),
    ensures
        r is Ok == store@.contains_key(code_key(h@)),
        r matches Ok(b) ==> b@ == store@[code_key(h@)],
        r matches Err(e) ==> e == (AppError::CodeNotFound { code_hash: *h }),
{
    match store.get(code_key_of(h).as_slice()) {
        Some(b) => Ok(b),
        None => Err(AppError::CodeNotFound { code_hash: *h }),
    }
}

/// The store after storing `code`: unchanged where its digest is already
/// there.
pub open spec fn store_code_spec(m: Map<Seq<u8>, Seq<u8>>, code: Seq<u8>) -> Map<Seq<u8>, Seq<u8>> {
    if m.contains_key(code_key(sha256_of(code))) {
        m
    } else {
        m.insert(code_key(sha256_of(code)), code)
    }
}

/// Stores `code` under its digest and returns the digest; fails, changing
/// nothing, where that digest is already stored.
pub fn store_code(store: &mut Storage, code: &[u8]) -> (r: Result<Hash256, AppError>)
    requires
        old(store).wf(),
    ensures
        final(store).wf(),
        final(store)@ == store_code_spec(old(store)@, code@),
        r is Ok == !old(store)@.contains_key(code_key(sha256_of(code@))),
        r matches Ok(h) ==> h@ == sha256_of(code@),
        r matches Err(e) ==> e matches AppError::CodeAlreadyExists { code_hash } && code_hash@
            == sha256_of(code@),
{
    let h = hash(code);
    if has_code(store, &h) {
        return Err(AppError::CodeAlreadyExists { code_hash: h });
    }
    store.set(code_key_of(&h).as_slice(), code);
    Ok(h)
}

/// Storing a blob twice stores it once: the second time finds its digest
/// there and changes nothing, and the blob is what its digest then loads.
pub proof fn lemma_store_code_twice(m: Map<Seq<u8>, Seq<u8>>, code: Seq<u8>)
    requires
        !m.contains_key(code_key(sha256_of(code))),
    ensures
        store_code_spec(m, code).contains_key(code_key(sha256_of(code))),
        store_code_spec(m, code)[code_key(sha256_of(code))] == code,
        store_code_spec(store_code_spec(m, code), code) == store_code_spec(m, code),
{
}

/// The account at `address`.
pub fn load_account(store: &Storage, address: &Addr) -> (r: Result<Account, AppError>)
    requires
        store.wf(),
    ensures
        r is Ok == (stored_account(store@, address@) matches Some(b) && is_account_encoding(b)),
        r matches Ok(a) ==> stored_account(store@, address@) == Some(account_bytes(a)),
        r matches Err(e) ==> if stored_account(store@, address@) is None {
            e == (AppError::AccountNotFound { address: *address })
        } else {
            e == (AppError::CorruptAccount { address: *address })
        },
{
    match store.get(account_key_of(address).as_slice()) {
        None => Err(AppError::AccountNotFound { address: *address }),
        Some(b) => match decode_account(b.as_slice()) {
            Some(a) => Ok(a),
            None => Err(AppError::CorruptAccount { address: *address }),
        },
    }
}

/// Whether there is an account at `address`.
pub fn has_account(store: &Storage, address: &Addr) -> (r: bool)
    requires
        store.wf(),
    ensures
        r == stored_account(store@, address@) is Some,
{
    store.has(account_key_of(address).as_slice())
}

/// Creates the account at `address`; fails, changing nothing, where there is
/// one already.
pub fn create_account(store: &mut Storage, address: &Addr, account: &Account) -> (r: Result<
    (),
    AppError,
>)
    requires
        old(store).wf(),
    ensures
        final(store).wf(),
        r is Ok == (stored_account(old(store)@, address@) is None),
        r is Ok ==> final(store)@ == old(store)@.insert(account_key(address@), account_bytes(*account)),
        r matches Err(e) ==> final(store)@ == old(store)@ && e == (AppError::AccountAlreadyExists {
            address: *address,
        }),
{
    let key = account_key_of(address);
    if store.has(key.as_slice()) {
        return Err(AppError::AccountAlreadyExists { address: *address });
    }
    store.set(key.as_slice(), encode_account(account).as_slice());
    Ok(())
}

/// The bank contract's address.
pub fn load_bank(store: &Storage) -> (r: Result<Addr, AppError>)
    requires
        store.wf(),
    ensures
        r is Ok == (store@.contains_key(config_key()) && store@[config_key()].len() == 32),
        r matches Ok(a) ==> a@ == store@[config_key()],
        r matches Err(e) ==> e == AppError::ConfigNotFound,
{
    let key: Vec<u8> = vec![CONFIG_TAG];
    assert(key@ =~= config_key());
    match store.get(key.as_slice()) {
        Some(b) => {
            if b.len() == 32 {
                let a = read_32(b.as_slice(), 0);
                assert(a@ =~= b@);
                Ok(Addr(a))
            } else {
                Err(AppError::ConfigNotFound)
            }
        },
        None => Err(AppError::ConfigNotFound),
    }
}

/// The chain identifier.
pub fn load_chain_id(store: &Storage) -> (r: Result<Vec<u8>, AppError>)
    requires
        store.wf(),
    ensures
        r is Ok == store@.contains_key(chain_id_key()),
        r matches Ok(c) ==> c@ == store@[chain_id_key()],
        r matches Err(e) ==> e == AppError::ChainIdNotFound,
{
    let key: Vec<u8> = vec![CHAIN_ID_TAG];
    assert(key@ =~= chain_id_key());
    match store.get(key.as_slice()) {
        Some(c) => Ok(c),
        None => Err(AppError::ChainIdNotFound),
    }
}

} // verus!
