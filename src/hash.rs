use vstd::prelude::*;
use crate::types::{Addr, Hash256};
use sha2::Digest;

verus! {

/// The SHA-256 digest of a byte string.
pub uninterp spec fn sha256_of(b: Seq<u8>) -> Seq<u8>;

/// Relies on sha2's `Sha256::digest`: 32 bytes that depend on the input alone.
#[verifier::external_body]
pub(crate) fn sha256(b: &[u8]) -> (r: Hash256)
    ensures
        r@ == sha256_of(b@),
{
    Hash256(sha2::Sha256::digest(b).into())
}

/// The digest under which a blob of bytecode is stored.
pub fn hash(b: &[u8]) -> (r: Hash256)
    ensures
        r@ == sha256_of(b@),
{
    sha256(b)
}

/// What is hashed to give a contract's address.
pub open spec fn derive_preimage(deployer: Seq<u8>, code_hash: Seq<u8>, salt: Seq<u8>) -> Seq<u8> {
    deployer + code_hash + salt
}

/// The address of the contract that `deployer` makes from `code_hash` with
/// `salt`.
pub open spec fn derived_address(deployer: Seq<u8>, code_hash: Seq<u8>, salt: Seq<u8>) -> Seq<u8> {
    sha256_of(derive_preimage(deployer, code_hash, salt))
}

/// The address of the contract that `deployer` makes from `code_hash` with
/// `salt`: the digest of the three, joined.
pub fn derive_address(deployer: &Addr, code_hash: &Hash256, salt: &[u8]) -> (r: Addr)
    ensures
        r@ == derived_address(deployer@, code_hash@, salt@),
{
    let mut pre: Vec<u8> = Vec::new();
    let mut i: usize = 0;
    while i < 32
        invariant
            i <= 32,
            pre@ =~= deployer@.subrange(0, i as int),
        decreases 32 - i,
    {
        pre.push(deployer.0[i]);
        i = i + 1;
    }
    i = 0;
    while i < 32
        invariant
            i <= 32,
            pre@ =~= deployer@ + code_hash@.subrange(0, i as int),
        decreases 32 - i,
    {
        pre.push(code_hash.0[i]);
        i = i + 1;
    }
    i = 0;
    while i < salt.len()
        invariant
            i <= salt@.len(),
            pre@ =~= deployer@ + code_hash@ + salt@.subrange(0, i as int),
        decreases salt@.len() - i,
    {
        pre.push(salt[i]);
        i = i + 1;
    }
    assert(pre@ =~= derive_preimage(deployer@, code_hash@, salt@));
    Addr(sha256(pre.as_slice()).0)
}

/// Deriving is a function of its inputs, and what is hashed tells the inputs
/// apart: two triples give the same preimage only when they are the same, so
/// distinct triples can share an address only through a SHA-256 collision.
pub proof fn lemma_derive_injective_preimage(
    d1: Addr,
    h1: Hash256,
    s1: Seq<u8>,
    d2: Addr,
    h2: Hash256,
    s2: Seq<u8>,
)
    ensures
        (d1@ == d2@ && h1@ == h2@ && s1 == s2) ==> derived_address(d1@, h1@, s1) == derived_address(
            d2@,
            h2@,
            s2,
        ),
        derive_preimage(d1@, h1@, s1) == derive_preimage(d2@, h2@, s2) ==> d1@ == d2@ && h1@
            == h2@ && s1 == s2,
{
    let p1 = derive_preimage(d1@, h1@, s1);
    let p2 = derive_preimage(d2@, h2@, s2);
    if p1 == p2 {
        assert(d1@ =~= p1.subrange(0, 32));
        assert(d2@ =~= p2.subrange(0, 32));
        assert(h1@ =~= p1.subrange(32, 64));
        assert(h2@ =~= p2.subrange(32, 64));
        assert(s1 =~= p1.subrange(64, p1.len() as int));
        assert(s2 =~= p2.subrange(64, p2.len() as int));
    }
}

} // verus!
