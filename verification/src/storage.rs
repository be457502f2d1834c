//! Where the runtime keeps a value: the address of an entry of one of its
//! storage maps, derived from the name of the map and the entry's key.

use vstd::prelude::*;
use parity_scale_codec::KeyedVec;
use crate::primitives::{lemma_parse_prefixed_of_encoding, prefixed};
use crate::types::AccountId;

verus! {

/// The BLAKE2b digest of `data`, 32 bytes long and without a key.
pub uninterp spec fn blake2_256_digest(data: Seq<u8>) -> Seq<u8>;

/// The keyed form of an entry: the name of the storage map, then the entry's
/// key as the runtime encodes it, which is the account as it is and the token
/// with its length.
pub open spec fn keyed_form(prefix: Seq<u8>, account: Seq<u8>, token: Seq<u8>) -> Seq<u8> {
    prefix + account + prefixed(token)
}

/// The address of an entry: the digest of its keyed form.
pub open spec fn storage_key(prefix: Seq<u8>, account: Seq<u8>, token: Seq<u8>) -> Seq<u8> {
    blake2_256_digest(keyed_form(prefix, account, token))
}

/// Hashes `data` with `blake2_rfc::blake2b::blake2b`, asking for 32 bytes and
/// giving no key.
///
/// Trusted: the result is taken to be a function of `data` alone, which is
/// what a hash is; nothing else is claimed of it.
#[verifier::external_body]
pub(crate) fn blake2_256(data: &[u8]) -> (digest: [u8; 32])
    ensures
        digest@ == blake2_256_digest(data@),
{
    let mut digest = [0u8; 32];
    digest.copy_from_slice(blake2_rfc::blake2b::blake2b(32, &[], data).as_bytes());
    digest
}

/// Encodes the pair of `account` and `token` behind `prefix` with
/// `parity_scale_codec::KeyedVec::to_keyed_vec`.
///
/// Trusted: the codec writes a pair as its parts in order, an array of bytes
/// as those bytes, and a vector of bytes as its length in compact form
/// followed by the bytes. It refuses a vector whose length does not fit in 32
/// bits, which the precondition rules out.
#[verifier::external_body]
pub(crate) fn keyed_vec(prefix: &[u8], account: &AccountId, token: &Vec<u8>) -> (keyed: Vec<u8>)
    requires
        token.len() <= u32::MAX,
    ensures
        keyed@ == keyed_form(prefix@, account@, token@),
{
    (account.bytes, token.clone()).to_keyed_vec(prefix)
}

/// Derives the address under which the runtime keeps the entry for `account`
/// and `token` of the storage map named `prefix`.
pub fn derive_key(prefix: &[u8], account: &AccountId, token: &Vec<u8>) -> (key: [u8; 32])
    requires
        token.len() <= u32::MAX,
    ensures
        key@ == storage_key(prefix@, account@, token@),
{
    let keyed = keyed_vec(prefix, account, token);
    blake2_256(keyed.as_slice())
}

/// The address of an entry depends on nothing but the map's name, the account
/// and the token: the same three give the same 32 bytes.
pub proof fn lemma_storage_key_deterministic(
    prefix1: Seq<u8>,
    account1: Seq<u8>,
    token1: Seq<u8>,
    prefix2: Seq<u8>,
    account2: Seq<u8>,
    token2: Seq<u8>,
)
    requires
        prefix1 == prefix2,
        account1 == account2,
        token1 == token2,
    ensures
        storage_key(prefix1, account1, token1) == storage_key(prefix2, account2, token2),
{
}

/// Entries that differ in their map's name, their account or their token have
/// different keyed forms, as long as the two names are of one length: what is
/// hashed tells the entries apart.
pub proof fn lemma_keyed_form_injective(
    prefix1: Seq<u8>,
    account1: Seq<u8>,
    token1: Seq<u8>,
    prefix2: Seq<u8>,
    account2: Seq<u8>,
    token2: Seq<u8>,
)
    requires
        prefix1.len() == prefix2.len(),
        account1.len() == 32,
        account2.len() == 32,
        token1.len() <= u32::MAX,
        token2.len() <= u32::MAX,
        keyed_form(prefix1, account1, token1) == keyed_form(prefix2, account2, token2),
    ensures
        prefix1 == prefix2,
        account1 == account2,
        token1 == token2,
{
    let k1 = keyed_form(prefix1, account1, token1);
    let k2 = keyed_form(prefix2, account2, token2);
    let p = prefix1.len() as int;
    assert(k1.take(p) =~= prefix1);
    assert(k2.take(p) =~= prefix2);
    assert(k1.subrange(p, p + 32) =~= account1);
    assert(k2.subrange(p, p + 32) =~= account2);
    assert(k1.skip(p + 32) =~= prefixed(token1) + Seq::<u8>::empty());
    assert(k2.skip(p + 32) =~= prefixed(token2) + Seq::<u8>::empty());
    lemma_parse_prefixed_of_encoding(token1, Seq::empty());
    lemma_parse_prefixed_of_encoding(token2, Seq::empty());
}

} // verus!
