//! The two things a contract does with the chain's native asset, PCX: it
//! transfers some of it, and it looks up what an account holds of it. This
//! module computes what is handed to the runtime for each; handing it over is
//! the caller's business.

use vstd::prelude::*;
use crate::calls::{transfer_balance, Call, CallView, XAssetsView};
use crate::storage::{derive_key, storage_key};
use crate::types::{AccountId, Balance};

verus! {

/// The token that names the native asset: the text `PCX`.
pub open spec fn pcx() -> Seq<u8> {
    seq![0x50u8, 0x43u8, 0x58u8]
}

/// The memo that accompanies every transfer made here: the text `memo`.
pub open spec fn transfer_memo() -> Seq<u8> {
    seq![0x6du8, 0x65u8, 0x6du8, 0x6fu8]
}

/// The name of the storage map that holds the balances of every account and
/// asset: the text `XAssets AssetBalance`.
pub open spec fn asset_balance_map() -> Seq<u8> {
    seq![
        0x58u8, 0x41u8, 0x73u8, 0x73u8, 0x65u8, 0x74u8, 0x73u8, 0x20u8, 0x41u8, 0x73u8, 0x73u8,
        0x65u8, 0x74u8, 0x42u8, 0x61u8, 0x6cu8, 0x61u8, 0x6eu8, 0x63u8, 0x65u8,
    ]
}

/// The call that transfers `value` of the native asset to `dest`.
pub open spec fn pcx_transfer_view(dest: Seq<u8>, value: nat) -> CallView {
    CallView::XAssets(
        XAssetsView::Transfer { dest, token: pcx(), value, memo: transfer_memo() },
    )
}

/// The token that names the native asset.
pub fn pcx_token() -> (token: Vec<u8>)
    ensures
        token@ == pcx(),
{
    let token: Vec<u8> = vec![0x50u8, 0x43u8, 0x58u8];
    assert(token@ =~= pcx());
    token
}

/// Builds the call that transfers `value` of the native asset to `dest`.
pub fn pcx_transfer_call(dest: AccountId, value: Balance) -> (call: Call)
    ensures
        call@ == pcx_transfer_view(dest@, value as nat),
        call@.wf(),
{
    let memo: Vec<u8> = vec![0x6du8, 0x65u8, 0x6du8, 0x6fu8];
    assert(memo@ =~= transfer_memo());
    transfer_balance(dest, pcx_token(), value, memo)
}

/// The bytes to hand to the runtime's dispatcher in order to transfer `value`
/// of the native asset to `dest`.
pub fn pcx_transfer(dest: AccountId, value: Balance) -> (bytes: Vec<u8>)
    ensures
        bytes@ == pcx_transfer_view(dest@, value as nat).encoding(),
{
    pcx_transfer_call(dest, value).encode()
}

/// The key to hand to the runtime's storage in order to read what `account`
/// holds of the native asset.
pub fn asset_balance_key(account: &AccountId) -> (key: [u8; 32])
    ensures
        key@ == storage_key(asset_balance_map(), account@, pcx()),
{
    let name: [u8; 20] = [
        0x58u8, 0x41u8, 0x73u8, 0x73u8, 0x65u8, 0x74u8, 0x73u8, 0x20u8, 0x41u8, 0x73u8, 0x73u8,
        0x65u8, 0x74u8, 0x42u8, 0x61u8, 0x6cu8, 0x61u8, 0x6eu8, 0x63u8, 0x65u8,
    ];
    assert(name@ =~= asset_balance_map());
    let token = pcx_token();
    derive_key(name.as_slice(), account, &token)
}

} // verus!
