use std::collections::BTreeMap;

use blake2_rfc::blake2b::blake2b;
use chainx_calls::balances::{balances_or_default, decode_balances, AssetBalances, AssetType};
use chainx_calls::calls::{Call, XAssets};
use chainx_calls::pcx::{asset_balance_key, pcx_token, pcx_transfer, pcx_transfer_call};
use chainx_calls::storage::derive_key;
use chainx_calls::types::AccountId;
use parity_scale_codec::{Encode, KeyedVec};

const BALANCE_OF: &[u8] = b"XAssets AssetBalance";

fn all_kinds() -> Vec<AssetType> {
    vec![
        AssetType::Free,
        AssetType::ReservedStaking,
        AssetType::ReservedStakingRevocation,
        AssetType::ReservedWithdrawal,
        AssetType::ReservedDexSpot,
        AssetType::ReservedDexFuture,
        AssetType::ReservedCurrency,
        AssetType::ReservedXRC20,
        AssetType::GasPayment,
    ]
}

fn hash(data: &[u8]) -> [u8; 32] {
    let mut out = [0u8; 32];
    out.copy_from_slice(blake2b(32, &[], data).as_bytes());
    out
}

#[test]
fn key_is_the_digest_of_the_keyed_form() {
    let account = AccountId::new([1u8; 32]);
    let token = b"PCX".to_vec();
    let mut keyed = BALANCE_OF.to_vec();
    keyed.extend_from_slice(&[1u8; 32]);
    keyed.extend_from_slice(&[0x0c, b'P', b'C', b'X']);
    assert_eq!(derive_key(BALANCE_OF, &account, &token), hash(&keyed));
    assert_eq!(keyed, ([1u8; 32], token).to_keyed_vec(BALANCE_OF));
}

#[test]
fn key_has_the_expected_bytes() {
    // An empty prefix, an all-zero account and an empty token make a keyed
    // form of 33 zero bytes.
    let key = derive_key(&[], &AccountId::new([0u8; 32]), &vec![]);
    assert_eq!(key, hash(&[0u8; 33]));
    assert_ne!(key, [0u8; 32]);
    assert_ne!(&key[..], &hash(&[0u8; 32])[..]);
}

#[test]
fn digest_is_blake2b_256() {
    // The digest of the three bytes "abc" under BLAKE2b-256, from the
    // function's published test vectors.
    let expected: [u8; 32] = [
        0xbd, 0xdd, 0x81, 0x3c, 0x63, 0x42, 0x39, 0x72, 0x31, 0x71, 0xef, 0x3f, 0xee, 0x98, 0x57,
        0x9b, 0x94, 0x96, 0x4e, 0x3b, 0xb1, 0xcb, 0x3e, 0x42, 0x72, 0x62, 0xc8, 0xc0, 0x68, 0xd5,
        0x23, 0x19,
    ];
    assert_eq!(hash(b"abc"), expected);
}

#[test]
fn key_is_the_same_every_time() {
    let account = AccountId::new([7u8; 32]);
    let token = b"PCX".to_vec();
    let first = derive_key(BALANCE_OF, &account, &token);
    let second = derive_key(BALANCE_OF, &account, &token);
    assert_eq!(first, second);
    assert_eq!(first.len(), 32);
}

#[test]
fn near_identical_keys_differ() {
    let account = AccountId::new([7u8; 32]);
    let token = b"PCX".to_vec();
    let base = derive_key(BALANCE_OF, &account, &token);
    let mut seen = vec![base];
    for at in 0..BALANCE_OF.len() {
        let mut prefix = BALANCE_OF.to_vec();
        prefix[at] ^= 1;
        seen.push(derive_key(&prefix, &account, &token));
    }
    for at in 0..32 {
        let mut bytes = [7u8; 32];
        bytes[at] ^= 0x80;
        seen.push(derive_key(BALANCE_OF, &AccountId::new(bytes), &token));
    }
    for other in [&b"PCY"[..], b"PC", b"PCXX", b"", b"pcx"] {
        seen.push(derive_key(BALANCE_OF, &account, &other.to_vec()));
    }
    for (i, a) in seen.iter().enumerate() {
        for (j, b) in seen.iter().enumerate() {
            assert_eq!(i == j, a == b, "keys {} and {}", i, j);
        }
    }
}

#[test]
fn balance_key_is_for_the_native_asset() {
    let account = AccountId::new([3u8; 32]);
    assert_eq!(pcx_token(), b"PCX".to_vec());
    assert_eq!(asset_balance_key(&account), derive_key(BALANCE_OF, &account, &b"PCX".to_vec()));
    let keyed = ([3u8; 32], b"PCX".to_vec()).to_keyed_vec(BALANCE_OF);
    assert_eq!(asset_balance_key(&account), hash(&keyed));
}

#[test]
fn absent_balance_is_empty() {
    let account = AccountId::new([0x42; 32]);
    let key = asset_balance_key(&account);
    let store: BTreeMap<[u8; 32], Vec<u8>> = BTreeMap::new();
    let raw = store.get(&key).cloned();
    assert_eq!(raw, None);
    let balances = balances_or_default(raw);
    assert!(balances.is_empty());
    assert_eq!(balances.entries(), vec![]);
    assert_eq!(balances, AssetBalances::new());
    for kind in all_kinds() {
        assert_eq!(balances.get(kind), None);
    }
}

#[test]
fn undecodable_balance_is_empty() {
    assert!(balances_or_default(Some(vec![])).is_empty());
    assert!(balances_or_default(Some(vec![0x04])).is_empty());
    assert!(balances_or_default(Some(vec![0x04, 9, 0, 0, 0, 0, 0, 0, 0, 0])).is_empty());
    assert!(balances_or_default(Some(vec![0x00, 0x00])).is_empty());
}

#[test]
fn present_balance_is_read() {
    let mut stored: BTreeMap<u8, u64> = BTreeMap::new();
    stored.insert(0, 10_000);
    stored.insert(3, u64::MAX);
    stored.insert(8, 0);
    let balances = balances_or_default(Some(stored.encode()));
    assert!(!balances.is_empty());
    assert_eq!(balances.get(AssetType::Free), Some(10_000));
    assert_eq!(balances.get(AssetType::ReservedWithdrawal), Some(u64::MAX));
    assert_eq!(balances.get(AssetType::GasPayment), Some(0));
    assert_eq!(balances.get(AssetType::ReservedStaking), None);
    assert_eq!(
        balances.entries(),
        vec![
            (AssetType::Free, 10_000),
            (AssetType::ReservedWithdrawal, u64::MAX),
            (AssetType::GasPayment, 0),
        ]
    );
}

#[test]
fn balances_decode_every_table_the_codec_writes() {
    for mask in 0u32..512 {
        let mut stored: BTreeMap<u8, u64> = BTreeMap::new();
        for k in 0..9u8 {
            if mask & (1 << k) != 0 {
                stored.insert(k, (mask as u64) << (7 * k as u32));
            }
        }
        let balances = decode_balances(&stored.encode()).expect("a table of known kinds");
        let got: Vec<(u8, u64)> = balances.entries().into_iter().map(|(k, v)| (k.to_index(), v)).collect();
        let want: Vec<(u8, u64)> = stored.into_iter().collect();
        assert_eq!(got, want);
    }
}

#[test]
fn balances_keep_the_later_of_two_entries() {
    let mut bytes = vec![0x08];
    bytes.push(2);
    bytes.extend_from_slice(&5u64.to_le_bytes());
    bytes.push(2);
    bytes.extend_from_slice(&6u64.to_le_bytes());
    let balances = decode_balances(&bytes).expect("two entries");
    assert_eq!(balances.entries(), vec![(AssetType::ReservedStakingRevocation, 6)]);
}

#[test]
fn balances_reject_bad_tables() {
    let mut stored: BTreeMap<u8, u64> = BTreeMap::new();
    stored.insert(1, 1);
    stored.insert(2, 2);
    let good = stored.encode();
    assert!(decode_balances(&good).is_some());
    for cut in 0..good.len() {
        assert_eq!(decode_balances(&good[..cut]), None, "cut at {}", cut);
    }
    let mut longer = good.clone();
    longer.push(0);
    assert_eq!(decode_balances(&longer), None);
    let mut unknown = good.clone();
    unknown[1] = 9;
    assert_eq!(decode_balances(&unknown), None);
    let mut unknown = good.clone();
    unknown[10] = 0xff;
    assert_eq!(decode_balances(&unknown), None);
    assert_eq!(decode_balances(&[0x01, 0x00]), None);
    assert_eq!(decode_balances(&[0x00]), Some(AssetBalances::new()));
}

#[test]
fn balances_record_and_replace() {
    let mut balances = AssetBalances::new();
    assert!(balances.is_empty());
    balances.insert(AssetType::ReservedDexSpot, 4);
    balances.insert(AssetType::Free, 1);
    balances.insert(AssetType::ReservedDexSpot, 5);
    assert!(!balances.is_empty());
    assert_eq!(balances.get(AssetType::ReservedDexSpot), Some(5));
    assert_eq!(balances.get(AssetType::Free), Some(1));
    assert_eq!(balances.get(AssetType::GasPayment), None);
    assert_eq!(balances.entries(), vec![(AssetType::Free, 1), (AssetType::ReservedDexSpot, 5)]);
}

#[test]
fn kinds_are_numbered_in_order() {
    for (i, kind) in all_kinds().into_iter().enumerate() {
        assert_eq!(kind.to_index() as usize, i);
        assert_eq!(AssetType::from_index(i as u8), Some(kind));
    }
    for b in 9..=255u8 {
        assert_eq!(AssetType::from_index(b), None);
    }
    assert!(AssetType::Free < AssetType::GasPayment);
}

#[test]
fn pcx_transfer_is_the_transfer_with_fixed_token_and_memo() {
    let dest = AccountId::new([0xa1; 32]);
    let call = pcx_transfer_call(dest, 10_000);
    assert_eq!(call, Call::XAssets(XAssets::transfer(dest, b"PCX".to_vec(), 10_000, b"memo".to_vec())));
    let bytes = pcx_transfer(dest, 10_000);
    assert_eq!(bytes, call.encode());
    let native = (5u8, 3u8, [0xa1u8; 32], b"PCX".to_vec(), parity_scale_codec::Compact(10_000u64), b"memo".to_vec());
    assert_eq!(bytes, native.encode());
}
