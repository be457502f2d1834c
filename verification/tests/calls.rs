use chainx_calls::calls::{
    convert_to_asset, transfer_balance, Call, XAssets, XContracts, CONVERT_TO_ASSET_CALL,
    TRANSFER_CALL, XASSETS_MODULE, XCONTRACTS_MODULE,
};
use chainx_calls::error::DecodeError;
use chainx_calls::types::AccountId;
use parity_scale_codec::{Compact, Decode, DecodeAll, Encode};

/// The runtime's own layout of a transfer, written with the codec's types.
type NativeTransfer = (u8, u8, [u8; 32], Vec<u8>, Compact<u64>, Vec<u8>);

/// The runtime's own layout of a conversion, written with the codec's types.
type NativeConversion = (u8, u8, [u8; 32], Compact<u64>);

fn native_transfer(dest: [u8; 32], token: &[u8], value: u64, memo: &[u8]) -> Vec<u8> {
    let call: NativeTransfer = (5, 3, dest, token.to_vec(), Compact(value), memo.to_vec());
    call.encode()
}

fn native_conversion(to: [u8; 32], value: u64) -> Vec<u8> {
    let call: NativeConversion = (7, 6, to, Compact(value));
    call.encode()
}

fn boundary_amounts() -> Vec<u64> {
    vec![
        0,
        1,
        63,
        64,
        65,
        10_000,
        (1 << 14) - 1,
        1 << 14,
        (1 << 30) - 1,
        1 << 30,
        u32::MAX as u64,
        1 << 32,
        (1 << 40) - 1,
        1 << 40,
        (1 << 48) - 1,
        1 << 48,
        (1 << 56) - 1,
        1 << 56,
        u64::MAX - 1,
        u64::MAX,
    ]
}

#[test]
fn call_balance_transfer() {
    let balance = 10_000;

    let token = b"PCX".to_vec();
    let memo = b"memo".to_vec();

    let contract_address: [u8; 32] = [1u8; 32];
    let contract_transfer =
        XAssets::transfer(contract_address.into(), token.clone(), balance, memo.clone());
    let contract_call = Call::XAssets(contract_transfer);

    let srml_address: [u8; 32] = contract_address;
    let srml_call: NativeTransfer =
        (5, 3, srml_address, token.clone(), Compact(balance), memo.clone());

    let contract_call_encoded = contract_call.encode();
    let srml_call_encoded = srml_call.encode();

    assert_eq!(srml_call_encoded, contract_call_encoded);

    let srml_call_decoded: NativeTransfer = Decode::decode(&mut contract_call_encoded.as_slice())
        .expect("Balances transfer call decodes to srml type");
    let srml_call_encoded = srml_call_decoded.encode();
    let contract_call_decoded: Call = Call::decode(srml_call_encoded.as_slice())
        .expect("Balances transfer call decodes back to contract type");
    assert!(contract_call == contract_call_decoded);
}

#[test]
fn transfer_example_has_the_expected_bytes() {
    let call = transfer_balance(AccountId::new([1u8; 32]), b"PCX".to_vec(), 10_000, b"memo".to_vec());
    let mut expected: Vec<u8> = vec![5, 3];
    expected.extend_from_slice(&[1u8; 32]);
    expected.extend_from_slice(&[0x0c, b'P', b'C', b'X']);
    expected.extend_from_slice(&[0x41, 0x9c]);
    expected.extend_from_slice(&[0x10, b'm', b'e', b'm', b'o']);
    assert_eq!(call.encode(), expected);
    assert_eq!(expected.len(), 45);
}

#[test]
fn transfer_example_decodes_to_its_four_fields() {
    let bytes = native_transfer([1u8; 32], b"PCX", 10_000, b"memo");
    match Call::decode(&bytes) {
        Ok(Call::XAssets(XAssets::transfer(dest, token, value, memo))) => {
            assert_eq!(dest.bytes, [1u8; 32]);
            assert_eq!(token, b"PCX".to_vec());
            assert_eq!(value, 10_000);
            assert_eq!(memo, b"memo".to_vec());
        },
        other => panic!("not a transfer: {:?}", other),
    }
}

#[test]
fn tags_are_the_runtime_s() {
    assert_eq!(XASSETS_MODULE, 5);
    assert_eq!(XCONTRACTS_MODULE, 7);
    assert_eq!(TRANSFER_CALL, 3);
    assert_eq!(CONVERT_TO_ASSET_CALL, 6);
}

#[test]
fn transfer_balance_builds_the_assets_call() {
    let account = AccountId::new([9u8; 32]);
    let call = transfer_balance(account, vec![1, 2], 7, vec![3]);
    assert_eq!(call, Call::XAssets(XAssets::transfer(account, vec![1, 2], 7, vec![3])));
}

#[test]
fn convert_to_asset_builds_the_contracts_call() {
    let account = AccountId::new([4u8; 32]);
    let call = convert_to_asset(account, 99);
    assert_eq!(call, Call::XContracts(XContracts::convert_to_asset(account, 99)));
}

#[test]
fn calls_convert_from_module_calls() {
    let account = AccountId::from([2u8; 32]);
    let assets = XAssets::transfer(account, vec![], 0, vec![]);
    assert_eq!(Call::from(assets.clone()), Call::XAssets(assets));
    let contracts = XContracts::convert_to_asset(account, 5);
    let call: Call = contracts.clone().into();
    assert_eq!(call, Call::XContracts(contracts));
}

#[test]
fn transfer_matches_native_encoding_at_boundary_amounts() {
    for value in boundary_amounts() {
        let call = transfer_balance(AccountId::new([0xab; 32]), b"PCX".to_vec(), value, b"memo".to_vec());
        assert_eq!(call.encode(), native_transfer([0xab; 32], b"PCX", value, b"memo"), "amount {}", value);
    }
}

#[test]
fn conversion_matches_native_encoding_at_boundary_amounts() {
    for value in boundary_amounts() {
        let call = convert_to_asset(AccountId::new([0x11; 32]), value);
        assert_eq!(call.encode(), native_conversion([0x11; 32], value), "amount {}", value);
    }
}

#[test]
fn transfer_matches_native_encoding_at_boundary_lengths() {
    for len in [0usize, 1, 63, 64, 65, 16_383, 16_384, 70_000] {
        let token: Vec<u8> = (0..len).map(|i| (i % 251) as u8).collect();
        let memo: Vec<u8> = (0..len).map(|i| (i % 7) as u8).collect();
        let call = transfer_balance(AccountId::new([3u8; 32]), token.clone(), 1, memo.clone());
        assert_eq!(call.encode(), native_transfer([3u8; 32], &token, 1, &memo), "length {}", len);
    }
}

#[test]
fn conversion_example_has_the_expected_bytes() {
    let call = convert_to_asset(AccountId::new([2u8; 32]), 64);
    let mut expected: Vec<u8> = vec![7, 6];
    expected.extend_from_slice(&[2u8; 32]);
    expected.extend_from_slice(&[0x01, 0x01]);
    assert_eq!(call.encode(), expected);
}

#[test]
fn calls_with_short_byte_strings_are_encodable() {
    let account = AccountId::new([2u8; 32]);
    assert!(convert_to_asset(account, u64::MAX).is_encodable());
    assert!(transfer_balance(account, vec![], 0, vec![]).is_encodable());
    assert!(transfer_balance(account, vec![0; 70_000], 0, vec![1; 3]).is_encodable());
    assert!(XAssets::transfer(account, b"PCX".to_vec(), 1, b"memo".to_vec()).is_encodable());
}

#[test]
fn encode_to_appends() {
    let call = convert_to_asset(AccountId::new([2u8; 32]), 0);
    let mut out: Vec<u8> = vec![0xee, 0xff];
    call.encode_to(&mut out);
    assert_eq!(&out[..2], &[0xee, 0xff]);
    assert_eq!(&out[2..], call.encode().as_slice());
    let mut inner: Vec<u8> = vec![];
    if let Call::XContracts(x) = &call {
        x.encode_to(&mut inner);
    }
    assert_eq!(inner.as_slice(), &call.encode()[1..]);
}

#[test]
fn decoding_undoes_encoding() {
    for value in boundary_amounts() {
        for len in [0usize, 1, 63, 64, 300] {
            let token: Vec<u8> = (0..len).map(|i| (i * 3) as u8).collect();
            let memo: Vec<u8> = (0..len + 1).map(|i| (i * 5) as u8).collect();
            let transfer = transfer_balance(AccountId::new([value as u8; 32]), token, value, memo);
            assert_eq!(Call::decode(&transfer.encode()), Ok(transfer));
            let conversion = convert_to_asset(AccountId::new([len as u8; 32]), value);
            assert_eq!(Call::decode(&conversion.encode()), Ok(conversion));
        }
    }
}

#[test]
fn what_decodes_encodes_to_the_same_bytes() {
    let bytes = native_transfer([8u8; 32], b"BTC", 1 << 33, b"");
    let call = Call::decode(&bytes).expect("a native transfer decodes");
    assert_eq!(call.encode(), bytes);
}

#[test]
fn decoding_agrees_with_the_native_decoder() {
    let good = native_transfer([1u8; 32], b"PCX", 10_000, b"memo");
    let mut inputs: Vec<Vec<u8>> = vec![];
    for cut in 0..=good.len() {
        inputs.push(good[..cut].to_vec());
    }
    for at in 2..good.len() {
        for delta in [1u8, 0x40, 0x80, 0xff] {
            let mut changed = good.clone();
            changed[at] = changed[at].wrapping_add(delta);
            inputs.push(changed);
        }
    }
    let mut longer = good.clone();
    longer.push(0);
    inputs.push(longer);
    for input in inputs {
        let native = NativeTransfer::decode_all(&mut input.as_slice());
        let ours = Call::decode(&input);
        match (native, ours) {
            (Ok(n), Ok(Call::XAssets(XAssets::transfer(dest, token, value, memo)))) => {
                assert_eq!((n.0, n.1), (5, 3));
                assert_eq!(n.2, dest.bytes);
                assert_eq!(n.3, token);
                assert_eq!(n.4 .0, value);
                assert_eq!(n.5, memo);
            },
            (Err(_), Err(_)) => {},
            (n, o) => panic!("disagreement on {:?}: {:?} against {:?}", input, n.is_ok(), o),
        }
    }
}

#[test]
fn unknown_module_tag_is_rejected() {
    let good = native_transfer([1u8; 32], b"PCX", 10_000, b"memo");
    for tag in 0..=255u8 {
        if tag == 5 || tag == 7 {
            continue;
        }
        let mut bytes = good.clone();
        bytes[0] = tag;
        assert_eq!(Call::decode(&bytes), Err(DecodeError::UnknownModule));
    }
    assert_eq!(Call::decode(&[0]), Err(DecodeError::UnknownModule));
}

#[test]
fn unknown_call_tag_is_rejected() {
    let transfer = native_transfer([1u8; 32], b"PCX", 10_000, b"memo");
    let conversion = native_conversion([1u8; 32], 10_000);
    for tag in 0..=255u8 {
        if tag != 3 {
            let mut bytes = transfer.clone();
            bytes[1] = tag;
            assert_eq!(Call::decode(&bytes), Err(DecodeError::UnknownCall));
        }
        if tag != 6 {
            let mut bytes = conversion.clone();
            bytes[1] = tag;
            assert_eq!(Call::decode(&bytes), Err(DecodeError::UnknownCall));
        }
    }
    assert_eq!(Call::decode(&[5, 6]), Err(DecodeError::UnknownCall));
    assert_eq!(Call::decode(&[7, 3]), Err(DecodeError::UnknownCall));
}

#[test]
fn a_tag_of_the_other_module_is_no_default() {
    let mut bytes = native_conversion([1u8; 32], 1);
    bytes[0] = 5;
    assert_eq!(Call::decode(&bytes), Err(DecodeError::UnknownCall));
}

#[test]
fn every_truncation_of_a_transfer_is_rejected() {
    for value in [0u64, 64, 1 << 14, 1 << 30, u64::MAX] {
        let good = native_transfer([1u8; 32], b"PCX", value, b"memo");
        for cut in 0..good.len() {
            let r = Call::decode(&good[..cut]);
            assert!(
                r == Err(DecodeError::Truncated) || r == Err(DecodeError::LengthOverrun),
                "cut at {} gave {:?}",
                cut,
                r
            );
        }
        assert!(Call::decode(&good).is_ok());
    }
}

#[test]
fn every_truncation_of_a_conversion_is_rejected() {
    for value in [0u64, 64, 1 << 14, 1 << 30, u64::MAX] {
        let good = native_conversion([1u8; 32], value);
        for cut in 0..good.len() {
            assert_eq!(Call::decode(&good[..cut]), Err(DecodeError::Truncated), "cut at {}", cut);
        }
    }
}

#[test]
fn truncation_names_the_field_that_ran_short() {
    let good = native_transfer([1u8; 32], b"PCX", 10_000, b"memo");
    assert_eq!(Call::decode(&[]), Err(DecodeError::Truncated));
    assert_eq!(Call::decode(&good[..1]), Err(DecodeError::Truncated));
    assert_eq!(Call::decode(&good[..20]), Err(DecodeError::Truncated));
    assert_eq!(Call::decode(&good[..34]), Err(DecodeError::Truncated));
    assert_eq!(Call::decode(&good[..36]), Err(DecodeError::LengthOverrun));
    assert_eq!(Call::decode(&good[..38]), Err(DecodeError::Truncated));
    assert_eq!(Call::decode(&good[..39]), Err(DecodeError::Truncated));
    assert_eq!(Call::decode(&good[..41]), Err(DecodeError::LengthOverrun));
    assert_eq!(Call::decode(&good[..44]), Err(DecodeError::LengthOverrun));
}

#[test]
fn trailing_bytes_are_rejected() {
    let mut bytes = native_transfer([1u8; 32], b"PCX", 10_000, b"memo");
    bytes.push(0);
    assert_eq!(Call::decode(&bytes), Err(DecodeError::TrailingBytes));
    let mut bytes = native_conversion([1u8; 32], 3);
    bytes.extend_from_slice(&[1, 2, 3]);
    assert_eq!(Call::decode(&bytes), Err(DecodeError::TrailingBytes));
}

#[test]
fn overlong_amount_is_rejected() {
    let mut bytes: Vec<u8> = vec![7, 6];
    bytes.extend_from_slice(&[1u8; 32]);
    bytes.extend_from_slice(&[0x01, 0x00]);
    assert_eq!(Call::decode(&bytes), Err(DecodeError::NonCanonicalCompact));
    assert!(NativeConversion::decode_all(&mut bytes.as_slice()).is_err());
}

#[test]
fn overlong_length_is_rejected() {
    let mut bytes: Vec<u8> = vec![5, 3];
    bytes.extend_from_slice(&[1u8; 32]);
    bytes.extend_from_slice(&[0x0d, 0x00, b'P', b'C', b'X']);
    bytes.extend_from_slice(&[0x04, 0x00]);
    assert_eq!(Call::decode(&bytes), Err(DecodeError::NonCanonicalCompact));
    assert!(NativeTransfer::decode_all(&mut bytes.as_slice()).is_err());
}

#[test]
fn module_calls_decode_from_the_start_of_their_input() {
    let bytes = native_transfer([1u8; 32], b"PCX", 10_000, b"memo");
    let mut longer = bytes[1..].to_vec();
    longer.extend_from_slice(&[9, 9]);
    let (call, used) = XAssets::decode_from(&longer).expect("an assets call and more");
    assert_eq!(used, bytes.len() - 1);
    assert_eq!(Call::XAssets(call), Call::decode(&bytes).unwrap());

    let bytes = native_conversion([6u8; 32], 77);
    let mut longer = bytes[1..].to_vec();
    longer.push(1);
    let (call, used) = XContracts::decode_from(&longer).expect("a contracts call and more");
    assert_eq!(used, bytes.len() - 1);
    assert_eq!(call, XContracts::convert_to_asset(AccountId::new([6u8; 32]), 77));
    assert_eq!(XContracts::decode_from(&[]), Err(DecodeError::Truncated));
    assert_eq!(XAssets::decode_from(&[6]), Err(DecodeError::UnknownCall));
}

#[test]
fn different_calls_have_different_encodings() {
    let a = AccountId::new([1u8; 32]);
    let calls = vec![
        transfer_balance(a, b"PCX".to_vec(), 1, b"memo".to_vec()),
        transfer_balance(a, b"PCX".to_vec(), 2, b"memo".to_vec()),
        transfer_balance(a, b"PC".to_vec(), 1, b"Xmemo".to_vec()),
        transfer_balance(a, b"PCX".to_vec(), 1, b"mem".to_vec()),
        transfer_balance(AccountId::new([2u8; 32]), b"PCX".to_vec(), 1, b"memo".to_vec()),
        convert_to_asset(a, 1),
        convert_to_asset(a, 2),
    ];
    for (i, x) in calls.iter().enumerate() {
        for (j, y) in calls.iter().enumerate() {
            assert_eq!(i == j, x.encode() == y.encode());
        }
    }
}
