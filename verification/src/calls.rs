//! The runtime calls this crate can build, and their wire format.
//!
//! A call is written as the tag of its module, the tag of the call within
//! the module, and the call's fields in order. The tags are the runtime's own
//! and have nothing to do with the order of declaration here.

use vstd::prelude::*;
use crate::error::DecodeError;
use crate::laws::{lemma_decodable_iff_encoding, lemma_decoding_canonical, lemma_round_trip};
use crate::primitives::{
    compact, decode_bytes, decode_compact_u64, encode_bytes, encode_compact, parse_compact,
    parse_prefixed, prefixed, tail,
};
use crate::types::{parse_account, AccountId, Balance};

verus! {

/// The runtime's tag for the assets module.
pub const XASSETS_MODULE: u8 = 5;

/// The runtime's tag for the contracts module.
pub const XCONTRACTS_MODULE: u8 = 7;

/// The assets module's tag for a transfer.
pub const TRANSFER_CALL: u8 = 3;

/// The contracts module's tag for a conversion to an asset.
pub const CONVERT_TO_ASSET_CALL: u8 = 6;

/// Calls of the assets module.
#[derive(Clone, Debug, PartialEq, Eq)]
pub enum XAssets {
    /// Moves `value` of the asset named by the token to the destination
    /// account, with a memo. Fields: destination, token, value, memo.
    #[allow(non_camel_case_types)]
    transfer(AccountId, Vec<u8>, Balance, Vec<u8>),
}

/// Calls of the contracts module.
#[derive(Clone, Debug, PartialEq, Eq)]
pub enum XContracts {
    /// Converts `value` held by a contract into the asset of the given
    /// account. Fields: account, value.
    #[allow(non_camel_case_types)]
    convert_to_asset(AccountId, Balance),
}

/// A call into the runtime: a subset of the runtime's own calls.
#[derive(Clone, Debug, PartialEq, Eq)]
pub enum Call {
    XAssets(XAssets),
    XContracts(XContracts),
}

/// An assets call as a mathematical value.
pub enum XAssetsView {
    Transfer { dest: Seq<u8>, token: Seq<u8>, value: nat, memo: Seq<u8> },
}

/// A contracts call as a mathematical value.
pub enum XContractsView {
    ConvertToAsset { to: Seq<u8>, value: nat },
}

/// A call as a mathematical value.
pub enum CallView {
    XAssets(XAssetsView),
    XContracts(XContractsView),
}

impl XAssetsView {
    /// The fields have the sizes the wire format can carry: an account of 32
    /// bytes, a 64-bit value, and byte strings whose lengths fit in 32 bits.
    pub open spec fn wf(self) -> bool {
        match self {
            XAssetsView::Transfer { dest, token, value, memo } => {
                &&& dest.len() == 32
                &&& token.len() <= u32::MAX
                &&& value <= u64::MAX
                &&& memo.len() <= u32::MAX
            },
        }
    }

    /// The wire format of the call: its tag, then the destination as it is,
    /// the token with its length, the value as a compact integer and the
    /// memo with its length.
    pub open spec fn encoding(self) -> Seq<u8> {
        match self {
            XAssetsView::Transfer { dest, token, value, memo } => seq![TRANSFER_CALL] + dest
                + prefixed(token) + compact(value) + prefixed(memo),
        }
    }
}

impl XContractsView {
    /// The fields have the sizes the wire format can carry: an account of 32
    /// bytes and a 64-bit value.
    pub open spec fn wf(self) -> bool {
        match self {
            XContractsView::ConvertToAsset { to, value } => {
                &&& to.len() == 32
                &&& value <= u64::MAX
            },
        }
    }

    /// The wire format of the call: its tag, then the account as it is and
    /// the value as a compact integer.
    pub open spec fn encoding(self) -> Seq<u8> {
        match self {
            XContractsView::ConvertToAsset { to, value } => seq![CONVERT_TO_ASSET_CALL] + to
                + compact(value),
        }
    }
}

impl CallView {
    /// The call's fields have the sizes the wire format can carry.
    pub open spec fn wf(self) -> bool {
        match self {
            CallView::XAssets(x) => x.wf(),
            CallView::XContracts(x) => x.wf(),
        }
    }

    /// The wire format of the call: the tag of its module, then the call as
    /// the module writes it.
    pub open spec fn encoding(self) -> Seq<u8> {
        match self {
            CallView::XAssets(x) => seq![XASSETS_MODULE] + x.encoding(),
            CallView::XContracts(x) => seq![XCONTRACTS_MODULE] + x.encoding(),
        }
    }
}

impl View for XAssets {
    type V = XAssetsView;

    open spec fn view(&self) -> XAssetsView {
        match *self {
            XAssets::transfer(dest, token, value, memo) => XAssetsView::Transfer {
                dest: dest@,
                token: token@,
                value: value as nat,
                memo: memo@,
            },
        }
    }
}

impl View for XContracts {
    type V = XContractsView;

    open spec fn view(&self) -> XContractsView {
        match *self {
            XContracts::convert_to_asset(to, value) => XContractsView::ConvertToAsset {
                to: to@,
                value: value as nat,
            },
        }
    }
}

impl View for Call {
    type V = CallView;

    open spec fn view(&self) -> CallView {
        match *self {
            Call::XAssets(x) => CallView::XAssets(x@),
            Call::XContracts(x) => CallView::XContracts(x@),
        }
    }
}

/// What a strict reader makes of an assets call at the start of `s`: the call
/// and the number of bytes it occupies, or the first reason for rejecting it.
pub open spec fn parse_xassets(s: Seq<u8>) -> Result<(XAssetsView, nat), DecodeError> {
    if s.len() == 0 {
        Err(DecodeError::Truncated)
    } else if s[0] != TRANSFER_CALL {
        Err(DecodeError::UnknownCall)
    } else {
        match parse_account(s.skip(1)) {
            Err(e) => Err(e),
            Ok((dest, n1)) => match parse_prefixed(s.skip((1 + n1) as int)) {
                Err(e) => Err(e),
                Ok((token, n2)) => match parse_compact(s.skip((1 + n1 + n2) as int), 8) {
                    Err(e) => Err(e),
                    Ok((value, n3)) => match parse_prefixed(s.skip((1 + n1 + n2 + n3) as int)) {
                        Err(e) => Err(e),
                        Ok((memo, n4)) => Ok(
                            (
                                XAssetsView::Transfer { dest, token, value, memo },
                                1 + n1 + n2 + n3 + n4,
                            ),
                        ),
                    },
                },
            },
        }
    }
}

/// What a strict reader makes of a contracts call at the start of `s`: the
/// call and the number of bytes it occupies, or the first reason for
/// rejecting it.
pub open spec fn parse_xcontracts(s: Seq<u8>) -> Result<(XContractsView, nat), DecodeError> {
    if s.len() == 0 {
        Err(DecodeError::Truncated)
    } else if s[0] != CONVERT_TO_ASSET_CALL {
        Err(DecodeError::UnknownCall)
    } else {
        match parse_account(s.skip(1)) {
            Err(e) => Err(e),
            Ok((to, n1)) => match parse_compact(s.skip((1 + n1) as int), 8) {
                Err(e) => Err(e),
                Ok((value, n2)) => Ok((XContractsView::ConvertToAsset { to, value }, 1 + n1 + n2)),
            },
        }
    }
}

/// What a strict reader makes of a call at the start of `s`: the call and the
/// number of bytes it occupies, or the first reason for rejecting it.
pub open spec fn parse_call(s: Seq<u8>) -> Result<(CallView, nat), DecodeError> {
    if s.len() == 0 {
        Err(DecodeError::Truncated)
    } else if s[0] == XASSETS_MODULE {
        match parse_xassets(s.skip(1)) {
            Err(e) => Err(e),
            Ok((x, n)) => Ok((CallView::XAssets(x), 1 + n)),
        }
    } else if s[0] == XCONTRACTS_MODULE {
        match parse_xcontracts(s.skip(1)) {
            Err(e) => Err(e),
            Ok((x, n)) => Ok((CallView::XContracts(x), 1 + n)),
        }
    } else {
        Err(DecodeError::UnknownModule)
    }
}

/// What decoding makes of the whole of `s`: the call that `s` holds from its
/// first byte to its last, or the first reason for rejecting it. Input left
/// over behind a well-formed call is a reason.
pub open spec fn decoding(s: Seq<u8>) -> Result<CallView, DecodeError> {
    match parse_call(s) {
        Err(e) => Err(e),
        Ok((c, n)) => if n == s.len() {
            Ok(c)
        } else {
            Err(DecodeError::TrailingBytes)
        },
    }
}

impl XAssets {
    /// Whether the call has a wire format: whether the lengths of its byte
    /// strings fit in 32 bits.
    pub fn is_encodable(&self) -> (ok: bool)
        ensures
            ok == self@.wf(),
    {
        match self {
            XAssets::transfer(_, token, _, memo) => token.len() <= 0xffff_ffff && memo.len()
                <= 0xffff_ffff,
        }
    }

    /// Appends the wire format of the call.
    pub fn encode_to(&self, out: &mut Vec<u8>)
        requires
            self@.wf(),
        ensures
            final(out)@ == old(out)@ + self@.encoding(),
    {
        let ghost start = out@;
        match self {
            XAssets::transfer(dest, token, value, memo) => {
                out.push(TRANSFER_CALL);
                dest.encode_to(out);
                encode_bytes(token.as_slice(), out);
                encode_compact(*value, out);
                encode_bytes(memo.as_slice(), out);
            },
        }
        assert(out@ =~= start + self@.encoding());
    }

    /// Reads an assets call from the start of `input`, and says how many
    /// bytes it occupies.
    pub fn decode_from(input: &[u8]) -> (r: Result<(XAssets, usize), DecodeError>)
        ensures
            match r {
                Ok((x, n)) => parse_xassets(input@) == Ok::<(XAssetsView, nat), DecodeError>(
                    (x@, n as nat),
                ),
                Err(e) => parse_xassets(input@) == Err::<(XAssetsView, nat), DecodeError>(e),
            },
    {
        if input.len() == 0 {
            return Err(DecodeError::Truncated);
        }
        if input[0] != TRANSFER_CALL {
            return Err(DecodeError::UnknownCall);
        }
        let (dest, n1) = match AccountId::decode_from(tail(input, 1)) {
            Err(e) => { return Err(e); },
            Ok(found) => found,
        };
        let (token, n2) = match decode_bytes(tail(input, 1 + n1)) {
            Err(e) => { return Err(e); },
            Ok(found) => found,
        };
        let (value, n3) = match decode_compact_u64(tail(input, 1 + n1 + n2)) {
            Err(e) => { return Err(e); },
            Ok(found) => found,
        };
        let (memo, n4) = match decode_bytes(tail(input, 1 + n1 + n2 + n3)) {
            Err(e) => { return Err(e); },
            Ok(found) => found,
        };
        Ok((XAssets::transfer(dest, token, value, memo), 1 + n1 + n2 + n3 + n4))
    }
}

impl XContracts {
    /// Appends the wire format of the call.
    pub fn encode_to(&self, out: &mut Vec<u8>)
        ensures
            final(out)@ == old(out)@ + self@.encoding(),
    {
        let ghost start = out@;
        match self {
            XContracts::convert_to_asset(to, value) => {
                out.push(CONVERT_TO_ASSET_CALL);
                to.encode_to(out);
                encode_compact(*value, out);
            },
        }
        assert(out@ =~= start + self@.encoding());
    }

    /// Reads a contracts call from the start of `input`, and says how many
    /// bytes it occupies.
    pub fn decode_from(input: &[u8]) -> (r: Result<(XContracts, usize), DecodeError>)
        ensures
            match r {
                Ok((x, n)) => parse_xcontracts(input@) == Ok::<(XContractsView, nat), DecodeError>(
                    (x@, n as nat),
                ),
                Err(e) => parse_xcontracts(input@) == Err::<(XContractsView, nat), DecodeError>(e),
            },
    {
        if input.len() == 0 {
            return Err(DecodeError::Truncated);
        }
        if input[0] != CONVERT_TO_ASSET_CALL {
            return Err(DecodeError::UnknownCall);
        }
        let (to, n1) = match AccountId::decode_from(tail(input, 1)) {
            Err(e) => { return Err(e); },
            Ok(found) => found,
        };
        let (value, n2) = match decode_compact_u64(tail(input, 1 + n1)) {
            Err(e) => { return Err(e); },
            Ok(found) => found,
        };
        Ok((XContracts::convert_to_asset(to, value), 1 + n1 + n2))
    }
}

impl Call {
    /// Whether the call has a wire format. Every call does whose byte strings
    /// have lengths that fit in 32 bits.
    pub fn is_encodable(&self) -> (ok: bool)
        ensures
            ok == self@.wf(),
    {
        match self {
            Call::XAssets(x) => x.is_encodable(),
            Call::XContracts(_) => true,
        }
    }

    /// Appends the wire format of the call.
    pub fn encode_to(&self, out: &mut Vec<u8>)
        requires
            self@.wf(),
        ensures
            final(out)@ == old(out)@ + self@.encoding(),
    {
        let ghost start = out@;
        match self {
            Call::XAssets(x) => {
                out.push(XASSETS_MODULE);
                x.encode_to(out);
            },
            Call::XContracts(x) => {
                out.push(XCONTRACTS_MODULE);
                x.encode_to(out);
            },
        }
        assert(out@ =~= start + self@.encoding());
    }

    /// The wire format of the call, as the runtime's dispatcher expects it.
    /// Decoding it gives the call back.
    pub fn encode(&self) -> (bytes: Vec<u8>)
        requires
            self@.wf(),
        ensures
            bytes@ == self@.encoding(),
            decoding(bytes@) == Ok::<CallView, DecodeError>(self@),
    {
        let mut out: Vec<u8> = Vec::new();
        self.encode_to(&mut out);
        assert(out@ =~= self@.encoding());
        proof {
            lemma_round_trip(self@);
        }
        out
    }

    /// Reads a call from the whole of `input`.
    ///
    /// Succeeds exactly when `input` holds one call and nothing else; fails
    /// with the first reason a reader meets otherwise.
    pub fn decode(input: &[u8]) -> (r: Result<Call, DecodeError>)
        ensures
            match r {
                Ok(c) => decoding(input@) == Ok::<CallView, DecodeError>(c@) && c@.wf() && input@
                    == c@.encoding(),
                Err(e) => decoding(input@) == Err::<CallView, DecodeError>(e),
            },
            r is Ok <==> exists|c: CallView| c.wf() && input@ == #[trigger] c.encoding(),
    {
        proof {
            lemma_decoding_canonical(input@);
            lemma_decodable_iff_encoding(input@);
        }
        if input.len() == 0 {
            return Err(DecodeError::Truncated);
        }
        let module: u8 = input[0];
        if module == XASSETS_MODULE {
            match XAssets::decode_from(tail(input, 1)) {
                Err(e) => Err(e),
                Ok((x, n)) => if 1 + n == input.len() {
                    Ok(Call::XAssets(x))
                } else {
                    Err(DecodeError::TrailingBytes)
                },
            }
        } else if module == XCONTRACTS_MODULE {
            match XContracts::decode_from(tail(input, 1)) {
                Err(e) => Err(e),
                Ok((x, n)) => if 1 + n == input.len() {
                    Ok(Call::XContracts(x))
                } else {
                    Err(DecodeError::TrailingBytes)
                },
            }
        } else {
            Err(DecodeError::UnknownModule)
        }
    }
}

impl From<XAssets> for Call {
    fn from(assets_call: XAssets) -> (call: Call) {
        Call::XAssets(assets_call)
    }
}

impl vstd::std_specs::convert::FromSpecImpl<XAssets> for Call {
    open spec fn obeys_from_spec() -> bool {
        true
    }

    open spec fn from_spec(assets_call: XAssets) -> Call {
        Call::XAssets(assets_call)
    }
}

impl From<XContracts> for Call {
    fn from(contracts_call: XContracts) -> (call: Call) {
        Call::XContracts(contracts_call)
    }
}

impl vstd::std_specs::convert::FromSpecImpl<XContracts> for Call {
    open spec fn obeys_from_spec() -> bool {
        true
    }

    open spec fn from_spec(contracts_call: XContracts) -> Call {
        Call::XContracts(contracts_call)
    }
}

/// Builds the call that transfers `balance` of the asset `token` to
/// `account`, with `memo`.
pub fn transfer_balance(account: AccountId, token: Vec<u8>, balance: Balance, memo: Vec<u8>) -> (call:
    Call)
    ensures
        call == Call::XAssets(XAssets::transfer(account, token, balance, memo)),
        call@ == CallView::XAssets(
            XAssetsView::Transfer {
                dest: account@,
                token: token@,
                value: balance as nat,
                memo: memo@,
            },
        ),
{
    Call::from(XAssets::transfer(account, token, balance, memo))
}

/// Builds the call that converts `balance` held by a contract into the asset
/// of `account`.
pub fn convert_to_asset(account: AccountId, balance: Balance) -> (call: Call)
    ensures
        call == Call::XContracts(XContracts::convert_to_asset(account, balance)),
        call@ == CallView::XContracts(
            XContractsView::ConvertToAsset { to: account@, value: balance as nat },
        ),
        call@.wf(),
{
    Call::from(XContracts::convert_to_asset(account, balance))
}

} // verus!
