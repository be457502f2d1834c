//! What the runtime stores under an account's balance entry: an amount for
//! each kind of holding the account has.

use vstd::prelude::*;
use vstd::slice::slice_subrange;
use crate::error::DecodeError;
use crate::primitives::{decode_compact_u32, decode_fixed, le_value, parse_compact, tail};

verus! {

/// The kinds of holding the runtime tells apart, in the runtime's order.
#[derive(Clone, Copy, Debug, PartialEq, Eq, Structural, PartialOrd, Ord, Hash)]
pub enum AssetType {
    Free,
    ReservedStaking,
    ReservedStakingRevocation,
    ReservedWithdrawal,
    ReservedDexSpot,
    ReservedDexFuture,
    ReservedCurrency,
    ReservedXRC20,
    GasPayment,
}

/// The number of kinds of holding.
pub const ASSET_TYPES: usize = 9;

/// The number of bytes an entry of the stored table occupies: one for the
/// kind and eight for the amount.
pub const ENTRY_LEN: usize = 9;

impl AssetType {
    /// The byte that stands for this kind on the wire: its place in the
    /// runtime's order, counted from zero.
    pub open spec fn index(self) -> nat {
        match self {
            AssetType::Free => 0,
            AssetType::ReservedStaking => 1,
            AssetType::ReservedStakingRevocation => 2,
            AssetType::ReservedWithdrawal => 3,
            AssetType::ReservedDexSpot => 4,
            AssetType::ReservedDexFuture => 5,
            AssetType::ReservedCurrency => 6,
            AssetType::ReservedXRC20 => 7,
            AssetType::GasPayment => 8,
        }
    }

    /// The kind that the byte `b` stands for, for `b` up to eight.
    pub open spec fn at(b: nat) -> AssetType {
        if b == 0 {
            AssetType::Free
        } else if b == 1 {
            AssetType::ReservedStaking
        } else if b == 2 {
            AssetType::ReservedStakingRevocation
        } else if b == 3 {
            AssetType::ReservedWithdrawal
        } else if b == 4 {
            AssetType::ReservedDexSpot
        } else if b == 5 {
            AssetType::ReservedDexFuture
        } else if b == 6 {
            AssetType::ReservedCurrency
        } else if b == 7 {
            AssetType::ReservedXRC20
        } else {
            AssetType::GasPayment
        }
    }

    /// The byte that stands for this kind on the wire.
    pub fn to_index(self) -> (b: u8)
        ensures
            b == self.index(),
            b < 9,
            AssetType::at(b as nat) == self,
    {
        match self {
            AssetType::Free => 0,
            AssetType::ReservedStaking => 1,
            AssetType::ReservedStakingRevocation => 2,
            AssetType::ReservedWithdrawal => 3,
            AssetType::ReservedDexSpot => 4,
            AssetType::ReservedDexFuture => 5,
            AssetType::ReservedCurrency => 6,
            AssetType::ReservedXRC20 => 7,
            AssetType::GasPayment => 8,
        }
    }

    /// The kind that the byte `b` stands for, if it stands for any.
    pub fn from_index(b: u8) -> (kind: Option<AssetType>)
        ensures
            b < 9 ==> kind == Some(AssetType::at(b as nat)) && AssetType::at(b as nat).index() == b,
            b >= 9 ==> kind is None,
    {
        match b {
            0 => Some(AssetType::Free),
            1 => Some(AssetType::ReservedStaking),
            2 => Some(AssetType::ReservedStakingRevocation),
            3 => Some(AssetType::ReservedWithdrawal),
            4 => Some(AssetType::ReservedDexSpot),
            5 => Some(AssetType::ReservedDexFuture),
            6 => Some(AssetType::ReservedCurrency),
            7 => Some(AssetType::ReservedXRC20),
            8 => Some(AssetType::GasPayment),
            _ => None,
        }
    }
}

/// An account's holdings of one asset: an amount for some of the kinds.
#[derive(Clone, Copy, Debug, PartialEq, Eq)]
pub struct AssetBalances {
    amounts: [Option<u64>; 9],
}

impl View for AssetBalances {
    type V = Map<AssetType, nat>;

    closed spec fn view(&self) -> Map<AssetType, nat> {
        Map::new(
            |kind: AssetType| self.amounts@[kind.index() as int] is Some,
            |kind: AssetType| self.amounts@[kind.index() as int]->Some_0 as nat,
        )
    }
}

impl AssetBalances {
    /// The holdings of an account that holds nothing.
    pub fn new() -> (balances: AssetBalances)
        ensures
            balances@ == Map::<AssetType, nat>::empty(),
    {
        let balances = AssetBalances { amounts: [None; 9] };
        assert(balances@ =~= Map::<AssetType, nat>::empty());
        balances
    }

    /// The amount held of `kind`, if any is recorded.
    pub fn get(&self, kind: AssetType) -> (amount: Option<u64>)
        ensures
            amount is Some <==> self@.dom().contains(kind),
            amount matches Some(v) ==> self@[kind] == v,
    {
        self.amounts[kind.to_index() as usize]
    }

    /// Records `amount` as held of `kind`, in place of what was recorded.
    pub fn insert(&mut self, kind: AssetType, amount: u64)
        ensures
            final(self)@ == old(self)@.insert(kind, amount as nat),
    {
        self.amounts[kind.to_index() as usize] = Some(amount);
        assert(self@ =~= old(self)@.insert(kind, amount as nat));
    }

    /// Whether no amount is recorded for any kind.
    pub fn is_empty(&self) -> (empty: bool)
        ensures
            empty <==> self@ == Map::<AssetType, nat>::empty(),
    {
        let mut i: usize = 0;
        while i < ASSET_TYPES
            invariant
                i <= 9,
                forall|j: int| 0 <= j < i ==> self.amounts@[j] is None,
            decreases 9 - i,
        {
            if self.amounts[i].is_some() {
                proof {
                    let kind = AssetType::at(i as nat);
                    assert(kind.index() == i);
                    assert(self@.dom().contains(kind));
                }
                return false;
            }
            i += 1;
        }
        assert(self@ =~= Map::<AssetType, nat>::empty());
        true
    }

    /// The recorded amounts with their kinds, in the runtime's order of
    /// kinds.
    pub fn entries(&self) -> (list: Vec<(AssetType, u64)>)
        ensures
            forall|i: int|
                0 <= i < list.len() ==> self@.contains_pair(
                    (#[trigger] list[i]).0,
                    list[i].1 as nat,
                ),
            forall|kind: AssetType|
                self@.dom().contains(kind) ==> exists|i: int|
                    0 <= i < list.len() && (#[trigger] list[i]).0 == kind,
            forall|i: int, j: int|
                0 <= i < j < list.len() ==> (#[trigger] list[i]).0.index() < (
                #[trigger] list[j]).0.index(),
    {
        let mut list: Vec<(AssetType, u64)> = Vec::new();
        let mut b: u8 = 0;
        while b < 9
            invariant
                b <= 9,
                forall|i: int|
                    0 <= i < list.len() ==> self@.contains_pair(
                        (#[trigger] list[i]).0,
                        list[i].1 as nat,
                    ),
                forall|i: int| 0 <= i < list.len() ==> (#[trigger] list[i]).0.index() < b,
                forall|kind: AssetType|
                    self@.dom().contains(kind) && kind.index() < b ==> exists|i: int|
                        0 <= i < list.len() && (#[trigger] list[i]).0 == kind,
                forall|i: int, j: int|
                    0 <= i < j < list.len() ==> (#[trigger] list[i]).0.index() < (
                    #[trigger] list[j]).0.index(),
            decreases 9 - b,
        {
            let ghost before = list@;
            match (AssetType::from_index(b), self.amounts[b as usize]) {
                (Some(kind), Some(amount)) => {
                    list.push((kind, amount));
                    assert(forall|i: int| 0 <= i < before.len() ==> list[i] == before[i]);
                    assert(list[before.len() as int].0 == kind);
                },
                _ => {},
            }
            b += 1;
        }
        list
    }
}

/// The byte that names the kind of entry `i` of a stored table.
pub open spec fn entry_kind(body: Seq<u8>, i: int) -> u8 {
    body[9 * i]
}

/// The amount of entry `i` of a stored table: eight bytes, least significant
/// first.
pub open spec fn entry_amount(body: Seq<u8>, i: int) -> nat {
    le_value(body.subrange(9 * i + 1, 9 * i + 9))
}

/// The holdings that the first `count` entries of a stored table add up to.
/// Where a kind occurs twice, the later entry counts.
pub open spec fn table_of(body: Seq<u8>, count: nat) -> Map<AssetType, nat>
    decreases count,
{
    if count == 0 {
        Map::empty()
    } else {
        table_of(body, (count - 1) as nat).insert(
            AssetType::at(entry_kind(body, count - 1) as nat),
            entry_amount(body, count - 1),
        )
    }
}

/// What decoding makes of a stored table: the number of entries as a compact
/// 32-bit integer, then that many entries of nine bytes and nothing else, each
/// naming a kind that exists. Anything else is no table.
pub open spec fn decoding_balances(s: Seq<u8>) -> Option<Map<AssetType, nat>> {
    match parse_compact(s, 4) {
        Err(_) => None,
        Ok((count, n)) => {
            let body = s.skip(n as int);
            if body.len() == 9 * count && (forall|i: int|
                0 <= i < count ==> #[trigger] entry_kind(body, i) < 9) {
                Some(table_of(body, count))
            } else {
                None
            }
        },
    }
}

/// Reads an account's holdings from the whole of `input`, as the runtime
/// stores them.
pub fn decode_balances(input: &[u8]) -> (r: Option<AssetBalances>)
    ensures
        match r {
            Some(balances) => decoding_balances(input@) == Some(balances@),
            None => decoding_balances(input@) is None,
        },
{
    let (count, n) = match decode_compact_u32(input) {
        Err(_) => { return None; },
        Ok(found) => found,
    };
    let count: usize = count as usize;
    let body = tail(input, n);
    if body.len() % ENTRY_LEN != 0 || body.len() / ENTRY_LEN != count {
        return None;
    }
    let mut balances = AssetBalances::new();
    let mut i: usize = 0;
    while i < count
        invariant
            i <= count,
            body.len() == 9 * count,
            body@ == input@.skip(n as int),
            parse_compact(input@, 4) == Ok::<(nat, nat), DecodeError>((count as nat, n as nat)),
            forall|j: int| 0 <= j < i ==> #[trigger] entry_kind(body@, j) < 9,
            balances@ == table_of(body@, i as nat),
        decreases count - i,
    {
        let at: usize = ENTRY_LEN * i;
        let kind = match AssetType::from_index(body[at]) {
            None => {
                assert(entry_kind(body@, i as int) >= 9);
                return None;
            },
            Some(kind) => kind,
        };
        let field = slice_subrange(body, at + 1, at + ENTRY_LEN);
        let amount = match decode_fixed(field, 8) {
            Err(_) => { return None; },
            Ok(amount) => amount,
        };
        assert(field@.take(8) =~= field@);
        balances.insert(kind, amount);
        i += 1;
    }
    Some(balances)
}

/// What a lookup of an account's holdings amounts to, given what the runtime
/// had under the key: nothing at all where there was no entry, and nothing
/// either where the entry is no table.
pub open spec fn balances_found(raw: Option<Seq<u8>>) -> Map<AssetType, nat> {
    match raw {
        None => Map::empty(),
        Some(bytes) => match decoding_balances(bytes) {
            None => Map::empty(),
            Some(table) => table,
        },
    }
}

/// Turns what the runtime had under a balance key into holdings. A missing
/// entry and an entry that does not decode both count as holding nothing.
pub fn balances_or_default(raw: Option<Vec<u8>>) -> (balances: AssetBalances)
    ensures
        balances@ == balances_found(
            match raw {
                None => None,
                Some(bytes) => Some(bytes@),
            },
        ),
{
    match raw {
        None => AssetBalances::new(),
        Some(bytes) => match decode_balances(bytes.as_slice()) {
            None => AssetBalances::new(),
            Some(balances) => balances,
        },
    }
}

} // verus!
