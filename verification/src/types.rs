//! The runtime's basic types as this crate sees them.

use vstd::prelude::*;
use crate::error::DecodeError;
use crate::primitives::append;

verus! {

/// An amount of an asset.
pub type Balance = u64;

/// The number of bytes in an account identifier.
pub const ACCOUNT_ID_LEN: usize = 32;

/// An account of the runtime: 32 bytes that this crate never interprets.
#[derive(Clone, Copy, Debug, PartialEq, Eq)]
pub struct AccountId {
    pub bytes: [u8; 32],
}

impl View for AccountId {
    type V = Seq<u8>;

    open spec fn view(&self) -> Seq<u8> {
        self.bytes@
    }
}

/// What a reader makes of an account identifier at the start of `s`: its 32
/// bytes and their number, or `Truncated` when `s` is shorter.
pub open spec fn parse_account(s: Seq<u8>) -> Result<(Seq<u8>, nat), DecodeError> {
    if s.len() < 32 {
        Err(DecodeError::Truncated)
    } else {
        Ok((s.take(32), 32))
    }
}

impl AccountId {
    /// The account with the given bytes.
    pub fn new(bytes: [u8; 32]) -> (a: AccountId)
        ensures
            a@ == bytes@,
    {
        AccountId { bytes }
    }

    /// Appends the account's 32 bytes, with no prefix.
    pub fn encode_to(&self, out: &mut Vec<u8>)
        ensures
            final(out)@ == old(out)@ + self@,
    {
        append(self.bytes.as_slice(), out);
    }

    /// Reads an account from the first 32 bytes of `input`, and says how many
    /// bytes it occupies.
    pub fn decode_from(input: &[u8]) -> (r: Result<(AccountId, usize), DecodeError>)
        ensures
            match r {
                Ok((a, n)) => parse_account(input@) == Ok::<(Seq<u8>, nat), DecodeError>(
                    (a@, n as nat),
                ),
                Err(e) => parse_account(input@) == Err::<(Seq<u8>, nat), DecodeError>(e),
            },
    {
        if input.len() < ACCOUNT_ID_LEN {
            return Err(DecodeError::Truncated);
        }
        let mut bytes: [u8; 32] = [0u8; 32];
        let mut i: usize = 0;
        while i < ACCOUNT_ID_LEN
            invariant
                i <= 32 <= input.len(),
                forall|j: int| 0 <= j < i ==> bytes@[j] == input@[j],
            decreases 32 - i,
        {
            bytes[i] = input[i];
            i += 1;
        }
        assert(bytes@ =~= input@.take(32));
        Ok((AccountId { bytes }, ACCOUNT_ID_LEN))
    }
}

impl From<[u8; 32]> for AccountId {
    fn from(bytes: [u8; 32]) -> (account: AccountId) {
        AccountId { bytes }
    }
}

impl vstd::std_specs::convert::FromSpecImpl<[u8; 32]> for AccountId {
    open spec fn obeys_from_spec() -> bool {
        true
    }

    open spec fn from_spec(bytes: [u8; 32]) -> AccountId {
        AccountId { bytes }
    }
}

} // verus!
