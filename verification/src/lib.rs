//! Byte-exact encoding of ChainX runtime calls and derivation of runtime
//! storage keys, for callers that live outside the runtime.
//!
//! Every tag, field order and integer width below is pinned to the runtime's
//! own layout. The encoders are proved against a mathematical description of
//! that layout, and the decoders are proved to accept exactly the byte strings
//! the encoders produce.

pub mod balances;
pub mod calls;
pub mod error;
pub mod laws;
pub mod pcx;
pub mod primitives;
pub mod storage;
pub mod types;

pub use balances::{AssetBalances, AssetType};
pub use calls::{Call, XAssets, XContracts};
pub use error::DecodeError;
pub use types::{AccountId, Balance};
