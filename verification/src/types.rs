//! Plain-value models of the chain-level identifiers the core logic reads:
//! 256-bit account and message hashes, account addresses, shard identifiers
//! and short block identifiers, together with the monetary constants.

use vstd::prelude::*;

verus! {

/// One whole token, expressed in the chain's smallest denomination.
pub const ONE_TOKEN: u128 = 1_000_000_000;

/// Stake factor used when the configuration leaves it unset.
pub const DEFAULT_STAKE_FACTOR: u32 = 0x30000;

/// Workchain identifier of the masterchain.
pub const MASTERCHAIN_ID: i32 = -1;

/// Workchain identifier of the base shardchain.
pub const BASE_WORKCHAIN_ID: i32 = 0;

/// A 256-bit identifier (an account part of an address, or a message or
/// transaction hash), held as four little-endian 64-bit limbs.
#[derive(Clone, Copy, Debug, PartialEq, Eq, Structural)]
pub struct Uint256 {
    pub w0: u64,
    pub w1: u64,
    pub w2: u64,
    pub w3: u64,
}

/// A full account address: a workchain and the 256-bit account id within it.
#[derive(Clone, Copy, Debug, PartialEq, Eq, Structural)]
pub struct Address {
    pub workchain: i32,
    pub account: Uint256,
}

/// A shard identifier, modelled as the interval of 256-bit account prefixes
/// the shard covers, abbreviated to the leading 64 bits. The chain's tagged
/// prefix encoding maps to this form one for one: a prefix of length `k`
/// covers the aligned interval of size `2^(64-k)`. Both bounds are inclusive,
/// so the full range is representable.
#[derive(Clone, Copy, Debug, PartialEq, Eq, Structural)]
pub struct ShardIdent {
    pub workchain: i32,
    pub prefix_lo: u64,
    pub prefix_hi: u64,
}

impl ShardIdent {
    /// The interval is ordered.
    pub open spec fn wf(self) -> bool {
        self.prefix_lo <= self.prefix_hi
    }

    /// Two shards intersect when they lie in one workchain and their prefix
    /// intervals overlap.
    pub open spec fn spec_intersects(self, other: ShardIdent) -> bool {
        self.workchain == other.workchain && self.prefix_lo <= other.prefix_hi
            && other.prefix_lo <= self.prefix_hi
    }

    /// Whether this shard and `other` cover a common account prefix.
    pub fn intersects(&self, other: &ShardIdent) -> (r: bool)
        ensures
            r == self.spec_intersects(*other),
    {
        self.workchain == other.workchain && self.prefix_lo <= other.prefix_hi
            && other.prefix_lo <= self.prefix_hi
    }
}

/// A misconfiguration or an exhausted recovery that aborts the whole retry
/// loop instead of being retried.
#[derive(Clone, Copy, Debug, PartialEq, Eq, Structural)]
pub enum FatalReason {
    /// The wallet derived from the validator keys is not the configured one.
    WalletAddressMismatch,
    /// The pool names another wallet as its owner.
    DePoolOwnerMismatch,
    /// The pool does not expose exactly two proxy addresses.
    InvalidDePoolProxies,
    /// The pool does not report exactly four rounds.
    DePoolRoundsMismatch,
    /// The pool never reached the target round within the allowed prods.
    UpdateRoundsExhausted,
}

/// A short block identifier: the shard the block belongs to and its sequence
/// number within that shard.
#[derive(Clone, Copy, Debug, PartialEq, Eq, Structural)]
pub struct BlockIdShort {
    pub shard: ShardIdent,
    pub seq_no: u32,
}

} // verus!
