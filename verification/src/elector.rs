//! The direct election mode: a snapshot model of the elector contract's state
//! and the planner that decides, from that snapshot, what the scheduler does
//! on behalf of a wallet staking for itself.

use vstd::prelude::*;

use crate::types::Address;
use crate::types::FatalReason;
use crate::types::Uint256;
use crate::types::DEFAULT_STAKE_FACTOR;
use crate::types::ONE_TOKEN;

verus! {

/// What the scheduler reads out of the elector contract's state: the current
/// election id if one is open, the addresses already elected for it, and the
/// unfrozen stakes recoverable per address.
pub struct ElectorData {
    pub election_id: Option<u32>,
    pub elected: Vec<Uint256>,
    pub unfrozen: Vec<(Uint256, u64)>,
}

/// Whether `account` holds a recoverable unfrozen stake.
pub open spec fn spec_has_unfrozen(data: ElectorData, account: Uint256) -> bool {
    exists|i: int| 0 <= i < data.unfrozen@.len() && data.unfrozen@[i].0 == account
}

/// The unfrozen stake recoverable by `account`, when there is one.
pub open spec fn spec_unfrozen_of(data: ElectorData, account: Uint256) -> Option<u64> {
    if spec_has_unfrozen(data, account) {
        let i = choose|i: int| 0 <= i < data.unfrozen@.len() && data.unfrozen@[i].0 == account;
        Some(data.unfrozen@[i].1)
    } else {
        None
    }
}

/// Whether `account` is already elected for the current election.
pub open spec fn spec_elected(data: ElectorData, account: Uint256) -> bool {
    exists|i: int| 0 <= i < data.elected@.len() && data.elected@[i] == account
}

impl ElectorData {
    /// The unfrozen-stake table keys each address once.
    pub open spec fn wf(self) -> bool {
        forall|i: int, j: int|
            0 <= i < j < self.unfrozen@.len() ==> self.unfrozen@[i].0 != self.unfrozen@[j].0
    }

    /// The recoverable unfrozen stake of `account`, or `None` when the
    /// elector holds nothing unfrozen for it.
    pub fn unfrozen_stake(&self, account: &Uint256) -> (r: Option<u64>)
        requires
            self.wf(),
        ensures
            r == spec_unfrozen_of(*self, *account),
    {
        let n = self.unfrozen.len();
        for i in 0..n
            invariant
                n == self.unfrozen@.len(),
                forall|j: int| 0 <= j < i ==> self.unfrozen@[j].0 != *account,
                self.wf(),
        {
            if self.unfrozen[i].0 == *account {
                return Some(self.unfrozen[i].1);
            }
        }
        None
    }

    /// Whether `account` is listed as elected for the current election.
    pub fn is_elected(&self, account: &Uint256) -> (r: bool)
        ensures
            r == spec_elected(*self, *account),
    {
        let n = self.elected.len();
        for i in 0..n
            invariant
                n == self.elected@.len(),
                forall|j: int| 0 <= j < i ==> self.elected@[j] != *account,
        {
            if self.elected[i] == *account {
                return true;
            }
        }
        false
    }
}

/// The direct participation mode: the wallet stakes on its own behalf.
#[derive(Clone, Copy, Debug, PartialEq, Eq, Structural)]
pub struct ValidationSingle {
    pub address: Address,
    pub stake_per_round: u64,
    pub stake_factor: Option<u32>,
}

/// What the direct mode does after the optional stake recovery.
#[derive(Clone, Copy, Debug, PartialEq, Eq, Structural)]
pub enum SingleAction {
    /// The wallet is already elected; nothing is sent.
    AlreadyElected,
    /// Wait for `target_balance` on the wallet, then send the participation
    /// message carrying `message_amount` to the elector.
    Submit { target_balance: u128, message_amount: u128, stake_factor: u32 },
}

/// The plan of one direct election attempt.
#[derive(Clone, Copy, Debug, PartialEq, Eq, Structural)]
pub struct SinglePlan {
    /// A recoverable unfrozen stake to reclaim first, under the shutdown
    /// guard, when present.
    pub recover_stake: Option<u64>,
    pub action: SingleAction,
}

/// Plans one direct election attempt from the elector snapshot. The computed
/// wallet address must equal the configured one; otherwise the attempt is
/// fatally misconfigured. Any unfrozen stake is recovered first. If the
/// wallet is already elected nothing more is sent; otherwise the wallet needs
/// `stake + 2` whole tokens of balance and stakes `stake + 1` whole tokens,
/// with the configured stake factor or its default.
pub fn single_plan(config: &ValidationSingle, wallet_address: Address, data: &ElectorData) -> (r:
    Result<SinglePlan, FatalReason>)
    requires
        data.wf(),
    ensures
        wallet_address != config.address ==> r == Err::<SinglePlan, FatalReason>(
            FatalReason::WalletAddressMismatch,
        ),
        wallet_address == config.address ==> (r matches Ok(plan) && plan.recover_stake
            == spec_unfrozen_of(*data, wallet_address.account) && plan.action == (if spec_elected(
            *data,
            wallet_address.account,
        ) {
            SingleAction::AlreadyElected
        } else {
            SingleAction::Submit {
                target_balance: (config.stake_per_round + 2 * ONE_TOKEN) as u128,
                message_amount: (config.stake_per_round + ONE_TOKEN) as u128,
                stake_factor: match config.stake_factor {
                    Some(f) => f,
                    None => DEFAULT_STAKE_FACTOR,
                },
            }
        })),
{
    if wallet_address != config.address {
        return Err(FatalReason::WalletAddressMismatch);
    }
    let recover_stake = data.unfrozen_stake(&wallet_address.account);
    let action = if data.is_elected(&wallet_address.account) {
        SingleAction::AlreadyElected
    } else {
        let stake_factor = match config.stake_factor {
            Some(f) => f,
            None => DEFAULT_STAKE_FACTOR,
        };
        SingleAction::Submit {
            target_balance: config.stake_per_round as u128 + 2 * ONE_TOKEN,
            message_amount: config.stake_per_round as u128 + ONE_TOKEN,
            stake_factor,
        }
    };
    Ok(SinglePlan { recover_stake, action })
}

} // verus!
