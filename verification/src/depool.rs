//! The delegated election mode: a snapshot model of the staking-pool contract
//! and the planners that drive it — topping up the pooling round's stake,
//! prodding the pool until the target round lines up with the election, and
//! staking through the round's proxy.

use vstd::prelude::*;

use crate::elector::spec_elected;
use crate::elector::ElectorData;
use crate::types::Address;
use crate::types::FatalReason;
use crate::types::DEFAULT_STAKE_FACTOR;
use crate::types::ONE_TOKEN;

verus! {

/// The ABI family of the staking pool.
#[derive(Clone, Copy, Debug, PartialEq, Eq, Structural)]
pub enum DePoolType {
    DefaultV3,
    StEverV1,
    StEverV2,
}

/// The bookkeeping step a pool round is in.
#[derive(Clone, Copy, Debug, PartialEq, Eq, Structural)]
pub enum RoundStep {
    PrePooling,
    Pooling,
    WaitingValidatorRequest,
    WaitingIfStakeAccepted,
    WaitingValidationStart,
    WaitingIfValidatorWinElections,
    WaitingUnfreeze,
    Completing,
    Completed,
}

/// One pool round, as read from the pool state (rounds come deterministically
/// ordered).
#[derive(Clone, Copy, Debug, PartialEq, Eq, Structural)]
pub struct Round {
    pub id: u64,
    pub supposed_elected_at: u32,
    pub validator_stake: u64,
    pub step: RoundStep,
}

/// What the scheduler reads out of the pool state about the pool itself.
pub struct DePoolInfo {
    pub validator_wallet: Address,
    pub proxies: Vec<Address>,
    pub validator_assurance: u64,
    pub min_stake: u64,
}

/// The owner wallet's stake per round, as reported by the pool's participant
/// record; rounds it does not take part in are absent.
pub struct ParticipantInfo {
    pub round_stakes: Vec<(u64, u64)>,
}

/// The stake the participant has committed to round `round_id`, zero when
/// absent.
pub open spec fn spec_participant_stake(participant: Option<ParticipantInfo>, round_id: u64) -> u64 {
    match participant {
        Some(p) => {
            if exists|i: int| 0 <= i < p.round_stakes@.len() && p.round_stakes@[i].0 == round_id {
                let i = choose|i: int|
                    0 <= i < p.round_stakes@.len() && p.round_stakes@[i].0 == round_id;
                p.round_stakes@[i].1
            } else {
                0
            }
        },
        None => 0,
    }
}

impl ParticipantInfo {
    /// Each round appears at most once.
    pub open spec fn wf(self) -> bool {
        forall|i: int, j: int|
            0 <= i < j < self.round_stakes@.len() ==> self.round_stakes@[i].0
                != self.round_stakes@[j].0
    }

    /// The stake this participant has committed to round `round_id`.
    pub fn stake_in_round(&self, round_id: u64) -> (r: u64)
        requires
            self.wf(),
        ensures
            r == spec_participant_stake(Some(*self), round_id),
    {
        let n = self.round_stakes.len();
        for i in 0..n
            invariant
                n == self.round_stakes@.len(),
                forall|j: int| 0 <= j < i ==> self.round_stakes@[j].0 != round_id,
                self.wf(),
        {
            if self.round_stakes[i].0 == round_id {
                proof {
                    assert(self.round_stakes@[i as int].0 == round_id);
                    let j = choose|j: int|
                        0 <= j < self.round_stakes@.len() && self.round_stakes@[j].0 == round_id;
                    assert(j == i as int);
                }
                return self.round_stakes[i].1;
            }
        }
        0
    }
}

/// The delegated participation mode: the wallet drives a staking pool.
#[derive(Clone, Copy, Debug, PartialEq, Eq, Structural)]
pub struct ValidationDePool {
    pub depool: Address,
    pub depool_type: DePoolType,
    pub owner: Address,
    pub stake_factor: Option<u32>,
}

/// How many times the pool is prodded before the attempt counts as failed.
pub const DEPOOL_UPDATE_ATTEMPTS: u32 = 4;

/// Seconds between two prods of the pool.
pub const DEPOOL_UPDATE_INTERVAL_SECS: u64 = 10;

/// Checks the fatal preconditions of the delegated mode: the computed wallet
/// is the configured owner, the pool agrees on that owner, and the pool
/// exposes exactly two proxies.
pub fn depool_preflight(config: &ValidationDePool, wallet_address: Address, info: &DePoolInfo) -> (
    r: Result<(), FatalReason>)
    ensures
        wallet_address != config.owner ==> r == Err::<(), FatalReason>(
            FatalReason::WalletAddressMismatch,
        ),
        wallet_address == config.owner && wallet_address != info.validator_wallet ==> r == Err::<
            (),
            FatalReason,
        >(FatalReason::DePoolOwnerMismatch),
        wallet_address == config.owner && wallet_address == info.validator_wallet
            && info.proxies@.len() != 2 ==> r == Err::<(), FatalReason>(
            FatalReason::InvalidDePoolProxies,
        ),
        wallet_address == config.owner && wallet_address == info.validator_wallet
            && info.proxies@.len() == 2 ==> r matches Ok(_),
{
    if wallet_address != config.owner {
        return Err(FatalReason::WalletAddressMismatch);
    }
    if wallet_address != info.validator_wallet {
        return Err(FatalReason::DePoolOwnerMismatch);
    }
    if info.proxies.len() != 2 {
        return Err(FatalReason::InvalidDePoolProxies);
    }
    Ok(())
}

/// A stake top-up the wallet owes the pooling round: wait for
/// `target_balance`, then send `add_ordinary_stake(amount)` under the
/// shutdown guard.
#[derive(Clone, Copy, Debug, PartialEq, Eq, Structural)]
pub struct AddStake {
    pub amount: u64,
    pub target_balance: u128,
}

/// Whether one pass over the pool state found the target round configured
/// for the current election.
#[derive(Clone, Copy, Debug, PartialEq, Eq, Structural)]
pub enum RoundVerdict {
    /// The target round is supposed to be elected at the current election id.
    Ready { round_id: u64, step: RoundStep },
    /// The rounds have not advanced yet: prod the pool with a ticktock,
    /// refresh its state and look again.
    NotConfigured,
}

/// What one pass of the pool-update subroutine does.
#[derive(Clone, Copy, Debug, PartialEq, Eq, Structural)]
pub struct DePoolUpdateStep {
    pub add_stake: Option<AddStake>,
    pub verdict: RoundVerdict,
}

/// Plans one pass of the pool-update subroutine from a fresh pool snapshot.
/// The pool must report exactly four rounds; the round at position one is the
/// target, at position two the pooling round. A positive gap between the
/// pool's assurance and the stake already committed to the pooling round is
/// topped up, clamped up to the pool's minimum stake. The pass ends the
/// subroutine when the target round's expected election equals the current
/// election id.
pub fn depool_update_plan(
    info: &DePoolInfo,
    participant: Option<&ParticipantInfo>,
    rounds: &Vec<Round>,
    election_id: u32,
) -> (r: Result<DePoolUpdateStep, FatalReason>)
    requires
        (participant matches Some(p) ==> p.wf()),
    ensures
        rounds@.len() != 4 ==> r == Err::<DePoolUpdateStep, FatalReason>(
            FatalReason::DePoolRoundsMismatch,
        ),
        rounds@.len() == 4 ==> (r matches Ok(step) && {
            let pooling_stake = spec_participant_stake(
                match participant {
                    Some(p) => Some(*p),
                    None => None,
                },
                rounds@[2].id,
            );
            &&& step.add_stake == (if info.validator_assurance > pooling_stake {
                let remaining = if info.validator_assurance - pooling_stake
                    >= info.min_stake as int {
                    (info.validator_assurance - pooling_stake) as u64
                } else {
                    info.min_stake
                };
                Some(
                    AddStake {
                        amount: remaining,
                        target_balance: (remaining + ONE_TOKEN) as u128,
                    },
                )
            } else {
                None::<AddStake>
            })
            &&& step.verdict == (if rounds@[1].supposed_elected_at == election_id {
                RoundVerdict::Ready { round_id: rounds@[1].id, step: rounds@[1].step }
            } else {
                RoundVerdict::NotConfigured
            })
        }),
{
    if rounds.len() != 4 {
        return Err(FatalReason::DePoolRoundsMismatch);
    }
    let target_round = rounds[1];
    let pooling_round = rounds[2];

    let pooling_stake = match participant {
        Some(p) => p.stake_in_round(pooling_round.id),
        None => 0,
    };

    let add_stake = if info.validator_assurance > pooling_stake {
        let gap = info.validator_assurance - pooling_stake;
        let remaining = if gap >= info.min_stake {
            gap
        } else {
            info.min_stake
        };
        Some(AddStake { amount: remaining, target_balance: remaining as u128 + ONE_TOKEN })
    } else {
        None
    };

    let verdict = if target_round.supposed_elected_at == election_id {
        RoundVerdict::Ready { round_id: target_round.id, step: target_round.step }
    } else {
        RoundVerdict::NotConfigured
    };

    Ok(DePoolUpdateStep { add_stake, verdict })
}

/// Books one failed pass of the pool-update subroutine: the attempt budget
/// shrinks by one and the subroutine fails once it runs out.
pub fn attempts_after_failure(attempts: u32) -> (r: Result<u32, FatalReason>)
    ensures
        attempts <= 1 ==> r == Err::<u32, FatalReason>(FatalReason::UpdateRoundsExhausted),
        attempts > 1 ==> r == Ok::<u32, FatalReason>((attempts - 1) as u32),
{
    if attempts <= 1 {
        Err(FatalReason::UpdateRoundsExhausted)
    } else {
        Ok(attempts - 1)
    }
}

/// What the delegated mode does once the pool-update subroutine has returned.
#[derive(Clone, Copy, Debug, PartialEq, Eq, Structural)]
pub enum DePoolAction {
    /// The pool is not waiting for a validator request; nothing is sent.
    PoolNotReady,
    /// The round's proxy is already elected; nothing is sent.
    ProxyAlreadyElected,
    /// Wait for `target_balance` on the wallet, then send the participation
    /// message carrying `message_amount` to the pool, staking through
    /// `proxy`.
    Submit { proxy: Address, target_balance: u128, message_amount: u128, stake_factor: u32 },
}

/// Plans the delegated election step from the pool-update outcome. A pool not
/// waiting for a validator request is left alone (a success with no action);
/// otherwise the round selects one of the two proxies by parity, and unless
/// that proxy is already elected, the wallet needs two whole tokens of
/// balance and sends one whole token to the pool with the election payload
/// built for the proxy.
pub fn depool_election_plan(
    config: &ValidationDePool,
    info: &DePoolInfo,
    round_id: u64,
    step: RoundStep,
    data: &ElectorData,
) -> (r: DePoolAction)
    requires
        info.proxies@.len() == 2,
    ensures
        step != RoundStep::WaitingValidatorRequest ==> r == DePoolAction::PoolNotReady,
        step == RoundStep::WaitingValidatorRequest ==> {
            let proxy = info.proxies@[(round_id % 2) as int];
            r == (if spec_elected(*data, proxy.account) {
                DePoolAction::ProxyAlreadyElected
            } else {
                DePoolAction::Submit {
                    proxy,
                    target_balance: (2 * ONE_TOKEN) as u128,
                    message_amount: ONE_TOKEN,
                    stake_factor: match config.stake_factor {
                        Some(f) => f,
                        None => DEFAULT_STAKE_FACTOR,
                    },
                }
            })
        },
{
    if step != RoundStep::WaitingValidatorRequest {
        return DePoolAction::PoolNotReady;
    }
    let proxy = info.proxies[(round_id % 2) as usize];
    if data.is_elected(&proxy.account) {
        DePoolAction::ProxyAlreadyElected
    } else {
        let stake_factor = match config.stake_factor {
            Some(f) => f,
            None => DEFAULT_STAKE_FACTOR,
        };
        DePoolAction::Submit {
            proxy,
            target_balance: 2 * ONE_TOKEN,
            message_amount: ONE_TOKEN,
            stake_factor,
        }
    }
}

} // verus!
