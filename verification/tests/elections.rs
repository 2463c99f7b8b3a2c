use valkeeper::depool::attempts_after_failure;
use valkeeper::depool::depool_election_plan;
use valkeeper::depool::depool_preflight;
use valkeeper::depool::depool_update_plan;
use valkeeper::depool::AddStake;
use valkeeper::depool::DePoolAction;
use valkeeper::depool::DePoolInfo;
use valkeeper::depool::DePoolType;
use valkeeper::depool::ParticipantInfo;
use valkeeper::depool::Round;
use valkeeper::depool::RoundStep;
use valkeeper::depool::RoundVerdict;
use valkeeper::depool::ValidationDePool;
use valkeeper::elector::single_plan;
use valkeeper::elector::ElectorData;
use valkeeper::elector::SingleAction;
use valkeeper::elector::ValidationSingle;
use valkeeper::types::Address;
use valkeeper::types::FatalReason;
use valkeeper::types::Uint256;

const ONE: u128 = 1_000_000_000;

fn uint(x: u64) -> Uint256 {
    Uint256 { w0: x, w1: 0, w2: 0, w3: 0 }
}

fn addr(workchain: i32, x: u64) -> Address {
    Address { workchain, account: uint(x) }
}

fn elector_data(elected: Vec<Uint256>, unfrozen: Vec<(Uint256, u64)>) -> ElectorData {
    ElectorData { election_id: Some(1_700_000_000), elected, unfrozen }
}

#[test]
fn already_elected_sends_nothing() {
    // The elector already lists the wallet for the current election: success
    // with no wallet call and nothing to recover.
    let wallet = addr(-1, 10);
    let config = ValidationSingle { address: wallet, stake_per_round: 50, stake_factor: None };
    let data = elector_data(vec![wallet.account], vec![]);
    let plan = single_plan(&config, wallet, &data).unwrap();
    assert_eq!(plan.recover_stake, None);
    assert_eq!(plan.action, SingleAction::AlreadyElected);
}

#[test]
fn unfrozen_stake_is_recovered_first() {
    // Five whole tokens sit unfrozen: the plan recovers them before staking.
    let wallet = addr(-1, 10);
    let config =
        ValidationSingle { address: wallet, stake_per_round: 7_000_000_000, stake_factor: None };
    let data = elector_data(vec![], vec![(wallet.account, 5_000_000_000)]);
    let plan = single_plan(&config, wallet, &data).unwrap();
    assert_eq!(plan.recover_stake, Some(5_000_000_000));
    assert_eq!(
        plan.action,
        SingleAction::Submit {
            target_balance: 7_000_000_000 + 2 * ONE,
            message_amount: 7_000_000_000 + ONE,
            stake_factor: 0x30000,
        }
    );
}

#[test]
fn wallet_mismatch_is_fatal() {
    let config = ValidationSingle { address: addr(-1, 10), stake_per_round: 1, stake_factor: None };
    let data = elector_data(vec![], vec![]);
    assert_eq!(
        single_plan(&config, addr(-1, 11), &data),
        Err(FatalReason::WalletAddressMismatch)
    );
}

#[test]
fn configured_stake_factor_is_used() {
    let wallet = addr(-1, 10);
    let config =
        ValidationSingle { address: wallet, stake_per_round: 100, stake_factor: Some(200_000) };
    let data = elector_data(vec![], vec![]);
    let plan = single_plan(&config, wallet, &data).unwrap();
    match plan.action {
        SingleAction::Submit { stake_factor, .. } => assert_eq!(stake_factor, 200_000),
        other => panic!("expected a submission, got {other:?}"),
    }
}

fn pool_config(owner: Address, pool: Address) -> ValidationDePool {
    ValidationDePool {
        depool: pool,
        depool_type: DePoolType::DefaultV3,
        owner,
        stake_factor: None,
    }
}

fn pool_info(owner: Address, proxies: Vec<Address>) -> DePoolInfo {
    DePoolInfo {
        validator_wallet: owner,
        proxies,
        validator_assurance: 100_000,
        min_stake: 10_000,
    }
}

fn four_rounds(target_elected_at: u32, target_step: RoundStep) -> Vec<Round> {
    vec![
        Round { id: 4, supposed_elected_at: 0, validator_stake: 0, step: RoundStep::PrePooling },
        Round { id: 3, supposed_elected_at: target_elected_at, validator_stake: 7, step: target_step },
        Round { id: 2, supposed_elected_at: 0, validator_stake: 0, step: RoundStep::Pooling },
        Round { id: 1, supposed_elected_at: 0, validator_stake: 0, step: RoundStep::Completing },
    ]
}

#[test]
fn preflight_checks_owner_and_proxies() {
    let owner = addr(0, 20);
    let pool = addr(0, 21);
    let config = pool_config(owner, pool);
    let info = pool_info(owner, vec![addr(0, 30), addr(0, 31)]);
    assert!(depool_preflight(&config, owner, &info).is_ok());
    assert_eq!(
        depool_preflight(&config, addr(0, 99), &info),
        Err(FatalReason::WalletAddressMismatch)
    );
    let foreign = pool_info(addr(0, 98), vec![addr(0, 30), addr(0, 31)]);
    assert_eq!(
        depool_preflight(&config, owner, &foreign),
        Err(FatalReason::DePoolOwnerMismatch)
    );
    let one_proxy = pool_info(owner, vec![addr(0, 30)]);
    assert_eq!(
        depool_preflight(&config, owner, &one_proxy),
        Err(FatalReason::InvalidDePoolProxies)
    );
}

#[test]
fn pool_not_ready_is_a_quiet_success() {
    // The target round already completed: the scheduler returns success
    // without sending an election message, even with the election active.
    let owner = addr(0, 20);
    let pool = addr(0, 21);
    let config = pool_config(owner, pool);
    let info = pool_info(owner, vec![addr(0, 30), addr(0, 31)]);
    let data = elector_data(vec![], vec![]);
    let action = depool_election_plan(&config, &info, 3, RoundStep::Completed, &data);
    assert_eq!(action, DePoolAction::PoolNotReady);
}

#[test]
fn proxy_is_selected_by_round_parity() {
    let owner = addr(0, 20);
    let pool = addr(0, 21);
    let config = pool_config(owner, pool);
    let proxies = vec![addr(0, 30), addr(0, 31)];
    let info = pool_info(owner, proxies.clone());
    let data = elector_data(vec![], vec![]);
    let action =
        depool_election_plan(&config, &info, 3, RoundStep::WaitingValidatorRequest, &data);
    assert_eq!(
        action,
        DePoolAction::Submit {
            proxy: proxies[1],
            target_balance: 2 * ONE,
            message_amount: ONE,
            stake_factor: 0x30000,
        }
    );
    let action =
        depool_election_plan(&config, &info, 4, RoundStep::WaitingValidatorRequest, &data);
    match action {
        DePoolAction::Submit { proxy, .. } => assert_eq!(proxy, proxies[0]),
        other => panic!("expected a submission, got {other:?}"),
    }
}

#[test]
fn elected_proxy_sends_nothing() {
    let owner = addr(0, 20);
    let pool = addr(0, 21);
    let config = pool_config(owner, pool);
    let proxies = vec![addr(0, 30), addr(0, 31)];
    let info = pool_info(owner, proxies.clone());
    let data = elector_data(vec![proxies[1].account], vec![]);
    let action =
        depool_election_plan(&config, &info, 3, RoundStep::WaitingValidatorRequest, &data);
    assert_eq!(action, DePoolAction::ProxyAlreadyElected);
}

#[test]
fn update_plan_tops_up_the_pooling_round() {
    let owner = addr(0, 20);
    let info = pool_info(owner, vec![addr(0, 30), addr(0, 31)]);
    // The participant already committed 95 000 of the 100 000 assurance to
    // the pooling round (id 2): the 5 000 gap is clamped up to min_stake.
    let participant = ParticipantInfo { round_stakes: vec![(2, 95_000)] };
    let rounds = four_rounds(1_700_000_000, RoundStep::WaitingValidatorRequest);
    let step = depool_update_plan(&info, Some(&participant), &rounds, 1_700_000_000).unwrap();
    assert_eq!(
        step.add_stake,
        Some(AddStake { amount: 10_000, target_balance: 10_000 + ONE })
    );
    assert_eq!(step.verdict, RoundVerdict::Ready {
        round_id: 3,
        step: RoundStep::WaitingValidatorRequest
    });
}

#[test]
fn update_plan_with_full_stake_adds_nothing() {
    let owner = addr(0, 20);
    let info = pool_info(owner, vec![addr(0, 30), addr(0, 31)]);
    let participant = ParticipantInfo { round_stakes: vec![(2, 100_000)] };
    let rounds = four_rounds(5, RoundStep::Pooling);
    let step = depool_update_plan(&info, Some(&participant), &rounds, 1_700_000_000).unwrap();
    assert_eq!(step.add_stake, None);
    assert_eq!(step.verdict, RoundVerdict::NotConfigured);
}

#[test]
fn update_plan_without_participant_stakes_the_assurance() {
    let owner = addr(0, 20);
    let info = pool_info(owner, vec![addr(0, 30), addr(0, 31)]);
    let rounds = four_rounds(5, RoundStep::Pooling);
    let step = depool_update_plan(&info, None, &rounds, 1_700_000_000).unwrap();
    assert_eq!(
        step.add_stake,
        Some(AddStake { amount: 100_000, target_balance: 100_000 + ONE })
    );
}

#[test]
fn wrong_round_count_is_fatal() {
    let owner = addr(0, 20);
    let info = pool_info(owner, vec![addr(0, 30), addr(0, 31)]);
    let rounds = vec![];
    assert_eq!(
        depool_update_plan(&info, None, &rounds, 5),
        Err(FatalReason::DePoolRoundsMismatch)
    );
}

#[test]
fn update_attempts_run_out() {
    assert_eq!(attempts_after_failure(4), Ok(3));
    assert_eq!(attempts_after_failure(2), Ok(1));
    assert_eq!(attempts_after_failure(1), Err(FatalReason::UpdateRoundsExhausted));
}
