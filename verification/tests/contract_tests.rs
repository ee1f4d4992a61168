use zigstake::error::ContractError;
use zigstake::execute::execute;
use zigstake::instantiate::instantiate;
use zigstake::msg::{Ack, Coin, Direction, ExecuteMsg, InstantiateMsg, QueryMsg};
use zigstake::query::{query, QueryAnswer};
use zigstake::state::State;

const START: u64 = 1_000_000;
const AFTER_LOCK: u64 = START + 300;
const AFTER_END: u64 = START + 600;

fn uzig(amount: u128) -> Vec<Coin> {
    vec![Coin { denom: "uzig".to_string(), amount }]
}

fn no_funds() -> Vec<Coin> {
    Vec::new()
}

fn setup(treasury_fee: u64) -> State {
    let (state, _) = instantiate(
        "creator".to_string(),
        InstantiateMsg { treasury_fee },
    )
    .unwrap();
    state
}

fn start_round(state: &mut State, now: u64, price: u128) {
    execute(
        state,
        now,
        &"creator".to_string(),
        &no_funds(),
        ExecuteMsg::StartRound { price },
    )
    .unwrap();
}

fn lock_round(state: &mut State, now: u64, price: u128) {
    execute(
        state,
        now,
        &"creator".to_string(),
        &no_funds(),
        ExecuteMsg::LockRound { price },
    )
    .unwrap();
}

fn end_round(state: &mut State, now: u64, price: u128) {
    execute(
        state,
        now,
        &"creator".to_string(),
        &no_funds(),
        ExecuteMsg::EndRound { price },
    )
    .unwrap();
}

fn place_bet(state: &mut State, now: u64, user: &str, amount: u128, direction: Direction) {
    execute(
        state,
        now,
        &user.to_string(),
        &uzig(amount),
        ExecuteMsg::PlaceBet { round_id: 1, direction },
    )
    .unwrap();
}

#[test]
fn test_instantiate_contract() {
    let (state, response) = instantiate(
        "creator".to_string(),
        InstantiateMsg { treasury_fee: 500 },
    )
    .unwrap();

    assert_eq!(
        response.ack,
        Ack::Instantiated { admin: "creator".to_string(), treasury_fee: 500 }
    );
    assert!(response.transfers.is_empty());

    assert_eq!(state.config.admin, "creator".to_string());
    assert_eq!(state.config.treasury_fee, 500);
    assert_eq!(state.config.paused, false);
    assert_eq!(state.config.current_round_id, 1);
}

#[test]
fn test_place_bet() {
    let mut state = setup(200);
    start_round(&mut state, START, 123456);

    let response = execute(
        &mut state,
        START,
        &"bettor".to_string(),
        &uzig(20),
        ExecuteMsg::PlaceBet { round_id: 1, direction: Direction::Down },
    )
    .unwrap();

    assert_eq!(
        response.ack,
        Ack::BetPlaced {
            round_id: 1,
            user: "bettor".to_string(),
            amount: 20,
            direction: Direction::Down,
        }
    );
}

#[test]
fn instantiate_rejects_excessive_fee() {
    let err = instantiate(
        "creator".to_string(),
        InstantiateMsg { treasury_fee: 10_001 },
    )
    .unwrap_err();
    assert_eq!(err, ContractError::InvalidTreasuryFee);
}

#[test]
fn start_round_sets_times_and_prices() {
    let mut state = setup(500);
    start_round(&mut state, START, 123456);
    let round = &state.rounds[0];
    assert_eq!(round.id, 1);
    assert_eq!(round.start_time, START);
    assert_eq!(round.lock_time, START + 300);
    assert_eq!(round.end_time, START + 600);
    assert_eq!(round.start_price, 123456);
    assert_eq!(round.lock_price, 0);
    assert_eq!(round.end_price, 0);
    assert_eq!(round.total_pool, 0);
    assert_eq!(round.executed, false);
    assert_eq!(round.result, None);
    // the counter advances only when the round ends
    assert_eq!(state.config.current_round_id, 1);
}

// Scenario: one bettor on the winning side takes the whole (empty) losing
// pool: reward is the stake, the 500 bps fee is 1, 19 goes to the bettor and
// 1 to the treasury.
#[test]
fn lone_winner_pays_fee_on_stake() {
    let mut state = setup(500);
    start_round(&mut state, START, 123456);
    place_bet(&mut state, START, "alice", 20, Direction::Down);
    assert_eq!(state.rounds[0].total_pool, 20);
    assert_eq!(state.rounds[0].bear_pool, 20);
    assert_eq!(state.rounds[0].bull_pool, 0);

    lock_round(&mut state, AFTER_LOCK, 123000);
    end_round(&mut state, AFTER_END, 122000); // fell: Down wins
    assert_eq!(state.rounds[0].result, Some(Direction::Down));
    assert_eq!(state.config.current_round_id, 2);

    let response = execute(
        &mut state,
        AFTER_END,
        &"alice".to_string(),
        &no_funds(),
        ExecuteMsg::ClaimReward { round_id: 1 },
    )
    .unwrap();
    assert_eq!(
        response.ack,
        Ack::RewardClaimed { round_id: 1, user: "alice".to_string(), reward: 20 }
    );
    assert_eq!(response.transfers.len(), 2);
    assert_eq!(response.transfers[0].to_address, "alice".to_string());
    assert_eq!(response.transfers[0].amount, 19);
    assert_eq!(response.transfers[0].denom, "uzig".to_string());
    assert_eq!(response.transfers[1].to_address, "creator".to_string());
    assert_eq!(response.transfers[1].amount, 1);
}

// Scenario: 10 up against 10 down, the price rises: the winner's reward is
// 10 + floor(10*10/10) = 20, the 5% fee is 1, 19 to the winner, 1 to the
// treasury; the loser has nothing to claim.
#[test]
fn winner_splits_losing_pool_loser_claims_nothing() {
    let mut state = setup(500);
    start_round(&mut state, START, 100_000);
    place_bet(&mut state, START, "winner", 10, Direction::Up);
    place_bet(&mut state, START, "loser", 10, Direction::Down);
    assert_eq!(state.rounds[0].total_pool, 20);

    lock_round(&mut state, AFTER_LOCK, 100_000);
    end_round(&mut state, AFTER_END, 100_500); // rose: Up wins

    let response = execute(
        &mut state,
        AFTER_END,
        &"winner".to_string(),
        &no_funds(),
        ExecuteMsg::ClaimReward { round_id: 1 },
    )
    .unwrap();
    assert_eq!(
        response.ack,
        Ack::RewardClaimed { round_id: 1, user: "winner".to_string(), reward: 20 }
    );
    assert_eq!(response.transfers[0].amount, 19);
    assert_eq!(response.transfers[1].amount, 1);

    let err = execute(
        &mut state,
        AFTER_END,
        &"loser".to_string(),
        &no_funds(),
        ExecuteMsg::ClaimReward { round_id: 1 },
    )
    .unwrap_err();
    assert_eq!(err, ContractError::NothingToClaim);
}

#[test]
fn uneven_pools_pay_pro_rata() {
    let mut state = setup(500);
    start_round(&mut state, START, 100_000);
    place_bet(&mut state, START, "alice", 10, Direction::Up);
    place_bet(&mut state, START, "bob", 30, Direction::Down);
    place_bet(&mut state, START, "carol", 20, Direction::Up);

    lock_round(&mut state, AFTER_LOCK, 100_000);
    end_round(&mut state, AFTER_END, 100_001);

    // winning pool 30, losing pool 30
    let resp = execute(
        &mut state,
        AFTER_END,
        &"alice".to_string(),
        &no_funds(),
        ExecuteMsg::ClaimReward { round_id: 1 },
    )
    .unwrap();
    // 10 + floor(10*30/30) = 20; fee 20*500/10000 = 1
    assert_eq!(
        resp.ack,
        Ack::RewardClaimed { round_id: 1, user: "alice".to_string(), reward: 20 }
    );
    assert_eq!(resp.transfers[0].amount, 19);
    assert_eq!(resp.transfers[1].amount, 1);

    let resp = execute(
        &mut state,
        AFTER_END,
        &"carol".to_string(),
        &no_funds(),
        ExecuteMsg::ClaimReward { round_id: 1 },
    )
    .unwrap();
    // 20 + floor(20*30/30) = 40; fee 40*500/10000 = 2
    assert_eq!(
        resp.ack,
        Ack::RewardClaimed { round_id: 1, user: "carol".to_string(), reward: 40 }
    );
    assert_eq!(resp.transfers[0].amount, 38);
    assert_eq!(resp.transfers[1].amount, 2);
}

// Scenario: a second StartRound while the first round is not yet ended.
#[test]
fn cannot_start_round_while_previous_unfinished() {
    let mut state = setup(500);
    start_round(&mut state, START, 123456);

    let err = execute(
        &mut state,
        START,
        &"creator".to_string(),
        &no_funds(),
        ExecuteMsg::StartRound { price: 123456 },
    )
    .unwrap_err();
    assert_eq!(err, ContractError::CannotStartNewRound);
    assert_eq!(state.rounds.len(), 1);
}

// Scenario: a non-admin pause attempt fails and changes nothing.
#[test]
fn non_admin_pause_is_unauthorized() {
    let mut state = setup(500);
    let err = execute(
        &mut state,
        START,
        &"mallory".to_string(),
        &no_funds(),
        ExecuteMsg::Pause {},
    )
    .unwrap_err();
    assert_eq!(err, ContractError::Unauthorized);
    assert_eq!(state.config.paused, false);
    assert_eq!(state.config.admin, "creator".to_string());
}

#[test]
fn bet_rejected_outside_betting_window() {
    let mut state = setup(500);
    start_round(&mut state, START, 123456);

    // before the start time
    let err = execute(
        &mut state,
        START - 1,
        &"alice".to_string(),
        &uzig(5),
        ExecuteMsg::PlaceBet { round_id: 1, direction: Direction::Up },
    )
    .unwrap_err();
    assert_eq!(err, ContractError::RoundNotStarted);
    assert_eq!(state.rounds[0].total_pool, 0);

    // at the lock time
    let err = execute(
        &mut state,
        AFTER_LOCK,
        &"alice".to_string(),
        &uzig(5),
        ExecuteMsg::PlaceBet { round_id: 1, direction: Direction::Up },
    )
    .unwrap_err();
    assert_eq!(err, ContractError::RoundLocked);
    assert_eq!(state.rounds[0].total_pool, 0);
    assert_eq!(state.bets.len(), 0);
}

#[test]
fn lock_and_end_respect_time_gates() {
    let mut state = setup(500);
    start_round(&mut state, START, 123456);

    let err = execute(
        &mut state,
        AFTER_LOCK - 1,
        &"creator".to_string(),
        &no_funds(),
        ExecuteMsg::LockRound { price: 100 },
    )
    .unwrap_err();
    assert_eq!(err, ContractError::CannotLockBeforeTime);

    // ending first requires a lock price
    let err = execute(
        &mut state,
        AFTER_END,
        &"creator".to_string(),
        &no_funds(),
        ExecuteMsg::EndRound { price: 100 },
    )
    .unwrap_err();
    assert_eq!(err, ContractError::CannotEndWithoutLockPrice);

    lock_round(&mut state, AFTER_LOCK, 100);

    let err = execute(
        &mut state,
        AFTER_END - 1,
        &"creator".to_string(),
        &no_funds(),
        ExecuteMsg::EndRound { price: 100 },
    )
    .unwrap_err();
    assert_eq!(err, ContractError::CannotEndBeforeTime);
    assert_eq!(state.rounds[0].executed, false);
}

#[test]
fn claim_is_paid_exactly_once() {
    let mut state = setup(500);
    start_round(&mut state, START, 100_000);
    place_bet(&mut state, START, "alice", 20, Direction::Up);
    lock_round(&mut state, AFTER_LOCK, 100_000);
    end_round(&mut state, AFTER_END, 100_700);

    execute(
        &mut state,
        AFTER_END,
        &"alice".to_string(),
        &no_funds(),
        ExecuteMsg::ClaimReward { round_id: 1 },
    )
    .unwrap();

    let err = execute(
        &mut state,
        AFTER_END,
        &"alice".to_string(),
        &no_funds(),
        ExecuteMsg::ClaimReward { round_id: 1 },
    )
    .unwrap_err();
    assert_eq!(err, ContractError::AlreadyClaimed);
}

// Equal lock and end prices: nobody wins, every bet is refunded in full,
// exactly once, with no fee.
#[test]
fn push_refunds_stakes_without_fee() {
    let mut state = setup(500);
    start_round(&mut state, START, 100_000);
    place_bet(&mut state, START, "alice", 20, Direction::Up);
    place_bet(&mut state, START, "bob", 30, Direction::Down);
    lock_round(&mut state, AFTER_LOCK, 100_000);
    end_round(&mut state, AFTER_END, 100_000);
    assert_eq!(state.rounds[0].result, None);
    assert_eq!(state.rounds[0].executed, true);

    let resp = execute(
        &mut state,
        AFTER_END,
        &"alice".to_string(),
        &no_funds(),
        ExecuteMsg::ClaimReward { round_id: 1 },
    )
    .unwrap();
    assert_eq!(
        resp.ack,
        Ack::RewardClaimed { round_id: 1, user: "alice".to_string(), reward: 20 }
    );
    assert_eq!(resp.transfers.len(), 1);
    assert_eq!(resp.transfers[0].to_address, "alice".to_string());
    assert_eq!(resp.transfers[0].amount, 20);

    let err = execute(
        &mut state,
        AFTER_END,
        &"alice".to_string(),
        &no_funds(),
        ExecuteMsg::ClaimReward { round_id: 1 },
    )
    .unwrap_err();
    assert_eq!(err, ContractError::AlreadyClaimed);

    // push settles the leaderboard as neither won nor lost
    for entry in &state.leaderboard {
        assert_eq!(entry.total_won, 0);
        assert_eq!(entry.total_lost, 0);
    }
}

#[test]
fn paused_contract_rejects_bets_only() {
    let mut state = setup(500);
    start_round(&mut state, START, 123456);
    execute(
        &mut state,
        START,
        &"creator".to_string(),
        &no_funds(),
        ExecuteMsg::Pause {},
    )
    .unwrap();
    assert_eq!(state.config.paused, true);

    let err = execute(
        &mut state,
        START,
        &"alice".to_string(),
        &uzig(5),
        ExecuteMsg::PlaceBet { round_id: 1, direction: Direction::Up },
    )
    .unwrap_err();
    assert_eq!(err, ContractError::ContractPaused);

    // locking and ending still work while paused
    lock_round(&mut state, AFTER_LOCK, 100);

    execute(
        &mut state,
        START,
        &"creator".to_string(),
        &no_funds(),
        ExecuteMsg::Resume {},
    )
    .unwrap();
    assert_eq!(state.config.paused, false);
}

#[test]
fn bet_requires_funds_in_accepted_denomination() {
    let mut state = setup(500);
    start_round(&mut state, START, 123456);

    let err = execute(
        &mut state,
        START,
        &"alice".to_string(),
        &no_funds(),
        ExecuteMsg::PlaceBet { round_id: 1, direction: Direction::Up },
    )
    .unwrap_err();
    assert_eq!(err, ContractError::NoFundSent);

    let wrong = vec![Coin { denom: "uatom".to_string(), amount: 50 }];
    let err = execute(
        &mut state,
        START,
        &"alice".to_string(),
        &wrong,
        ExecuteMsg::PlaceBet { round_id: 1, direction: Direction::Up },
    )
    .unwrap_err();
    assert_eq!(err, ContractError::NoFundSent);

    // the first coin of the accepted denomination counts
    let mixed = vec![
        Coin { denom: "uatom".to_string(), amount: 50 },
        Coin { denom: "uzig".to_string(), amount: 7 },
    ];
    let resp = execute(
        &mut state,
        START,
        &"alice".to_string(),
        &mixed,
        ExecuteMsg::PlaceBet { round_id: 1, direction: Direction::Up },
    )
    .unwrap();
    assert_eq!(
        resp.ack,
        Ack::BetPlaced {
            round_id: 1,
            user: "alice".to_string(),
            amount: 7,
            direction: Direction::Up,
        }
    );
}

#[test]
fn second_bet_per_round_is_rejected() {
    let mut state = setup(500);
    start_round(&mut state, START, 123456);
    place_bet(&mut state, START, "alice", 10, Direction::Up);

    let err = execute(
        &mut state,
        START,
        &"alice".to_string(),
        &uzig(5),
        ExecuteMsg::PlaceBet { round_id: 1, direction: Direction::Down },
    )
    .unwrap_err();
    assert_eq!(err, ContractError::BetAlreadyPlaced);
    assert_eq!(state.rounds[0].total_pool, 10);
}

#[test]
fn bet_on_missing_round_not_found() {
    let mut state = setup(500);
    let err = execute(
        &mut state,
        START,
        &"alice".to_string(),
        &uzig(5),
        ExecuteMsg::PlaceBet { round_id: 1, direction: Direction::Up },
    )
    .unwrap_err();
    assert_eq!(err, ContractError::RoundNotFound);
}

#[test]
fn claim_gates_on_round_state() {
    let mut state = setup(500);
    // no round at all
    let err = execute(
        &mut state,
        START,
        &"alice".to_string(),
        &no_funds(),
        ExecuteMsg::ClaimReward { round_id: 1 },
    )
    .unwrap_err();
    assert_eq!(err, ContractError::RoundNotFound);

    start_round(&mut state, START, 100_000);
    place_bet(&mut state, START, "alice", 10, Direction::Up);

    // round not yet executed
    let err = execute(
        &mut state,
        START,
        &"alice".to_string(),
        &no_funds(),
        ExecuteMsg::ClaimReward { round_id: 1 },
    )
    .unwrap_err();
    assert_eq!(err, ContractError::RoundNotEnded);

    lock_round(&mut state, AFTER_LOCK, 100_000);
    end_round(&mut state, AFTER_END, 100_700);

    // no bet for this user
    let err = execute(
        &mut state,
        AFTER_END,
        &"bob".to_string(),
        &no_funds(),
        ExecuteMsg::ClaimReward { round_id: 1 },
    )
    .unwrap_err();
    assert_eq!(err, ContractError::BetNotFound);
}

#[test]
fn lock_without_round_is_round_not_started() {
    let mut state = setup(500);
    let err = execute(
        &mut state,
        START,
        &"creator".to_string(),
        &no_funds(),
        ExecuteMsg::LockRound { price: 1 },
    )
    .unwrap_err();
    assert_eq!(err, ContractError::RoundNotStarted);
}

#[test]
fn pool_overflow_is_rejected_atomically() {
    let mut state = setup(500);
    start_round(&mut state, START, 123456);
    place_bet(&mut state, START, "alice", u128::MAX, Direction::Up);

    let err = execute(
        &mut state,
        START,
        &"bob".to_string(),
        &uzig(1),
        ExecuteMsg::PlaceBet { round_id: 1, direction: Direction::Down },
    )
    .unwrap_err();
    assert_eq!(err, ContractError::Overflow);
    assert_eq!(state.rounds[0].total_pool, u128::MAX);
    assert_eq!(state.bets.len(), 1);
}

#[test]
fn withdraw_instructs_transfer() {
    let mut state = setup(500);
    let resp = execute(
        &mut state,
        START,
        &"creator".to_string(),
        &no_funds(),
        ExecuteMsg::Withdraw { amount: 42, recipient: "somewhere".to_string() },
    )
    .unwrap();
    assert_eq!(
        resp.ack,
        Ack::Withdrawn { amount: 42, recipient: "somewhere".to_string() }
    );
    assert_eq!(resp.transfers.len(), 1);
    assert_eq!(resp.transfers[0].to_address, "somewhere".to_string());
    assert_eq!(resp.transfers[0].denom, "uzig".to_string());
    assert_eq!(resp.transfers[0].amount, 42);

    let err = execute(
        &mut state,
        START,
        &"mallory".to_string(),
        &no_funds(),
        ExecuteMsg::Withdraw { amount: 42, recipient: "mallory".to_string() },
    )
    .unwrap_err();
    assert_eq!(err, ContractError::Unauthorized);
}

#[test]
fn sequential_rounds_advance_exactly_once_per_end() {
    let mut state = setup(500);
    start_round(&mut state, START, 100_000);
    assert_eq!(state.config.current_round_id, 1);
    lock_round(&mut state, AFTER_LOCK, 100_000);
    end_round(&mut state, AFTER_END, 100_001);
    assert_eq!(state.config.current_round_id, 2);

    // the next round opens only because round 1 ended with a non-zero price
    start_round(&mut state, AFTER_END, 200_000);
    assert_eq!(state.rounds.len(), 2);
    assert_eq!(state.rounds[1].id, 2);
    assert_eq!(state.config.current_round_id, 2);
}

#[test]
fn leaderboard_accumulates_wins_and_losses() {
    let mut state = setup(500);
    start_round(&mut state, START, 100_000);
    place_bet(&mut state, START, "winner", 10, Direction::Up);
    place_bet(&mut state, START, "loser", 10, Direction::Down);
    lock_round(&mut state, AFTER_LOCK, 100_000);
    end_round(&mut state, AFTER_END, 100_500);

    let winner = state
        .leaderboard
        .iter()
        .find(|e| e.user == "winner")
        .unwrap();
    assert_eq!(winner.total_amount_played, 10);
    assert_eq!(winner.total_up, 1);
    assert_eq!(winner.total_down, 0);
    assert_eq!(winner.total_won, 1);
    assert_eq!(winner.total_lost, 0);
    assert_eq!(winner.amount_won, 20);
    assert_eq!(winner.amount_lost, 0);

    let loser = state
        .leaderboard
        .iter()
        .find(|e| e.user == "loser")
        .unwrap();
    assert_eq!(loser.total_amount_played, 10);
    assert_eq!(loser.total_up, 0);
    assert_eq!(loser.total_down, 1);
    assert_eq!(loser.total_won, 0);
    assert_eq!(loser.total_lost, 1);
    assert_eq!(loser.amount_won, 0);
    assert_eq!(loser.amount_lost, 10);
}

#[test]
fn pool_sum_invariant_holds_under_bets() {
    let mut state = setup(500);
    start_round(&mut state, START, 100_000);
    place_bet(&mut state, START, "a", 3, Direction::Up);
    place_bet(&mut state, START, "b", 5, Direction::Down);
    place_bet(&mut state, START, "c", 11, Direction::Up);
    let round = &state.rounds[0];
    assert_eq!(round.bull_pool, 14);
    assert_eq!(round.bear_pool, 5);
    assert_eq!(round.total_pool, round.bull_pool + round.bear_pool);
    assert_eq!(round.participants, vec!["a".to_string(), "b".to_string(), "c".to_string()]);
}

#[test]
fn queries_report_stored_state() {
    let mut state = setup(500);
    start_round(&mut state, START, 123456);
    place_bet(&mut state, START, "alice", 20, Direction::Down);

    match query(&state, QueryMsg::GetRoundDetails { round_id: 1 }).unwrap() {
        QueryAnswer::Round(r) => {
            assert_eq!(r.id, 1);
            assert_eq!(r.total_pool, 20);
            assert_eq!(r.bear_pool, 20);
            assert_eq!(r.start_price, 123456);
        },
        other => panic!("unexpected answer: {:?}", other),
    }

    match query(&state, QueryMsg::GetAllRoundDetails {}).unwrap() {
        QueryAnswer::Rounds(rs) => assert_eq!(rs.len(), 1),
        other => panic!("unexpected answer: {:?}", other),
    }

    match query(
        &state,
        QueryMsg::GetUserPrediction { round_id: 1, user: "alice".to_string() },
    )
    .unwrap()
    {
        QueryAnswer::Bet(b) => {
            assert_eq!(b.amount, 20);
            assert_eq!(b.direction, Direction::Down);
        },
        other => panic!("unexpected answer: {:?}", other),
    }

    let err = query(
        &state,
        QueryMsg::GetUserPrediction { round_id: 1, user: "bob".to_string() },
    )
    .unwrap_err();
    assert_eq!(err, ContractError::BetNotFound);

    match query(&state, QueryMsg::GetAllUserPredictions {}).unwrap() {
        QueryAnswer::Bets(bs) => {
            assert_eq!(bs.len(), 1);
            assert_eq!(bs[0].amount, 20);
        },
        other => panic!("unexpected answer: {:?}", other),
    }

    match query(&state, QueryMsg::IsPaused {}).unwrap() {
        QueryAnswer::Paused(p) => assert_eq!(p, false),
        other => panic!("unexpected answer: {:?}", other),
    }

    match query(&state, QueryMsg::GetPool { round_id: 1 }).unwrap() {
        QueryAnswer::Pool(p) => assert_eq!(p, 20),
        other => panic!("unexpected answer: {:?}", other),
    }

    let err = query(&state, QueryMsg::GetPool { round_id: 7 }).unwrap_err();
    assert_eq!(err, ContractError::RoundNotFound);

    match query(&state, QueryMsg::GetLeaderboard {}).unwrap() {
        QueryAnswer::Leaderboard(lb) => {
            assert_eq!(lb.len(), 1);
            assert_eq!(lb[0].user, "alice".to_string());
            assert_eq!(lb[0].total_amount_played, 20);
        },
        other => panic!("unexpected answer: {:?}", other),
    }
}

// Bets placed out of key order come back from queries in ascending
// (round_id, user) key order, as the ledger is kept sorted.
#[test]
fn predictions_are_reported_in_key_order() {
    let mut state = setup(500);
    start_round(&mut state, START, 100_000);
    place_bet(&mut state, START, "b", 5, Direction::Up);
    place_bet(&mut state, START, "a", 3, Direction::Down);

    assert_eq!(state.bets[0].user, "a".to_string());
    assert_eq!(state.bets[1].user, "b".to_string());

    match query(&state, QueryMsg::GetAllUserPredictions {}).unwrap() {
        QueryAnswer::Bets(bs) => {
            assert_eq!(bs.len(), 2);
            assert_eq!(bs[0].amount, 3);
            assert_eq!(bs[1].amount, 5);
        },
        other => panic!("unexpected answer: {:?}", other),
    }

    match query(&state, QueryMsg::GetLeaderboard {}).unwrap() {
        QueryAnswer::Leaderboard(lb) => {
            assert_eq!(lb.len(), 2);
            assert_eq!(lb[0].user, "a".to_string());
            assert_eq!(lb[1].user, "b".to_string());
        },
        other => panic!("unexpected answer: {:?}", other),
    }
}

// Across rounds, the round id orders the keys first.
#[test]
fn predictions_order_spans_rounds() {
    let mut state = setup(500);
    start_round(&mut state, START, 100_000);
    place_bet(&mut state, START, "z", 7, Direction::Up);
    lock_round(&mut state, AFTER_LOCK, 100_000);
    end_round(&mut state, AFTER_END, 100_001);

    start_round(&mut state, AFTER_END, 200_000);
    let resp = execute(
        &mut state,
        AFTER_END,
        &"a".to_string(),
        &uzig(9),
        ExecuteMsg::PlaceBet { round_id: 2, direction: Direction::Down },
    )
    .unwrap();
    assert_eq!(
        resp.ack,
        Ack::BetPlaced { round_id: 2, user: "a".to_string(), amount: 9, direction: Direction::Down }
    );

    // round 1's bet ("z") sorts before round 2's ("a")
    assert_eq!(state.bets[0].round_id, 1);
    assert_eq!(state.bets[0].user, "z".to_string());
    assert_eq!(state.bets[1].round_id, 2);
    assert_eq!(state.bets[1].user, "a".to_string());
}

// A zero end price would read as "unset" and block every later round.
#[test]
fn end_round_rejects_zero_price() {
    let mut state = setup(500);
    start_round(&mut state, START, 100_000);
    lock_round(&mut state, AFTER_LOCK, 100_000);

    let err = execute(
        &mut state,
        AFTER_END,
        &"creator".to_string(),
        &no_funds(),
        ExecuteMsg::EndRound { price: 0 },
    )
    .unwrap_err();
    assert_eq!(err, ContractError::InvalidEndPrice);
    assert_eq!(state.rounds[0].executed, false);
    assert_eq!(state.config.current_round_id, 1);

    // the round can still be ended at a non-zero price afterwards
    end_round(&mut state, AFTER_END, 100_000);
    assert_eq!(state.rounds[0].executed, true);
    assert_eq!(state.config.current_round_id, 2);
}

#[test]
fn error_descriptions_are_stable() {
    assert_eq!(ContractError::Unauthorized.describe(), "Unauthorized");
    assert_eq!(ContractError::NoFundSent.describe(), "No fund sent");
    assert_eq!(
        ContractError::CannotStartNewRound.describe(),
        "Cannot start new round"
    );
}
