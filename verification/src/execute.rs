//! State-changing operations: the round life cycle, betting, settlement,
//! claims and treasury operations.
//!
//! Each operation is specified by three spec functions — when it succeeds
//! (`*_ok`), which error it returns otherwise (`*_err`), and the state it
//! commits on success (`*_next`) — and the executable function is proved to
//! follow them exactly. Every operation is atomic: on an error the state is
//! exactly what it was before the call.

use vstd::prelude::*;

use vstd::arithmetic::div_mod::{lemma_div_by_multiple, lemma_div_is_ordered, lemma_div_pos_is_pos};
use vstd::arithmetic::mul::lemma_mul_inequality;

use crate::error::ContractError;
use crate::msg::{
    Ack, AckView, Coin, CoinView, Direction, ExecuteMsg, ExecuteMsgView, LeaderboardEntry,
    LeaderboardEntryView, Response, Transfer, TransferView,
};
use crate::state::{
    bet_entry_wf, bet_idx, bet_insert_pos, bet_key_at, bet_key_lt, bet_of, entry_idx,
    entry_insert_pos, has_bet, has_entry, has_round, lemma_bet_idx_unique,
    lemma_bet_insert_pos_bounds, lemma_bet_key_transitive, lemma_bet_key_trichotomy,
    lemma_entry_idx_unique, lemma_entry_insert_pos_bounds, lemma_lex_transitive,
    lemma_lex_trichotomy, lex_lt, pool_of, round_of, wf, Bet, BetEntry, BetEntryView, BetView,
    ConfigView, Round, RoundView, State, StateView,
};

verus! {

/// Seconds from a round's opening to its lock deadline.
pub const LOCK_OFFSET_SECONDS: u64 = 300;

/// Seconds from a round's opening to its end time.
pub const END_OFFSET_SECONDS: u64 = 600;

/// The one denomination the contract accepts and pays out.
pub open spec fn spec_denom() -> Seq<char> {
    "uzig"@
}

/// The accepted denomination, as an owned string.
pub fn denom_string() -> (s: String)
    ensures
        s@ == spec_denom(),
{
    String::from_str("uzig")
}

/// The caller is the configured admin.
pub open spec fn is_admin(s: StateView, sender: Seq<char>) -> bool {
    sender == s.config.admin
}

/// Admission check consumed by every administrative operation: fails with
/// [`ContractError::Unauthorized`] unless the caller is the admin.
pub fn require_admin(state: &State, sender: &String) -> (r: Result<(), ContractError>)
    ensures
        match r {
            Ok(()) => is_admin(state@, sender@),
            Err(e) => !is_admin(state@, sender@) && e == ContractError::Unauthorized,
        },
{
    if *sender == state.config.admin {
        Ok(())
    } else {
        Err(ContractError::Unauthorized)
    }
}

/// A new round may be opened exactly when none was opened yet under the
/// current id and the previous round (if any) was ended with a non-zero end
/// price.
pub open spec fn can_open_round(s: StateView) -> bool {
    &&& s.rounds.len() == s.config.current_round_id - 1
    &&& (s.config.current_round_id == 1 || s.rounds[s.config.current_round_id - 2].end_price != 0)
}

/// The round times derived from the opening time stay within `u64`.
pub open spec fn start_round_fits(now: int) -> bool {
    now + END_OFFSET_SECONDS <= u64::MAX
}

/// The round a successful `StartRound` creates: zero pools, times derived
/// from `now`, prices unset but for the reference price, no result.
pub open spec fn fresh_round(id: int, now: int, price: int) -> RoundView {
    RoundView {
        id: id,
        bull_pool: 0,
        bear_pool: 0,
        total_pool: 0,
        start_time: now,
        lock_time: now + LOCK_OFFSET_SECONDS,
        end_time: now + END_OFFSET_SECONDS,
        start_price: price,
        lock_price: 0,
        end_price: 0,
        result: None,
        executed: false,
        participants: Seq::empty(),
    }
}

pub open spec fn start_round_ok(s: StateView, now: int, sender: Seq<char>) -> bool {
    &&& is_admin(s, sender)
    &&& can_open_round(s)
    &&& start_round_fits(now)
}

pub open spec fn start_round_err(s: StateView, now: int, sender: Seq<char>) -> ContractError {
    if !is_admin(s, sender) {
        ContractError::Unauthorized
    } else if !can_open_round(s) {
        ContractError::CannotStartNewRound
    } else {
        ContractError::Overflow
    }
}

pub open spec fn start_round_next(s: StateView, now: int, price: int) -> StateView {
    StateView {
        rounds: s.rounds.push(fresh_round(s.config.current_round_id, now, price)),
        ..s
    }
}

/// Opens the round `current_round_id`. Admin-only; fails with
/// `CannotStartNewRound` when that round already exists or the previous round
/// is not yet ended with a non-zero end price.
pub fn execute_start_round(state: &mut State, now: u64, sender: &String, price: u128) -> (r:
    Result<Response, ContractError>)
    requires
        wf(old(state)@),
    ensures
        wf(final(state)@),
        match r {
            Ok(resp) => {
                &&& start_round_ok(old(state)@, now as int, sender@)
                &&& final(state)@ == start_round_next(old(state)@, now as int, price as int)
                &&& resp@.ack == (AckView::RoundStarted {
                    round_id: old(state)@.config.current_round_id,
                })
                &&& resp@.transfers.len() == 0
            },
            Err(e) => {
                &&& *final(state) == *old(state)
                &&& !start_round_ok(old(state)@, now as int, sender@)
                &&& e == start_round_err(old(state)@, now as int, sender@)
            },
        },
{
    if let Err(e) = require_admin(state, sender) {
        return Err(e);
    }
    let current = state.config.current_round_id;
    let can_open: bool = if state.rounds.len() as u64 == current - 1 {
        if current == 1 {
            true
        } else {
            state.rounds[(current - 2) as usize].end_price != 0
        }
    } else {
        false
    };
    if !can_open {
        return Err(ContractError::CannotStartNewRound);
    }
    let end_time = match now.checked_add(END_OFFSET_SECONDS) {
        Some(t) => t,
        None => {
            return Err(ContractError::Overflow);
        },
    };
    let lock_time = now + LOCK_OFFSET_SECONDS;
    let round = Round {
        id: current,
        bull_pool: 0,
        bear_pool: 0,
        total_pool: 0,
        start_time: now,
        lock_time: lock_time,
        end_time: end_time,
        start_price: price,
        lock_price: 0,
        end_price: 0,
        result: None,
        executed: false,
        participants: Vec::new(),
    };
    proof {
        assert(round@.participants =~= Seq::<Seq<char>>::empty());
        assert(round@ == fresh_round(
            old(state)@.config.current_round_id,
            now as int,
            price as int,
        ));
    }
    state.rounds.push(round);
    proof {
        let s = old(state)@;
        let s2 = state@;
        assert(s2.rounds =~= s.rounds.push(fresh_round(s.config.current_round_id, now as int, price as int)));
        assert(s2 == start_round_next(s, now as int, price as int));
        assert forall|i: int| 0 <= i < s2.bets.len() implies crate::state::bet_entry_wf(
            s2,
            #[trigger] s2.bets[i],
        ) by {
            assert(crate::state::bet_entry_wf(s, s.bets[i]));
            assert(round_of(s2, s2.bets[i].round_id) == round_of(s, s.bets[i].round_id));
        }
        assert(wf(s2));
    }
    Ok(Response { ack: Ack::RoundStarted { round_id: current }, transfers: Vec::new() })
}

pub open spec fn lock_round_ok(s: StateView, now: int, sender: Seq<char>) -> bool {
    &&& is_admin(s, sender)
    &&& has_round(s, s.config.current_round_id)
    &&& now >= round_of(s, s.config.current_round_id).lock_time
}

pub open spec fn lock_round_err(s: StateView, now: int, sender: Seq<char>) -> ContractError {
    if !is_admin(s, sender) {
        ContractError::Unauthorized
    } else if !has_round(s, s.config.current_round_id) {
        ContractError::RoundNotStarted
    } else {
        ContractError::CannotLockBeforeTime
    }
}

pub open spec fn lock_round_next(s: StateView, price: int) -> StateView {
    let i = s.config.current_round_id - 1;
    StateView { rounds: s.rounds.update(i, RoundView { lock_price: price, ..s.rounds[i] }), ..s }
}

/// Sets the lock price of the current round. Admin-only; fails with
/// `RoundNotStarted` when the round was never opened and with
/// `CannotLockBeforeTime` before the round's lock time. Repeated calls
/// overwrite the lock price.
pub fn execute_lock_round(state: &mut State, now: u64, sender: &String, price: u128) -> (r: Result<
    Response,
    ContractError,
>)
    requires
        wf(old(state)@),
    ensures
        wf(final(state)@),
        match r {
            Ok(resp) => {
                &&& lock_round_ok(old(state)@, now as int, sender@)
                &&& final(state)@ == lock_round_next(old(state)@, price as int)
                &&& resp@.ack == (AckView::RoundLocked {
                    round_id: old(state)@.config.current_round_id,
                })
                &&& resp@.transfers.len() == 0
            },
            Err(e) => {
                &&& *final(state) == *old(state)
                &&& !lock_round_ok(old(state)@, now as int, sender@)
                &&& e == lock_round_err(old(state)@, now as int, sender@)
            },
        },
{
    if let Err(e) = require_admin(state, sender) {
        return Err(e);
    }
    let current = state.config.current_round_id;
    if !(1 <= current && current <= state.rounds.len() as u64) {
        return Err(ContractError::RoundNotStarted);
    }
    let i = (current - 1) as usize;
    if now < state.rounds[i].lock_time {
        return Err(ContractError::CannotLockBeforeTime);
    }
    let mut round = state.rounds[i].clone();
    round.lock_price = price;
    proof {
        assert(round@ == (RoundView { lock_price: price as int, ..old(state)@.rounds[i as int] }));
    }
    state.rounds[i] = round;
    proof {
        let s = old(state)@;
        let s2 = state@;
        assert(s2.rounds =~= s.rounds.update(
            s.config.current_round_id - 1,
            RoundView { lock_price: price as int, ..round_of(s, s.config.current_round_id) },
        ));
        assert(s2 == lock_round_next(s, price as int));
        assert forall|k: int| 0 <= k < s2.bets.len() implies crate::state::bet_entry_wf(
            s2,
            #[trigger] s2.bets[k],
        ) by {
            assert(crate::state::bet_entry_wf(s, s.bets[k]));
        }
        assert(wf(s2));
    }
    Ok(Response { ack: Ack::RoundLocked { round_id: current }, transfers: Vec::new() })
}

pub open spec fn pause_next(s: StateView, paused: bool) -> StateView {
    StateView { config: ConfigView { paused: paused, ..s.config }, ..s }
}

/// Pauses betting. Admin-only; the flag gates only `PlaceBet`.
pub fn execute_pause(state: &mut State, sender: &String) -> (r: Result<Response, ContractError>)
    requires
        wf(old(state)@),
    ensures
        wf(final(state)@),
        match r {
            Ok(resp) => {
                &&& is_admin(old(state)@, sender@)
                &&& final(state)@ == pause_next(old(state)@, true)
                &&& resp@.ack == AckView::Paused
                &&& resp@.transfers.len() == 0
            },
            Err(e) => {
                &&& *final(state) == *old(state)
                &&& !is_admin(old(state)@, sender@)
                &&& e == ContractError::Unauthorized
            },
        },
{
    if let Err(e) = require_admin(state, sender) {
        return Err(e);
    }
    state.config.paused = true;
    proof {
        let s = old(state)@;
        let s2 = state@;
        assert(s2 == pause_next(s, true));
        assert forall|i: int| 0 <= i < s2.bets.len() implies crate::state::bet_entry_wf(
            s2,
            #[trigger] s2.bets[i],
        ) by {
            assert(crate::state::bet_entry_wf(s, s.bets[i]));
        }
        assert(wf(s2));
    }
    Ok(Response { ack: Ack::Paused {}, transfers: Vec::new() })
}

/// Resumes betting. Admin-only.
pub fn execute_resume(state: &mut State, sender: &String) -> (r: Result<Response, ContractError>)
    requires
        wf(old(state)@),
    ensures
        wf(final(state)@),
        match r {
            Ok(resp) => {
                &&& is_admin(old(state)@, sender@)
                &&& final(state)@ == pause_next(old(state)@, false)
                &&& resp@.ack == AckView::Resumed
                &&& resp@.transfers.len() == 0
            },
            Err(e) => {
                &&& *final(state) == *old(state)
                &&& !is_admin(old(state)@, sender@)
                &&& e == ContractError::Unauthorized
            },
        },
{
    if let Err(e) = require_admin(state, sender) {
        return Err(e);
    }
    state.config.paused = false;
    proof {
        let s = old(state)@;
        let s2 = state@;
        assert(s2 == pause_next(s, false));
        assert forall|i: int| 0 <= i < s2.bets.len() implies crate::state::bet_entry_wf(
            s2,
            #[trigger] s2.bets[i],
        ) by {
            assert(crate::state::bet_entry_wf(s, s.bets[i]));
        }
        assert(wf(s2));
    }
    Ok(Response { ack: Ack::Resumed {}, transfers: Vec::new() })
}

/// Instructs a transfer of `amount` of the accepted denomination to
/// `recipient` from contract-held funds. Admin-only; changes no state.
pub fn execute_withdraw(state: &mut State, sender: &String, amount: u128, recipient: String) -> (r:
    Result<Response, ContractError>)
    requires
        wf(old(state)@),
    ensures
        wf(final(state)@),
        *final(state) == *old(state),
        match r {
            Ok(resp) => {
                &&& is_admin(old(state)@, sender@)
                &&& resp@.ack == (AckView::Withdrawn {
                    amount: amount as int,
                    recipient: recipient@,
                })
                &&& resp@.transfers =~= seq![
                    TransferView {
                        to_address: recipient@,
                        denom: spec_denom(),
                        amount: amount as int,
                    },
                ]
            },
            Err(e) => {
                &&& !is_admin(old(state)@, sender@)
                &&& e == ContractError::Unauthorized
            },
        },
{
    if let Err(e) = require_admin(state, sender) {
        return Err(e);
    }
    let mut transfers: Vec<Transfer> = Vec::new();
    let transfer = Transfer {
        to_address: recipient.clone(),
        denom: denom_string(),
        amount: amount,
    };
    transfers.push(transfer);
    let resp = Response { ack: Ack::Withdrawn { amount: amount, recipient: recipient }, transfers };
    Ok(resp)
}

/// A winner's pro-rata share of the losing pool never exceeds that pool.
pub proof fn lemma_share_bounded(amount: int, winning: int, losing: int)
    requires
        0 <= amount <= winning,
        0 < winning,
        0 <= losing,
    ensures
        0 <= (amount * losing) / winning <= losing,
{
    assert(0 <= amount * losing) by (nonlinear_arith)
        requires
            0 <= amount,
            0 <= losing,
    ;
    lemma_mul_inequality(amount, winning, losing);
    lemma_div_is_ordered(amount * losing, winning * losing, winning);
    assert(winning * losing == losing * winning) by (nonlinear_arith);
    lemma_div_by_multiple(losing, winning);
    lemma_div_pos_is_pos(amount * losing, winning);
}

/// A fee of at most 10 000 basis points never exceeds the reward it is
/// taken from.
pub proof fn lemma_fee_bounded(reward: int, bps: int)
    requires
        0 <= reward,
        0 <= bps <= 10000,
    ensures
        0 <= (reward * bps) / 10000 <= reward,
{
    assert(reward * bps <= reward * 10000 && 0 <= reward * bps) by (nonlinear_arith)
        requires
            0 <= reward,
            0 <= bps <= 10000,
    ;
    lemma_div_is_ordered(reward * bps, reward * 10000, 10000);
    lemma_div_by_multiple(reward, 10000);
    lemma_div_pos_is_pos(reward * bps, 10000);
}

/// The views of a list of coins.
pub open spec fn coins_view(funds: Seq<Coin>) -> Seq<CoinView> {
    funds.map_values(|c: Coin| c@)
}

/// The stake a list of attached funds carries: the amount of its first coin
/// in the accepted denomination, or zero when there is none.
pub open spec fn stake_of(funds: Seq<CoinView>) -> int
    decreases funds.len(),
{
    if funds.len() == 0 {
        0
    } else if funds[0].denom == spec_denom() {
        funds[0].amount
    } else {
        stake_of(funds.drop_first())
    }
}

/// Extracts the stake from the attached funds.
pub fn stake_amount(funds: &Vec<Coin>) -> (r: u128)
    ensures
        r as int == stake_of(coins_view(funds@)),
{
    let denom = denom_string();
    let ghost fv = coins_view(funds@);
    proof {
        assert(fv.skip(0) =~= fv);
    }
    let mut i: usize = 0;
    while i < funds.len()
        invariant
            0 <= i <= funds.len(),
            fv == coins_view(funds@),
            fv.len() == funds.len(),
            denom@ == spec_denom(),
            stake_of(fv.skip(i as int)) == stake_of(fv),
        decreases funds.len() - i,
    {
        if funds[i].denom == denom {
            proof {
                assert(fv.skip(i as int)[0] == fv[i as int]);
                assert(stake_of(fv) == fv[i as int].amount);
            }
            return funds[i].amount;
        }
        proof {
            assert(fv.skip(i as int)[0] == fv[i as int]);
            assert(fv.skip(i as int).drop_first() =~= fv.skip(i as int + 1));
        }
        i = i + 1;
    }
    proof {
        assert(fv.skip(funds.len() as int) =~= Seq::<CoinView>::empty());
    }
    0
}

/// The leaderboard entry a bet accrues to: the user's existing entry, or a
/// zero-initialized one created on their first stake.
pub open spec fn target_entry(lb: Seq<LeaderboardEntryView>, user: Seq<char>) -> LeaderboardEntryView {
    if has_entry(lb, user) {
        lb[entry_idx(lb, user)]
    } else {
        fresh_entry(user)
    }
}

/// A zero-initialized leaderboard entry.
pub open spec fn fresh_entry(user: Seq<char>) -> LeaderboardEntryView {
    LeaderboardEntryView {
        user: user,
        total_amount_played: 0,
        total_won: 0,
        total_lost: 0,
        total_up: 0,
        total_down: 0,
        amount_won: 0,
        amount_lost: 0,
    }
}

/// The entry after a stake is recorded: the amount played grows by the stake
/// and the counter of the chosen direction by one.
pub open spec fn bumped_entry(
    e: LeaderboardEntryView,
    stake: int,
    direction: Direction,
) -> LeaderboardEntryView {
    LeaderboardEntryView {
        total_amount_played: e.total_amount_played + stake,
        total_up: if direction == Direction::Up {
            e.total_up + 1
        } else {
            e.total_up
        },
        total_down: if direction == Direction::Down {
            e.total_down + 1
        } else {
            e.total_down
        },
        ..e
    }
}

/// The round after a stake is recorded: the chosen side's pool and the total
/// pool grow by the stake and the user joins the participants.
pub open spec fn bet_round_next(
    r: RoundView,
    user: Seq<char>,
    stake: int,
    direction: Direction,
) -> RoundView {
    RoundView {
        bull_pool: if direction == Direction::Up {
            r.bull_pool + stake
        } else {
            r.bull_pool
        },
        bear_pool: if direction == Direction::Down {
            r.bear_pool + stake
        } else {
            r.bear_pool
        },
        total_pool: r.total_pool + stake,
        participants: r.participants.push(user),
        ..r
    }
}

/// The grown pool and leaderboard counters stay within their types.
pub open spec fn place_bet_fits(
    s: StateView,
    round_id: int,
    user: Seq<char>,
    stake: int,
    direction: Direction,
) -> bool {
    let e = target_entry(s.leaderboard, user);
    &&& round_of(s, round_id).total_pool + stake <= u128::MAX
    &&& e.total_amount_played + stake <= u128::MAX
    &&& (direction == Direction::Up ==> e.total_up + 1 <= u64::MAX)
    &&& (direction == Direction::Down ==> e.total_down + 1 <= u64::MAX)
}

pub open spec fn place_bet_ok(
    s: StateView,
    now: int,
    sender: Seq<char>,
    funds: Seq<CoinView>,
    round_id: int,
    direction: Direction,
) -> bool {
    &&& !s.config.paused
    &&& has_round(s, round_id)
    &&& now >= round_of(s, round_id).start_time
    &&& now < round_of(s, round_id).lock_time
    &&& !has_bet(s.bets, round_id, sender)
    &&& stake_of(funds) != 0
    &&& place_bet_fits(s, round_id, sender, stake_of(funds), direction)
}

pub open spec fn place_bet_err(
    s: StateView,
    now: int,
    sender: Seq<char>,
    funds: Seq<CoinView>,
    round_id: int,
) -> ContractError {
    if s.config.paused {
        ContractError::ContractPaused
    } else if !has_round(s, round_id) {
        ContractError::RoundNotFound
    } else if now < round_of(s, round_id).start_time {
        ContractError::RoundNotStarted
    } else if now >= round_of(s, round_id).lock_time {
        ContractError::RoundLocked
    } else if has_bet(s.bets, round_id, sender) {
        ContractError::BetAlreadyPlaced
    } else if stake_of(funds) == 0 {
        ContractError::NoFundSent
    } else {
        ContractError::Overflow
    }
}

/// The leaderboard after a stake is recorded for `user`: the existing entry
/// bumped in place, or a fresh bumped entry inserted in user order.
pub open spec fn place_bet_lb_next(
    lb: Seq<LeaderboardEntryView>,
    user: Seq<char>,
    stake: int,
    direction: Direction,
) -> Seq<LeaderboardEntryView> {
    if has_entry(lb, user) {
        lb.update(entry_idx(lb, user), bumped_entry(lb[entry_idx(lb, user)], stake, direction))
    } else {
        lb.insert(entry_insert_pos(lb, user), bumped_entry(fresh_entry(user), stake, direction))
    }
}

pub open spec fn place_bet_next(
    s: StateView,
    round_id: int,
    sender: Seq<char>,
    stake: int,
    direction: Direction,
) -> StateView {
    StateView {
        rounds: s.rounds.update(
            round_id - 1,
            bet_round_next(round_of(s, round_id), sender, stake, direction),
        ),
        bets: s.bets.insert(
            bet_insert_pos(s.bets, round_id, sender),
            BetEntryView {
                round_id: round_id,
                user: sender,
                bet: BetView { amount: stake, direction: direction, claimed: false },
            },
        ),
        leaderboard: place_bet_lb_next(s.leaderboard, sender, stake, direction),
        ..s
    }
}

/// Recording a bet keeps the state well-formed.
pub proof fn lemma_place_bet_preserves_wf(
    s: StateView,
    round_id: int,
    user: Seq<char>,
    stake: int,
    direction: Direction,
)
    requires
        wf(s),
        has_round(s, round_id),
        !has_bet(s.bets, round_id, user),
        0 < stake,
        place_bet_fits(s, round_id, user, stake, direction),
    ensures
        wf(place_bet_next(s, round_id, user, stake, direction)),
{
    let s2 = place_bet_next(s, round_id, user, stake, direction);
    let r = round_of(s, round_id);
    let r2 = bet_round_next(r, user, stake, direction);
    let lb2 = place_bet_lb_next(s.leaderboard, user, stake, direction);
    let newbet = BetEntryView {
        round_id: round_id,
        user: user,
        bet: BetView { amount: stake, direction: direction, claimed: false },
    };
    let bpos = bet_insert_pos(s.bets, round_id, user);
    lemma_bet_insert_pos_bounds(s.bets, round_id, user);
    s.bets.insert_ensures(bpos, newbet);
    // every row before the insertion point has a strictly smaller key, every
    // row from it on a strictly larger one
    assert forall|k: int|
        0 <= k < s.bets.len() implies (k < bpos ==> bet_key_lt(
        (#[trigger] s.bets[k]).round_id,
        s.bets[k].user,
        round_id,
        user,
    )) && (k >= bpos ==> bet_key_lt(round_id, user, s.bets[k].round_id, s.bets[k].user)) by {
        lemma_bet_key_trichotomy(s.bets[k].round_id, s.bets[k].user, round_id, user);
        if s.bets[k].round_id == round_id && s.bets[k].user == user {
            assert(bet_key_at(s.bets, k, round_id, user));
            assert(has_bet(s.bets, round_id, user));
        }
        if k > bpos {
            assert(bet_key_lt(
                s.bets[bpos].round_id,
                s.bets[bpos].user,
                s.bets[k].round_id,
                s.bets[k].user,
            ));
            lemma_bet_key_transitive(
                round_id,
                user,
                s.bets[bpos].round_id,
                s.bets[bpos].user,
                s.bets[k].round_id,
                s.bets[k].user,
            );
        }
    }
    // the new participant is fresh: anyone already listed holds a bet, and
    // `user` holds none
    assert forall|p: int| 0 <= p < r.participants.len() implies r.participants[p] != user by {
        assert(has_bet(s.bets, round_id, r.participants[p]));
    }
    assert forall|i: int|
        0 <= i < s2.rounds.len() implies crate::state::round_wf(#[trigger] s2.rounds[i])
        && s2.rounds[i].id == i + 1 by {
        assert(crate::state::round_wf(s.rounds[i]) && s.rounds[i].id == i + 1);
        if i == round_id - 1 {
            assert(s2.rounds[i] == r2);
            assert forall|p: int, q: int|
                0 <= p < q < r2.participants.len() implies r2.participants[p]
                != r2.participants[q] by {
                if q == r2.participants.len() - 1 {
                    assert(r2.participants[q] == user);
                    assert(r2.participants[p] == r.participants[p]);
                } else {
                    assert(r2.participants[p] == r.participants[p]);
                    assert(r2.participants[q] == r.participants[q]);
                }
            }
        }
    }
    // ledger rows stay well-formed; the new row is
    assert forall|i: int| 0 <= i < s2.bets.len() implies bet_entry_wf(s2, #[trigger] s2.bets[i]) by {
        if i == bpos {
            assert(s2.bets[i] == newbet);
            assert(round_of(s2, round_id).participants[r.participants.len() as int] == user);
            assert(round_of(s2, round_id).participants.contains(user));
        } else {
            let oi = if i < bpos {
                i
            } else {
                i - 1
            };
            assert(s2.bets[i] == s.bets[oi]);
            assert(bet_entry_wf(s, s.bets[oi]));
            let b = s.bets[oi];
            assert(round_of(s2, b.round_id).participants.contains(b.user)) by {
                let rr = round_of(s, b.round_id);
                let rr2 = round_of(s2, b.round_id);
                let p = choose|p: int| 0 <= p < rr.participants.len() && rr.participants[p] == b.user;
                assert(rr2.participants[p] == b.user);
            }
        }
    }
    // the ledger stays in strictly ascending key order, so keys stay unique
    assert forall|i: int, j: int|
        0 <= i < j < s2.bets.len() implies bet_key_lt(
        (#[trigger] s2.bets[i]).round_id,
        s2.bets[i].user,
        (#[trigger] s2.bets[j]).round_id,
        s2.bets[j].user,
    ) by {
        if i == bpos {
            assert(s2.bets[i] == newbet);
            assert(s2.bets[j] == s.bets[j - 1] && j - 1 >= bpos);
        } else if j == bpos {
            let oi = i;
            assert(s2.bets[i] == s.bets[oi] && oi < bpos);
        } else {
            let oi = if i < bpos {
                i
            } else {
                i - 1
            };
            let oj = if j < bpos {
                j
            } else {
                j - 1
            };
            assert(s2.bets[i] == s.bets[oi] && s2.bets[j] == s.bets[oj] && oi < oj);
        }
    }
    assert forall|i: int, j: int|
        0 <= i < j < s2.bets.len() implies !(s2.bets[i].round_id == s2.bets[j].round_id
        && s2.bets[i].user == s2.bets[j].user) by {
        lemma_bet_key_trichotomy(
            s2.bets[i].round_id,
            s2.bets[i].user,
            s2.bets[j].round_id,
            s2.bets[j].user,
        );
    }
    // every bet user keeps a leaderboard entry
    if !has_entry(s.leaderboard, user) {
        lemma_entry_insert_pos_bounds(s.leaderboard, user);
        s.leaderboard.insert_ensures(
            entry_insert_pos(s.leaderboard, user),
            bumped_entry(fresh_entry(user), stake, direction),
        );
    }
    let lpos = entry_insert_pos(s.leaderboard, user);
    assert forall|i: int|
        0 <= i < s2.bets.len() implies has_entry(s2.leaderboard, (#[trigger] s2.bets[i]).user) by {
        if i == bpos {
            if has_entry(s.leaderboard, user) {
                let k = entry_idx(s.leaderboard, user);
                assert(lb2[k].user == user);
            } else {
                assert(lb2[lpos].user == user);
            }
        } else {
            let oi = if i < bpos {
                i
            } else {
                i - 1
            };
            assert(s2.bets[i] == s.bets[oi]);
            assert(has_entry(s.leaderboard, s.bets[oi].user));
            let k = choose|k: int|
                0 <= k < s.leaderboard.len() && s.leaderboard[k].user == s.bets[oi].user;
            if has_entry(s.leaderboard, user) {
                assert(lb2[k].user == s.bets[oi].user);
            } else {
                if k < lpos {
                    assert(lb2[k].user == s.bets[oi].user);
                } else {
                    assert(lb2[k + 1].user == s.bets[oi].user);
                }
            }
        }
    }
    // every participant keeps a bet
    assert forall|rr: int, p: int|
        0 <= rr < s2.rounds.len() && 0 <= p < s2.rounds[rr].participants.len() implies has_bet(
        s2.bets,
        rr + 1,
        #[trigger] s2.rounds[rr].participants[p],
    ) by {
        if rr == round_id - 1 && p == r.participants.len() as int {
            assert(bet_key_at(s2.bets, bpos, round_id, user));
        } else {
            assert(s2.rounds[rr].participants[p] == s.rounds[rr].participants[p]);
            assert(has_bet(s.bets, rr + 1, s.rounds[rr].participants[p]));
            let k = choose|k: int|
                0 <= k < s.bets.len() && #[trigger] bet_key_at(
                    s.bets,
                    k,
                    rr + 1,
                    s.rounds[rr].participants[p],
                );
            if k < bpos {
                assert(bet_key_at(s2.bets, k, rr + 1, s.rounds[rr].participants[p]));
            } else {
                assert(s2.bets[k + 1] == s.bets[k]);
                assert(bet_key_at(s2.bets, k + 1, rr + 1, s.rounds[rr].participants[p]));
            }
        }
    }
    // the users before the insertion point are strictly smaller, those from
    // it on strictly larger
    if !has_entry(s.leaderboard, user) {
        assert forall|k: int|
            0 <= k < s.leaderboard.len() implies (k < lpos ==> lex_lt(
            (#[trigger] s.leaderboard[k]).user,
            user,
        )) && (k >= lpos ==> lex_lt(user, s.leaderboard[k].user)) by {
            lemma_lex_trichotomy(s.leaderboard[k].user, user);
            if k > lpos {
                lemma_lex_transitive(user, s.leaderboard[lpos].user, s.leaderboard[k].user);
            }
        }
    }
    // leaderboard entries stay bounded, in ascending user order, and unique
    assert forall|i: int|
        0 <= i < s2.leaderboard.len() implies crate::state::entry_wf(
        #[trigger] s2.leaderboard[i],
    ) by {
        if has_entry(s.leaderboard, user) {
            assert(crate::state::entry_wf(s.leaderboard[i]));
        } else {
            if i != lpos {
                let oi = if i < lpos {
                    i
                } else {
                    i - 1
                };
                assert(s2.leaderboard[i] == s.leaderboard[oi]);
                assert(crate::state::entry_wf(s.leaderboard[oi]));
            }
        }
    }
    assert forall|i: int, j: int|
        0 <= i < j < s2.leaderboard.len() implies lex_lt(
        (#[trigger] s2.leaderboard[i]).user,
        (#[trigger] s2.leaderboard[j]).user,
    ) by {
        if has_entry(s.leaderboard, user) {
            assert(s2.leaderboard[i].user == s.leaderboard[i].user);
            assert(s2.leaderboard[j].user == s.leaderboard[j].user);
        } else {
            if i == lpos {
                assert(s2.leaderboard[j] == s.leaderboard[j - 1] && j - 1 >= lpos);
            } else if j == lpos {
                assert(s2.leaderboard[i] == s.leaderboard[i] && i < lpos);
            } else {
                let oi = if i < lpos {
                    i
                } else {
                    i - 1
                };
                let oj = if j < lpos {
                    j
                } else {
                    j - 1
                };
                assert(s2.leaderboard[i] == s.leaderboard[oi] && s2.leaderboard[j]
                    == s.leaderboard[oj] && oi < oj);
            }
        }
    }
    assert forall|i: int, j: int|
        0 <= i < j < s2.leaderboard.len() implies s2.leaderboard[i].user
        != s2.leaderboard[j].user by {
        lemma_lex_trichotomy(s2.leaderboard[i].user, s2.leaderboard[j].user);
    }
    assert(wf(s2));
}

/// Records a bet: one per `(round_id, user)`, only while the contract is not
/// paused and the round is between its start and lock times, staking the
/// attached funds in the accepted denomination. The new row goes into the
/// ledger at its key's place, keeping the ledger in ascending key order.
pub fn execute_place_bet(
    state: &mut State,
    now: u64,
    sender: &String,
    funds: &Vec<Coin>,
    round_id: u64,
    direction: Direction,
) -> (r: Result<Response, ContractError>)
    requires
        wf(old(state)@),
    ensures
        wf(final(state)@),
        match r {
            Ok(resp) => {
                &&& place_bet_ok(
                    old(state)@,
                    now as int,
                    sender@,
                    coins_view(funds@),
                    round_id as int,
                    direction,
                )
                &&& final(state)@ == place_bet_next(
                    old(state)@,
                    round_id as int,
                    sender@,
                    stake_of(coins_view(funds@)),
                    direction,
                )
                &&& resp@.ack == (AckView::BetPlaced {
                    round_id: round_id as int,
                    user: sender@,
                    amount: stake_of(coins_view(funds@)),
                    direction: direction,
                })
                &&& resp@.transfers.len() == 0
            },
            Err(e) => {
                &&& *final(state) == *old(state)
                &&& !place_bet_ok(
                    old(state)@,
                    now as int,
                    sender@,
                    coins_view(funds@),
                    round_id as int,
                    direction,
                )
                &&& e == place_bet_err(
                    old(state)@,
                    now as int,
                    sender@,
                    coins_view(funds@),
                    round_id as int,
                )
            },
        },
{
    let ghost s = old(state)@;
    if state.config.paused {
        return Err(ContractError::ContractPaused);
    }
    if !(1 <= round_id && round_id <= state.rounds.len() as u64) {
        return Err(ContractError::RoundNotFound);
    }
    let i = (round_id - 1) as usize;
    if now < state.rounds[i].start_time {
        return Err(ContractError::RoundNotStarted);
    }
    if now >= state.rounds[i].lock_time {
        return Err(ContractError::RoundLocked);
    }
    if let Some(_) = state.find_bet(round_id, sender) {
        return Err(ContractError::BetAlreadyPlaced);
    }
    let stake = stake_amount(funds);
    if stake == 0 {
        return Err(ContractError::NoFundSent);
    }
    // the grown pool and counters must fit their types
    let total2 = match state.rounds[i].total_pool.checked_add(stake) {
        Some(v) => v,
        None => {
            return Err(ContractError::Overflow);
        },
    };
    let entry_pos = state.find_entry(sender);
    let mut entry: LeaderboardEntry = match entry_pos {
        Some(j) => {
            proof {
                lemma_entry_idx_unique(s, j as int, sender@);
            }
            state.leaderboard[j].clone()
        },
        None => LeaderboardEntry {
            user: sender.clone(),
            total_amount_played: 0,
            total_won: 0,
            total_lost: 0,
            total_up: 0,
            total_down: 0,
            amount_won: 0,
            amount_lost: 0,
        },
    };
    proof {
        assert(entry@ == target_entry(s.leaderboard, sender@));
    }
    entry.total_amount_played = match entry.total_amount_played.checked_add(stake) {
        Some(v) => v,
        None => {
            return Err(ContractError::Overflow);
        },
    };
    match direction {
        Direction::Up => {
            entry.total_up = match entry.total_up.checked_add(1) {
                Some(v) => v,
                None => {
                    return Err(ContractError::Overflow);
                },
            };
        },
        Direction::Down => {
            entry.total_down = match entry.total_down.checked_add(1) {
                Some(v) => v,
                None => {
                    return Err(ContractError::Overflow);
                },
            };
        },
    }
    proof {
        assert(entry@ == bumped_entry(
            target_entry(s.leaderboard, sender@),
            stake as int,
            direction,
        ));
        assert(place_bet_fits(s, round_id as int, sender@, stake as int, direction));
    }
    // all checks passed: commit
    let mut new_round = state.rounds[i].clone();
    match direction {
        Direction::Up => {
            new_round.bull_pool = new_round.bull_pool + stake;
        },
        Direction::Down => {
            new_round.bear_pool = new_round.bear_pool + stake;
        },
    }
    new_round.total_pool = total2;
    new_round.participants.push(sender.clone());
    proof {
        assert(new_round@.participants =~= round_of(s, round_id as int).participants.push(
            sender@,
        ));
        assert(new_round@ == bet_round_next(
            round_of(s, round_id as int),
            sender@,
            stake as int,
            direction,
        ));
    }
    let bpos = state.find_bet_insert_pos(round_id, sender);
    state.rounds[i] = new_round;
    let row = BetEntry {
        round_id: round_id,
        user: sender.clone(),
        bet: Bet { amount: stake, direction: direction, claimed: false },
    };
    let ghost row_g = row;
    proof {
        lemma_bet_insert_pos_bounds(s.bets, round_id as int, sender@);
        old(state).bets@.insert_ensures(bpos as int, row_g);
        s.bets.insert_ensures(bpos as int, row_g@);
    }
    state.bets.insert(bpos, row);
    match entry_pos {
        Some(j) => {
            state.leaderboard[j] = entry;
        },
        None => {
            let lpos = state.find_entry_insert_pos(sender);
            let ghost entry_g = entry;
            proof {
                assert(state@.leaderboard == s.leaderboard);
                lemma_entry_insert_pos_bounds(s.leaderboard, sender@);
                old(state).leaderboard@.insert_ensures(lpos as int, entry_g);
                s.leaderboard.insert_ensures(lpos as int, entry_g@);
            }
            state.leaderboard.insert(lpos, entry);
        },
    }
    proof {
        let s2 = state@;
        let target = place_bet_next(s, round_id as int, sender@, stake as int, direction);
        assert(s2.rounds =~= target.rounds);
        assert forall|k: int| 0 <= k < s2.bets.len() implies s2.bets[k] == target.bets[k] by {
            if k < bpos as int {
                assert(state.bets@[k] == old(state).bets@[k]);
            } else if k > bpos as int {
                assert(state.bets@[k] == old(state).bets@[k - 1]);
            }
        }
        assert(s2.bets =~= target.bets);
        assert forall|k: int|
            0 <= k < s2.leaderboard.len() implies s2.leaderboard[k] == target.leaderboard[k] by {
            if !has_entry(s.leaderboard, sender@) {
                let lpos = entry_insert_pos(s.leaderboard, sender@);
                if k < lpos {
                    assert(state.leaderboard@[k] == old(state).leaderboard@[k]);
                } else if k > lpos {
                    assert(state.leaderboard@[k] == old(state).leaderboard@[k - 1]);
                }
            }
        }
        assert(s2.leaderboard =~= target.leaderboard);
        assert(s2 == target);
        lemma_place_bet_preserves_wf(s, round_id as int, sender@, stake as int, direction);
    }
    Ok(
        Response {
            ack: Ack::BetPlaced {
                round_id: round_id,
                user: sender.clone(),
                amount: stake,
                direction: direction,
            },
            transfers: Vec::new(),
        },
    )
}

/// The pool on the winning side of a resolved round (zero on a push).
pub open spec fn winning_pool_of(r: RoundView) -> int {
    match r.result {
        Some(d) => pool_of(r, d),
        None => 0,
    }
}

/// The pool on the losing side of a resolved round.
pub open spec fn losing_pool_of(r: RoundView) -> int {
    r.total_pool - winning_pool_of(r)
}

/// The pari-mutuel reward of a winning stake: the stake returned plus a
/// pro-rata share of the losing pool (integer floor division).
pub open spec fn reward_of(amount: int, winning: int, losing: int) -> int
    recommends
        0 < winning,
{
    amount + (amount * losing) / winning
}

/// The reward the bet `b` earns in round `r` (meaningful when `b` won).
pub open spec fn bet_reward(b: BetView, r: RoundView) -> int {
    reward_of(b.amount, winning_pool_of(r), losing_pool_of(r))
}

/// The treasury fee on a reward, in basis points, floor division.
pub open spec fn fee_of(reward: int, bps: int) -> int {
    (reward * bps) / 10000
}

/// The bet is on the winning side of the resolved round.
pub open spec fn claim_is_winner(b: BetView, r: RoundView) -> bool {
    match r.result {
        Some(d) => b.direction == d,
        None => false,
    }
}

/// The reward intermediates of a winning claim stay within `u128`.
pub open spec fn claim_fits(b: BetView, r: RoundView, bps: int) -> bool {
    claim_is_winner(b, r) ==> {
        &&& b.amount * losing_pool_of(r) <= u128::MAX
        &&& bet_reward(b, r) * bps <= u128::MAX
    }
}

/// What a claim pays out before the fee: the pari-mutuel reward for a winning
/// bet, the plain stake back on a push.
pub open spec fn claim_amount(b: BetView, r: RoundView) -> int {
    if claim_is_winner(b, r) {
        bet_reward(b, r)
    } else {
        b.amount
    }
}

pub open spec fn claim_ok(s: StateView, sender: Seq<char>, round_id: int) -> bool {
    &&& has_round(s, round_id)
    &&& round_of(s, round_id).executed
    &&& has_bet(s.bets, round_id, sender)
    &&& !bet_of(s.bets, round_id, sender).claimed
    &&& (claim_is_winner(bet_of(s.bets, round_id, sender), round_of(s, round_id)) || round_of(
        s,
        round_id,
    ).result is None)
    &&& claim_fits(
        bet_of(s.bets, round_id, sender),
        round_of(s, round_id),
        s.config.treasury_fee,
    )
}

pub open spec fn claim_err(s: StateView, sender: Seq<char>, round_id: int) -> ContractError {
    if !has_round(s, round_id) {
        ContractError::RoundNotFound
    } else if !round_of(s, round_id).executed {
        ContractError::RoundNotEnded
    } else if !has_bet(s.bets, round_id, sender) {
        ContractError::BetNotFound
    } else if bet_of(s.bets, round_id, sender).claimed {
        ContractError::AlreadyClaimed
    } else if !(claim_is_winner(bet_of(s.bets, round_id, sender), round_of(s, round_id))
        || round_of(s, round_id).result is None) {
        ContractError::NothingToClaim
    } else {
        ContractError::Overflow
    }
}

/// The state after a successful claim: the bet is marked claimed, nothing
/// else moves.
pub open spec fn claim_next(s: StateView, sender: Seq<char>, round_id: int) -> StateView {
    let i = bet_idx(s.bets, round_id, sender);
    StateView {
        bets: s.bets.update(
            i,
            BetEntryView { bet: BetView { claimed: true, ..s.bets[i].bet }, ..s.bets[i] },
        ),
        ..s
    }
}

/// The transfers a successful claim instructs: reward net of fee to the
/// caller and the fee to the admin for a win; the plain stake back, fee-free,
/// on a push.
pub open spec fn claim_transfers(s: StateView, sender: Seq<char>, round_id: int) -> Seq<
    TransferView,
> {
    let b = bet_of(s.bets, round_id, sender);
    let r = round_of(s, round_id);
    if claim_is_winner(b, r) {
        let reward = bet_reward(b, r);
        let fee = fee_of(reward, s.config.treasury_fee);
        seq![
            TransferView { to_address: sender, denom: spec_denom(), amount: reward - fee },
            TransferView { to_address: s.config.admin, denom: spec_denom(), amount: fee },
        ]
    } else {
        seq![TransferView { to_address: sender, denom: spec_denom(), amount: b.amount }]
    }
}

/// Marking a bet claimed keeps the state well-formed.
pub proof fn lemma_claim_preserves_wf(s: StateView, sender: Seq<char>, round_id: int)
    requires
        wf(s),
        has_round(s, round_id),
        has_bet(s.bets, round_id, sender),
    ensures
        wf(claim_next(s, sender, round_id)),
{
    let s2 = claim_next(s, sender, round_id);
    let i = bet_idx(s.bets, round_id, sender);
    assert(0 <= i < s.bets.len() && bet_key_at(s.bets, i, round_id, sender));
    assert forall|k: int|
        0 <= k < s2.bets.len() implies #[trigger] s2.bets[k].round_id == s.bets[k].round_id
        && s2.bets[k].user == s.bets[k].user && s2.bets[k].bet.amount == s.bets[k].bet.amount
        && s2.bets[k].bet.direction == s.bets[k].bet.direction by {}
    assert forall|k: int| 0 <= k < s2.bets.len() implies bet_entry_wf(s2, #[trigger] s2.bets[k]) by {
        assert(bet_entry_wf(s, s.bets[k]));
    }
    assert forall|k: int|
        0 <= k < s2.bets.len() implies has_entry(s2.leaderboard, (#[trigger] s2.bets[k]).user) by {
        assert(has_entry(s.leaderboard, s.bets[k].user));
    }
    assert forall|rr: int, p: int|
        0 <= rr < s2.rounds.len() && 0 <= p < s2.rounds[rr].participants.len() implies has_bet(
        s2.bets,
        rr + 1,
        #[trigger] s2.rounds[rr].participants[p],
    ) by {
        assert(has_bet(s.bets, rr + 1, s.rounds[rr].participants[p]));
        let k = choose|k: int|
            0 <= k < s.bets.len() && #[trigger] bet_key_at(
                s.bets,
                k,
                rr + 1,
                s.rounds[rr].participants[p],
            );
        assert(bet_key_at(s2.bets, k, rr + 1, s.rounds[rr].participants[p]));
    }
    assert(wf(s2));
}

/// Repeated claims never double-pay: once a claim succeeds, the same
/// `(round_id, user)` claim is rejected as already claimed, and the state it
/// would act on carries the marker.
pub proof fn lemma_claim_idempotent(s: StateView, sender: Seq<char>, round_id: int)
    requires
        wf(s),
        claim_ok(s, sender, round_id),
    ensures
        !claim_ok(claim_next(s, sender, round_id), sender, round_id),
        claim_err(claim_next(s, sender, round_id), sender, round_id)
            == ContractError::AlreadyClaimed,
{
    let s2 = claim_next(s, sender, round_id);
    let i = bet_idx(s.bets, round_id, sender);
    lemma_claim_preserves_wf(s, sender, round_id);
    assert(bet_key_at(s2.bets, i, round_id, sender));
    lemma_bet_idx_unique(s2, i, round_id, sender);
    assert(bet_of(s2.bets, round_id, sender).claimed);
}

/// Pays a user's reward for a resolved round: exactly once per bet, only to
/// winning bets (push rounds refund the stake), net of the treasury fee,
/// which goes to the admin.
pub fn execute_claim_reward(state: &mut State, sender: &String, round_id: u64) -> (r: Result<
    Response,
    ContractError,
>)
    requires
        wf(old(state)@),
    ensures
        wf(final(state)@),
        match r {
            Ok(resp) => {
                &&& claim_ok(old(state)@, sender@, round_id as int)
                &&& final(state)@ == claim_next(old(state)@, sender@, round_id as int)
                &&& resp@.ack == (AckView::RewardClaimed {
                    round_id: round_id as int,
                    user: sender@,
                    reward: claim_amount(
                        bet_of(old(state)@.bets, round_id as int, sender@),
                        round_of(old(state)@, round_id as int),
                    ),
                })
                &&& resp@.transfers == claim_transfers(old(state)@, sender@, round_id as int)
            },
            Err(e) => {
                &&& *final(state) == *old(state)
                &&& !claim_ok(old(state)@, sender@, round_id as int)
                &&& e == claim_err(old(state)@, sender@, round_id as int)
            },
        },
{
    let ghost s = old(state)@;
    if !(1 <= round_id && round_id <= state.rounds.len() as u64) {
        return Err(ContractError::RoundNotFound);
    }
    let i = (round_id - 1) as usize;
    if !state.rounds[i].executed {
        return Err(ContractError::RoundNotEnded);
    }
    let bet_pos = match state.find_bet(round_id, sender) {
        Some(p) => p,
        None => {
            return Err(ContractError::BetNotFound);
        },
    };
    proof {
        lemma_bet_idx_unique(s, bet_pos as int, round_id as int, sender@);
    }
    let bet = state.bets[bet_pos].bet;
    if bet.claimed {
        return Err(ContractError::AlreadyClaimed);
    }
    let ghost bv = bet_of(s.bets, round_id as int, sender@);
    let ghost rv = round_of(s, round_id as int);
    proof {
        assert(bv == bet@);
        assert(rv == state.rounds[i as int]@);
    }
    let result = state.rounds[i].result;
    let reward: u128;
    let mut transfers: Vec<Transfer> = Vec::new();
    match result {
        Some(d) => {
            if !(bet.direction == d) {
                return Err(ContractError::NothingToClaim);
            }
            let winning: u128 = match d {
                Direction::Up => state.rounds[i].bull_pool,
                Direction::Down => state.rounds[i].bear_pool,
            };
            proof {
                assert(winning as int == winning_pool_of(rv));
                assert(bv.amount <= pool_of(rv, bv.direction));
                assert(0 < winning);
            }
            let losing: u128 = state.rounds[i].total_pool - winning;
            let prod = match bet.amount.checked_mul(losing) {
                Some(p) => p,
                None => {
                    return Err(ContractError::Overflow);
                },
            };
            let share = prod / winning;
            proof {
                lemma_share_bounded(bet.amount as int, winning as int, losing as int);
            }
            let reward_w = bet.amount + share;
            let fee_prod = match reward_w.checked_mul(state.config.treasury_fee as u128) {
                Some(p) => p,
                None => {
                    proof {
                        assert(reward_w as int == bet_reward(bv, rv));
                    }
                    return Err(ContractError::Overflow);
                },
            };
            let fee = fee_prod / 10000;
            proof {
                lemma_fee_bounded(reward_w as int, state.config.treasury_fee as int);
            }
            let payout = reward_w - fee;
            transfers.push(
                Transfer { to_address: sender.clone(), denom: denom_string(), amount: payout },
            );
            transfers.push(
                Transfer {
                    to_address: state.config.admin.clone(),
                    denom: denom_string(),
                    amount: fee,
                },
            );
            reward = reward_w;
            proof {
                assert(reward as int == bet_reward(bv, rv));
                assert(transfers@.map_values(|t: Transfer| t@) =~= claim_transfers(
                    s,
                    sender@,
                    round_id as int,
                ));
            }
        },
        None => {
            transfers.push(
                Transfer { to_address: sender.clone(), denom: denom_string(), amount: bet.amount },
            );
            reward = bet.amount;
            proof {
                assert(transfers@.map_values(|t: Transfer| t@) =~= claim_transfers(
                    s,
                    sender@,
                    round_id as int,
                ));
            }
        },
    }
    // mark the bet claimed and commit
    let mut row = state.bets[bet_pos].clone();
    row.bet.claimed = true;
    state.bets[bet_pos] = row;
    proof {
        assert(state@.bets =~= claim_next(s, sender@, round_id as int).bets);
        assert(state@ == claim_next(s, sender@, round_id as int));
        lemma_claim_preserves_wf(s, sender@, round_id as int);
    }
    Ok(
        Response {
            ack: Ack::RewardClaimed { round_id: round_id, user: sender.clone(), reward: reward },
            transfers,
        },
    )
}

/// The outcome a pair of prices resolves to: the price rose, `Up` wins; it
/// fell, `Down` wins; unchanged, nobody does (a push).
pub open spec fn outcome_of(lock_price: int, end_price: int) -> Option<Direction> {
    if end_price > lock_price {
        Some(Direction::Up)
    } else if end_price < lock_price {
        Some(Direction::Down)
    } else {
        None
    }
}

/// The round after `EndRound`: the end price recorded, the result derived
/// from the lock and end prices, and the round marked executed.
pub open spec fn ended_round(r: RoundView, price: int) -> RoundView {
    RoundView {
        end_price: price,
        result: outcome_of(r.lock_price, price),
        executed: true,
        ..r
    }
}

/// How settlement updates one leaderboard entry: a winning bet accrues its
/// reward and a win, a losing bet accrues its stake lost and a loss, a push
/// and a user without a bet in the round change nothing. Bookkeeping only —
/// settlement moves no funds.
pub open spec fn settled_entry(
    e: LeaderboardEntryView,
    bets: Seq<BetEntryView>,
    r: RoundView,
) -> LeaderboardEntryView {
    if has_bet(bets, r.id, e.user) {
        let b = bet_of(bets, r.id, e.user);
        match r.result {
            Some(d) => {
                if b.direction == d {
                    LeaderboardEntryView {
                        amount_won: e.amount_won + bet_reward(b, r),
                        total_won: e.total_won + 1,
                        ..e
                    }
                } else {
                    LeaderboardEntryView {
                        amount_lost: e.amount_lost + b.amount,
                        total_lost: e.total_lost + 1,
                        ..e
                    }
                }
            },
            None => e,
        }
    } else {
        e
    }
}

/// Settling one entry stays within its integer types.
pub open spec fn settled_entry_fits(
    e: LeaderboardEntryView,
    bets: Seq<BetEntryView>,
    r: RoundView,
) -> bool {
    if has_bet(bets, r.id, e.user) {
        let b = bet_of(bets, r.id, e.user);
        match r.result {
            Some(d) => {
                if b.direction == d {
                    &&& b.amount * losing_pool_of(r) <= u128::MAX
                    &&& e.amount_won + bet_reward(b, r) <= u128::MAX
                    &&& e.total_won + 1 <= u64::MAX
                } else {
                    &&& e.amount_lost + b.amount <= u128::MAX
                    &&& e.total_lost + 1 <= u64::MAX
                }
            },
            None => true,
        }
    } else {
        true
    }
}

/// Settling the whole leaderboard stays within its integer types.
pub open spec fn settlement_fits(
    lb: Seq<LeaderboardEntryView>,
    bets: Seq<BetEntryView>,
    r: RoundView,
) -> bool {
    forall|i: int| 0 <= i < lb.len() ==> settled_entry_fits(#[trigger] lb[i], bets, r)
}

pub open spec fn end_round_ok(s: StateView, now: int, sender: Seq<char>, price: int) -> bool {
    &&& is_admin(s, sender)
    &&& has_round(s, s.config.current_round_id)
    &&& round_of(s, s.config.current_round_id).lock_price != 0
    &&& now >= round_of(s, s.config.current_round_id).end_time
    &&& price != 0
    &&& s.config.current_round_id + 1 <= u64::MAX
    &&& settlement_fits(
        s.leaderboard,
        s.bets,
        ended_round(round_of(s, s.config.current_round_id), price),
    )
}

pub open spec fn end_round_err(s: StateView, now: int, sender: Seq<char>, price: int) -> ContractError {
    if !is_admin(s, sender) {
        ContractError::Unauthorized
    } else if !has_round(s, s.config.current_round_id) {
        ContractError::RoundNotStarted
    } else if round_of(s, s.config.current_round_id).lock_price == 0 {
        ContractError::CannotEndWithoutLockPrice
    } else if now < round_of(s, s.config.current_round_id).end_time {
        ContractError::CannotEndBeforeTime
    } else if price == 0 {
        ContractError::InvalidEndPrice
    } else {
        ContractError::Overflow
    }
}

/// The state after a successful `EndRound`: the current round resolved and
/// executed, every leaderboard entry settled, and the round counter advanced
/// by exactly one.
pub open spec fn end_round_next(s: StateView, price: int) -> StateView {
    let cur = s.config.current_round_id;
    let r2 = ended_round(round_of(s, cur), price);
    StateView {
        config: ConfigView { current_round_id: cur + 1, ..s.config },
        rounds: s.rounds.update(cur - 1, r2),
        leaderboard: s.leaderboard.map_values(
            |e: LeaderboardEntryView| settled_entry(e, s.bets, r2),
        ),
        ..s
    }
}

/// Ending the current round keeps the state well-formed.
pub proof fn lemma_end_round_preserves_wf(s: StateView, price: int)
    requires
        wf(s),
        has_round(s, s.config.current_round_id),
        s.config.current_round_id + 1 <= u64::MAX,
        settlement_fits(
            s.leaderboard,
            s.bets,
            ended_round(round_of(s, s.config.current_round_id), price),
        ),
        0 <= price <= u128::MAX,
    ensures
        wf(end_round_next(s, price)),
{
    let cur = s.config.current_round_id;
    let r2 = ended_round(round_of(s, cur), price);
    let s2 = end_round_next(s, price);
    assert forall|i: int|
        0 <= i < s2.rounds.len() implies crate::state::round_wf(#[trigger] s2.rounds[i])
        && s2.rounds[i].id == i + 1 by {
        assert(crate::state::round_wf(s.rounds[i]) && s.rounds[i].id == i + 1);
    }
    assert forall|k: int| 0 <= k < s2.bets.len() implies bet_entry_wf(s2, #[trigger] s2.bets[k]) by {
        assert(bet_entry_wf(s, s.bets[k]));
        assert(pool_of(round_of(s2, s.bets[k].round_id), s.bets[k].bet.direction) == pool_of(
            round_of(s, s.bets[k].round_id),
            s.bets[k].bet.direction,
        ));
        assert(round_of(s2, s.bets[k].round_id).participants == round_of(
            s,
            s.bets[k].round_id,
        ).participants);
    }
    assert forall|k: int|
        0 <= k < s2.bets.len() implies has_entry(s2.leaderboard, (#[trigger] s2.bets[k]).user) by {
        assert(has_entry(s.leaderboard, s.bets[k].user));
        let j = choose|j: int|
            0 <= j < s.leaderboard.len() && s.leaderboard[j].user == s.bets[k].user;
        assert(s2.leaderboard[j].user == s.bets[k].user);
    }
    assert forall|rr: int, p: int|
        0 <= rr < s2.rounds.len() && 0 <= p < s2.rounds[rr].participants.len() implies has_bet(
        s2.bets,
        rr + 1,
        #[trigger] s2.rounds[rr].participants[p],
    ) by {
        assert(s2.rounds[rr].participants == s.rounds[rr].participants);
        assert(has_bet(s.bets, rr + 1, s.rounds[rr].participants[p]));
    }
    assert forall|j: int|
        0 <= j < s2.leaderboard.len() implies crate::state::entry_wf(
        #[trigger] s2.leaderboard[j],
    ) by {
        let e = s.leaderboard[j];
        assert(crate::state::entry_wf(e));
        assert(settled_entry_fits(e, s.bets, r2));
        assert(s2.leaderboard[j] == settled_entry(e, s.bets, r2));
        if has_bet(s.bets, r2.id, e.user) {
            let b = bet_of(s.bets, r2.id, e.user);
            let bi = bet_idx(s.bets, r2.id, e.user);
            assert(bet_entry_wf(s, s.bets[bi]));
            match r2.result {
                Some(d) => {
                    if b.direction == d {
                        assert(pool_of(r2, d) == pool_of(round_of(s, cur), d));
                        lemma_share_bounded(
                            b.amount,
                            winning_pool_of(r2),
                            losing_pool_of(r2),
                        );
                    }
                },
                None => {},
            }
        }
    }
    assert forall|i: int, j: int|
        0 <= i < j < s2.leaderboard.len() implies s2.leaderboard[i].user
        != s2.leaderboard[j].user by {
        assert(s2.leaderboard[i].user == s.leaderboard[i].user);
        assert(s2.leaderboard[j].user == s.leaderboard[j].user);
    }
    assert(wf(s2));
}

/// Ends the current round: records the end price, derives the result,
/// settles every leaderboard entry, and advances the round counter by one.
/// Admin-only; fails before the round's end time, while the lock price is
/// unset, or on a zero end price (zero means "unset", and a round ended at
/// zero could never be followed).
#[verifier::loop_isolation(false)]
pub fn execute_end_round(state: &mut State, now: u64, sender: &String, price: u128) -> (r: Result<
    Response,
    ContractError,
>)
    requires
        wf(old(state)@),
    ensures
        wf(final(state)@),
        match r {
            Ok(resp) => {
                &&& end_round_ok(old(state)@, now as int, sender@, price as int)
                &&& final(state)@ == end_round_next(old(state)@, price as int)
                &&& resp@.ack == (AckView::RoundEnded {
                    round_id: old(state)@.config.current_round_id,
                })
                &&& resp@.transfers.len() == 0
            },
            Err(e) => {
                &&& *final(state) == *old(state)
                &&& !end_round_ok(old(state)@, now as int, sender@, price as int)
                &&& e == end_round_err(old(state)@, now as int, sender@, price as int)
            },
        },
{
    let ghost s = old(state)@;
    if let Err(e) = require_admin(state, sender) {
        return Err(e);
    }
    let current = state.config.current_round_id;
    if !(current <= state.rounds.len() as u64) {
        return Err(ContractError::RoundNotStarted);
    }
    let i = (current - 1) as usize;
    if state.rounds[i].lock_price == 0 {
        return Err(ContractError::CannotEndWithoutLockPrice);
    }
    if now < state.rounds[i].end_time {
        return Err(ContractError::CannotEndBeforeTime);
    }
    // a zero end price would read as "unset" and block every later round
    if price == 0 {
        return Err(ContractError::InvalidEndPrice);
    }
    let next_id = match current.checked_add(1) {
        Some(v) => v,
        None => {
            return Err(ContractError::Overflow);
        },
    };
    // resolve the round
    let mut r2 = state.rounds[i].clone();
    r2.end_price = price;
    r2.result = if price > r2.lock_price {
        Some(Direction::Up)
    } else if price < r2.lock_price {
        Some(Direction::Down)
    } else {
        None
    };
    r2.executed = true;
    let ghost r2v = ended_round(round_of(s, current as int), price as int);
    proof {
        assert(r2@ == r2v);
        assert(r2v.id == current as int);
    }
    // settle the leaderboard into a fresh list; nothing is committed until
    // every entry is known to fit
    let mut new_lb: Vec<LeaderboardEntry> = Vec::new();
    let mut k: usize = 0;
    while k < state.leaderboard.len()
        invariant
            k <= state.leaderboard.len(),
            new_lb@.len() == k as int,
            forall|j: int|
                0 <= j < k as int ==> new_lb@.map_values(|e: LeaderboardEntry| e@)[j]
                    == settled_entry(s.leaderboard[j], s.bets, r2v),
            forall|j: int|
                0 <= j < k as int ==> settled_entry_fits(#[trigger] s.leaderboard[j], s.bets, r2v),
        decreases state.leaderboard.len() - k,
    {
        let user = state.leaderboard[k].user.clone();
        let found = state.find_bet(current, &user);
        let mut updated = state.leaderboard[k].clone();
        match found {
            None => {
                proof {
                    assert(!has_bet(s.bets, r2v.id, s.leaderboard[k as int].user));
                    assert(updated@ == settled_entry(s.leaderboard[k as int], s.bets, r2v));
                }
            },
            Some(p) => {
                proof {
                    lemma_bet_idx_unique(s, p as int, current as int, user@);
                    assert(has_bet(s.bets, r2v.id, s.leaderboard[k as int].user));
                }
                let b = state.bets[p].bet;
                proof {
                    assert(b@ == bet_of(s.bets, r2v.id, s.leaderboard[k as int].user));
                    assert(bet_entry_wf(s, s.bets[p as int]));
                }
                match r2.result {
                    Some(d) => {
                        if b.direction == d {
                            let winning: u128 = match d {
                                Direction::Up => r2.bull_pool,
                                Direction::Down => r2.bear_pool,
                            };
                            proof {
                                assert(winning as int == winning_pool_of(r2v));
                                assert(pool_of(r2v, d) == pool_of(round_of(s, current as int), d));
                                assert(0 < b.amount <= winning);
                            }
                            let losing: u128 = r2.total_pool - winning;
                            let prod = match b.amount.checked_mul(losing) {
                                Some(v) => v,
                                None => {
                                    return Err(ContractError::Overflow);
                                },
                            };
                            let share = prod / winning;
                            proof {
                                lemma_share_bounded(b.amount as int, winning as int, losing as int);
                            }
                            let reward = b.amount + share;
                            proof {
                                assert(reward as int == bet_reward(b@, r2v));
                            }
                            updated.amount_won = match updated.amount_won.checked_add(reward) {
                                Some(v) => v,
                                None => {
                                    return Err(ContractError::Overflow);
                                },
                            };
                            updated.total_won = match updated.total_won.checked_add(1) {
                                Some(v) => v,
                                None => {
                                    return Err(ContractError::Overflow);
                                },
                            };
                        } else {
                            updated.amount_lost = match updated.amount_lost.checked_add(b.amount) {
                                Some(v) => v,
                                None => {
                                    return Err(ContractError::Overflow);
                                },
                            };
                            updated.total_lost = match updated.total_lost.checked_add(1) {
                                Some(v) => v,
                                None => {
                                    return Err(ContractError::Overflow);
                                },
                            };
                        }
                    },
                    None => {},
                }
                proof {
                    assert(updated@ == settled_entry(s.leaderboard[k as int], s.bets, r2v));
                }
            },
        }
        new_lb.push(updated);
        k = k + 1;
    }
    // all entries fit: commit
    state.rounds[i] = r2;
    state.leaderboard = new_lb;
    state.config.current_round_id = next_id;
    proof {
        let s2 = state@;
        let target = end_round_next(s, price as int);
        assert(s2.rounds =~= target.rounds);
        assert(s2.leaderboard =~= target.leaderboard);
        assert(s2 == target);
        lemma_end_round_preserves_wf(s, price as int);
    }
    Ok(Response { ack: Ack::RoundEnded { round_id: current }, transfers: Vec::new() })
}

/// When a state-changing request succeeds.
pub open spec fn execute_ok(
    s: StateView,
    now: int,
    sender: Seq<char>,
    funds: Seq<CoinView>,
    m: ExecuteMsgView,
) -> bool {
    match m {
        ExecuteMsgView::StartRound { price } => start_round_ok(s, now, sender),
        ExecuteMsgView::LockRound { price } => lock_round_ok(s, now, sender),
        ExecuteMsgView::EndRound { price } => end_round_ok(s, now, sender, price),
        ExecuteMsgView::Pause => is_admin(s, sender),
        ExecuteMsgView::Resume => is_admin(s, sender),
        ExecuteMsgView::Withdraw { amount, recipient } => is_admin(s, sender),
        ExecuteMsgView::PlaceBet { round_id, direction } => place_bet_ok(
            s,
            now,
            sender,
            funds,
            round_id,
            direction,
        ),
        ExecuteMsgView::ClaimReward { round_id } => claim_ok(s, sender, round_id),
    }
}

/// The error a failing request returns.
pub open spec fn execute_err(
    s: StateView,
    now: int,
    sender: Seq<char>,
    funds: Seq<CoinView>,
    m: ExecuteMsgView,
) -> ContractError {
    match m {
        ExecuteMsgView::StartRound { price } => start_round_err(s, now, sender),
        ExecuteMsgView::LockRound { price } => lock_round_err(s, now, sender),
        ExecuteMsgView::EndRound { price } => end_round_err(s, now, sender, price),
        ExecuteMsgView::Pause => ContractError::Unauthorized,
        ExecuteMsgView::Resume => ContractError::Unauthorized,
        ExecuteMsgView::Withdraw { amount, recipient } => ContractError::Unauthorized,
        ExecuteMsgView::PlaceBet { round_id, direction } => place_bet_err(
            s,
            now,
            sender,
            funds,
            round_id,
        ),
        ExecuteMsgView::ClaimReward { round_id } => claim_err(s, sender, round_id),
    }
}

/// The state a successful request commits.
pub open spec fn execute_next(
    s: StateView,
    now: int,
    sender: Seq<char>,
    funds: Seq<CoinView>,
    m: ExecuteMsgView,
) -> StateView {
    match m {
        ExecuteMsgView::StartRound { price } => start_round_next(s, now, price),
        ExecuteMsgView::LockRound { price } => lock_round_next(s, price),
        ExecuteMsgView::EndRound { price } => end_round_next(s, price),
        ExecuteMsgView::Pause => pause_next(s, true),
        ExecuteMsgView::Resume => pause_next(s, false),
        ExecuteMsgView::Withdraw { amount, recipient } => s,
        ExecuteMsgView::PlaceBet { round_id, direction } => place_bet_next(
            s,
            round_id,
            sender,
            stake_of(funds),
            direction,
        ),
        ExecuteMsgView::ClaimReward { round_id } => claim_next(s, sender, round_id),
    }
}

/// The acknowledgment a successful request returns.
pub open spec fn execute_ack(
    s: StateView,
    sender: Seq<char>,
    funds: Seq<CoinView>,
    m: ExecuteMsgView,
) -> AckView {
    match m {
        ExecuteMsgView::StartRound { price } => AckView::RoundStarted {
            round_id: s.config.current_round_id,
        },
        ExecuteMsgView::LockRound { price } => AckView::RoundLocked {
            round_id: s.config.current_round_id,
        },
        ExecuteMsgView::EndRound { price } => AckView::RoundEnded {
            round_id: s.config.current_round_id,
        },
        ExecuteMsgView::Pause => AckView::Paused,
        ExecuteMsgView::Resume => AckView::Resumed,
        ExecuteMsgView::Withdraw { amount, recipient } => AckView::Withdrawn {
            amount: amount,
            recipient: recipient,
        },
        ExecuteMsgView::PlaceBet { round_id, direction } => AckView::BetPlaced {
            round_id: round_id,
            user: sender,
            amount: stake_of(funds),
            direction: direction,
        },
        ExecuteMsgView::ClaimReward { round_id } => AckView::RewardClaimed {
            round_id: round_id,
            user: sender,
            reward: claim_amount(bet_of(s.bets, round_id, sender), round_of(s, round_id)),
        },
    }
}

/// The fund transfers a successful request instructs.
pub open spec fn execute_transfers(
    s: StateView,
    sender: Seq<char>,
    m: ExecuteMsgView,
) -> Seq<TransferView> {
    match m {
        ExecuteMsgView::Withdraw { amount, recipient } => seq![
            TransferView { to_address: recipient, denom: spec_denom(), amount: amount },
        ],
        ExecuteMsgView::ClaimReward { round_id } => claim_transfers(s, sender, round_id),
        _ => Seq::empty(),
    }
}

/// Dispatches a state-changing request. The state either advances to exactly
/// `execute_next` (returning `execute_ack` and `execute_transfers`) or stays
/// untouched with the error `execute_err`.
pub fn execute(
    state: &mut State,
    now: u64,
    sender: &String,
    funds: &Vec<Coin>,
    msg: ExecuteMsg,
) -> (r: Result<Response, ContractError>)
    requires
        wf(old(state)@),
    ensures
        wf(final(state)@),
        match r {
            Ok(resp) => {
                &&& execute_ok(old(state)@, now as int, sender@, coins_view(funds@), msg@)
                &&& final(state)@ == execute_next(
                    old(state)@,
                    now as int,
                    sender@,
                    coins_view(funds@),
                    msg@,
                )
                &&& resp@.ack == execute_ack(old(state)@, sender@, coins_view(funds@), msg@)
                &&& resp@.transfers == execute_transfers(old(state)@, sender@, msg@)
            },
            Err(e) => {
                &&& *final(state) == *old(state)
                &&& !execute_ok(old(state)@, now as int, sender@, coins_view(funds@), msg@)
                &&& e == execute_err(old(state)@, now as int, sender@, coins_view(funds@), msg@)
            },
        },
{
    match msg {
        ExecuteMsg::StartRound { price } => {
            let r = execute_start_round(state, now, sender, price);
            proof {
                if let Ok(ref resp) = r {
                    assert(resp@.transfers =~= Seq::<TransferView>::empty());
                }
            }
            r
        },
        ExecuteMsg::LockRound { price } => {
            let r = execute_lock_round(state, now, sender, price);
            proof {
                if let Ok(ref resp) = r {
                    assert(resp@.transfers =~= Seq::<TransferView>::empty());
                }
            }
            r
        },
        ExecuteMsg::EndRound { price } => {
            let r = execute_end_round(state, now, sender, price);
            proof {
                if let Ok(ref resp) = r {
                    assert(resp@.transfers =~= Seq::<TransferView>::empty());
                }
            }
            r
        },
        ExecuteMsg::Pause {} => {
            let r = execute_pause(state, sender);
            proof {
                if let Ok(ref resp) = r {
                    assert(resp@.transfers =~= Seq::<TransferView>::empty());
                }
            }
            r
        },
        ExecuteMsg::Resume {} => {
            let r = execute_resume(state, sender);
            proof {
                if let Ok(ref resp) = r {
                    assert(resp@.transfers =~= Seq::<TransferView>::empty());
                }
            }
            r
        },
        ExecuteMsg::Withdraw { amount, recipient } => execute_withdraw(
            state,
            sender,
            amount,
            recipient,
        ),
        ExecuteMsg::PlaceBet { round_id, direction } => {
            let r = execute_place_bet(state, now, sender, funds, round_id, direction);
            proof {
                if let Ok(ref resp) = r {
                    assert(resp@.transfers =~= Seq::<TransferView>::empty());
                }
            }
            r
        },
        ExecuteMsg::ClaimReward { round_id } => execute_claim_reward(state, sender, round_id),
    }
}

/// The round counter never goes backwards, and it advances by exactly one
/// per successful `EndRound` and by nothing else (a failing call leaves the
/// state untouched altogether).
pub proof fn lemma_round_id_monotonic(
    s: StateView,
    now: int,
    sender: Seq<char>,
    funds: Seq<CoinView>,
    m: ExecuteMsgView,
)
    requires
        wf(s),
    ensures
        execute_next(s, now, sender, funds, m).config.current_round_id
            >= s.config.current_round_id,
        execute_next(s, now, sender, funds, m).config.current_round_id
            == s.config.current_round_id + (match m {
            ExecuteMsgView::EndRound { price } => 1int,
            _ => 0int,
        }),
{
}

/// A bet placed before the round's start time or at/after its lock time
/// always fails (and a failing call never mutates the pools): too early with
/// the round-not-started error, too late with the round-locked one.
pub proof fn lemma_bet_time_gated(
    s: StateView,
    now: int,
    sender: Seq<char>,
    funds: Seq<CoinView>,
    round_id: int,
    direction: Direction,
)
    requires
        wf(s),
        has_round(s, round_id),
        now < round_of(s, round_id).start_time || now >= round_of(s, round_id).lock_time,
    ensures
        !place_bet_ok(s, now, sender, funds, round_id, direction),
        !s.config.paused && now < round_of(s, round_id).start_time ==> place_bet_err(
            s,
            now,
            sender,
            funds,
            round_id,
        ) == ContractError::RoundNotStarted,
        !s.config.paused && now >= round_of(s, round_id).lock_time ==> place_bet_err(
            s,
            now,
            sender,
            funds,
            round_id,
        ) == ContractError::RoundLocked,
{
    assert(crate::state::round_wf(s.rounds[round_id - 1]));
}

/// `LockRound` before the round's lock time always fails.
pub proof fn lemma_lock_time_gated(s: StateView, now: int, sender: Seq<char>)
    requires
        has_round(s, s.config.current_round_id),
        now < round_of(s, s.config.current_round_id).lock_time,
    ensures
        !lock_round_ok(s, now, sender),
{
}

/// `EndRound` before the round's end time, or while its lock price is unset,
/// always fails.
pub proof fn lemma_end_time_gated(s: StateView, now: int, sender: Seq<char>, price: int)
    requires
        round_of(s, s.config.current_round_id).lock_price == 0 || now < round_of(
            s,
            s.config.current_round_id,
        ).end_time,
    ensures
        !end_round_ok(s, now, sender, price),
{
}

} // verus!
