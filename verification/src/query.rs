//! Read-only queries. No query mutates the state.

use vstd::prelude::*;

use crate::error::ContractError;
use crate::msg::{
    BetResponse, Direction, LeaderboardEntry, LeaderboardEntryView, QueryMsg, QueryMsgView,
    RoundResponse,
};
use crate::state::{
    bet_of, has_bet, has_round, round_of, Round, RoundView, State, StateView,
};

verus! {

impl View for RoundResponse {
    type V = RoundView;

    open spec fn view(&self) -> RoundView {
        RoundView {
            id: self.id as int,
            bull_pool: self.bull_pool as int,
            bear_pool: self.bear_pool as int,
            total_pool: self.total_pool as int,
            start_time: self.start_time as int,
            lock_time: self.lock_time as int,
            end_time: self.end_time as int,
            start_price: self.start_price as int,
            lock_price: self.lock_price as int,
            end_price: self.end_price as int,
            result: self.result,
            executed: self.executed,
            participants: self.participants@.map_values(|p: String| p@),
        }
    }
}

/// Ghost view of a [`BetResponse`].
pub ghost struct BetResponseView {
    pub amount: int,
    pub direction: Direction,
}

impl View for BetResponse {
    type V = BetResponseView;

    open spec fn view(&self) -> BetResponseView {
        BetResponseView { amount: self.amount as int, direction: self.direction }
    }
}

/// What a query answers with.
#[derive(Debug, PartialEq, Eq)]
pub enum QueryAnswer {
    Round(RoundResponse),
    Rounds(Vec<RoundResponse>),
    Bet(BetResponse),
    Bets(Vec<BetResponse>),
    Paused(bool),
    Leaderboard(Vec<LeaderboardEntry>),
    Pool(u128),
}

/// Ghost view of a [`QueryAnswer`].
pub ghost enum QueryAnswerView {
    Round(RoundView),
    Rounds(Seq<RoundView>),
    Bet(BetResponseView),
    Bets(Seq<BetResponseView>),
    Paused(bool),
    Leaderboard(Seq<LeaderboardEntryView>),
    Pool(int),
}

impl View for QueryAnswer {
    type V = QueryAnswerView;

    open spec fn view(&self) -> QueryAnswerView {
        match self {
            QueryAnswer::Round(r) => QueryAnswerView::Round(r@),
            QueryAnswer::Rounds(rs) => QueryAnswerView::Rounds(
                rs@.map_values(|r: RoundResponse| r@),
            ),
            QueryAnswer::Bet(b) => QueryAnswerView::Bet(b@),
            QueryAnswer::Bets(bs) => QueryAnswerView::Bets(bs@.map_values(|b: BetResponse| b@)),
            QueryAnswer::Paused(p) => QueryAnswerView::Paused(*p),
            QueryAnswer::Leaderboard(lb) => QueryAnswerView::Leaderboard(
                lb@.map_values(|e: LeaderboardEntry| e@),
            ),
            QueryAnswer::Pool(p) => QueryAnswerView::Pool(*p as int),
        }
    }
}

/// The view a stored bet is reported under.
pub open spec fn bet_response_of(s: StateView, round_id: int, user: Seq<char>) -> BetResponseView {
    BetResponseView {
        amount: bet_of(s.bets, round_id, user).amount,
        direction: bet_of(s.bets, round_id, user).direction,
    }
}

/// When a query succeeds.
pub open spec fn query_ok(s: StateView, m: QueryMsgView) -> bool {
    match m {
        QueryMsgView::GetRoundDetails { round_id } => has_round(s, round_id),
        QueryMsgView::GetAllRoundDetails => true,
        QueryMsgView::GetUserPrediction { round_id, user } => has_bet(s.bets, round_id, user),
        QueryMsgView::GetAllUserPredictions => true,
        QueryMsgView::IsPaused => true,
        QueryMsgView::GetLeaderboard => true,
        QueryMsgView::GetPool { round_id } => has_round(s, round_id),
    }
}

/// The error a failing query returns.
pub open spec fn query_err(s: StateView, m: QueryMsgView) -> ContractError {
    match m {
        QueryMsgView::GetUserPrediction { round_id, user } => ContractError::BetNotFound,
        _ => ContractError::RoundNotFound,
    }
}

/// The answer a successful query returns: rounds in id order, bets in
/// ascending `(round_id, user)` key order and leaderboard entries in
/// ascending user order (the order [`crate::state::wf`] keeps the ledgers
/// in).
pub open spec fn query_answer(s: StateView, m: QueryMsgView) -> QueryAnswerView {
    match m {
        QueryMsgView::GetRoundDetails { round_id } => QueryAnswerView::Round(round_of(s, round_id)),
        QueryMsgView::GetAllRoundDetails => QueryAnswerView::Rounds(s.rounds),
        QueryMsgView::GetUserPrediction { round_id, user } => QueryAnswerView::Bet(
            bet_response_of(s, round_id, user),
        ),
        QueryMsgView::GetAllUserPredictions => QueryAnswerView::Bets(
            s.bets.map_values(
                |b: crate::state::BetEntryView| BetResponseView {
                    amount: b.bet.amount,
                    direction: b.bet.direction,
                },
            ),
        ),
        QueryMsgView::IsPaused => QueryAnswerView::Paused(s.config.paused),
        QueryMsgView::GetLeaderboard => QueryAnswerView::Leaderboard(s.leaderboard),
        QueryMsgView::GetPool { round_id } => QueryAnswerView::Pool(
            round_of(s, round_id).total_pool,
        ),
    }
}

/// Copies a round into its query form.
fn to_round_response(r: &Round) -> (res: RoundResponse)
    ensures
        res@ == r@,
{
    let c = r.clone();
    RoundResponse {
        id: c.id,
        bull_pool: c.bull_pool,
        bear_pool: c.bear_pool,
        total_pool: c.total_pool,
        start_time: c.start_time,
        lock_time: c.lock_time,
        end_time: c.end_time,
        start_price: c.start_price,
        lock_price: c.lock_price,
        end_price: c.end_price,
        result: c.result,
        executed: c.executed,
        participants: c.participants,
    }
}

/// The stored round under `round_id`, or `RoundNotFound`.
pub fn get_round_details(state: &State, round_id: u64) -> (r: Result<RoundResponse, ContractError>)
    ensures
        match r {
            Ok(resp) => has_round(state@, round_id as int) && resp@ == round_of(
                state@,
                round_id as int,
            ),
            Err(e) => !has_round(state@, round_id as int) && e == ContractError::RoundNotFound,
        },
{
    match state.get_round(round_id) {
        Some(round) => Ok(to_round_response(round)),
        None => Err(ContractError::RoundNotFound),
    }
}

/// Every stored round, in id order.
pub fn get_all_round_details(state: &State) -> (r: Vec<RoundResponse>)
    ensures
        r@.map_values(|x: RoundResponse| x@) == state@.rounds,
{
    let mut out: Vec<RoundResponse> = Vec::new();
    let mut i: usize = 0;
    while i < state.rounds.len()
        invariant
            i <= state.rounds.len(),
            out@.len() == i as int,
            forall|j: int|
                0 <= j < i as int ==> out@.map_values(|x: RoundResponse| x@)[j]
                    == state@.rounds[j],
        decreases state.rounds.len() - i,
    {
        out.push(to_round_response(&state.rounds[i]));
        i = i + 1;
    }
    proof {
        assert(out@.map_values(|x: RoundResponse| x@) =~= state@.rounds);
    }
    out
}

/// The bet stored under `(round_id, user)`, or `BetNotFound`.
pub fn get_user_prediction(state: &State, round_id: u64, user: &String) -> (r: Result<
    BetResponse,
    ContractError,
>)
    requires
        crate::state::wf(state@),
    ensures
        match r {
            Ok(resp) => has_bet(state@.bets, round_id as int, user@) && resp@ == bet_response_of(
                state@,
                round_id as int,
                user@,
            ),
            Err(e) => !has_bet(state@.bets, round_id as int, user@) && e
                == ContractError::BetNotFound,
        },
{
    match state.find_bet(round_id, user) {
        Some(i) => {
            proof {
                crate::state::lemma_bet_idx_unique(state@, i as int, round_id as int, user@);
            }
            let bet = state.bets[i].bet;
            Ok(BetResponse { amount: bet.amount, direction: bet.direction })
        },
        None => Err(ContractError::BetNotFound),
    }
}

/// Every stored bet. The ledger is kept in strictly ascending
/// `(round_id, user)` key order (see [`crate::state::wf`]), so that is the
/// order of the reply.
pub fn get_all_user_prediction(state: &State) -> (r: Vec<BetResponse>)
    ensures
        r@.map_values(|b: BetResponse| b@) == state@.bets.map_values(
            |b: crate::state::BetEntryView| BetResponseView {
                amount: b.bet.amount,
                direction: b.bet.direction,
            },
        ),
{
    let mut out: Vec<BetResponse> = Vec::new();
    let mut i: usize = 0;
    while i < state.bets.len()
        invariant
            i <= state.bets.len(),
            out@.len() == i as int,
            forall|j: int|
                0 <= j < i as int ==> out@.map_values(|b: BetResponse| b@)[j]
                    == (BetResponseView {
                    amount: state@.bets[j].bet.amount,
                    direction: state@.bets[j].bet.direction,
                }),
        decreases state.bets.len() - i,
    {
        let bet = state.bets[i].bet;
        out.push(BetResponse { amount: bet.amount, direction: bet.direction });
        i = i + 1;
    }
    proof {
        assert(out@.map_values(|b: BetResponse| b@) =~= state@.bets.map_values(
            |b: crate::state::BetEntryView| BetResponseView {
                amount: b.bet.amount,
                direction: b.bet.direction,
            },
        ));
    }
    out
}

/// The total pool of the round under `round_id`, or `RoundNotFound`.
pub fn get_pool(state: &State, round_id: u64) -> (r: Result<u128, ContractError>)
    ensures
        match r {
            Ok(pool) => has_round(state@, round_id as int) && pool as int == round_of(
                state@,
                round_id as int,
            ).total_pool,
            Err(e) => !has_round(state@, round_id as int) && e == ContractError::RoundNotFound,
        },
{
    match state.get_round(round_id) {
        Some(round) => Ok(round.total_pool),
        None => Err(ContractError::RoundNotFound),
    }
}

/// Every leaderboard entry. The leaderboard is kept in strictly ascending
/// user order (see [`crate::state::wf`]), so that is the order of the reply.
pub fn get_leaderboard(state: &State) -> (r: Vec<LeaderboardEntry>)
    ensures
        r@.map_values(|e: LeaderboardEntry| e@) == state@.leaderboard,
{
    let mut out: Vec<LeaderboardEntry> = Vec::new();
    let mut i: usize = 0;
    while i < state.leaderboard.len()
        invariant
            i <= state.leaderboard.len(),
            out@.len() == i as int,
            forall|j: int|
                0 <= j < i as int ==> out@.map_values(|e: LeaderboardEntry| e@)[j]
                    == state@.leaderboard[j],
        decreases state.leaderboard.len() - i,
    {
        out.push(state.leaderboard[i].clone());
        i = i + 1;
    }
    proof {
        assert(out@.map_values(|e: LeaderboardEntry| e@) =~= state@.leaderboard);
    }
    out
}

/// Dispatches a read-only query; answers exactly [`query_answer`] and never
/// touches the state.
pub fn query(state: &State, msg: QueryMsg) -> (r: Result<QueryAnswer, ContractError>)
    requires
        crate::state::wf(state@),
    ensures
        match r {
            Ok(a) => query_ok(state@, msg@) && a@ == query_answer(state@, msg@),
            Err(e) => !query_ok(state@, msg@) && e == query_err(state@, msg@),
        },
{
    match msg {
        QueryMsg::GetRoundDetails { round_id } => {
            match get_round_details(state, round_id) {
                Ok(resp) => Ok(QueryAnswer::Round(resp)),
                Err(e) => Err(e),
            }
        },
        QueryMsg::GetAllRoundDetails {} => Ok(QueryAnswer::Rounds(get_all_round_details(state))),
        QueryMsg::GetUserPrediction { round_id, user } => {
            match get_user_prediction(state, round_id, &user) {
                Ok(resp) => Ok(QueryAnswer::Bet(resp)),
                Err(e) => Err(e),
            }
        },
        QueryMsg::GetAllUserPredictions {} => Ok(
            QueryAnswer::Bets(get_all_user_prediction(state)),
        ),
        QueryMsg::IsPaused {} => Ok(QueryAnswer::Paused(state.config.paused)),
        QueryMsg::GetLeaderboard {} => Ok(QueryAnswer::Leaderboard(get_leaderboard(state))),
        QueryMsg::GetPool { round_id } => {
            match get_pool(state, round_id) {
                Ok(pool) => Ok(QueryAnswer::Pool(pool)),
                Err(e) => Err(e),
            }
        },
    }
}

} // verus!
