//! Request and response messages, and their mathematical views.
//!
//! Wire encoding and decoding belong to the host; the library works on the
//! plain values below. Each exec type has a ghost view used by the contracts.

use vstd::prelude::*;

verus! {

/// The side a bet is on: `Up` wins when the price rose over the round,
/// `Down` wins when it fell.
#[derive(Debug, Clone, Copy, PartialEq, Eq, Structural)]
pub enum Direction {
    Up,
    Down,
}

/// One denomination of funds attached to a call.
#[derive(Debug, Clone, PartialEq, Eq)]
pub struct Coin {
    pub denom: String,
    pub amount: u128,
}

/// Ghost view of a [`Coin`].
pub ghost struct CoinView {
    pub denom: Seq<char>,
    pub amount: int,
}

impl View for Coin {
    type V = CoinView;

    open spec fn view(&self) -> CoinView {
        CoinView { denom: self.denom@, amount: self.amount as int }
    }
}

/// Establishes the configuration; the caller becomes the admin.
#[derive(Debug, Clone, PartialEq, Eq, Structural)]
pub struct InstantiateMsg {
    /// Treasury fee in basis points (out of 10 000).
    pub treasury_fee: u64,
}

/// A state-changing request.
#[derive(Debug, Clone, PartialEq, Eq)]
pub enum ExecuteMsg {
    PlaceBet { round_id: u64, direction: Direction },
    ClaimReward { round_id: u64 },
    StartRound { price: u128 },
    LockRound { price: u128 },
    EndRound { price: u128 },
    Pause {},
    Resume {},
    Withdraw { amount: u128, recipient: String },
}

/// Ghost view of an [`ExecuteMsg`].
pub ghost enum ExecuteMsgView {
    PlaceBet { round_id: int, direction: Direction },
    ClaimReward { round_id: int },
    StartRound { price: int },
    LockRound { price: int },
    EndRound { price: int },
    Pause,
    Resume,
    Withdraw { amount: int, recipient: Seq<char> },
}

impl View for ExecuteMsg {
    type V = ExecuteMsgView;

    open spec fn view(&self) -> ExecuteMsgView {
        match self {
            ExecuteMsg::PlaceBet { round_id, direction } => ExecuteMsgView::PlaceBet {
                round_id: *round_id as int,
                direction: *direction,
            },
            ExecuteMsg::ClaimReward { round_id } => ExecuteMsgView::ClaimReward {
                round_id: *round_id as int,
            },
            ExecuteMsg::StartRound { price } => ExecuteMsgView::StartRound {
                price: *price as int,
            },
            ExecuteMsg::LockRound { price } => ExecuteMsgView::LockRound { price: *price as int },
            ExecuteMsg::EndRound { price } => ExecuteMsgView::EndRound { price: *price as int },
            ExecuteMsg::Pause {} => ExecuteMsgView::Pause,
            ExecuteMsg::Resume {} => ExecuteMsgView::Resume,
            ExecuteMsg::Withdraw { amount, recipient } => ExecuteMsgView::Withdraw {
                amount: *amount as int,
                recipient: recipient@,
            },
        }
    }
}

/// A read-only request.
#[derive(Debug, Clone, PartialEq, Eq)]
pub enum QueryMsg {
    GetRoundDetails { round_id: u64 },
    GetAllRoundDetails {},
    GetUserPrediction { round_id: u64, user: String },
    GetAllUserPredictions {},
    IsPaused {},
    GetLeaderboard {},
    GetPool { round_id: u64 },
}

/// Ghost view of a [`QueryMsg`].
pub ghost enum QueryMsgView {
    GetRoundDetails { round_id: int },
    GetAllRoundDetails,
    GetUserPrediction { round_id: int, user: Seq<char> },
    GetAllUserPredictions,
    IsPaused,
    GetLeaderboard,
    GetPool { round_id: int },
}

impl View for QueryMsg {
    type V = QueryMsgView;

    open spec fn view(&self) -> QueryMsgView {
        match self {
            QueryMsg::GetRoundDetails { round_id } => QueryMsgView::GetRoundDetails {
                round_id: *round_id as int,
            },
            QueryMsg::GetAllRoundDetails {} => QueryMsgView::GetAllRoundDetails,
            QueryMsg::GetUserPrediction { round_id, user } => QueryMsgView::GetUserPrediction {
                round_id: *round_id as int,
                user: user@,
            },
            QueryMsg::GetAllUserPredictions {} => QueryMsgView::GetAllUserPredictions,
            QueryMsg::IsPaused {} => QueryMsgView::IsPaused,
            QueryMsg::GetLeaderboard {} => QueryMsgView::GetLeaderboard,
            QueryMsg::GetPool { round_id } => QueryMsgView::GetPool {
                round_id: *round_id as int,
            },
        }
    }
}

/// Round data as reported to queries.
#[derive(Debug, Clone, PartialEq, Eq)]
pub struct RoundResponse {
    pub id: u64,
    pub bull_pool: u128,
    pub bear_pool: u128,
    pub total_pool: u128,
    pub start_time: u64,
    pub lock_time: u64,
    pub end_time: u64,
    pub start_price: u128,
    pub lock_price: u128,
    pub end_price: u128,
    pub result: Option<Direction>,
    pub executed: bool,
    pub participants: Vec<String>,
}

/// A user's bet as reported to queries.
#[derive(Debug, Clone, PartialEq, Eq)]
pub struct BetResponse {
    pub amount: u128,
    pub direction: Direction,
}

/// Cumulative per-user statistics, accumulated by settlement and never reset.
#[derive(Debug, PartialEq, Eq)]
pub struct LeaderboardEntry {
    pub user: String,
    pub total_amount_played: u128,
    pub total_won: u64,
    pub total_lost: u64,
    pub total_up: u64,
    pub total_down: u64,
    pub amount_won: u128,
    pub amount_lost: u128,
}

impl Clone for LeaderboardEntry {
    fn clone(&self) -> (res: Self)
        ensures
            res == *self,
    {
        LeaderboardEntry {
            user: self.user.clone(),
            total_amount_played: self.total_amount_played,
            total_won: self.total_won,
            total_lost: self.total_lost,
            total_up: self.total_up,
            total_down: self.total_down,
            amount_won: self.amount_won,
            amount_lost: self.amount_lost,
        }
    }
}

/// Ghost view of a [`LeaderboardEntry`].
pub ghost struct LeaderboardEntryView {
    pub user: Seq<char>,
    pub total_amount_played: int,
    pub total_won: int,
    pub total_lost: int,
    pub total_up: int,
    pub total_down: int,
    pub amount_won: int,
    pub amount_lost: int,
}

impl View for LeaderboardEntry {
    type V = LeaderboardEntryView;

    open spec fn view(&self) -> LeaderboardEntryView {
        LeaderboardEntryView {
            user: self.user@,
            total_amount_played: self.total_amount_played as int,
            total_won: self.total_won as int,
            total_lost: self.total_lost as int,
            total_up: self.total_up as int,
            total_down: self.total_down as int,
            amount_won: self.amount_won as int,
            amount_lost: self.amount_lost as int,
        }
    }
}

/// An instruction for the host to move funds after the call commits.
#[derive(Debug, Clone, PartialEq, Eq)]
pub struct Transfer {
    pub to_address: String,
    pub denom: String,
    pub amount: u128,
}

/// Ghost view of a [`Transfer`].
pub ghost struct TransferView {
    pub to_address: Seq<char>,
    pub denom: Seq<char>,
    pub amount: int,
}

impl View for Transfer {
    type V = TransferView;

    open spec fn view(&self) -> TransferView {
        TransferView {
            to_address: self.to_address@,
            denom: self.denom@,
            amount: self.amount as int,
        }
    }
}

/// The acknowledgment of a successful call: the action performed and its
/// relevant attributes.
#[derive(Debug, Clone, PartialEq, Eq)]
pub enum Ack {
    Instantiated { admin: String, treasury_fee: u64 },
    RoundStarted { round_id: u64 },
    RoundLocked { round_id: u64 },
    RoundEnded { round_id: u64 },
    Paused {},
    Resumed {},
    Withdrawn { amount: u128, recipient: String },
    BetPlaced { round_id: u64, user: String, amount: u128, direction: Direction },
    RewardClaimed { round_id: u64, user: String, reward: u128 },
}

/// Ghost view of an [`Ack`].
pub ghost enum AckView {
    Instantiated { admin: Seq<char>, treasury_fee: int },
    RoundStarted { round_id: int },
    RoundLocked { round_id: int },
    RoundEnded { round_id: int },
    Paused,
    Resumed,
    Withdrawn { amount: int, recipient: Seq<char> },
    BetPlaced { round_id: int, user: Seq<char>, amount: int, direction: Direction },
    RewardClaimed { round_id: int, user: Seq<char>, reward: int },
}

impl View for Ack {
    type V = AckView;

    open spec fn view(&self) -> AckView {
        match self {
            Ack::Instantiated { admin, treasury_fee } => AckView::Instantiated {
                admin: admin@,
                treasury_fee: *treasury_fee as int,
            },
            Ack::RoundStarted { round_id } => AckView::RoundStarted {
                round_id: *round_id as int,
            },
            Ack::RoundLocked { round_id } => AckView::RoundLocked {
                round_id: *round_id as int,
            },
            Ack::RoundEnded { round_id } => AckView::RoundEnded { round_id: *round_id as int },
            Ack::Paused {} => AckView::Paused,
            Ack::Resumed {} => AckView::Resumed,
            Ack::Withdrawn { amount, recipient } => AckView::Withdrawn {
                amount: *amount as int,
                recipient: recipient@,
            },
            Ack::BetPlaced { round_id, user, amount, direction } => AckView::BetPlaced {
                round_id: *round_id as int,
                user: user@,
                amount: *amount as int,
                direction: *direction,
            },
            Ack::RewardClaimed { round_id, user, reward } => AckView::RewardClaimed {
                round_id: *round_id as int,
                user: user@,
                reward: *reward as int,
            },
        }
    }
}

/// What a successful state-changing call hands back: an acknowledgment plus
/// zero or more outbound fund transfers for the host to settle.
#[derive(Debug, Clone, PartialEq, Eq)]
pub struct Response {
    pub ack: Ack,
    pub transfers: Vec<Transfer>,
}

/// Ghost view of a [`Response`].
pub ghost struct ResponseView {
    pub ack: AckView,
    pub transfers: Seq<TransferView>,
}

impl View for Response {
    type V = ResponseView;

    open spec fn view(&self) -> ResponseView {
        ResponseView { ack: self.ack@, transfers: self.transfers@.map_values(|t: Transfer| t@) }
    }
}

} // verus!
