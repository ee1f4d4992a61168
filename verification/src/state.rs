//! The contract state and its well-formedness invariant.
//!
//! The host keeps one [`State`] value per contract instance and feeds it to
//! every call; a call either returns a new state (committed atomically by the
//! host) or an error, in which case the state is untouched.

use vstd::prelude::*;

use crate::msg::{Direction, LeaderboardEntry, LeaderboardEntryView};

verus! {

broadcast use vstd::std_specs::vec::vec_clone_deep_view_proof;

/// Singleton configuration.
#[derive(Debug, PartialEq, Eq)]
pub struct Config {
    /// The single administrator; only this identity may run admin operations.
    pub admin: String,
    /// While set, new bets are rejected.
    pub paused: bool,
    /// Treasury fee in basis points (out of 10 000), taken from each reward.
    pub treasury_fee: u64,
    /// Id of the round currently accepting its life-cycle; advanced by 1 when
    /// a round ends.
    pub current_round_id: u64,
}

/// Ghost view of a [`Config`].
pub ghost struct ConfigView {
    pub admin: Seq<char>,
    pub paused: bool,
    pub treasury_fee: int,
    pub current_round_id: int,
}

impl View for Config {
    type V = ConfigView;

    open spec fn view(&self) -> ConfigView {
        ConfigView {
            admin: self.admin@,
            paused: self.paused,
            treasury_fee: self.treasury_fee as int,
            current_round_id: self.current_round_id as int,
        }
    }
}

impl Clone for Config {
    fn clone(&self) -> (res: Self)
        ensures
            res == *self,
    {
        Config {
            admin: self.admin.clone(),
            paused: self.paused,
            treasury_fee: self.treasury_fee,
            current_round_id: self.current_round_id,
        }
    }
}

/// Clones a list of identities, keeping its view.
pub fn clone_strings(v: &Vec<String>) -> (res: Vec<String>)
    ensures
        res@.map_values(|p: String| p@) == v@.map_values(|p: String| p@),
{
    let res = v.clone();
    proof {
        assert(res.deep_view() == v.deep_view());
        assert forall|i: int| 0 <= i < res@.len() implies #[trigger] res@[i]@ == v@[i]@ by {
            assert(res.deep_view()[i] == v.deep_view()[i]);
        }
        assert(res@.map_values(|p: String| p@) =~= v@.map_values(|p: String| p@));
    }
    res
}

/// One betting epoch. A zero price field means "unset".
#[derive(Debug, PartialEq, Eq)]
pub struct Round {
    pub id: u64,
    pub bull_pool: u128,
    pub bear_pool: u128,
    pub total_pool: u128,
    pub start_time: u64,
    pub lock_time: u64,
    pub end_time: u64,
    pub start_price: u128,
    pub lock_price: u128,
    pub end_price: u128,
    pub result: Option<Direction>,
    pub executed: bool,
    pub participants: Vec<String>,
}

/// Ghost view of a [`Round`].
pub ghost struct RoundView {
    pub id: int,
    pub bull_pool: int,
    pub bear_pool: int,
    pub total_pool: int,
    pub start_time: int,
    pub lock_time: int,
    pub end_time: int,
    pub start_price: int,
    pub lock_price: int,
    pub end_price: int,
    pub result: Option<Direction>,
    pub executed: bool,
    pub participants: Seq<Seq<char>>,
}

impl View for Round {
    type V = RoundView;

    open spec fn view(&self) -> RoundView {
        RoundView {
            id: self.id as int,
            bull_pool: self.bull_pool as int,
            bear_pool: self.bear_pool as int,
            total_pool: self.total_pool as int,
            start_time: self.start_time as int,
            lock_time: self.lock_time as int,
            end_time: self.end_time as int,
            start_price: self.start_price as int,
            lock_price: self.lock_price as int,
            end_price: self.end_price as int,
            result: self.result,
            executed: self.executed,
            participants: self.participants@.map_values(|p: String| p@),
        }
    }
}

impl Clone for Round {
    fn clone(&self) -> (res: Self)
        ensures
            res@ == self@,
    {
        Round {
            id: self.id,
            bull_pool: self.bull_pool,
            bear_pool: self.bear_pool,
            total_pool: self.total_pool,
            start_time: self.start_time,
            lock_time: self.lock_time,
            end_time: self.end_time,
            start_price: self.start_price,
            lock_price: self.lock_price,
            end_price: self.end_price,
            result: self.result,
            executed: self.executed,
            participants: clone_strings(&self.participants),
        }
    }
}

/// A user's stake in one round; immutable once placed, except for the
/// `claimed` marker set by the first successful reward claim.
#[derive(Debug, Clone, Copy, PartialEq, Eq)]
pub struct Bet {
    pub amount: u128,
    pub direction: Direction,
    pub claimed: bool,
}

/// Ghost view of a [`Bet`].
pub ghost struct BetView {
    pub amount: int,
    pub direction: Direction,
    pub claimed: bool,
}

impl View for Bet {
    type V = BetView;

    open spec fn view(&self) -> BetView {
        BetView { amount: self.amount as int, direction: self.direction, claimed: self.claimed }
    }
}

/// One row of the bet ledger: the key `(round_id, user)` and the bet.
#[derive(Debug, PartialEq, Eq)]
pub struct BetEntry {
    pub round_id: u64,
    pub user: String,
    pub bet: Bet,
}

/// Ghost view of a [`BetEntry`].
pub ghost struct BetEntryView {
    pub round_id: int,
    pub user: Seq<char>,
    pub bet: BetView,
}

impl View for BetEntry {
    type V = BetEntryView;

    open spec fn view(&self) -> BetEntryView {
        BetEntryView { round_id: self.round_id as int, user: self.user@, bet: self.bet@ }
    }
}

impl Clone for BetEntry {
    fn clone(&self) -> (res: Self)
        ensures
            res == *self,
    {
        BetEntry { round_id: self.round_id, user: self.user.clone(), bet: self.bet }
    }
}

/// The whole contract state: the configuration, every round ever opened
/// (ordered by id, never deleted), the bet ledger and the leaderboard.
#[derive(Debug, PartialEq, Eq)]
pub struct State {
    pub config: Config,
    pub rounds: Vec<Round>,
    pub bets: Vec<BetEntry>,
    pub leaderboard: Vec<LeaderboardEntry>,
}

/// Ghost view of a [`State`].
pub ghost struct StateView {
    pub config: ConfigView,
    pub rounds: Seq<RoundView>,
    pub bets: Seq<BetEntryView>,
    pub leaderboard: Seq<LeaderboardEntryView>,
}

impl View for State {
    type V = StateView;

    open spec fn view(&self) -> StateView {
        StateView {
            config: self.config@,
            rounds: self.rounds@.map_values(|r: Round| r@),
            bets: self.bets@.map_values(|b: BetEntry| b@),
            leaderboard: self.leaderboard@.map_values(|e: LeaderboardEntry| e@),
        }
    }
}

/// A round exists exactly for the ids `1 ..= rounds.len()`.
pub open spec fn has_round(s: StateView, round_id: int) -> bool {
    1 <= round_id <= s.rounds.len()
}

/// The round stored under `round_id` (meaningful under [`has_round`]).
pub open spec fn round_of(s: StateView, round_id: int) -> RoundView {
    s.rounds[round_id - 1]
}

/// Row `i` of the ledger carries the key `(round_id, user)`.
pub open spec fn bet_key_at(
    bets: Seq<BetEntryView>,
    i: int,
    round_id: int,
    user: Seq<char>,
) -> bool {
    bets[i].round_id == round_id && bets[i].user == user
}

/// Some row of the ledger carries the key `(round_id, user)`.
pub open spec fn has_bet(bets: Seq<BetEntryView>, round_id: int, user: Seq<char>) -> bool {
    exists|i: int| 0 <= i < bets.len() && #[trigger] bet_key_at(bets, i, round_id, user)
}

/// The index of the ledger row keyed `(round_id, user)` (meaningful under
/// [`has_bet`]; unique under [`wf`]).
pub open spec fn bet_idx(bets: Seq<BetEntryView>, round_id: int, user: Seq<char>) -> int {
    choose|i: int| 0 <= i < bets.len() && #[trigger] bet_key_at(bets, i, round_id, user)
}

/// The bet stored under `(round_id, user)`.
pub open spec fn bet_of(bets: Seq<BetEntryView>, round_id: int, user: Seq<char>) -> BetView {
    bets[bet_idx(bets, round_id, user)].bet
}

/// The index at which a row keyed `(round_id, user)` keeps the ledger in key
/// order: the first row with a larger key, or the ledger's end.
pub open spec fn bet_insert_pos(bets: Seq<BetEntryView>, round_id: int, user: Seq<char>) -> int
    decreases bets.len(),
{
    if bets.len() == 0 {
        0
    } else if bet_key_lt(round_id, user, bets[0].round_id, bets[0].user) {
        0
    } else {
        1 + bet_insert_pos(bets.drop_first(), round_id, user)
    }
}

/// [`bet_insert_pos`] is in range, every earlier row's key is not larger,
/// and the row at the position (if any) has a larger key.
pub proof fn lemma_bet_insert_pos_bounds(bets: Seq<BetEntryView>, round_id: int, user: Seq<char>)
    ensures
        0 <= bet_insert_pos(bets, round_id, user) <= bets.len(),
        forall|k: int|
            0 <= k < bet_insert_pos(bets, round_id, user) ==> !bet_key_lt(
                round_id,
                user,
                (#[trigger] bets[k]).round_id,
                bets[k].user,
            ),
        bet_insert_pos(bets, round_id, user) < bets.len() ==> bet_key_lt(
            round_id,
            user,
            bets[bet_insert_pos(bets, round_id, user)].round_id,
            bets[bet_insert_pos(bets, round_id, user)].user,
        ),
    decreases bets.len(),
{
    if bets.len() == 0 {
    } else if bet_key_lt(round_id, user, bets[0].round_id, bets[0].user) {
    } else {
        lemma_bet_insert_pos_bounds(bets.drop_first(), round_id, user);
        assert forall|k: int|
            0 <= k < bet_insert_pos(bets, round_id, user) implies !bet_key_lt(
            round_id,
            user,
            (#[trigger] bets[k]).round_id,
            bets[k].user,
        ) by {
            if k > 0 {
                assert(bets[k] == bets.drop_first()[k - 1]);
            }
        }
    }
}

/// The index at which an entry for `user` keeps the leaderboard in user
/// order: the first entry of a larger user, or the leaderboard's end.
pub open spec fn entry_insert_pos(lb: Seq<LeaderboardEntryView>, user: Seq<char>) -> int
    decreases lb.len(),
{
    if lb.len() == 0 {
        0
    } else if lex_lt(user, lb[0].user) {
        0
    } else {
        1 + entry_insert_pos(lb.drop_first(), user)
    }
}

/// [`entry_insert_pos`] is in range, every earlier user is not larger, and
/// the user at the position (if any) is larger.
pub proof fn lemma_entry_insert_pos_bounds(lb: Seq<LeaderboardEntryView>, user: Seq<char>)
    ensures
        0 <= entry_insert_pos(lb, user) <= lb.len(),
        forall|k: int|
            0 <= k < entry_insert_pos(lb, user) ==> !lex_lt(user, (#[trigger] lb[k]).user),
        entry_insert_pos(lb, user) < lb.len() ==> lex_lt(
            user,
            lb[entry_insert_pos(lb, user)].user,
        ),
    decreases lb.len(),
{
    if lb.len() == 0 {
    } else if lex_lt(user, lb[0].user) {
    } else {
        lemma_entry_insert_pos_bounds(lb.drop_first(), user);
        assert forall|k: int|
            0 <= k < entry_insert_pos(lb, user) implies !lex_lt(
            user,
            (#[trigger] lb[k]).user,
        ) by {
            if k > 0 {
                assert(lb[k] == lb.drop_first()[k - 1]);
            }
        }
    }
}

/// Strict lexicographic order on identities, by code point: the order the
/// host's byte-encoded keys sort in.
pub open spec fn lex_lt(a: Seq<char>, b: Seq<char>) -> bool
    decreases a.len(),
{
    if b.len() == 0 {
        false
    } else if a.len() == 0 {
        true
    } else if a[0] != b[0] {
        (a[0] as u32) < (b[0] as u32)
    } else {
        lex_lt(a.drop_first(), b.drop_first())
    }
}

/// [`lex_lt`] is a strict total order: exactly one of `a == b`,
/// `lex_lt(a, b)`, `lex_lt(b, a)` holds.
pub proof fn lemma_lex_trichotomy(a: Seq<char>, b: Seq<char>)
    ensures
        a == b || lex_lt(a, b) || lex_lt(b, a),
        lex_lt(a, b) ==> a != b && !lex_lt(b, a),
    decreases a.len(),
{
    if b.len() == 0 {
        if a.len() == 0 {
            assert(a =~= b);
        }
    } else if a.len() == 0 {
        assert(lex_lt(a, b));
    } else if a[0] != b[0] {
        lemma_char_code_points_distinct(a[0], b[0]);
        assert(a != b);
    } else {
        lemma_lex_trichotomy(a.drop_first(), b.drop_first());
        if a.drop_first() == b.drop_first() {
            assert(a.len() == b.len());
            assert forall|k: int| 0 <= k < a.len() implies a[k] == b[k] by {
                if k > 0 {
                    assert(a[k] == a.drop_first()[k - 1]);
                    assert(b[k] == b.drop_first()[k - 1]);
                }
            }
            assert(a =~= b);
        }
        if a == b {
            assert(a.drop_first() =~= b.drop_first());
        }
    }
}

/// [`lex_lt`] is transitive.
pub proof fn lemma_lex_transitive(a: Seq<char>, b: Seq<char>, c: Seq<char>)
    requires
        lex_lt(a, b),
        lex_lt(b, c),
    ensures
        lex_lt(a, c),
    decreases a.len(),
{
    if a.len() == 0 {
    } else {
        if a[0] == b[0] && b[0] == c[0] {
            lemma_lex_transitive(a.drop_first(), b.drop_first(), c.drop_first());
        }
    }
}

/// The ledger's key order: ascending round id, then ascending user.
pub open spec fn bet_key_lt(rid1: int, user1: Seq<char>, rid2: int, user2: Seq<char>) -> bool {
    rid1 < rid2 || (rid1 == rid2 && lex_lt(user1, user2))
}

/// [`bet_key_lt`] is a strict total order on keys.
pub proof fn lemma_bet_key_trichotomy(rid1: int, user1: Seq<char>, rid2: int, user2: Seq<char>)
    ensures
        (rid1 == rid2 && user1 == user2) || bet_key_lt(rid1, user1, rid2, user2) || bet_key_lt(
            rid2,
            user2,
            rid1,
            user1,
        ),
        bet_key_lt(rid1, user1, rid2, user2) ==> !(rid1 == rid2 && user1 == user2)
            && !bet_key_lt(rid2, user2, rid1, user1),
{
    lemma_lex_trichotomy(user1, user2);
}

/// [`bet_key_lt`] is transitive.
pub proof fn lemma_bet_key_transitive(
    rid1: int,
    user1: Seq<char>,
    rid2: int,
    user2: Seq<char>,
    rid3: int,
    user3: Seq<char>,
)
    requires
        bet_key_lt(rid1, user1, rid2, user2),
        bet_key_lt(rid2, user2, rid3, user3),
    ensures
        bet_key_lt(rid1, user1, rid3, user3),
{
    if rid1 == rid2 && rid2 == rid3 {
        lemma_lex_transitive(user1, user2, user3);
    }
}

/// Strict lexicographic comparison of two identities.
pub fn string_lt(a: &String, b: &String) -> (r: bool)
    ensures
        r == lex_lt(a@, b@),
{
    let a_str = a.as_str();
    let b_str = b.as_str();
    let a_len = a_str.unicode_len();
    let b_len = b_str.unicode_len();
    proof {
        assert(a@.skip(0) =~= a@);
        assert(b@.skip(0) =~= b@);
    }
    let mut i: usize = 0;
    while i < a_len && i < b_len
        invariant
            i <= a_len,
            i <= b_len,
            a_len == a@.len(),
            b_len == b@.len(),
            a_str@ == a@,
            b_str@ == b@,
            lex_lt(a@, b@) == lex_lt(a@.skip(i as int), b@.skip(i as int)),
        decreases a_len - i,
    {
        let ca = a_str.get_char(i);
        let cb = b_str.get_char(i);
        proof {
            assert(a@.skip(i as int)[0] == a@[i as int]);
            assert(b@.skip(i as int)[0] == b@[i as int]);
        }
        if ca != cb {
            return (ca as u32) < (cb as u32);
        }
        proof {
            assert(a@.skip(i as int).drop_first() =~= a@.skip(i as int + 1));
            assert(b@.skip(i as int).drop_first() =~= b@.skip(i as int + 1));
        }
        i = i + 1;
    }
    proof {
        if i == b_len {
            assert(b@.skip(i as int) =~= Seq::<char>::empty());
        } else {
            assert(a@.skip(i as int) =~= Seq::<char>::empty());
            assert(b@.skip(i as int).len() > 0);
        }
    }
    i < b_len
}

/// Distinct characters have distinct code points.
proof fn lemma_char_code_points_distinct(c: char, d: char)
    requires
        c != d,
    ensures
        c as u32 != d as u32,
{
}

/// Some leaderboard entry belongs to `user`.
pub open spec fn has_entry(lb: Seq<LeaderboardEntryView>, user: Seq<char>) -> bool {
    exists|i: int| 0 <= i < lb.len() && (#[trigger] lb[i]).user == user
}

/// The index of `user`'s leaderboard entry (meaningful under [`has_entry`];
/// unique under [`wf`]).
pub open spec fn entry_idx(lb: Seq<LeaderboardEntryView>, user: Seq<char>) -> int {
    choose|i: int| 0 <= i < lb.len() && (#[trigger] lb[i]).user == user
}

/// Field bounds of a configuration; the fee never exceeds 100%.
pub open spec fn config_wf(c: ConfigView) -> bool {
    &&& 0 <= c.treasury_fee <= 10000
    &&& 1 <= c.current_round_id <= u64::MAX
}

/// Field bounds of a round, the pool-sum invariant, the ordering of its
/// three times and participant uniqueness.
pub open spec fn round_wf(r: RoundView) -> bool {
    &&& 1 <= r.id <= u64::MAX
    &&& 0 <= r.bull_pool
    &&& 0 <= r.bear_pool
    &&& r.total_pool == r.bull_pool + r.bear_pool
    &&& r.total_pool <= u128::MAX
    &&& 0 <= r.start_time <= u64::MAX
    &&& 0 <= r.lock_time <= u64::MAX
    &&& 0 <= r.end_time <= u64::MAX
    &&& r.start_time <= r.lock_time <= r.end_time
    &&& 0 <= r.start_price <= u128::MAX
    &&& 0 <= r.lock_price <= u128::MAX
    &&& 0 <= r.end_price <= u128::MAX
    &&& forall|i: int, j: int|
        0 <= i < j < r.participants.len() ==> r.participants[i] != r.participants[j]
}

/// A ledger row is keyed to an existing round, stakes a positive amount no
/// larger than its side's pool, and its user appears among the round's
/// participants.
pub open spec fn bet_entry_wf(s: StateView, b: BetEntryView) -> bool {
    &&& has_round(s, b.round_id)
    &&& 0 < b.bet.amount
    &&& b.bet.amount <= pool_of(round_of(s, b.round_id), b.bet.direction)
    &&& round_of(s, b.round_id).participants.contains(b.user)
}

/// The pool on the given side of a round.
pub open spec fn pool_of(r: RoundView, direction: Direction) -> int {
    match direction {
        Direction::Up => r.bull_pool,
        Direction::Down => r.bear_pool,
    }
}

/// Field bounds of a leaderboard entry.
pub open spec fn entry_wf(e: LeaderboardEntryView) -> bool {
    &&& 0 <= e.total_amount_played <= u128::MAX
    &&& 0 <= e.total_won <= u64::MAX
    &&& 0 <= e.total_lost <= u64::MAX
    &&& 0 <= e.total_up <= u64::MAX
    &&& 0 <= e.total_down <= u64::MAX
    &&& 0 <= e.amount_won <= u128::MAX
    &&& 0 <= e.amount_lost <= u128::MAX
}

/// Well-formedness of the whole state. Established by `instantiate`,
/// preserved by every operation:
/// - rounds are stored in id order, ids are `1 ..= rounds.len()`, and only
///   the round `current_round_id` may still be missing;
/// - every stored round satisfies `total_pool == bull_pool + bear_pool`;
/// - at most one bet exists per `(round_id, user)`, and the ledger is kept
///   in strictly ascending `(round_id, user)` key order;
/// - every bet targets an existing round, stakes a positive amount bounded by
///   its side's pool, and its user is a participant of that round with a
///   leaderboard entry;
/// - every participant of a round holds a bet in it;
/// - leaderboard entries are unique per user and kept in strictly ascending
///   user order.
pub open spec fn wf(s: StateView) -> bool {
    &&& config_wf(s.config)
    &&& s.config.current_round_id - 1 <= s.rounds.len() <= s.config.current_round_id
    &&& forall|i: int|
        0 <= i < s.rounds.len() ==> round_wf(#[trigger] s.rounds[i]) && s.rounds[i].id == i + 1
    &&& forall|i: int| 0 <= i < s.bets.len() ==> bet_entry_wf(s, #[trigger] s.bets[i])
    &&& forall|i: int|
        0 <= i < s.bets.len() ==> has_entry(s.leaderboard, (#[trigger] s.bets[i]).user)
    &&& forall|i: int, j: int|
        0 <= i < j < s.bets.len() ==> !(s.bets[i].round_id == s.bets[j].round_id
            && s.bets[i].user == s.bets[j].user)
    &&& forall|i: int, j: int|
        0 <= i < j < s.bets.len() ==> bet_key_lt(
            s.bets[i].round_id,
            s.bets[i].user,
            s.bets[j].round_id,
            s.bets[j].user,
        )
    &&& forall|r: int, p: int|
        0 <= r < s.rounds.len() && 0 <= p < s.rounds[r].participants.len() ==> has_bet(
            s.bets,
            r + 1,
            #[trigger] s.rounds[r].participants[p],
        )
    &&& forall|i: int| 0 <= i < s.leaderboard.len() ==> entry_wf(#[trigger] s.leaderboard[i])
    &&& forall|i: int, j: int|
        0 <= i < j < s.leaderboard.len() ==> s.leaderboard[i].user != s.leaderboard[j].user
    &&& forall|i: int, j: int|
        0 <= i < j < s.leaderboard.len() ==> lex_lt(s.leaderboard[i].user, s.leaderboard[j].user)
}

impl State {
    /// Looks a round up by id.
    pub fn get_round(&self, round_id: u64) -> (r: Option<&Round>)
        ensures
            match r {
                Some(round) => has_round(self@, round_id as int) && round@ == round_of(
                    self@,
                    round_id as int,
                ),
                None => !has_round(self@, round_id as int),
            },
    {
        if 1 <= round_id && round_id <= self.rounds.len() as u64 {
            let round = &self.rounds[(round_id - 1) as usize];
            assert(round@ == round_of(self@, round_id as int));
            Some(round)
        } else {
            None
        }
    }

    /// Finds the ledger row keyed `(round_id, user)`, if any.
    pub fn find_bet(&self, round_id: u64, user: &String) -> (r: Option<usize>)
        ensures
            match r {
                Some(i) => i < self.bets.len() && bet_key_at(
                    self@.bets,
                    i as int,
                    round_id as int,
                    user@,
                ) && has_bet(self@.bets, round_id as int, user@),
                None => !has_bet(self@.bets, round_id as int, user@),
            },
    {
        let mut i: usize = 0;
        while i < self.bets.len()
            invariant
                i <= self.bets.len(),
                forall|k: int| 0 <= k < i ==> !bet_key_at(self@.bets, k, round_id as int, user@),
            decreases self.bets.len() - i,
        {
            if self.bets[i].round_id == round_id && self.bets[i].user == *user {
                assert(bet_key_at(self@.bets, i as int, round_id as int, user@));
                return Some(i);
            }
            i = i + 1;
        }
        None
    }

    /// Finds `user`'s leaderboard entry, if any.
    pub fn find_entry(&self, user: &String) -> (r: Option<usize>)
        ensures
            match r {
                Some(i) => i < self.leaderboard.len() && self@.leaderboard[i as int].user == user@
                    && has_entry(self@.leaderboard, user@),
                None => !has_entry(self@.leaderboard, user@),
            },
    {
        let mut i: usize = 0;
        while i < self.leaderboard.len()
            invariant
                i <= self.leaderboard.len(),
                forall|k: int| 0 <= k < i ==> self@.leaderboard[k].user != user@,
            decreases self.leaderboard.len() - i,
        {
            if self.leaderboard[i].user == *user {
                assert(self@.leaderboard[i as int].user == user@);
                return Some(i);
            }
            i = i + 1;
        }
        None
    }

    /// Finds where a row keyed `(round_id, user)` belongs in the ledger.
    pub fn find_bet_insert_pos(&self, round_id: u64, user: &String) -> (r: usize)
        ensures
            r as int == bet_insert_pos(self@.bets, round_id as int, user@),
    {
        let ghost bv = self@.bets;
        proof {
            assert(bv.skip(0) =~= bv);
        }
        let mut i: usize = 0;
        while i < self.bets.len()
            invariant
                i <= self.bets.len(),
                bv == self@.bets,
                bv.len() == self.bets.len(),
                bet_insert_pos(bv, round_id as int, user@) == i + bet_insert_pos(
                    bv.skip(i as int),
                    round_id as int,
                    user@,
                ),
            decreases self.bets.len() - i,
        {
            proof {
                assert(bv.skip(i as int)[0] == bv[i as int]);
            }
            let larger: bool = if round_id < self.bets[i].round_id {
                true
            } else if round_id == self.bets[i].round_id {
                string_lt(user, &self.bets[i].user)
            } else {
                false
            };
            if larger {
                return i;
            }
            proof {
                assert(bv.skip(i as int).drop_first() =~= bv.skip(i as int + 1));
            }
            i = i + 1;
        }
        proof {
            assert(bv.skip(self.bets.len() as int) =~= Seq::<BetEntryView>::empty());
        }
        self.bets.len()
    }

    /// Finds where an entry for `user` belongs in the leaderboard.
    pub fn find_entry_insert_pos(&self, user: &String) -> (r: usize)
        ensures
            r as int == entry_insert_pos(self@.leaderboard, user@),
    {
        let ghost lbv = self@.leaderboard;
        proof {
            assert(lbv.skip(0) =~= lbv);
        }
        let mut i: usize = 0;
        while i < self.leaderboard.len()
            invariant
                i <= self.leaderboard.len(),
                lbv == self@.leaderboard,
                lbv.len() == self.leaderboard.len(),
                entry_insert_pos(lbv, user@) == i + entry_insert_pos(lbv.skip(i as int), user@),
            decreases self.leaderboard.len() - i,
        {
            proof {
                assert(lbv.skip(i as int)[0] == lbv[i as int]);
            }
            if string_lt(user, &self.leaderboard[i].user) {
                return i;
            }
            proof {
                assert(lbv.skip(i as int).drop_first() =~= lbv.skip(i as int + 1));
            }
            i = i + 1;
        }
        proof {
            assert(lbv.skip(self.leaderboard.len() as int) =~= Seq::<
                LeaderboardEntryView,
            >::empty());
        }
        self.leaderboard.len()
    }
}

/// In every well-formed state, every stored round's total pool is exactly
/// the sum of its bull and bear pools.
pub proof fn lemma_pool_sum_invariant(s: StateView, i: int)
    requires
        wf(s),
        0 <= i < s.rounds.len(),
    ensures
        s.rounds[i].total_pool == s.rounds[i].bull_pool + s.rounds[i].bear_pool,
{
}

/// In every well-formed state, at most one bet exists per `(round_id, user)`:
/// two distinct ledger rows never share a key.
pub proof fn lemma_one_bet_per_key(s: StateView, i: int, j: int)
    requires
        wf(s),
        0 <= i < s.bets.len(),
        0 <= j < s.bets.len(),
        i != j,
    ensures
        !(s.bets[i].round_id == s.bets[j].round_id && s.bets[i].user == s.bets[j].user),
{
}

/// Under [`wf`], any ledger row carrying the key `(round_id, user)` is the
/// row [`bet_idx`] picks: the bet under a key is unique.
pub proof fn lemma_bet_idx_unique(s: StateView, i: int, round_id: int, user: Seq<char>)
    requires
        wf(s),
        0 <= i < s.bets.len(),
        bet_key_at(s.bets, i, round_id, user),
    ensures
        has_bet(s.bets, round_id, user),
        bet_idx(s.bets, round_id, user) == i,
{
    assert(has_bet(s.bets, round_id, user));
    let j = bet_idx(s.bets, round_id, user);
    assert(0 <= j < s.bets.len() && bet_key_at(s.bets, j, round_id, user));
    if i != j {
        assert(false);
    }
}

/// Under [`wf`], any leaderboard entry of `user` is the one [`entry_idx`]
/// picks: the entry per user is unique.
pub proof fn lemma_entry_idx_unique(s: StateView, i: int, user: Seq<char>)
    requires
        wf(s),
        0 <= i < s.leaderboard.len(),
        s.leaderboard[i].user == user,
    ensures
        has_entry(s.leaderboard, user),
        entry_idx(s.leaderboard, user) == i,
{
    assert(has_entry(s.leaderboard, user));
    let j = entry_idx(s.leaderboard, user);
    assert(0 <= j < s.leaderboard.len() && s.leaderboard[j].user == user);
    if i != j {
        assert(false);
    }
}

} // verus!
