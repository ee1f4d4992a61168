//! Contract instantiation: establishes the configuration and empty stores.

use vstd::prelude::*;

use crate::error::ContractError;
use crate::msg::{Ack, AckView, InstantiateMsg, Response};
use crate::state::{Config, ConfigView, State, StateView, wf};

verus! {

/// Instantiation succeeds exactly when the requested fee is at most
/// 10 000 basis points (100%).
pub open spec fn instantiate_ok(treasury_fee: int) -> bool {
    treasury_fee <= 10000
}

/// The state a fresh contract starts in: the caller is the admin, nothing is
/// paused, the round counter is at 1 and all stores are empty.
pub open spec fn initial_state(sender: Seq<char>, treasury_fee: int) -> StateView {
    StateView {
        config: ConfigView {
            admin: sender,
            paused: false,
            treasury_fee: treasury_fee,
            current_round_id: 1,
        },
        rounds: Seq::empty(),
        bets: Seq::empty(),
        leaderboard: Seq::empty(),
    }
}

/// Creates the contract state for a fresh instance.
///
/// Returns the initial state and an acknowledgment, or
/// [`ContractError::InvalidTreasuryFee`] when the fee exceeds 10 000 bps.
pub fn instantiate(sender: String, msg: InstantiateMsg) -> (r: Result<
    (State, Response),
    ContractError,
>)
    ensures
        match r {
            Ok((state, resp)) => {
                &&& instantiate_ok(msg.treasury_fee as int)
                &&& state@ == initial_state(sender@, msg.treasury_fee as int)
                &&& wf(state@)
                &&& resp@.ack == (AckView::Instantiated {
                    admin: sender@,
                    treasury_fee: msg.treasury_fee as int,
                })
                &&& resp@.transfers.len() == 0
            },
            Err(e) => {
                &&& !instantiate_ok(msg.treasury_fee as int)
                &&& e == ContractError::InvalidTreasuryFee
            },
        },
{
    if msg.treasury_fee > 10000 {
        return Err(ContractError::InvalidTreasuryFee);
    }
    let ghost sender_view = sender@;
    let config = Config {
        admin: sender.clone(),
        paused: false,
        treasury_fee: msg.treasury_fee,
        current_round_id: 1,
    };
    let state = State { config, rounds: Vec::new(), bets: Vec::new(), leaderboard: Vec::new() };
    let resp = Response {
        ack: Ack::Instantiated { admin: sender, treasury_fee: msg.treasury_fee },
        transfers: Vec::new(),
    };
    proof {
        assert(state@.rounds =~= Seq::empty());
        assert(state@.bets =~= Seq::empty());
        assert(state@.leaderboard =~= Seq::empty());
        assert(state@ == initial_state(sender_view, msg.treasury_fee as int));
        assert(resp@.transfers =~= Seq::<crate::msg::TransferView>::empty());
    }
    Ok((state, resp))
}

} // verus!
