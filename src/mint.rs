//! The decisions of the block-production loop. The loop itself (pulling
//! transactions, executing them, waiting for a proof of work, broadcasting,
//! sleeping) is driven from outside: it performs each action and reports
//! what came of it.
use vstd::prelude::*;
use crate::block_tree::{genesis_id, genesis_id_spec, BlockIndex, HashValue};

verus! {

/// Where the minting loop stands; the height is that of the block being
/// minted, `T` the transactions pulled for it.
#[derive(Clone, PartialEq, Eq, Debug)]
pub enum MintState<T> {
    Pulling,
    ReadingTip(T),
    Executing(u64, T),
    Mining(u64, T),
    Pausing,
}

/// What the outside reports back.
#[derive(Clone, PartialEq, Eq, Debug)]
pub enum MintEvent<T, S> {
    /// The pool answered a pull: the transactions, or nothing on failure.
    Pulled(Option<T>),
    /// The block tree's tip height and root.
    Tip(u64, BlockIndex),
    /// The speculative execution succeeded or failed.
    Executed(bool),
    /// A proof of work arrived for the given nonce.
    Solved(u64, S),
    /// The pause between two rounds is over.
    Woke,
}

/// What the outside must do next.
#[derive(Clone, PartialEq, Eq, Debug)]
pub enum MintAction<T, S> {
    /// Pull pending transactions from the pool.
    PullTxns,
    /// Read the tip height and root of the block tree.
    ReadTip,
    /// Execute the pulled transactions on top of `parent_id` for a block at
    /// `height`; the quorum certificate to extend is the genesis one where
    /// `genesis_qc` holds, else the one stored with the parent.
    Execute { parent_id: HashValue, grandparent_id: HashValue, height: u64, genesis_qc: bool },
    /// Ask for a proof of work for the block at this height.
    Mine(u64),
    /// Broadcast the block at `height` holding `txns`, `nonce` and `proof`,
    /// then pause for `secs` seconds.
    BroadcastThenPause { height: u64, txns: T, nonce: u64, proof: S, secs: u64 },
    /// Pause for `secs` seconds.
    Pause(u64),
    /// Nothing to do until the awaited event comes.
    Wait,
}

/// The pause that a random `draw` selects: one to four seconds.
pub open spec fn pause_secs(draw: u64) -> u64 {
    (1 + draw % 4) as u64
}

/// The step of the minting loop for `event` in `state`, with `draw` a
/// random number for the length of a pause. An event that the state does
/// not await changes nothing.
pub open spec fn mint_next<T, S>(state: MintState<T>, event: MintEvent<T, S>, draw: u64) -> (
    MintState<T>,
    MintAction<T, S>,
) {
    match (state, event) {
        (MintState::Pulling, MintEvent::Pulled(pulled)) => match pulled {
            Some(txns) => (MintState::ReadingTip(txns), MintAction::ReadTip),
            None => (MintState::Pulling, MintAction::PullTxns),
        },
        (MintState::ReadingTip(txns), MintEvent::Tip(height, root)) => if height == u64::MAX {
            (MintState::Pausing, MintAction::Pause(pause_secs(draw)))
        } else {
            (
                MintState::Executing((height + 1) as u64, txns),
                MintAction::Execute {
                    parent_id: root.id,
                    grandparent_id: root.parent_id,
                    height: (height + 1) as u64,
                    genesis_qc: root.id == genesis_id_spec(),
                },
            )
        },
        (MintState::Executing(h, txns), MintEvent::Executed(ok)) => if ok {
            (MintState::Mining(h, txns), MintAction::Mine(h))
        } else {
            (MintState::Pausing, MintAction::Pause(pause_secs(draw)))
        },
        (MintState::Mining(h, txns), MintEvent::Solved(nonce, proof)) => (
            MintState::Pausing,
            MintAction::BroadcastThenPause { height: h, txns, nonce, proof, secs: pause_secs(draw) },
        ),
        (MintState::Pausing, MintEvent::Woke) => (MintState::Pulling, MintAction::PullTxns),
        (state, _) => (state, MintAction::Wait),
    }
}

/// Where the loop begins, and its first action.
pub fn mint_start<T, S>() -> (r: (MintState<T>, MintAction<T, S>))
    ensures
        r == (MintState::<T>::Pulling, MintAction::<T, S>::PullTxns),
{
    (MintState::Pulling, MintAction::PullTxns)
}

pub fn mint_step<T, S>(state: MintState<T>, event: MintEvent<T, S>, draw: u64) -> (r: (
    MintState<T>,
    MintAction<T, S>,
))
    ensures
        r == mint_next(state, event, draw),
        r.1 matches MintAction::Pause(secs) ==> 1 <= secs <= 4,
        r.1 matches MintAction::BroadcastThenPause { secs, .. } ==> 1 <= secs <= 4,
{
    let secs = 1 + draw % 4;
    match (state, event) {
        (MintState::Pulling, MintEvent::Pulled(pulled)) => match pulled {
            Some(txns) => (MintState::ReadingTip(txns), MintAction::ReadTip),
            None => (MintState::Pulling, MintAction::PullTxns),
        },
        (MintState::ReadingTip(txns), MintEvent::Tip(height, root)) => if height == u64::MAX {
            (MintState::Pausing, MintAction::Pause(secs))
        } else {
            (
                MintState::Executing(height + 1, txns),
                MintAction::Execute {
                    parent_id: root.id,
                    grandparent_id: root.parent_id,
                    height: height + 1,
                    genesis_qc: root.id == genesis_id(),
                },
            )
        },
        (MintState::Executing(h, txns), MintEvent::Executed(ok)) => if ok {
            (MintState::Mining(h, txns), MintAction::Mine(h))
        } else {
            (MintState::Pausing, MintAction::Pause(secs))
        },
        (MintState::Mining(h, txns), MintEvent::Solved(nonce, proof)) => (
            MintState::Pausing,
            MintAction::BroadcastThenPause { height: h, txns, nonce, proof, secs },
        ),
        (MintState::Pausing, MintEvent::Woke) => (MintState::Pulling, MintAction::PullTxns),
        (state, _) => (state, MintAction::Wait),
    }
}

/// One full round: the transactions the pool gave, and the nonce and proof
/// the miner found, go unchanged into the block that is broadcast, one
/// above the tip it read, on top of the root; the pause after it lasts one
/// to four seconds.
pub proof fn lemma_mint_round<T, S>(
    txns: T,
    height: u64,
    root: BlockIndex,
    nonce: u64,
    proof: S,
    draws: (u64, u64, u64, u64),
)
    requires
        height < u64::MAX,
    ensures
        ({
            let (s1, a1) = mint_next(MintState::<T>::Pulling, MintEvent::<T, S>::Pulled(Some(txns)), draws.0);
            let (s2, a2) = mint_next(s1, MintEvent::<T, S>::Tip(height, root), draws.1);
            let (s3, a3) = mint_next(s2, MintEvent::<T, S>::Executed(true), draws.2);
            let (s4, a4) = mint_next(s3, MintEvent::<T, S>::Solved(nonce, proof), draws.3);
            &&& a1 == MintAction::<T, S>::ReadTip
            &&& a2 == MintAction::<T, S>::Execute {
                parent_id: root.id,
                grandparent_id: root.parent_id,
                height: (height + 1) as u64,
                genesis_qc: root.id == genesis_id_spec(),
            }
            &&& a3 == MintAction::<T, S>::Mine((height + 1) as u64)
            &&& a4 == MintAction::<T, S>::BroadcastThenPause {
                height: (height + 1) as u64,
                txns,
                nonce,
                proof,
                secs: pause_secs(draws.3),
            }
            &&& 1 <= pause_secs(draws.3) <= 4
            &&& s4 == MintState::<T>::Pausing
        }),
{
}

/// The timestamp of a new block: ten microseconds after that of the ledger
/// state its quorum certificate certifies, unless that overflows.
pub fn proposal_timestamp(parent_timestamp_usecs: u64) -> (r: Option<u64>)
    ensures
        r is Some <==> parent_timestamp_usecs + 10 <= u64::MAX,
        r matches Some(t) ==> t == parent_timestamp_usecs + 10,
{
    parent_timestamp_usecs.checked_add(10)
}

} // verus!
