use pow_chain::block_tree::{commit_status_range, signed_txn_positions, genesis_id, BlockIndex, HashValue};
use pow_chain::consensus_db::{query_begin, query_forward_next, query_next};
use pow_chain::mint::{mint_start, mint_step, proposal_timestamp, MintAction, MintEvent, MintState};

type State = MintState<Vec<u32>>;
type Event = MintEvent<Vec<u32>, Vec<u8>>;
type Action = MintAction<Vec<u32>, Vec<u8>>;

#[test]
fn a_full_minting_round() {
    let (state, action): (State, Action) = mint_start();
    assert_eq!(action, MintAction::PullTxns);
    let (state, action) = mint_step(state, Event::Pulled(Some(vec![1, 2])), 0);
    assert_eq!(action, MintAction::ReadTip);
    let root = BlockIndex::new(&HashValue::from_words(9, 0, 0, 0), &genesis_id());
    let (state, action) = mint_step(state, Event::Tip(4, root), 0);
    assert_eq!(
        action,
        MintAction::Execute {
            parent_id: HashValue::from_words(9, 0, 0, 0),
            grandparent_id: genesis_id(),
            height: 5,
            genesis_qc: false,
        }
    );
    let (state, action) = mint_step(state, Event::Executed(true), 0);
    assert_eq!(action, MintAction::Mine(5));
    let (state, action) = mint_step(state, Event::Solved(77, vec![4, 5]), 6);
    assert_eq!(
        action,
        MintAction::BroadcastThenPause { height: 5, txns: vec![1, 2], nonce: 77, proof: vec![4, 5], secs: 3 }
    );
    let (state, action) = mint_step(state, Event::Woke, 0);
    assert_eq!((state, action), (MintState::Pulling, MintAction::PullTxns));
}

#[test]
fn minting_on_genesis_uses_the_genesis_certificate() {
    let root = BlockIndex::new(&genesis_id(), &HashValue::from_words(1, 1, 1, 1));
    let (_, action) = mint_step(State::ReadingTip(vec![]), Event::Tip(0, root), 0);
    assert!(matches!(action, MintAction::Execute { genesis_qc: true, height: 1, .. }));
}

#[test]
fn failures_and_stray_events() {
    assert_eq!(
        mint_step(State::Pulling, Event::Pulled(None), 0),
        (MintState::Pulling, MintAction::PullTxns)
    );
    assert_eq!(
        mint_step(State::Executing(3, vec![]), Event::Executed(false), 3),
        (MintState::Pausing, MintAction::Pause(4))
    );
    assert_eq!(
        mint_step(State::Mining(3, vec![1]), Event::Woke, 0),
        (MintState::Mining(3, vec![1]), MintAction::Wait)
    );
    let root = BlockIndex::new(&genesis_id(), &genesis_id());
    assert_eq!(
        mint_step(State::ReadingTip(vec![]), Event::Tip(u64::MAX, root), 4),
        (MintState::Pausing, MintAction::Pause(1))
    );
}

#[test]
fn proposal_timestamp_adds_ten() {
    assert_eq!(proposal_timestamp(5), Some(15));
    assert_eq!(proposal_timestamp(u64::MAX - 5), None);
}

#[test]
fn block_index_query_bounds() {
    assert_eq!(query_begin(Some(10), Some(50)), 9);
    assert_eq!(query_begin(Some(0), Some(50)), 0);
    assert_eq!(query_begin(None, Some(50)), 50);
    assert_eq!(query_begin(None, None), 0);
    assert_eq!(query_next(9, true, 1, 3), Some(8));
    assert_eq!(query_next(9, true, 3, 3), None);
    assert_eq!(query_next(9, false, 1, 3), None);
    assert_eq!(query_next(0, true, 1, 3), None);
    assert_eq!(query_forward_next(4, true, 1, 3), Some(5));
    assert_eq!(query_forward_next(u64::MAX, true, 1, 3), None);
}

#[test]
fn commit_statuses_are_the_last_ones() {
    assert_eq!(commit_status_range(5, 2), Some((3, 5)));
    assert_eq!(commit_status_range(2, 2), Some((0, 2)));
    assert_eq!(commit_status_range(1, 2), None);
}

#[test]
fn user_transaction_positions() {
    assert_eq!(signed_txn_positions(&[true, false, true, true]), vec![0, 2, 3]);
    assert_eq!(signed_txn_positions(&[false, false]), Vec::<usize>::new());
    assert_eq!(signed_txn_positions(&[]), Vec::<usize>::new());
}
