use pow_chain::block_tree::{
    genesis_id, pre_genesis_id, BlockIndex, BlockTree, BlockTreeError, HashValue, StorageAction,
};

fn h(n: u64) -> HashValue {
    HashValue::from_words(n, 1, 2, 3)
}

fn insert(tree: &mut BlockTree<u32>, id: u64, parent: HashValue) -> Vec<StorageAction> {
    tree.add_block_info(&h(id), &parent, id * 10, id as u32).unwrap()
}

#[test]
fn extending_the_tip_commits_only_the_new_block() {
    let mut tree = BlockTree::<u32>::new();
    assert_eq!(insert(&mut tree, 1, genesis_id()), vec![StorageAction::Commit(h(1))]);
    assert_eq!(insert(&mut tree, 2, h(1)), vec![StorageAction::Commit(h(2))]);
    let (height, root) = tree.chain_height_and_root();
    assert_eq!(height, 2);
    assert_eq!(root, BlockIndex::new(&h(2), &h(1)));
    assert_eq!(tree.root_hash(), h(2));
}

#[test]
fn side_branch_then_reorg_rolls_back_and_replays_oldest_first() {
    let mut tree = BlockTree::<u32>::new();
    insert(&mut tree, 1, genesis_id());
    insert(&mut tree, 2, h(1));
    assert_eq!(insert(&mut tree, 11, genesis_id()), vec![]);
    assert_eq!(insert(&mut tree, 12, h(11)), vec![]);
    assert_eq!(tree.root_hash(), h(2));
    let (ancestors, fork) = tree.find_ancestor_until_main_chain(&h(12)).unwrap();
    assert_eq!(ancestors, vec![h(11), h(12)]);
    assert_eq!(fork, BlockIndex::new(&genesis_id(), &pre_genesis_id()));
    let actions = insert(&mut tree, 13, h(12));
    assert_eq!(
        actions,
        vec![
            StorageAction::Rollback(genesis_id()),
            StorageAction::Commit(h(11)),
            StorageAction::Commit(h(12)),
            StorageAction::Commit(h(13)),
        ]
    );
    assert_eq!(tree.chain_height_and_root(), (3, BlockIndex::new(&h(13), &h(12))));
    assert_eq!(tree.block_at_height(1).unwrap().id(), h(11));
    assert_eq!(tree.block_at_height(2).unwrap().id(), h(12));
    assert_eq!(tree.block_at_height(3).unwrap().id(), h(13));
    assert_eq!(tree.block_at_height(0).unwrap().id(), genesis_id());
}

#[test]
fn deeper_fork_point_rolls_back_to_its_parent() {
    let mut tree = BlockTree::<u32>::new();
    insert(&mut tree, 1, genesis_id());
    insert(&mut tree, 2, h(1));
    insert(&mut tree, 3, h(2));
    insert(&mut tree, 22, h(1));
    insert(&mut tree, 23, h(22));
    let actions = insert(&mut tree, 24, h(23));
    assert_eq!(
        actions,
        vec![
            StorageAction::Rollback(h(1)),
            StorageAction::Commit(h(22)),
            StorageAction::Commit(h(23)),
            StorageAction::Commit(h(24)),
        ]
    );
    assert_eq!(tree.block_at_height(1).unwrap().id(), h(1));
    assert_eq!(tree.block_at_height(2).unwrap().id(), h(22));
    assert_eq!(tree.block_at_height(3).unwrap().id(), h(23));
    assert_eq!(tree.find_ancestor_until_main_chain(&h(3)).unwrap().0, vec![h(2), h(3)]);
}

#[test]
fn refused_blocks_leave_the_tree_alone() {
    let mut tree = BlockTree::<u32>::new();
    insert(&mut tree, 1, genesis_id());
    assert_eq!(
        tree.add_block_info(&h(1), &genesis_id(), 0, 0),
        Err(BlockTreeError::BlockExists)
    );
    assert_eq!(
        tree.add_block_info(&h(5), &h(4), 0, 0),
        Err(BlockTreeError::ParentMissing)
    );
    assert!(!tree.block_exist(&h(5)));
    assert_eq!(tree.chain_height_and_root().0, 1);
}

#[test]
fn rollback_mode_replays_the_parent() {
    let mut tree = BlockTree::<u32>::new_under_rollback(true);
    insert(&mut tree, 1, genesis_id());
    assert_eq!(insert(&mut tree, 2, h(1)), vec![StorageAction::Commit(h(2))]);
    assert_eq!(
        insert(&mut tree, 3, h(2)),
        vec![
            StorageAction::Rollback(h(1)),
            StorageAction::Commit(h(2)),
            StorageAction::Commit(h(3)),
        ]
    );
}

#[test]
fn lookups_by_id_batch_and_height_agree() {
    let mut tree = BlockTree::<u32>::new();
    insert(&mut tree, 1, genesis_id());
    insert(&mut tree, 7, h(1));
    let by_id = tree.find_block_info_by_block_id(&h(7)).unwrap();
    let by_height = tree.block_at_height(2).unwrap();
    let batch = tree.find_block_infos_by_block_ids(&[h(7), h(1)]).unwrap();
    for b in [by_id, by_height, batch[0]] {
        assert_eq!(b.id(), h(7));
        assert_eq!(b.parent_id(), h(1));
        assert_eq!(b.height(), 2);
        assert_eq!(b.timestamp_usecs(), 70);
        assert_eq!(b.output_commit_data, Some(7));
        assert_eq!(b.block_index(), BlockIndex::new(&h(7), &h(1)));
    }
    assert_eq!(batch[1].id(), h(1));
    assert!(tree.find_block_infos_by_block_ids(&[h(7), h(9)]).is_none());
    assert!(tree.block_at_height(3).is_none());
    let genesis = tree.block_at_height(0).unwrap();
    assert_eq!(genesis.output_commit_data, None);
}

#[test]
fn pruning_keeps_a_thousand_heights() {
    let mut tree = BlockTree::<u32>::new();
    let mut parent = genesis_id();
    for n in 1..=1005u64 {
        insert(&mut tree, n, parent);
        parent = h(n);
    }
    tree.prune();
    assert!(!tree.block_exist(&genesis_id()));
    for n in 1..5u64 {
        assert!(!tree.block_exist(&h(n)));
    }
    assert!(tree.block_exist(&h(5)));
    assert!(tree.block_at_height(4).is_none());
    assert_eq!(tree.block_at_height(5).unwrap().id(), h(5));
    tree.prune();
    assert!(tree.block_exist(&h(5)));
}

#[test]
fn pruning_a_young_tree_changes_nothing() {
    let mut tree = BlockTree::<u32>::new();
    insert(&mut tree, 1, genesis_id());
    tree.prune();
    assert!(tree.block_exist(&genesis_id()));
    assert!(tree.block_exist(&h(1)));
}

#[test]
fn branch_older_than_the_window_cannot_become_root() {
    let mut tree = BlockTree::<u32>::new();
    let mut main = genesis_id();
    let mut side = genesis_id();
    for n in 1..=1002u64 {
        insert(&mut tree, n, main);
        main = h(n);
        insert(&mut tree, 5000 + n, side);
        side = h(5000 + n);
    }
    tree.prune();
    assert_eq!(tree.find_ancestor_until_main_chain(&side), None);
    assert_eq!(
        tree.add_block_info(&h(9999), &side, 0, 0),
        Err(BlockTreeError::ForkNotFound)
    );
    assert_eq!(tree.root_hash(), h(1002));
}

#[test]
fn hash_from_bytes() {
    let mut bytes = [0u8; 32];
    bytes[0] = 1;
    bytes[8] = 2;
    assert_eq!(HashValue::from_slice(&bytes), Some(HashValue::from_words(1, 2, 0, 0)));
    assert_eq!(HashValue::from_slice(&bytes[..31]), None);
}
