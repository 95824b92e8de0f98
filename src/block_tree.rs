//! The block tree: every live block of every known branch, the canonical
//! chain, and the storage work that a new block asks for when it becomes the
//! root, rollbacks included.
use vstd::prelude::*;
use crate::digest::{le_value, read_u64_le};

verus! {

pub type BlockHeight = u64;

/// How many heights behind the tip are always kept in memory.
pub const RETAINED_HEIGHTS: u64 = 1000;

/// A 32-byte block identifier, held as four little-endian words.
#[derive(Clone, Copy, PartialEq, Eq, Structural, Hash, Debug)]
pub struct HashValue {
    pub w0: u64,
    pub w1: u64,
    pub w2: u64,
    pub w3: u64,
}

impl HashValue {
    pub fn from_words(w0: u64, w1: u64, w2: u64, w3: u64) -> (r: Self)
        ensures
            r == (HashValue { w0, w1, w2, w3 }),
    {
        HashValue { w0, w1, w2, w3 }
    }

    /// The identifier whose 32 bytes are `bytes`.
    pub fn from_slice(bytes: &[u8]) -> (r: Option<Self>)
        ensures
            r is Some <==> bytes@.len() == 32,
            r matches Some(h) ==> {
                &&& h.w0 as int == le_value(bytes@.subrange(0, 8))
                &&& h.w1 as int == le_value(bytes@.subrange(8, 16))
                &&& h.w2 as int == le_value(bytes@.subrange(16, 24))
                &&& h.w3 as int == le_value(bytes@.subrange(24, 32))
            },
    {
        if bytes.len() != 32 {
            return None;
        }
        Some(
            HashValue {
                w0: read_u64_le(bytes, 0),
                w1: read_u64_le(bytes, 8),
                w2: read_u64_le(bytes, 16),
                w3: read_u64_le(bytes, 24),
            },
        )
    }
}

/// The identifier of the genesis block.
pub open spec fn genesis_id_spec() -> HashValue {
    HashValue { w0: 0, w1: 0, w2: 0, w3: 0 }
}

/// The parent identifier that the genesis block names.
pub open spec fn pre_genesis_id_spec() -> HashValue {
    HashValue { w0: u64::MAX, w1: u64::MAX, w2: u64::MAX, w3: u64::MAX }
}

pub fn genesis_id() -> (r: HashValue)
    ensures
        r == genesis_id_spec(),
{
    HashValue { w0: 0, w1: 0, w2: 0, w3: 0 }
}

pub fn pre_genesis_id() -> (r: HashValue)
    ensures
        r == pre_genesis_id_spec(),
{
    HashValue { w0: u64::MAX, w1: u64::MAX, w2: u64::MAX, w3: u64::MAX }
}

/// A block's identifier with its parent's.
#[derive(Clone, Copy, PartialEq, Eq, Structural, Hash, Debug)]
pub struct BlockIndex {
    pub id: HashValue,
    pub parent_id: HashValue,
}

impl BlockIndex {
    pub fn new(id: &HashValue, parent_id: &HashValue) -> (r: Self)
        ensures
            r.id == *id,
            r.parent_id == *parent_id,
    {
        BlockIndex { id: *id, parent_id: *parent_id }
    }

    pub fn id(&self) -> (r: HashValue)
        ensures
            r == self.id,
    {
        self.id
    }

    pub fn parent_id(&self) -> (r: HashValue)
        ensures
            r == self.parent_id,
    {
        self.parent_id
    }
}

/// A block as the tree holds it. `output_commit_data` is what storage needs
/// to commit the block; only the genesis block has none.
pub struct BlockInfo<P> {
    pub block_index: BlockIndex,
    pub height: BlockHeight,
    pub timestamp_usecs: u64,
    pub output_commit_data: Option<P>,
}

/// What storage must do, in order, after an insertion.
#[derive(Clone, Copy, PartialEq, Eq, Structural, Debug)]
pub enum StorageAction {
    /// Undo the committed effects of every block after this one, which
    /// stays the last committed block.
    Rollback(HashValue),
    /// Commit this block's transactions.
    Commit(HashValue),
}

/// Why a block was not inserted.
#[derive(Clone, Copy, PartialEq, Eq, Structural, Debug)]
pub enum BlockTreeError {
    /// The block is already in the tree.
    BlockExists,
    /// The parent is not in the tree.
    ParentMissing,
    /// The branch does not meet the canonical chain within the retained
    /// heights.
    ForkNotFound,
}

/// A set of competing branches over a canonical chain.
pub struct BlockTree<P> {
    height: BlockHeight,
    id_to_block: Vec<BlockInfo<P>>,
    main_chain: Vec<BlockIndex>,
    evicted: Ghost<Seq<BlockIndex>>,
    tail_height: BlockHeight,
    rollback_mode: bool,
}

/// The position in `blocks` of the block `id`, searching from the end.
pub open spec fn position<P>(blocks: Seq<BlockInfo<P>>, id: HashValue) -> int
    decreases blocks.len(),
{
    if blocks.len() == 0 {
        -1
    } else if blocks.last().block_index.id == id {
        blocks.len() - 1
    } else {
        position(blocks.drop_last(), id)
    }
}

proof fn lemma_position<P>(blocks: Seq<BlockInfo<P>>, id: HashValue)
    ensures
        -1 <= position(blocks, id) < blocks.len(),
        position(blocks, id) >= 0 ==> blocks[position(blocks, id)].block_index.id == id,
        position(blocks, id) == -1 <==> forall|i: int|
            0 <= i < blocks.len() ==> (#[trigger] blocks[i]).block_index.id != id,
    decreases blocks.len(),
{
    if blocks.len() > 0 {
        lemma_position(blocks.drop_last(), id);
        if blocks.last().block_index.id != id {
            assert forall|i: int| 0 <= i < blocks.len() - 1 implies #[trigger] blocks[i]
                == blocks.drop_last()[i] by {}
        }
    }
}

impl<P> BlockTree<P> {
    pub closed spec fn spec_height(&self) -> nat {
        self.height as nat
    }

    pub closed spec fn spec_tail_height(&self) -> nat {
        self.tail_height as nat
    }

    pub closed spec fn spec_rollback_mode(&self) -> bool {
        self.rollback_mode
    }

    /// The live blocks, in insertion order.
    pub closed spec fn blocks(&self) -> Seq<BlockInfo<P>> {
        self.id_to_block@
    }

    /// The canonical chain as it was decided: its entry at each height,
    /// genesis first. Only the entries from the tail up are held in memory.
    pub closed spec fn main_chain(&self) -> Seq<BlockIndex> {
        self.evicted@ + self.main_chain@
    }

    /// The canonical entries held in memory, from the tail up.
    pub closed spec fn retained_chain(&self) -> Seq<BlockIndex> {
        self.main_chain@
    }

    /// The block `id` is live.
    pub open spec fn has(&self, id: HashValue) -> bool {
        position(self.blocks(), id) >= 0
    }

    /// The live block `id`.
    pub open spec fn block(&self, id: HashValue) -> BlockInfo<P> {
        self.blocks()[position(self.blocks(), id)]
    }

    /// The canonical root: the canonical block at the tip height.
    pub open spec fn root(&self) -> BlockIndex {
        self.main_chain()[self.spec_height() as int]
    }

    /// The tree's invariant: one entry of the canonical chain per height up
    /// to the tip, each a live block of that height where it is retained,
    /// each the parent of the next; identifiers unique; every live block
    /// within the retained heights, and above the tail its parent is live
    /// one height lower.
    pub open spec fn wf(&self) -> bool {
        let blocks = self.blocks();
        &&& self.main_chain().len() == self.spec_height() + 1
        &&& self.retained_chain() == self.main_chain().skip(self.spec_tail_height() as int)
        &&& self.spec_height() < u64::MAX
        &&& self.spec_tail_height() <= self.spec_height()
        &&& unique_ids(blocks)
        &&& forall|i: int|
            0 <= i < blocks.len() ==> self.spec_tail_height() <= (#[trigger] blocks[i]).height
                <= self.spec_height()
        &&& forall|h: int|
            self.spec_tail_height() <= h <= self.spec_height() ==> {
                &&& self.has((#[trigger] self.main_chain()[h]).id)
                &&& self.block(self.main_chain()[h].id).height == h
                &&& self.block(self.main_chain()[h].id).block_index == self.main_chain()[h]
            }
        &&& forall|h: int|
            self.spec_tail_height() < h <= self.spec_height() ==> (#[trigger] self.main_chain()[h]).parent_id
                == self.main_chain()[h - 1].id
        &&& forall|i: int|
            0 <= i < blocks.len() && (#[trigger] blocks[i]).height > self.spec_tail_height() ==> {
                &&& self.has(blocks[i].block_index.parent_id)
                &&& self.block(blocks[i].block_index.parent_id).height + 1 == blocks[i].height
            }
    }

    pub fn new() -> (r: Self)
        ensures
            r.wf(),
            r.spec_rollback_mode() == false,
            r.spec_height() == 0,
            r.spec_tail_height() == 0,
            r.blocks() == seq![BlockInfo::<P>::genesis_block_info_spec()],
            r.main_chain() == seq![BlockInfo::<P>::genesis_block_info_spec().block_index],
    {
        Self::new_under_rollback(false)
    }

    pub fn new_under_rollback(rollback_mode: bool) -> (r: Self)
        ensures
            r.wf(),
            r.spec_rollback_mode() == rollback_mode,
            r.spec_height() == 0,
            r.spec_tail_height() == 0,
            r.blocks() == seq![BlockInfo::<P>::genesis_block_info_spec()],
            r.main_chain() == seq![BlockInfo::<P>::genesis_block_info_spec().block_index],
    {
        let genesis = BlockInfo::genesis_block_info();
        let genesis_index = genesis.block_index;
        let mut main_chain: Vec<BlockIndex> = Vec::new();
        main_chain.push(genesis_index);
        let mut id_to_block: Vec<BlockInfo<P>> = Vec::new();
        id_to_block.push(genesis);
        let r = BlockTree {
            height: 0,
            id_to_block,
            main_chain,
            evicted: Ghost(Seq::empty()),
            tail_height: 0,
            rollback_mode,
        };
        assert(r.main_chain() =~= r.retained_chain());
        assert(r.main_chain().skip(0) =~= r.main_chain());
        proof {
            assert(r.blocks() =~= seq![BlockInfo::<P>::genesis_block_info_spec()]);
            assert(r.main_chain() =~= seq![BlockInfo::<P>::genesis_block_info_spec().block_index]);
            assert(r.blocks().drop_last() =~= Seq::<BlockInfo<P>>::empty());
            assert(position(r.blocks(), genesis_index.id) == 0);
        }
        r
    }

    /// The position of the live block `id`, if there is one.
    fn find_position(&self, id: &HashValue) -> (r: Option<usize>)
        ensures
            r is None <==> !self.has(*id),
            r matches Some(i) ==> i == position(self.blocks(), *id) && i < self.blocks().len(),
    {
        proof {
            lemma_position(self.blocks(), *id);
            assert(self.blocks().take(self.blocks().len() as int) =~= self.blocks());
        }
        let mut i: usize = self.id_to_block.len();
        while i > 0
            invariant
                i <= self.id_to_block@.len(),
                position(self.blocks(), *id) == position(self.blocks().take(i as int), *id),
            decreases i,
        {
            proof {
                assert(self.blocks().take(i as int).drop_last() =~= self.blocks().take(i - 1));
            }
            if self.id_to_block[i - 1].block_index.id == *id {
                return Some(i - 1);
            }
            i = i - 1;
        }
        None
    }

    pub fn find_block_info_by_block_id(&self, block_id: &HashValue) -> (r: Option<&BlockInfo<P>>)
        ensures
            r is None <==> !self.has(*block_id),
            r matches Some(b) ==> *b == self.block(*block_id),
    {
        match self.find_position(block_id) {
            Some(i) => Some(&self.id_to_block[i]),
            None => None,
        }
    }

    pub fn block_exist(&self, block_hash: &HashValue) -> (r: bool)
        ensures
            r == self.has(*block_hash),
    {
        self.find_position(block_hash).is_some()
    }

    pub fn chain_height_and_root(&self) -> (r: (BlockHeight, BlockIndex))
        requires
            self.wf(),
        ensures
            r.0 == self.spec_height(),
            r.1 == self.root(),
    {
        let len = self.main_chain.len();
        assert(self.height - self.tail_height < len);
        (self.height, self.main_chain[(self.height - self.tail_height) as usize])
    }

    pub fn root_hash(&self) -> (r: HashValue)
        requires
            self.wf(),
        ensures
            r == self.root().id,
    {
        self.chain_height_and_root().1.id()
    }
}

/// No identifier is held by two blocks.
pub open spec fn unique_ids<P>(blocks: Seq<BlockInfo<P>>) -> bool {
    forall|i: int, j: int|
        0 <= i < j < blocks.len() ==> (#[trigger] blocks[i]).block_index.id != (
        #[trigger] blocks[j]).block_index.id
}

/// A filter that every element passes keeps the sequence as it is.
proof fn lemma_filter_all<A>(s: Seq<A>, pred: spec_fn(A) -> bool)
    requires
        forall|i: int| 0 <= i < s.len() ==> pred(#[trigger] s[i]),
    ensures
        s.filter(pred) == s,
    decreases s.len(),
{
    if s.len() > 0 {
        let init = s.drop_last();
        assert forall|i: int| 0 <= i < init.len() implies pred(#[trigger] init[i]) by {
            assert(init[i] == s[i]);
        }
        lemma_filter_all(init, pred);
        init.lemma_filter_push(s.last(), pred);
        assert(init.push(s.last()) =~= s);
    } else {
        assert(s.filter(pred) =~= s);
    }
}

/// Removing one block keeps the identifiers unique and every other block
/// where a lookup finds it.
proof fn lemma_remove_keeps<P>(blocks: Seq<BlockInfo<P>>, i: int, id: HashValue)
    requires
        unique_ids(blocks),
        0 <= i < blocks.len(),
        position(blocks, id) >= 0,
        id != blocks[i].block_index.id,
    ensures
        unique_ids(blocks.remove(i)),
        position(blocks.remove(i), id) >= 0,
        blocks.remove(i)[position(blocks.remove(i), id)] == blocks[position(blocks, id)],
{
    let r = blocks.remove(i);
    assert forall|a: int, b: int| 0 <= a < b < r.len() implies (#[trigger] r[a]).block_index.id != (
    #[trigger] r[b]).block_index.id by {
        let a0 = if a < i { a } else { a + 1 };
        let b0 = if b < i { b } else { b + 1 };
        assert(r[a] == blocks[a0]);
        assert(r[b] == blocks[b0]);
        assert(blocks[a0].block_index.id != blocks[b0].block_index.id);
    }
    lemma_position(blocks, id);
    let p = position(blocks, id);
    let q = if p < i { p } else { p - 1 };
    assert(p != i);
    assert(r[q] == blocks[p]);
    lemma_position_unique(r, id, q);
}

/// Removing a block below `new_tail` keeps the identifiers unique, every
/// canonical entry from `new_tail` to `height` a live block of its height,
/// and the live parent of every block above `new_tail` one height lower.
#[verifier::rlimit(100)]
proof fn lemma_prune_removal<P>(
    before: Seq<BlockInfo<P>>,
    i: int,
    main: Seq<BlockIndex>,
    new_tail: int,
    height: int,
)
    requires
        unique_ids(before),
        0 <= i < before.len(),
        before[i].height < new_tail,
        height < main.len(),
        forall|h: int|
            new_tail <= h <= height ==> {
                &&& position(before, (#[trigger] main[h]).id) >= 0
                &&& before[position(before, main[h].id)].height == h
                &&& before[position(before, main[h].id)].block_index == main[h]
            },
        forall|k: int|
            0 <= k < before.len() && (#[trigger] before[k]).height > new_tail ==> {
                &&& position(before, before[k].block_index.parent_id) >= 0
                &&& before[position(before, before[k].block_index.parent_id)].height + 1
                    == before[k].height
            },
    ensures
        ({
            let after = before.remove(i);
            &&& unique_ids(after)
            &&& forall|h: int|
                new_tail <= h <= height ==> {
                    &&& position(after, (#[trigger] main[h]).id) >= 0
                    &&& after[position(after, main[h].id)].height == h
                    &&& after[position(after, main[h].id)].block_index == main[h]
                }
            &&& forall|k: int|
                0 <= k < after.len() && (#[trigger] after[k]).height > new_tail ==> {
                    &&& position(after, after[k].block_index.parent_id) >= 0
                    &&& after[position(after, after[k].block_index.parent_id)].height + 1
                        == after[k].height
                }
        }),
{
    let victim = before[i];
    let after = before.remove(i);
    if new_tail <= height {
        let top = main[height];
        lemma_position(before, top.id);
        lemma_remove_keeps(before, i, top.id);
    }
    assert forall|h: int| new_tail <= h <= height implies {
        &&& position(after, (#[trigger] main[h]).id) >= 0
        &&& after[position(after, main[h].id)].height == h
        &&& after[position(after, main[h].id)].block_index == main[h]
    } by {
        let e = main[h];
        lemma_position(before, e.id);
        assert(e.id != victim.block_index.id);
        lemma_remove_keeps(before, i, e.id);
    }
    assert forall|k: int|
        0 <= k < after.len() && (#[trigger] after[k]).height > new_tail implies {
        &&& position(after, after[k].block_index.parent_id) >= 0
        &&& after[position(after, after[k].block_index.parent_id)].height + 1 == after[k].height
    } by {
        let k0 = if k < i { k } else { k + 1 };
        assert(after[k] == before[k0]);
        let p = before[k0].block_index.parent_id;
        lemma_position(before, p);
        assert(p != victim.block_index.id);
        lemma_remove_keeps(before, i, p);
    }
    if before.len() > 1 {
        let any = if i == 0 { 1 } else { 0 };
        lemma_position(before, before[any].block_index.id);
        lemma_remove_keeps(before, i, before[any].block_index.id);
    } else {
        assert(unique_ids(after));
    }
}

/// Pushing a block with a fresh identifier leaves every other position as
/// it was and puts the new one last.
proof fn lemma_position_push<P>(blocks: Seq<BlockInfo<P>>, b: BlockInfo<P>, id: HashValue)
    ensures
        position(blocks.push(b), id) == if b.block_index.id == id {
            blocks.len() as int
        } else {
            position(blocks, id)
        },
{
    assert(blocks.push(b).drop_last() =~= blocks);
}

/// With unique identifiers, the position of an identifier is the one index
/// that holds it.
proof fn lemma_position_unique<P>(blocks: Seq<BlockInfo<P>>, id: HashValue, k: int)
    requires
        0 <= k < blocks.len(),
        blocks[k].block_index.id == id,
        unique_ids(blocks),
    ensures
        position(blocks, id) == k,
{
    lemma_position(blocks, id);
    let p = position(blocks, id);
    if p == -1 {
        assert(blocks[k].block_index.id != id);
    } else if p < k {
        assert(blocks[p].block_index.id != blocks[k].block_index.id);
    } else if p > k {
        assert(blocks[k].block_index.id != blocks[p].block_index.id);
    }
}

impl<P> BlockTree<P> {
    /// The blocks from `id` back to the canonical chain, oldest first, with
    /// the canonical block where the walk meets the chain. `None` where a
    /// parent on the way is not live one height lower, or the walk is
    /// longer than `fuel`.
    pub open spec fn ancestors_spec(&self, id: HashValue, fuel: nat) -> Option<
        (Seq<HashValue>, BlockIndex),
    >
        decreases fuel,
    {
        if !self.has(id) {
            None
        } else {
            let b = self.block(id);
            if b.height <= self.spec_height() && self.main_chain()[b.height as int].id == id {
                Some((Seq::empty(), b.block_index))
            } else if fuel == 0 {
                None
            } else if !(self.has(b.block_index.parent_id) && self.block(
                b.block_index.parent_id,
            ).height + 1 == b.height) {
                None
            } else {
                match self.ancestors_spec(b.block_index.parent_id, (fuel - 1) as nat) {
                    Some((s, f)) => Some((s.push(id), f)),
                    None => None,
                }
            }
        }
    }

    /// The walk from `id` back to the canonical chain, given as many steps
    /// as there are heights.
    pub open spec fn find_ancestor_spec(&self, id: HashValue) -> Option<
        (Seq<HashValue>, BlockIndex),
    > {
        self.ancestors_spec(id, self.spec_height() + 1)
    }

    /// The storage work for a block `id` on `parent_id` that becomes the new
    /// root: where the parent is not the old root, a rollback to the fork
    /// point, which stays committed, and a commit of each block of the
    /// branch, oldest first; in rollback mode, a rollback to the grandparent
    /// and a recommit of the parent; then the block itself. Storage then
    /// holds exactly the chain from genesis to the new root. `None` where
    /// the branch does not meet the chain.
    pub open spec fn root_actions(&self, id: HashValue, parent_id: HashValue) -> Option<
        Seq<StorageAction>,
    > {
        if self.root().id != parent_id {
            match self.find_ancestor_spec(parent_id) {
                None => None,
                Some((ancestors, fork)) => Some(
                    seq![StorageAction::Rollback(fork.id)] + ancestors.map_values(
                        |a: HashValue| StorageAction::Commit(a),
                    ).push(StorageAction::Commit(id)),
                ),
            }
        } else if self.spec_rollback_mode() && self.spec_height() + 1 - self.spec_tail_height()
            > 2 {
            Some(
                seq![
                    StorageAction::Rollback(self.block(parent_id).block_index.parent_id),
                    StorageAction::Commit(parent_id),
                    StorageAction::Commit(id),
                ],
            )
        } else {
            Some(seq![StorageAction::Commit(id)])
        }
    }

    #[verifier::rlimit(100)]
    pub fn find_ancestor_until_main_chain(&self, block_id: &HashValue) -> (r: Option<
        (Vec<HashValue>, BlockIndex),
    >)
        requires
            self.wf(),
        ensures
            r is None <==> self.find_ancestor_spec(*block_id) is None,
            r matches Some((v, f)) ==> self.find_ancestor_spec(*block_id) == Some((v@, f)),
    {
        let mut ancestors: Vec<HashValue> = Vec::new();
        let mut latest_id = *block_id;
        let mut fuel: u64 = self.height + 1;
        assert(self.ancestors_spec(latest_id, fuel as nat) == self.find_ancestor_spec(*block_id));
        assert(ancestors@ + Seq::<HashValue>::empty() =~= Seq::<HashValue>::empty());
        loop
            invariant
                self.wf(),
                self.find_ancestor_spec(*block_id) == match self.ancestors_spec(
                    latest_id,
                    fuel as nat,
                ) {
                    Some((s, f)) => Some((s + ancestors@, f)),
                    None => None,
                },
            decreases fuel,
        {
            let pos = match self.find_position(&latest_id) {
                Some(i) => i,
                None => return None,
            };
            let b = &self.id_to_block[pos];
            let h = b.height;
            let current_id = b.block_index.id;
            proof {
                lemma_position(self.blocks(), latest_id);
            }
            let len = self.main_chain.len();
            assert(self.tail_height <= h);
            assert(h - self.tail_height < len);
            if self.main_chain[(h - self.tail_height) as usize].id == current_id {
                assert(Seq::<HashValue>::empty() + ancestors@ =~= ancestors@);
                return Some((ancestors, b.block_index));
            }
            if fuel == 0 {
                return None;
            }
            let parent = b.block_index.parent_id;
            let parent_pos = match self.find_position(&parent) {
                Some(p) => p,
                None => return None,
            };
            if h == 0 || self.id_to_block[parent_pos].height != h - 1 {
                return None;
            }
            let ghost before = ancestors@;
            ancestors.insert(0, current_id);
            proof {
                assert forall|s: Seq<HashValue>| s.push(current_id) + before =~= s + ancestors@ by {}
            }
            latest_id = parent;
            fuel = fuel - 1;
        }
    }
}

/// The canonical entries of a branch `anc`, oldest first, whose first
/// block is a child of `fork_id`.
pub open spec fn branch_indexes(anc: Seq<HashValue>, fork_id: HashValue) -> Seq<BlockIndex> {
    Seq::new(
        anc.len(),
        |k: int|
            BlockIndex {
                id: anc[k],
                parent_id: if k == 0 {
                    fork_id
                } else {
                    anc[k - 1]
                },
            },
    )
}

impl<P> BlockTree<P> {
    /// The canonical chain once block `id` on `parent_id` is the new root:
    /// on a reorganisation, the chain up to the fork point, then the
    /// branch, then the new block; else the chain with the new block on top.
    pub open spec fn next_main_chain(&self, id: HashValue, parent_id: HashValue) -> Seq<
        BlockIndex,
    > {
        let tip = BlockIndex { id, parent_id };
        if self.root().id != parent_id {
            match self.find_ancestor_spec(parent_id) {
                Some((anc, fork)) => self.main_chain().take(self.block(fork.id).height + 1)
                    + branch_indexes(anc, fork.id) + seq![tip],
                None => self.main_chain().push(tip),
            }
        } else {
            self.main_chain().push(tip)
        }
    }
}

impl<P> BlockTree<P> {
    /// A block on `parent_id` extends the tip when the parent is at the tip
    /// height.
    pub open spec fn is_new_root(&self, parent_id: HashValue) -> bool {
        self.block(parent_id).height == self.spec_height()
    }

    /// What inserting block `id` on `parent_id` returns: the storage work,
    /// or why the block is refused.
    pub open spec fn insert_outcome(&self, id: HashValue, parent_id: HashValue) -> Result<
        Seq<StorageAction>,
        BlockTreeError,
    > {
        if self.has(id) {
            Err(BlockTreeError::BlockExists)
        } else if !self.has(parent_id) {
            Err(BlockTreeError::ParentMissing)
        } else if self.is_new_root(parent_id) {
            match self.root_actions(id, parent_id) {
                Some(actions) => Ok(actions),
                None => Err(BlockTreeError::ForkNotFound),
            }
        } else {
            Ok(Seq::empty())
        }
    }

    /// The tree after block `id` on `parent_id` was accepted: the block is
    /// one above its parent; a new root also extends the canonical chain.
    pub open spec fn inserted(
        &self,
        next: &Self,
        id: HashValue,
        parent_id: HashValue,
        timestamp_usecs: u64,
        output_commit_data: P,
    ) -> bool {
        let height = self.block(parent_id).height + 1;
        let info = BlockInfo {
            block_index: BlockIndex { id, parent_id },
            height: height as u64,
            timestamp_usecs,
            output_commit_data: Some(output_commit_data),
        };
        &&& next.blocks() == self.blocks().push(info)
        &&& next.spec_tail_height() == self.spec_tail_height()
        &&& next.spec_rollback_mode() == self.spec_rollback_mode()
        &&& if self.is_new_root(parent_id) {
            &&& next.spec_height() == height
            &&& next.main_chain() == self.next_main_chain(id, parent_id)
        } else {
            &&& next.spec_height() == self.spec_height()
            &&& next.main_chain() == self.main_chain()
        }
    }

    /// Inserts block `id` on `parent_id` and returns what storage must do,
    /// in order. A refused block leaves the tree as it was.
    #[verifier::rlimit(100)]
    pub fn add_block_info(
        &mut self,
        id: &HashValue,
        parent_id: &HashValue,
        timestamp_usecs: u64,
        output_commit_data: P,
    ) -> (r: Result<Vec<StorageAction>, BlockTreeError>)
        requires
            old(self).wf(),
            old(self).spec_height() + 1 < u64::MAX,
        ensures
            final(self).wf(),
            match r {
                Ok(actions) => old(self).insert_outcome(*id, *parent_id) == Ok::<
                    Seq<StorageAction>,
                    BlockTreeError,
                >(actions@),
                Err(e) => old(self).insert_outcome(*id, *parent_id) == Err::<
                    Seq<StorageAction>,
                    BlockTreeError,
                >(e),
            },
            r is Ok ==> old(self).inserted(
                final(self),
                *id,
                *parent_id,
                timestamp_usecs,
                output_commit_data,
            ),
            r is Err ==> *final(self) == *old(self),
    {
        let ghost old_tree = *self;
        proof {
            lemma_position(self.blocks(), *id);
            lemma_position(self.blocks(), *parent_id);
        }
        if self.find_position(id).is_some() {
            return Err(BlockTreeError::BlockExists);
        }
        let ppos = match self.find_position(parent_id) {
            Some(p) => p,
            None => return Err(BlockTreeError::ParentMissing),
        };
        let parent_height = self.id_to_block[ppos].height;
        let grandparent_id = self.id_to_block[ppos].block_index.parent_id;
        assert(parent_height <= self.height);
        let height = parent_height + 1;
        let mut actions: Vec<StorageAction> = Vec::new();
        let mut replacement: Option<Vec<BlockIndex>> = None;
        let new_root = parent_height == self.height;
        if new_root {
            let old_root = self.root_hash();
            if old_root != *parent_id {
                match self.find_ancestor_until_main_chain(parent_id) {
                    None => return Err(BlockTreeError::ForkNotFound),
                    Some((ancestors, fork)) => {
                        proof {
                            lemma_ancestors_shape(self, *parent_id, self.spec_height() + 1);
                        }
                        let fork_pos = match self.find_position(&fork.id) {
                            Some(p) => p,
                            None => return Err(BlockTreeError::ForkNotFound),
                        };
                        let fork_height = self.id_to_block[fork_pos].height;
                        actions.push(StorageAction::Rollback(fork.id));
                        let mut k: usize = 0;
                        while k < ancestors.len()
                            invariant
                                k <= ancestors@.len(),
                                actions@ == seq![StorageAction::Rollback(fork.id)]
                                    + ancestors@.take(k as int).map_values(
                                    |a: HashValue| StorageAction::Commit(a),
                                ),
                            decreases ancestors.len() - k,
                        {
                            actions.push(StorageAction::Commit(ancestors[k]));
                            k = k + 1;
                            assert(actions@ =~= seq![StorageAction::Rollback(fork.id)]
                                + ancestors@.take(k as int).map_values(
                                |a: HashValue| StorageAction::Commit(a),
                            ));
                        }
                        assert(ancestors@.take(k as int) =~= ancestors@);
                        replacement = Some(
                            self.rebuilt_chain(fork_height, &fork.id, &ancestors),
                        );
                        proof {
                            let ev = old_tree.main_chain().take(old_tree.spec_tail_height() as int);
                            assert(old_tree.main_chain() =~= ev + old_tree.retained_chain());
                        }
                    },
                }
            } else if self.rollback_mode && height - self.tail_height > 2 {
                actions.push(StorageAction::Rollback(grandparent_id));
                actions.push(StorageAction::Commit(*parent_id));
            }
            actions.push(StorageAction::Commit(*id));
            proof {
                let expected = self.root_actions(*id, *parent_id);
                assert(expected matches Some(a) && a =~= actions@);
            }
        }
        let info = BlockInfo::new(id, parent_id, height, timestamp_usecs, output_commit_data);
        let index = info.block_index;
        if new_root {
            match replacement {
                Some(chain) => {
                    self.main_chain = chain;
                },
                None => {},
            }
            self.height = height;
            self.main_chain.push(index);
            proof {
                assert(self.main_chain() =~= old_tree.next_main_chain(*id, *parent_id));
                assert(self.retained_chain() =~= self.main_chain().skip(
                    self.spec_tail_height() as int,
                ));
            }
        }
        self.id_to_block.push(info);
        proof {
            assert(self.retained_chain() =~= self.main_chain().skip(
                self.spec_tail_height() as int,
            ));
            lemma_insert_wf(&old_tree, self, *id, *parent_id, info);
        }
        Ok(actions)
    }
}

impl<P> BlockTree<P> {
    /// The lowest height that pruning keeps: a thousand heights behind the
    /// tip once the tree holds more than that, else the current tail.
    pub open spec fn pruned_tail(&self) -> nat {
        if self.spec_height() - self.spec_tail_height() > RETAINED_HEIGHTS {
            (self.spec_height() - RETAINED_HEIGHTS) as nat
        } else {
            self.spec_tail_height()
        }
    }

    /// Drops from memory every block below the pruned tail.
    #[verifier::rlimit(100)]
    pub fn prune(&mut self)
        requires
            old(self).wf(),
        ensures
            final(self).wf(),
            final(self).spec_tail_height() == old(self).pruned_tail(),
            final(self).retained_chain() == old(self).main_chain().skip(
                old(self).pruned_tail() as int,
            ),
            final(self).blocks() == old(self).blocks().filter(
                |b: BlockInfo<P>| b.height >= old(self).pruned_tail(),
            ),
            final(self).spec_height() == old(self).spec_height(),
            final(self).main_chain() == old(self).main_chain(),
            final(self).spec_rollback_mode() == old(self).spec_rollback_mode(),
    {
        if self.height - self.tail_height > RETAINED_HEIGHTS {
            let new_tail = self.height - RETAINED_HEIGHTS;
            let ghost old_blocks = self.id_to_block@;
            let ghost keep = |b: BlockInfo<P>| b.height >= new_tail;
            let ghost main = self.main_chain();
            let ghost rollback_mode = self.rollback_mode;
            let mut i: usize = 0;
            let ghost mut j: int = 0;
            assert(old_blocks.take(0).filter(keep) =~= Seq::<BlockInfo<P>>::empty());
            assert(old_blocks.skip(0) =~= old_blocks);
            while i < self.id_to_block.len()
                invariant
                    keep == (|b: BlockInfo<P>| b.height >= new_tail),
                    0 <= j <= old_blocks.len(),
                    i == old_blocks.take(j).filter(keep).len(),
                    self.id_to_block@ == old_blocks.take(j).filter(keep) + old_blocks.skip(j),
                    self.tail_height <= new_tail <= self.height,
                    self.main_chain().len() == self.height + 1,
                    self.retained_chain() == self.main_chain().skip(self.tail_height as int),
                    self.height < u64::MAX,
                    new_tail == self.height - RETAINED_HEIGHTS,
                    self.main_chain() == main,
                    self.rollback_mode == rollback_mode,
                    self.height == old(self).height,
                    unique_ids(self.id_to_block@),
                    forall|k: int|
                        0 <= k < self.id_to_block@.len() ==> self.tail_height <= (
                        #[trigger] self.id_to_block@[k]).height <= self.height,
                    forall|k: int|
                        0 <= k < i ==> (#[trigger] self.id_to_block@[k]).height >= new_tail,
                    forall|h: int|
                        new_tail <= h <= self.height ==> {
                            &&& self.has((#[trigger] self.main_chain()[h]).id)
                            &&& self.block(self.main_chain()[h].id).height == h
                            &&& self.block(self.main_chain()[h].id).block_index
                                == self.main_chain()[h]
                        },
                    forall|h: int|
                        new_tail < h <= self.height ==> (#[trigger] self.main_chain()[h]).parent_id
                            == self.main_chain()[h - 1].id,
                    forall|k: int|
                        0 <= k < self.id_to_block@.len() && (#[trigger] self.id_to_block@[k]).height
                            > new_tail ==> {
                            &&& self.has(self.id_to_block@[k].block_index.parent_id)
                            &&& self.block(self.id_to_block@[k].block_index.parent_id).height + 1
                                == self.id_to_block@[k].height
                        },
                decreases self.id_to_block@.len() - i,
            {
                let ghost before = self.id_to_block@;
                proof {
                    assert(old_blocks.take(j + 1) =~= old_blocks.take(j).push(old_blocks[j]));
                    assert(old_blocks.skip(j) =~= seq![old_blocks[j]] + old_blocks.skip(j + 1));
                    assert(before[i as int] == old_blocks[j]);
                }
                let ghost x = old_blocks[j];
                let ghost f = old_blocks.take(j).filter(keep);
                proof {
                    old_blocks.take(j).lemma_filter_push(x, keep);
                    assert(before =~= f + seq![x] + old_blocks.skip(j + 1));
                }
                if self.id_to_block[i].height < new_tail {
                    let ghost victim = before[i as int];
                    self.id_to_block.remove(i);
                    proof {
                        assert(!keep(x));
                        assert(old_blocks.take(j + 1).filter(keep) == f);
                        assert(self.id_to_block@ =~= f + old_blocks.skip(j + 1));
                        lemma_prune_removal(
                            before,
                            i as int,
                            self.main_chain(),
                            new_tail as int,
                            self.height as int,
                        );
                    }
                } else {
                    i = i + 1;
                    proof {
                        assert(keep(x));
                        assert(old_blocks.take(j + 1).filter(keep) == f.push(x));
                        assert(self.id_to_block@ =~= f.push(x) + old_blocks.skip(j + 1));
                    }
                }
                proof {
                    j = j + 1;
                }
            }
            proof {
                assert(j == old_blocks.len()) by {
                    if j < old_blocks.len() {
                        assert(self.id_to_block@.len() >= i + old_blocks.skip(j).len());
                    }
                }
                assert(old_blocks.take(j) =~= old_blocks);
                assert(old_blocks.skip(j) =~= Seq::<BlockInfo<P>>::empty());
                assert(self.id_to_block@ =~= old_blocks.filter(keep));
            }
            let ghost before_cut = self.main_chain();
            let cut = (new_tail - self.tail_height) as usize;
            let len = self.main_chain.len();
            assert(cut < len);
            let kept = self.main_chain.split_off(cut);
            let ghost dropped = self.main_chain@;
            self.main_chain = kept;
            self.evicted = Ghost(self.evicted@ + dropped);
            proof {
                assert(self.main_chain() =~= before_cut);
            }
            self.tail_height = new_tail;
            proof {
                assert(self.retained_chain() =~= self.main_chain().skip(self.tail_height as int));
                assert(keep =~= (|b: BlockInfo<P>| b.height >= old(self).pruned_tail()));
            }
        } else {
            proof {
                lemma_filter_all(self.blocks(), |b: BlockInfo<P>| b.height >= old(self).pruned_tail());
            }
        }
    }
}

impl<P> BlockTree<P> {
    /// The live block on the canonical chain at height `h`.
    pub fn block_at_height(&self, h: BlockHeight) -> (r: Option<&BlockInfo<P>>)
        requires
            self.wf(),
        ensures
            r is Some <==> self.spec_tail_height() <= h <= self.spec_height(),
            r matches Some(b) ==> *b == self.block(self.main_chain()[h as int].id),
    {
        if h < self.tail_height || h > self.height {
            return None;
        }
        let len = self.main_chain.len();
        assert(h - self.tail_height < len);
        let id = self.main_chain[(h - self.tail_height) as usize].id;
        self.find_block_info_by_block_id(&id)
    }

    /// The live blocks `ids`, in that order, if every one of them is live.
    pub fn find_block_infos_by_block_ids(&self, ids: &[HashValue]) -> (r: Option<Vec<&BlockInfo<P>>>)
        ensures
            r is Some <==> forall|k: int| 0 <= k < ids@.len() ==> self.has(#[trigger] ids@[k]),
            r matches Some(v) ==> v@.len() == ids@.len() && forall|k: int|
                0 <= k < ids@.len() ==> *(#[trigger] v@[k]) == self.block(ids@[k]),
    {
        let mut out: Vec<&BlockInfo<P>> = Vec::new();
        let mut k: usize = 0;
        while k < ids.len()
            invariant
                k <= ids@.len(),
                out@.len() == k,
                forall|m: int| 0 <= m < k ==> self.has(#[trigger] ids@[m]),
                forall|m: int| 0 <= m < k ==> *(#[trigger] out@[m]) == self.block(ids@[m]),
            decreases ids.len() - k,
        {
            match self.find_block_info_by_block_id(&ids[k]) {
                Some(b) => out.push(b),
                None => return None,
            }
            k = k + 1;
        }
        Some(out)
    }
}

/// What the walk back to the canonical chain finds: the fork point is a
/// live canonical block at height `fh`; the branch blocks are live, off the
/// canonical chain, at heights `fh + 1`, `fh + 2`, ..., each the child of the
/// one before, the first a child of the fork point and the last the block
/// the walk started from.
#[verifier::rlimit(100)]
pub proof fn lemma_ancestors_shape<P>(tree: &BlockTree<P>, id: HashValue, fuel: nat)
    requires
        tree.wf(),
        tree.ancestors_spec(id, fuel) is Some,
    ensures
        ({
            let (anc, fork) = tree.ancestors_spec(id, fuel).unwrap();
            let fh = tree.block(fork.id).height;
            &&& tree.has(fork.id)
            &&& tree.block(fork.id).block_index == fork
            &&& tree.spec_tail_height() <= fh <= tree.spec_height()
            &&& tree.main_chain()[fh as int].id == fork.id
            &&& tree.has(id)
            &&& tree.block(id).height == fh + anc.len()
            &&& anc.len() == 0 ==> fork.id == id
            &&& anc.len() > 0 ==> anc.last() == id
            &&& forall|k: int|
                0 <= k < anc.len() ==> {
                    &&& tree.has(#[trigger] anc[k])
                    &&& tree.block(anc[k]).height == fh + 1 + k
                    &&& tree.block(anc[k]).block_index == branch_indexes(anc, fork.id)[k]
                    &&& tree.main_chain()[fh + 1 + k].id != anc[k]
                }
        }),
    decreases fuel,
{
    lemma_position(tree.blocks(), id);
    let b = tree.block(id);
    if b.height <= tree.spec_height() && tree.main_chain()[b.height as int].id == id {
    } else {
        let p = b.block_index.parent_id;
        lemma_ancestors_shape(tree, p, (fuel - 1) as nat);
        let (s, f) = tree.ancestors_spec(p, (fuel - 1) as nat).unwrap();
        let anc = s.push(id);
        assert(tree.ancestors_spec(id, fuel) == Some((anc, f)));
        let fh = tree.block(f.id).height;
        assert forall|k: int| 0 <= k < anc.len() implies {
            &&& tree.has(#[trigger] anc[k])
            &&& tree.block(anc[k]).height == fh + 1 + k
            &&& tree.block(anc[k]).block_index == branch_indexes(anc, f.id)[k]
            &&& tree.main_chain()[fh + 1 + k].id != anc[k]
        } by {
            if k < s.len() {
                assert(anc[k] == s[k]);
                if k > 0 {
                    assert(anc[k - 1] == s[k - 1]);
                }
                assert(branch_indexes(anc, f.id)[k] == branch_indexes(s, f.id)[k]);
            } else {
                assert(anc[k] == id);
                if k > 0 {
                    assert(anc[k - 1] == s[k - 1]);
                }
            }
        }
    }
}

/// A block on a parent that is at the tip height but is not the root
/// becomes the new root through a reorganisation: storage gets one rollback
/// to the fork point, then one commit for each block of the branch
/// from just above the fork point up to the parent, oldest first, then one
/// for the new block. The branch holds the parent and is never empty.
#[verifier::rlimit(100)]
pub proof fn lemma_reorg<P>(tree: &BlockTree<P>, id: HashValue, parent_id: HashValue)
    requires
        tree.wf(),
        !tree.has(id),
        tree.has(parent_id),
        tree.is_new_root(parent_id),
        tree.root().id != parent_id,
        tree.find_ancestor_spec(parent_id) is Some,
    ensures
        ({
            let (anc, fork) = tree.find_ancestor_spec(parent_id).unwrap();
            let fh = tree.block(fork.id).height;
            &&& tree.insert_outcome(id, parent_id) == Ok::<Seq<StorageAction>, BlockTreeError>(
                seq![StorageAction::Rollback(fork.id)] + anc.map_values(
                    |a: HashValue| StorageAction::Commit(a),
                ).push(StorageAction::Commit(id)),
            )
            &&& anc.len() > 0
            &&& anc.len() == tree.spec_height() - fh
            &&& anc.last() == parent_id
            &&& tree.block(anc[0]).block_index.parent_id == fork.id
            &&& tree.main_chain()[fh as int].id == fork.id
            &&& forall|k: int|
                0 < k < anc.len() ==> tree.block(#[trigger] anc[k]).block_index.parent_id == anc[k
                    - 1]
            &&& forall|k: int|
                0 <= k < anc.len() ==> tree.block(#[trigger] anc[k]).height == fh + 1 + k
                    && tree.main_chain()[fh + 1 + k].id != anc[k]
            &&& tree.next_main_chain(id, parent_id) == tree.main_chain().take(fh + 1)
                + branch_indexes(anc, fork.id) + seq![BlockIndex { id, parent_id }]
            &&& forall|k: int|
                0 <= k < anc.len() ==> tree.next_main_chain(id, parent_id)[fh + 1 + k]
                    == tree.block(#[trigger] anc[k]).block_index
        }),
{
    lemma_ancestors_shape(tree, parent_id, tree.spec_height() + 1);
    let (anc, fork) = tree.find_ancestor_spec(parent_id).unwrap();
    let fh = tree.block(fork.id).height;
    if anc.len() == 0 {
        assert(fork.id == parent_id);
        assert(tree.block(parent_id).height == tree.spec_height());
    }
    let nm = tree.next_main_chain(id, parent_id);
    assert forall|k: int| 0 <= k < anc.len() implies nm[fh + 1 + k] == tree.block(
        #[trigger] anc[k],
    ).block_index by {
        assert(tree.main_chain().take(fh + 1).len() == fh + 1);
    }
    assert forall|k: int| 0 < k < anc.len() implies tree.block(#[trigger] anc[k]).block_index.parent_id
        == anc[k - 1] by {
        assert(tree.block(anc[k]).block_index == branch_indexes(anc, fork.id)[k]);
    }
    assert(tree.block(anc[0]).block_index == branch_indexes(anc, fork.id)[0]);
}

/// The tail never passes the tip, and no live block is below the tail.
pub proof fn lemma_tail_bounds<P>(tree: &BlockTree<P>, id: HashValue)
    requires
        tree.wf(),
    ensures
        tree.spec_tail_height() <= tree.spec_height(),
        tree.has(id) ==> tree.block(id).height >= tree.spec_tail_height(),
{
    lemma_position(tree.blocks(), id);
}

/// Every canonical entry held in memory names a live block at its height:
/// the entry `k` places above the tail is at height `tail + k`.
pub proof fn lemma_retained_live<P>(tree: &BlockTree<P>)
    requires
        tree.wf(),
    ensures
        tree.retained_chain().len() == tree.spec_height() + 1 - tree.spec_tail_height(),
        forall|k: int|
            0 <= k < tree.retained_chain().len() ==> tree.has(
                (#[trigger] tree.retained_chain()[k]).id,
            ) && tree.block(tree.retained_chain()[k].id).height == tree.spec_tail_height() + k
                && tree.block(tree.retained_chain()[k].id).block_index == tree.retained_chain()[k],
{
    let t = tree.spec_tail_height() as int;
    assert forall|k: int| 0 <= k < tree.retained_chain().len() implies tree.has(
        (#[trigger] tree.retained_chain()[k]).id,
    ) && tree.block(tree.retained_chain()[k].id).height == t + k && tree.block(
        tree.retained_chain()[k].id,
    ).block_index == tree.retained_chain()[k] by {
        assert(tree.retained_chain()[k] == tree.main_chain()[t + k]);
    }
}

/// After pruning, a block is found exactly when it was live and at or above
/// the new tail, and it is found with the same contents: nothing below the
/// tail can be looked up any more.
#[verifier::rlimit(100)]
pub proof fn lemma_pruned_lookup<P>(before: &BlockTree<P>, after: &BlockTree<P>, x: HashValue)
    requires
        before.wf(),
        after.wf(),
        after.blocks() == before.blocks().filter(
            |b: BlockInfo<P>| b.height >= after.spec_tail_height(),
        ),
    ensures
        after.has(x) <==> before.has(x) && before.block(x).height >= after.spec_tail_height(),
        after.has(x) ==> after.block(x) == before.block(x),
{
    let keep = |b: BlockInfo<P>| b.height >= after.spec_tail_height();
    let ob = before.blocks();
    let nb = after.blocks();
    lemma_position(ob, x);
    lemma_position(nb, x);
    if after.has(x) {
        let j = position(nb, x);
        ob.lemma_filter_pred(keep, j);
        assert(nb.contains(nb[j]));
        ob.lemma_filter_contains_rev(keep, nb[j]);
        let i = choose|i: int| 0 <= i < ob.len() && ob[i] == nb[j];
        lemma_position_unique(ob, x, i);
    }
    if before.has(x) && before.block(x).height >= after.spec_tail_height() {
        let i = position(ob, x);
        ob.lemma_filter_contains(keep, i);
        let j = choose|j: int| 0 <= j < nb.len() && nb[j] == ob[i];
        lemma_position_unique(nb, x, j);
    }
}

/// A block that was accepted is found by its identifier with the contents
/// it was inserted with; where it became the root, the canonical chain at
/// its height finds the same block.
pub proof fn lemma_round_trip<P>(
    before: &BlockTree<P>,
    after: &BlockTree<P>,
    id: HashValue,
    parent_id: HashValue,
    timestamp_usecs: u64,
    output_commit_data: P,
)
    requires
        before.wf(),
        after.wf(),
        !before.has(id),
        before.has(parent_id),
        before.inserted(after, id, parent_id, timestamp_usecs, output_commit_data),
    ensures
        after.has(id),
        after.block(id) == (BlockInfo {
            block_index: BlockIndex { id, parent_id },
            height: (before.block(parent_id).height + 1) as u64,
            timestamp_usecs,
            output_commit_data: Some(output_commit_data),
        }),
        before.is_new_root(parent_id) ==> after.main_chain()[after.spec_height() as int].id == id
            && after.block(after.main_chain()[after.spec_height() as int].id) == after.block(id),
{
    let info = after.blocks().last();
    lemma_position_push(before.blocks(), info, id);
    assert(after.blocks() == before.blocks().push(info));
}

/// The positions, in order, at which `is_user` holds: where a block's user
/// transactions stand among all its transactions.
pub open spec fn user_positions(is_user: Seq<bool>) -> Seq<usize>
    decreases is_user.len(),
{
    if is_user.len() == 0 {
        Seq::empty()
    } else if is_user.last() {
        user_positions(is_user.drop_last()).push((is_user.len() - 1) as usize)
    } else {
        user_positions(is_user.drop_last())
    }
}

/// The positions of a block's user transactions, given for each of its
/// transactions whether it is one.
pub fn signed_txn_positions(is_user: &[bool]) -> (r: Vec<usize>)
    ensures
        r@ == user_positions(is_user@),
{
    let mut out: Vec<usize> = Vec::new();
    let mut k: usize = 0;
    while k < is_user.len()
        invariant
            k <= is_user@.len(),
            out@ == user_positions(is_user@.take(k as int)),
        decreases is_user.len() - k,
    {
        assert(is_user@.take(k + 1).drop_last() =~= is_user@.take(k as int));
        if is_user[k] {
            out.push(k);
        }
        k = k + 1;
    }
    assert(is_user@.take(k as int) =~= is_user@);
    out
}

/// The statuses that belong to a committed block's user transactions: the
/// last `signed_len` of the `status_len` statuses its execution produced.
/// `None` where there are fewer statuses than user transactions.
pub fn commit_status_range(status_len: usize, signed_len: usize) -> (r: Option<(usize, usize)>)
    ensures
        r is Some <==> signed_len <= status_len,
        r matches Some((first, end)) ==> first == status_len - signed_len && end == status_len,
{
    if signed_len > status_len {
        None
    } else {
        Some((status_len - signed_len, status_len))
    }
}

impl<P> BlockTree<P> {
    /// The canonical chain up to `fork_height`, followed by the branch
    /// `ancestors` whose first block is a child of `fork_id`.
    fn rebuilt_chain(&self, fork_height: u64, fork_id: &HashValue, ancestors: &Vec<HashValue>) -> (r:
        Vec<BlockIndex>)
        requires
            self.wf(),
            self.spec_tail_height() <= fork_height <= self.spec_height(),
        ensures
            r@ == self.retained_chain().take(fork_height - self.spec_tail_height() + 1)
                + branch_indexes(ancestors@, *fork_id),
    {
        let mut chain: Vec<BlockIndex> = Vec::new();
        let mut j: usize = 0;
        let len = self.main_chain.len();
        assert(fork_height - self.tail_height < len);
        let end = (fork_height - self.tail_height) as usize + 1;
        while j < end
            invariant
                end == fork_height - self.tail_height + 1,
                end <= self.main_chain@.len(),
                j <= end,
                chain@ == self.main_chain@.take(j as int),
            decreases end - j,
        {
            chain.push(self.main_chain[j]);
            j = j + 1;
            assert(chain@ =~= self.main_chain@.take(j as int));
        }
        let ghost base = chain@;
        let mut prev = *fork_id;
        let mut k: usize = 0;
        while k < ancestors.len()
            invariant
                k <= ancestors@.len(),
                chain@ == base + branch_indexes(ancestors@, *fork_id).take(k as int),
                prev == if k == 0 {
                    *fork_id
                } else {
                    ancestors@[k - 1]
                },
            decreases ancestors.len() - k,
        {
            chain.push(BlockIndex { id: ancestors[k], parent_id: prev });
            prev = ancestors[k];
            k = k + 1;
            assert(chain@ =~= base + branch_indexes(ancestors@, *fork_id).take(k as int));
        }
        assert(branch_indexes(ancestors@, *fork_id).take(k as int) =~= branch_indexes(
            ancestors@,
            *fork_id,
        ));
        chain
    }
}

/// A chain linked from `tail` up to the fork point at `fh`, continued by a
/// branch whose first block is a child of the fork point and then by a tip
/// on the branch's last block, is linked from `tail` up to the tip.
proof fn lemma_chain_linked(
    m: Seq<BlockIndex>,
    tail: int,
    fh: int,
    anc: Seq<HashValue>,
    fork_id: HashValue,
    tip: BlockIndex,
)
    requires
        0 <= tail <= fh < m.len(),
        m[fh].id == fork_id,
        forall|h: int| tail < h <= fh ==> (#[trigger] m[h]).parent_id == m[h - 1].id,
        anc.len() > 0,
        tip.parent_id == anc.last(),
    ensures
        ({
            let nm = m.take(fh + 1) + branch_indexes(anc, fork_id) + seq![tip];
            forall|h: int| tail < h < nm.len() ==> (#[trigger] nm[h]).parent_id == nm[h - 1].id
        }),
{
    let bi = branch_indexes(anc, fork_id);
    let nm = m.take(fh + 1) + bi + seq![tip];
    assert forall|h: int| tail < h < nm.len() implies (#[trigger] nm[h]).parent_id == nm[h - 1].id by {
        if h <= fh {
            assert(nm[h] == m[h] && nm[h - 1] == m[h - 1]);
        } else if h == fh + 1 {
            assert(nm[h] == bi[0] && nm[h - 1] == m[fh]);
        } else if h <= fh + anc.len() {
            assert(nm[h] == bi[h - fh - 1] && nm[h - 1] == bi[h - fh - 2]);
        } else {
            assert(nm[h] == tip && nm[h - 1] == bi[anc.len() - 1]);
        }
    }
}

/// The live-entries part of the invariant after a reorganisation.
#[verifier::rlimit(100)]
proof fn lemma_insert_main_reorg_live<P>(
    old: &BlockTree<P>,
    new: &BlockTree<P>,
    id: HashValue,
    parent_id: HashValue,
    info: BlockInfo<P>,
)
    requires
        old.wf(),
        !old.has(id),
        old.has(parent_id),
        info.block_index == (BlockIndex { id, parent_id }),
        info.height == old.block(parent_id).height + 1,
        new.blocks() == old.blocks().push(info),
        new.spec_tail_height() == old.spec_tail_height(),
        old.is_new_root(parent_id),
        old.root().id != parent_id,
        if old.is_new_root(parent_id) {
            &&& new.spec_height() == old.spec_height() + 1
            &&& new.main_chain() == old.next_main_chain(id, parent_id)
            &&& old.root().id != parent_id ==> old.find_ancestor_spec(parent_id) is Some
        } else {
            &&& new.spec_height() == old.spec_height()
            &&& new.main_chain() == old.main_chain()
        },
    ensures
        forall|h: int|
            new.spec_tail_height() <= h <= new.spec_height() ==> {
                &&& new.has((#[trigger] new.main_chain()[h]).id)
                &&& new.block(new.main_chain()[h].id).height == h
                &&& new.block(new.main_chain()[h].id).block_index == new.main_chain()[h]
            },
{
    let ob = old.blocks();
    lemma_position(ob, id);
    assert forall|x: HashValue| x != id implies new.has(x) == old.has(x) && (old.has(x)
        ==> new.block(x) == old.block(x)) by {
        lemma_position_push(ob, info, x);
        lemma_position(ob, x);
    }
    lemma_position_push(ob, info, id);
    let m = old.main_chain();
    let nm = new.main_chain();
    let tip = BlockIndex { id, parent_id };
    lemma_ancestors_shape(old, parent_id, old.spec_height() + 1);
    let (anc, fork) = old.find_ancestor_spec(parent_id).unwrap();
    let fh = old.block(fork.id).height;
    let bi = branch_indexes(anc, fork.id);
    assert(anc.len() > 0);
    assert(anc.len() == old.spec_height() - fh);
    assert(nm == m.take(fh + 1) + bi + seq![tip]);
    assert forall|h: int| new.spec_tail_height() <= h <= new.spec_height() implies {
        &&& new.has((#[trigger] new.main_chain()[h]).id)
        &&& new.block(new.main_chain()[h].id).height == h
        &&& new.block(new.main_chain()[h].id).block_index == new.main_chain()[h]
    } by {
        if h <= fh {
            assert(nm[h] == m[h]);
            assert(old.has(m[h].id));
        } else if h <= old.spec_height() {
            let k = h - fh - 1;
            assert(nm[h] == bi[k]);
            assert(old.has(anc[k]));
        } else {
            assert(nm[h] == tip);
        }
    }
}

/// The linked-chain part of the invariant after a reorganisation.
#[verifier::rlimit(100)]
proof fn lemma_insert_main_reorg_linked<P>(
    old: &BlockTree<P>,
    new: &BlockTree<P>,
    id: HashValue,
    parent_id: HashValue,
    info: BlockInfo<P>,
)
    requires
        old.wf(),
        !old.has(id),
        old.has(parent_id),
        info.block_index == (BlockIndex { id, parent_id }),
        info.height == old.block(parent_id).height + 1,
        new.blocks() == old.blocks().push(info),
        new.spec_tail_height() == old.spec_tail_height(),
        old.is_new_root(parent_id),
        old.root().id != parent_id,
        if old.is_new_root(parent_id) {
            &&& new.spec_height() == old.spec_height() + 1
            &&& new.main_chain() == old.next_main_chain(id, parent_id)
            &&& old.root().id != parent_id ==> old.find_ancestor_spec(parent_id) is Some
        } else {
            &&& new.spec_height() == old.spec_height()
            &&& new.main_chain() == old.main_chain()
        },
    ensures
        forall|h: int|
            new.spec_tail_height() < h <= new.spec_height() ==> (#[trigger] new.main_chain()[h]).parent_id
                == new.main_chain()[h - 1].id,
        new.main_chain().len() == new.spec_height() + 1,
{
    let m = old.main_chain();
    let tip = BlockIndex { id, parent_id };
    lemma_ancestors_shape(old, parent_id, old.spec_height() + 1);
    let (anc, fork) = old.find_ancestor_spec(parent_id).unwrap();
    let fh = old.block(fork.id).height;
    assert(anc.len() > 0);
    lemma_chain_linked(m, old.spec_tail_height() as int, fh as int, anc, fork.id, tip);
}

/// The canonical-chain part of the invariant after a reorganisation.
#[verifier::rlimit(100)]
proof fn lemma_insert_main_reorg<P>(
    old: &BlockTree<P>,
    new: &BlockTree<P>,
    id: HashValue,
    parent_id: HashValue,
    info: BlockInfo<P>,
)
    requires
        old.wf(),
        !old.has(id),
        old.has(parent_id),
        info.block_index == (BlockIndex { id, parent_id }),
        info.height == old.block(parent_id).height + 1,
        new.blocks() == old.blocks().push(info),
        new.spec_tail_height() == old.spec_tail_height(),
        old.is_new_root(parent_id),
        old.root().id != parent_id,
        if old.is_new_root(parent_id) {
            &&& new.spec_height() == old.spec_height() + 1
            &&& new.main_chain() == old.next_main_chain(id, parent_id)
            &&& old.root().id != parent_id ==> old.find_ancestor_spec(parent_id) is Some
        } else {
            &&& new.spec_height() == old.spec_height()
            &&& new.main_chain() == old.main_chain()
        },
    ensures
        forall|h: int|
            new.spec_tail_height() <= h <= new.spec_height() ==> {
                &&& new.has((#[trigger] new.main_chain()[h]).id)
                &&& new.block(new.main_chain()[h].id).height == h
                &&& new.block(new.main_chain()[h].id).block_index == new.main_chain()[h]
            },
        forall|h: int|
            new.spec_tail_height() < h <= new.spec_height() ==> (#[trigger] new.main_chain()[h]).parent_id
                == new.main_chain()[h - 1].id,
        new.main_chain().len() == new.spec_height() + 1,
{
    lemma_insert_main_reorg_live(old, new, id, parent_id, info);
    lemma_insert_main_reorg_linked(old, new, id, parent_id, info);
}

/// The canonical-chain part of the invariant after an insertion.
#[verifier::rlimit(100)]
proof fn lemma_insert_main<P>(
    old: &BlockTree<P>,
    new: &BlockTree<P>,
    id: HashValue,
    parent_id: HashValue,
    info: BlockInfo<P>,
)
    requires
        old.wf(),
        !old.has(id),
        old.has(parent_id),
        info.block_index == (BlockIndex { id, parent_id }),
        info.height == old.block(parent_id).height + 1,
        new.blocks() == old.blocks().push(info),
        new.spec_tail_height() == old.spec_tail_height(),
        if old.is_new_root(parent_id) {
            &&& new.spec_height() == old.spec_height() + 1
            &&& new.main_chain() == old.next_main_chain(id, parent_id)
            &&& old.root().id != parent_id ==> old.find_ancestor_spec(parent_id) is Some
        } else {
            &&& new.spec_height() == old.spec_height()
            &&& new.main_chain() == old.main_chain()
        },
    ensures
        forall|h: int|
            new.spec_tail_height() <= h <= new.spec_height() ==> {
                &&& new.has((#[trigger] new.main_chain()[h]).id)
                &&& new.block(new.main_chain()[h].id).height == h
                &&& new.block(new.main_chain()[h].id).block_index == new.main_chain()[h]
            },
        forall|h: int|
            new.spec_tail_height() < h <= new.spec_height() ==> (#[trigger] new.main_chain()[h]).parent_id
                == new.main_chain()[h - 1].id,
        new.main_chain().len() == new.spec_height() + 1,
{
    let ob = old.blocks();
    lemma_position(ob, id);
    assert forall|x: HashValue| x != id implies new.has(x) == old.has(x) && (old.has(x)
        ==> new.block(x) == old.block(x)) by {
        lemma_position_push(ob, info, x);
        lemma_position(ob, x);
    }
    lemma_position_push(ob, info, id);
    if old.is_new_root(parent_id) {
        let m = old.main_chain();
        let nm = new.main_chain();
        let tip = BlockIndex { id, parent_id };
        if old.root().id != parent_id {
            lemma_insert_main_reorg(old, new, id, parent_id, info);
        } else {
            assert(nm == m.push(tip));
            assert forall|h: int| new.spec_tail_height() <= h <= new.spec_height() implies {
                &&& new.has((#[trigger] new.main_chain()[h]).id)
                &&& new.block(new.main_chain()[h].id).height == h
                &&& new.block(new.main_chain()[h].id).block_index == new.main_chain()[h]
            } by {
                if h <= old.spec_height() {
                    assert(nm[h] == m[h]);
                    assert(old.has(m[h].id));
                } else {
                    assert(nm[h] == tip);
                }
            }
            assert forall|h: int| new.spec_tail_height() < h <= new.spec_height() implies (
            #[trigger] new.main_chain()[h]).parent_id == new.main_chain()[h - 1].id by {
                if h <= old.spec_height() {
                    assert(nm[h] == m[h] && nm[h - 1] == m[h - 1]);
                } else {
                    assert(nm[h - 1] == m[old.spec_height() as int]);
                }
            }
        }
    } else {
        assert forall|h: int| new.spec_tail_height() <= h <= new.spec_height() implies {
            &&& new.has((#[trigger] new.main_chain()[h]).id)
            &&& new.block(new.main_chain()[h].id).height == h
            &&& new.block(new.main_chain()[h].id).block_index == new.main_chain()[h]
        } by {
            assert(old.has(old.main_chain()[h].id));
        }
    }
}

/// Inserting a block with a fresh identifier on a live parent, one height
/// above it, keeps the tree's invariant.
#[verifier::rlimit(100)]
proof fn lemma_insert_wf<P>(
    old: &BlockTree<P>,
    new: &BlockTree<P>,
    id: HashValue,
    parent_id: HashValue,
    info: BlockInfo<P>,
)
    requires
        old.wf(),
        !old.has(id),
        old.has(parent_id),
        info.block_index == (BlockIndex { id, parent_id }),
        info.height == old.block(parent_id).height + 1,
        new.blocks() == old.blocks().push(info),
        new.spec_tail_height() == old.spec_tail_height(),
        new.retained_chain() == new.main_chain().skip(new.spec_tail_height() as int),
        new.spec_height() < u64::MAX,
        if old.is_new_root(parent_id) {
            &&& new.spec_height() == old.spec_height() + 1
            &&& new.main_chain() == old.next_main_chain(id, parent_id)
            &&& old.root().id != parent_id ==> old.find_ancestor_spec(parent_id) is Some
        } else {
            &&& new.spec_height() == old.spec_height()
            &&& new.main_chain() == old.main_chain()
        },
    ensures
        new.wf(),
{
    let ob = old.blocks();
    let nb = new.blocks();
    lemma_position(ob, id);
    lemma_position(ob, parent_id);
    lemma_position_push(ob, info, id);
    assert forall|x: HashValue| x != id implies new.has(x) == old.has(x) && (old.has(x)
        ==> new.block(x) == old.block(x)) by {
        lemma_position_push(ob, info, x);
        lemma_position(ob, x);
    }
    assert(new.has(id) && new.block(id) == info);
    assert(unique_ids(nb)) by {
        assert forall|i: int, j: int| 0 <= i < j < nb.len() implies (#[trigger] nb[i]).block_index.id
            != (#[trigger] nb[j]).block_index.id by {
            if j == ob.len() {
                assert(nb[i] == ob[i]);
            } else {
                assert(nb[i] == ob[i] && nb[j] == ob[j]);
            }
        }
    }
    assert forall|i: int| 0 <= i < nb.len() implies new.spec_tail_height() <= (
    #[trigger] nb[i]).height <= new.spec_height() by {
        if i < ob.len() {
            assert(nb[i] == ob[i]);
        }
    }
    assert forall|i: int|
        0 <= i < nb.len() && (#[trigger] nb[i]).height > new.spec_tail_height() implies {
        &&& new.has(nb[i].block_index.parent_id)
        &&& new.block(nb[i].block_index.parent_id).height + 1 == nb[i].height
    } by {
        if i < ob.len() {
            assert(nb[i] == ob[i]);
            assert(old.has(ob[i].block_index.parent_id));
        }
    }
    lemma_insert_main(old, new, id, parent_id, info);
}

impl<P> BlockInfo<P> {
    pub open spec fn genesis_block_info_spec() -> Self {
        BlockInfo {
            block_index: BlockIndex { id: genesis_id_spec(), parent_id: pre_genesis_id_spec() },
            height: 0,
            timestamp_usecs: 0,
            output_commit_data: None,
        }
    }

    pub fn new(
        id: &HashValue,
        parent_id: &HashValue,
        height: BlockHeight,
        timestamp_usecs: u64,
        output_commit_data: P,
    ) -> (r: Self)
        ensures
            r.block_index == (BlockIndex { id: *id, parent_id: *parent_id }),
            r.height == height,
            r.timestamp_usecs == timestamp_usecs,
            r.output_commit_data == Some(output_commit_data),
    {
        Self::new_inner(id, parent_id, height, timestamp_usecs, Some(output_commit_data))
    }

    fn new_inner(
        id: &HashValue,
        parent_id: &HashValue,
        height: BlockHeight,
        timestamp_usecs: u64,
        output_commit_data: Option<P>,
    ) -> (r: Self)
        ensures
            r.block_index == (BlockIndex { id: *id, parent_id: *parent_id }),
            r.height == height,
            r.timestamp_usecs == timestamp_usecs,
            r.output_commit_data == output_commit_data,
    {
        BlockInfo { block_index: BlockIndex::new(id, parent_id), height, timestamp_usecs, output_commit_data }
    }

    pub fn genesis_block_info() -> (r: Self)
        ensures
            r == Self::genesis_block_info_spec(),
    {
        Self::new_inner(&genesis_id(), &pre_genesis_id(), 0, 0, None)
    }

    pub fn block_index(&self) -> (r: BlockIndex)
        ensures
            r == self.block_index,
    {
        self.block_index
    }

    pub fn timestamp_usecs(&self) -> (r: u64)
        ensures
            r == self.timestamp_usecs,
    {
        self.timestamp_usecs
    }

    pub fn id(&self) -> (r: HashValue)
        ensures
            r == self.block_index.id,
    {
        self.block_index.id
    }

    pub fn height(&self) -> (r: BlockHeight)
        ensures
            r == self.height,
    {
        self.height
    }

    pub fn parent_id(&self) -> (r: HashValue)
        ensures
            r == self.block_index.parent_id,
    {
        self.block_index.parent_id
    }
}

} // verus!
