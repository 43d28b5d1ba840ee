//! The in-memory ledger: an append-only store of blocks keyed by content
//! hash, with backward ancestry validation, a tracked tip, and support for
//! bounded checkpoint snapshots.
//!
//! A candidate block is accepted only if the backward walk along
//! `previous_hash` pointers, through the locally held blocks, ends at a
//! genesis block. Where the walk leaves local history instead (a
//! checkpoint boundary), the policy adopted here accepts the dangling
//! reference only once the walk has visited the entire local working
//! set: local history must corroborate the candidate as far as it
//! reaches. After a flush this lets the next mined block re-root the
//! working set on the flushed tip, so checkpoints keep accumulating in
//! ascending order of their id ranges.

use crate::block::{spec_validate, Block, BlockView};
use crate::hashing::dec_str_of;
use crate::starts_with_target;
use vstd::prelude::*;

verus! {

/// How an operation on the ledger can fail.
#[derive(Debug, PartialEq, Eq)]
pub enum ChainError {
    /// A block fails the shallow self-consistency check on its own.
    InvalidBlock,
    /// The backward ancestry walk from a candidate block fails.
    InvalidChain,
    /// A checkpoint cannot be produced: the working set is empty or its
    /// tip dangles, or writing the snapshot failed.
    SaveError,
}

/// Pairwise distinct content hashes: what keying a store by hash preserves.
pub open spec fn distinct_hashes(s: Seq<BlockView>) -> bool {
    forall|i: int, j: int| 0 <= i < j < s.len() ==> s[i].hash != s[j].hash
}

/// The index of the first block in `s` whose hash is `h`, or -1.
pub open spec fn spec_find_index(s: Seq<BlockView>, h: Seq<char>) -> int
    decreases s.len(),
{
    if s.len() == 0 {
        -1
    } else if s[0].hash == h {
        0
    } else {
        let r = spec_find_index(s.drop_first(), h);
        if r == -1 {
            -1
        } else {
            r + 1
        }
    }
}

/// The first block in `s` whose hash is `h`, if any.
pub open spec fn spec_find(s: Seq<BlockView>, h: Seq<char>) -> Option<BlockView> {
    let i = spec_find_index(s, h);
    if i == -1 {
        None
    } else {
        Some(s[i])
    }
}

/// `spec_find_index` returns -1 exactly when no block matches, and
/// otherwise the first matching position.
pub proof fn lemma_find_index(s: Seq<BlockView>, h: Seq<char>)
    ensures
        spec_find_index(s, h) == -1 ==> forall|k: int| 0 <= k < s.len() ==> s[k].hash != h,
        spec_find_index(s, h) != -1 ==> {
            let i = spec_find_index(s, h);
            &&& 0 <= i < s.len()
            &&& s[i].hash == h
            &&& forall|k: int| 0 <= k < i ==> s[k].hash != h
        },
    decreases s.len(),
{
    if s.len() > 0 && s[0].hash != h {
        let t = s.drop_first();
        lemma_find_index(t, h);
        let r = spec_find_index(t, h);
        if r == -1 {
            assert forall|k: int| 0 <= k < s.len() implies s[k].hash != h by {
                if k > 0 {
                    assert(t[k - 1] == s[k]);
                    assert(t[k - 1].hash != h);
                }
            }
        } else {
            assert(spec_find_index(s, h) == r + 1);
            assert(s[r + 1] == t[r]);
            assert forall|k: int| 0 <= k < r + 1 implies s[k].hash != h by {
                if k > 0 {
                    assert(t[k - 1] == s[k]);
                    assert(t[k - 1].hash != h);
                }
            }
        }
    }
}

/// The backward ancestry walk, with fuel bounding the number of steps
/// into locally held parents. Each visited block must pass the shallow
/// check. Callers grant the store's size as fuel, so a missing parent
/// (a checkpoint boundary) is tolerated exactly when the fuel is spent,
/// that is when every locally held block has been visited on the way;
/// a found parent with no fuel left means a reference cycle and rejects.
pub open spec fn spec_walk(s: Seq<BlockView>, b: BlockView, fuel: nat) -> bool
    decreases fuel,
{
    if !spec_validate(b) {
        false
    } else {
        match b.previous_hash {
            None => true,
            Some(h) => match spec_find(s, h) {
                None => fuel == 0,
                Some(p) => fuel > 0 && spec_walk(s, p, (fuel - 1) as nat),
            },
        }
    }
}

/// The sequence id of the deepest locally held ancestor of `b`, walking
/// `previous_hash` pointers until they leave the store; `None` when the
/// fuel runs out (a reference cycle).
pub open spec fn spec_deepest_id(s: Seq<BlockView>, b: BlockView, fuel: nat) -> Option<u32>
    decreases fuel,
{
    match b.previous_hash {
        None => Some(b.node_id),
        Some(h) => match spec_find(s, h) {
            None => Some(b.node_id),
            Some(p) => if fuel == 0 {
                None
            } else {
                spec_deepest_id(s, p, (fuel - 1) as nat)
            },
        },
    }
}

/// Inserting keyed by hash: replace the first block with the same hash,
/// else append.
pub open spec fn spec_insert(s: Seq<BlockView>, b: BlockView) -> Seq<BlockView> {
    let i = spec_find_index(s, b.hash);
    if i == -1 {
        s.push(b)
    } else {
        s.update(i, b)
    }
}

/// The working set crosses this size, and the next checkpoint is due.
pub const CHECKPOINT_THRESHOLD: usize = 50;

/// The in-memory ledger: blocks with pairwise distinct hashes, plus the
/// hash and sequence id of the most recently added block.
pub struct Chain {
    blocks: Vec<Block>,
    latest_block_hash: Option<String>,
    latest_block_id: u32,
}

impl Chain {
    /// The stored blocks, in insertion order.
    pub closed spec fn blocks_view(self) -> Seq<BlockView> {
        self.blocks@.map_values(|b: Block| b@)
    }

    /// The hash of the most recently added block, if any.
    pub closed spec fn latest_hash_view(self) -> Option<Seq<char>> {
        crate::block::opt_str_view(self.latest_block_hash)
    }

    /// The sequence id of the most recently added block (0 before any).
    pub closed spec fn latest_id(self) -> u32 {
        self.latest_block_id
    }

    /// The store invariant: hashes are pairwise distinct.
    pub open spec fn wf(self) -> bool {
        distinct_hashes(self.blocks_view())
    }

    /// The range a checkpoint of the current working set would cover:
    /// (deepest ancestor's id, tip's id), absent when the store is empty,
    /// the tip dangles, or the walk cycles.
    pub open spec fn spec_checkpoint_range(self) -> Option<(u32, u32)> {
        match self.latest_hash_view() {
            None => None,
            Some(h) => match spec_find(self.blocks_view(), h) {
                None => None,
                Some(tip) => match spec_deepest_id(
                    self.blocks_view(),
                    tip,
                    self.blocks_view().len() as nat,
                ) {
                    None => None,
                    Some(d) => Some((d, tip.node_id)),
                },
            },
        }
    }

    /// An empty ledger.
    pub fn new() -> (c: Chain)
        ensures
            c.wf(),
            c.blocks_view() == Seq::<BlockView>::empty(),
            c.latest_hash_view() is None,
            c.latest_id() == 0,
    {
        let c = Chain { blocks: Vec::new(), latest_block_hash: None, latest_block_id: 0 };
        proof {
            assert(c.blocks_view() =~= Seq::<BlockView>::empty());
        }
        c
    }

    /// The number of blocks in the working set.
    pub fn len(&self) -> (r: usize)
        ensures
            r == self.blocks_view().len(),
    {
        self.blocks.len()
    }

    fn position_of(&self, h: &String) -> (r: Option<usize>)
        ensures
            match r {
                Some(i) => spec_find_index(self.blocks_view(), h@) == i,
                None => spec_find_index(self.blocks_view(), h@) == -1,
            },
    {
        let ghost s = self.blocks_view();
        proof {
            lemma_find_index(s, h@);
        }
        let mut i: usize = 0;
        while i < self.blocks.len()
            invariant
                s == self.blocks_view(),
                i <= self.blocks.len(),
                s.len() == self.blocks.len(),
                forall|k: int| 0 <= k < i ==> s[k].hash != h@,
                spec_find_index(s, h@) == -1 || spec_find_index(s, h@) >= i,
            decreases self.blocks.len() - i,
        {
            proof {
                lemma_find_index(s, h@);
            }
            if self.blocks[i].hash == *h {
                proof {
                    assert(s[i as int] == self.blocks@[i as int]@);
                    assert(s[i as int].hash == h@);
                    let idx = spec_find_index(s, h@);
                    assert(idx != -1);
                    if idx < i {
                        assert(s[idx].hash == h@);
                    } else if idx > i {
                        assert(s[i as int].hash != h@);
                    }
                }
                return Some(i);
            }
            proof {
                assert(s[i as int] == self.blocks@[i as int]@);
            }
            i = i + 1;
        }
        None
    }

    /// Walks backward from `block` through locally held ancestors and
    /// reports whether the candidate extends a valid chain. The walk is
    /// bounded by the store size, so it terminates even on adversarial
    /// reference cycles.
    pub fn verify_chain(&self, block: &Block) -> (r: bool)
        ensures
            r == spec_walk(self.blocks_view(), block@, self.blocks_view().len() as nat),
    {
        let ghost s = self.blocks_view();
        let mut fuel: usize = self.blocks.len();
        let mut current: &Block = block;
        loop
            invariant
                s == self.blocks_view(),
                s.len() == self.blocks.len(),
                fuel <= self.blocks.len(),
                spec_walk(s, block@, s.len() as nat) == spec_walk(s, current@, fuel as nat),
            decreases fuel,
        {
            if !current.validate_block() {
                return false;
            }
            match &current.previous_hash {
                None => {
                    return true;
                },
                Some(h) => {
                    match self.position_of(h) {
                        None => {
                            return fuel == 0;
                        },
                        Some(i) => {
                            proof {
                                lemma_find_index(s, h@);
                            }
                            if fuel == 0 {
                                return false;
                            }
                            fuel = fuel - 1;
                            current = &self.blocks[i];
                        },
                    }
                },
            }
        }
    }

    /// Validates the candidate against local history and, on success,
    /// stores it keyed by its hash and makes it the tip. A rejected block
    /// is discarded and the ledger is unchanged.
    ///
    /// Once `needs_checkpoint` reports the threshold crossed, the caller
    /// flushes (prepare, write, clear) before touching the working set
    /// again, so that an insert and its flush form one ordered step.
    pub fn add_block(&mut self, block: Block) -> (r: Result<(), ChainError>)
        requires
            old(self).wf(),
        ensures
            final(self).wf(),
            spec_walk(old(self).blocks_view(), block@, old(self).blocks_view().len() as nat)
                ==> {
                &&& r == Ok::<(), ChainError>(())
                &&& final(self).blocks_view() == spec_insert(old(self).blocks_view(), block@)
                &&& final(self).latest_hash_view() == Some(block@.hash)
                &&& final(self).latest_id() == block@.node_id
            },
            !spec_walk(old(self).blocks_view(), block@, old(self).blocks_view().len() as nat)
                ==> {
                &&& r == Err::<(), ChainError>(ChainError::InvalidChain)
                &&& *final(self) == *old(self)
            },
    {
        let ghost s = self.blocks_view();
        if !self.verify_chain(&block) {
            return Err(ChainError::InvalidChain);
        }
        let block_hash = block.hash.clone();
        let block_id = block.node_id;
        proof {
            lemma_find_index(s, block@.hash);
        }
        match self.position_of(&block.hash) {
            Some(i) => {
                self.blocks.set(i, block);
            },
            None => {
                self.blocks.push(block);
            },
        }
        self.latest_block_hash = Some(block_hash);
        self.latest_block_id = block_id;
        proof {
            assert(self.blocks_view() =~= spec_insert(s, block@));
            assert forall|i: int, j: int|
                0 <= i < j < self.blocks_view().len() implies self.blocks_view()[i].hash
                != self.blocks_view()[j].hash by {
                lemma_find_index(s, block@.hash);
            }
        }
        Ok(())
    }

    /// The oldest and newest sequence ids in the working set, found by
    /// walking from the tip to the deepest locally held ancestor; `None`
    /// when the store is empty or the tip is not held locally.
    pub fn get_min_max_block_id(&self) -> (r: Option<(u32, u32)>)
        ensures
            r == self.spec_checkpoint_range(),
    {
        let ghost s = self.blocks_view();
        let tip: &Block = match &self.latest_block_hash {
            None => {
                return None;
            },
            Some(lh) => {
                match self.position_of(lh) {
                    None => {
                        return None;
                    },
                    Some(i) => {
                        proof {
                            lemma_find_index(s, lh@);
                        }
                        &self.blocks[i]
                    },
                }
            },
        };
        let first_id = tip.node_id;
        let mut fuel: usize = self.blocks.len();
        let mut current: &Block = tip;
        loop
            invariant
                s == self.blocks_view(),
                s.len() == self.blocks.len(),
                fuel <= self.blocks.len(),
                self.spec_checkpoint_range() matches Some((d, f)) ==> f == first_id,
                ({
                    let whole = spec_deepest_id(s, current@, fuel as nat);
                    match self.spec_checkpoint_range() {
                        None => whole is None,
                        Some((d, f)) => whole == Some(d) && f == first_id,
                    }
                }),
            decreases fuel,
        {
            match &current.previous_hash {
                None => {
                    return Some((current.node_id, first_id));
                },
                Some(h) => {
                    match self.position_of(h) {
                        None => {
                            return Some((current.node_id, first_id));
                        },
                        Some(i) => {
                            proof {
                                lemma_find_index(s, h@);
                            }
                            if fuel == 0 {
                                return None;
                            }
                            fuel = fuel - 1;
                            current = &self.blocks[i];
                        },
                    }
                },
            }
        }
    }

    /// Whether the working set has reached the size at which a checkpoint
    /// is due.
    pub fn needs_checkpoint(&self) -> (r: bool)
        ensures
            r == (self.blocks_view().len() >= CHECKPOINT_THRESHOLD),
    {
        self.blocks.len() >= CHECKPOINT_THRESHOLD
    }

    /// Empties the working set after a snapshot has been written. The tip
    /// bookkeeping survives, as the flushed history does on disk.
    pub fn clear_working_set(&mut self)
        ensures
            final(self).wf(),
            final(self).blocks_view() == Seq::<BlockView>::empty(),
            final(self).latest_hash_view() == old(self).latest_hash_view(),
            final(self).latest_id() == old(self).latest_id(),
    {
        self.blocks = Vec::new();
        proof {
            assert(self.blocks_view() =~= Seq::<BlockView>::empty());
        }
    }

    /// What the next mined block should reference: the tip's hash and the
    /// successor sequence id, or no reference and the current id for an
    /// empty ledger. `None` when the tip is not held locally or its id
    /// has no successor.
    pub fn next_block_context(&self) -> (r: Option<(Option<String>, u32)>)
        ensures
            match self.latest_hash_view() {
                None => r matches Some((p, id)) && p is None && id == self.latest_id(),
                Some(lh) => match spec_find(self.blocks_view(), lh) {
                    None => r is None,
                    Some(tip) => if self.latest_id() < u32::MAX {
                        r matches Some((p, id)) && (p matches Some(ph) && ph@ == tip.hash)
                            && id == self.latest_id() + 1
                    } else {
                        r is None
                    },
                },
            },
    {
        let ghost s = self.blocks_view();
        match &self.latest_block_hash {
            None => Some((None, self.latest_block_id)),
            Some(lh) => {
                match self.position_of(lh) {
                    None => None,
                    Some(i) => {
                        proof {
                            lemma_find_index(s, lh@);
                        }
                        if self.latest_block_id < u32::MAX {
                            Some((Some(self.blocks[i].hash.clone()), self.latest_block_id + 1))
                        } else {
                            None
                        }
                    },
                }
            },
        }
    }
}

/// The file name a checkpoint covering sequence ids `min` to `max` is
/// written under.
pub open spec fn spec_checkpoint_name(min: u32, max: u32) -> Seq<char> {
    "chain-"@ + dec_str_of(min as nat) + "-"@ + dec_str_of(max as nat) + ".chain.part"@
}

/// A checkpoint snapshot ready to be written: the file name it belongs
/// under and the encoded working set.
pub struct Checkpoint {
    pub file_name: String,
    pub data: Vec<u8>,
}

impl Chain {
    /// Serializes the whole working set into a checkpoint snapshot named
    /// after the sequence-id range it covers. Fails with `SaveError` when
    /// the working set is empty or its tip dangles, and changes nothing:
    /// clearing is a separate step, taken only once the snapshot is
    /// safely written.
    pub fn prepare_checkpoint(&self) -> (r: Result<Checkpoint, ChainError>)
        ensures
            match r {
                Ok(cp) => {
                    &&& self.spec_checkpoint_range() matches Some((min, max))
                        && cp.file_name@ == spec_checkpoint_name(min, max)
                    &&& cp.data@ == crate::codec::spec_enc_chain(self.blocks_view())
                },
                Err(e) => self.spec_checkpoint_range() is None && e == ChainError::SaveError,
            },
    {
        let (min, max) = match self.get_min_max_block_id() {
            None => {
                return Err(ChainError::SaveError);
            },
            Some(range) => range,
        };
        let mut name = String::from_str("chain-");
        crate::hashing::push_decimal(&mut name, min);
        name.append("-");
        crate::hashing::push_decimal(&mut name, max);
        name.append(".chain.part");
        proof {
            assert(name@ =~= spec_checkpoint_name(min, max));
        }
        let data = crate::codec::encode_chain(&self.blocks);
        Ok(Checkpoint { file_name: name, data })
    }
}

/// A candidate whose predecessor hash is absent from a non-empty store
/// fails the ancestry walk as `verify_chain` runs it, in particular one
/// whose sequence id is not 0. Only on an empty working set (right after
/// a flush) is such an orphan root accepted.
pub proof fn lemma_orphan_non_genesis_rejected(s: Seq<BlockView>, b: BlockView)
    requires
        b.previous_hash matches Some(h) && spec_find(s, h) is None,
        b.node_id != 0,
        s.len() > 0,
    ensures
        !spec_walk(s, b, s.len() as nat),
{
}

/// A store holding exactly a sequentially linked chain: block i carries
/// sequence id i, genesis stands first and references nothing, every
/// later block references its predecessor's hash, every hash meets the
/// target, and hashes are pairwise distinct.
pub open spec fn sequentially_linked(s: Seq<BlockView>) -> bool {
    &&& forall|i: int| 0 <= i < s.len() ==> #[trigger] s[i].node_id == i
    &&& s.len() > 0 ==> s[0].previous_hash is None
    &&& forall|i: int| 1 <= i < s.len() ==> #[trigger] s[i].previous_hash == Some(
        s[i - 1].hash,
    )
    &&& forall|i: int| 0 <= i < s.len() ==> starts_with_target(#[trigger] s[i].hash)
    &&& distinct_hashes(s)
}

proof fn lemma_linked_chain_index_verifies(s: Seq<BlockView>, i: int, fuel: nat)
    requires
        sequentially_linked(s),
        0 <= i < s.len(),
        fuel >= i,
    ensures
        spec_walk(s, s[i], fuel),
    decreases i,
{
    if i > 0 {
        let h = s[i - 1].hash;
        lemma_find_index(s, h);
        let idx = spec_find_index(s, h);
        assert(idx != -1);
        if idx != i - 1 {
            assert(s[idx].hash == s[i - 1].hash);
            assert(false);
        }
        lemma_linked_chain_index_verifies(s, i - 1, (fuel - 1) as nat);
    }
}

/// A sequentially linked chain of N blocks with ids 0..N-1 validates
/// fully: the ancestry walk from its tip, with the fuel `verify_chain`
/// grants, succeeds.
pub proof fn lemma_linked_chain_tip_verifies(s: Seq<BlockView>)
    requires
        sequentially_linked(s),
        s.len() > 0,
    ensures
        spec_walk(s, s[s.len() - 1], s.len() as nat),
{
    lemma_linked_chain_index_verifies(s, s.len() - 1, s.len() as nat);
}

proof fn lemma_flip_aux(s: Seq<BlockView>, t: Seq<BlockView>, k: int, i: int)
    requires
        sequentially_linked(s),
        t.len() == s.len(),
        0 <= k < s.len() - 1,
        forall|j: int| 0 <= j < s.len() && j != k ==> t[j] == s[j],
        t[k].hash != s[k].hash,
        distinct_hashes(t),
        k + 1 <= i < s.len(),
    ensures
        !spec_walk(t, t[i], (i + 1) as nat),
    decreases i,
{
    assert(t[i] == s[i]);
    let h = s[i - 1].hash;
    assert(t[i].previous_hash == Some(h));
    lemma_find_index(t, h);
    let idx = spec_find_index(t, h);
    if i - 1 == k {
        if idx != -1 {
            assert(t[idx].hash == h);
            if idx == k {
                assert(false);
            } else {
                assert(t[idx] == s[idx]);
                assert(s[idx].hash == s[k].hash);
                assert(false);
            }
        }
        assert(spec_find(t, h) is None);
    } else {
        assert(t[i - 1] == s[i - 1]);
        assert(idx != -1);
        if idx != i - 1 {
            assert(t[idx].hash == t[i - 1].hash);
            assert(false);
        }
        assert(spec_find(t, h) == Some(t[i - 1]));
        lemma_flip_aux(s, t, k, i - 1);
    }
}

/// Tampering detection: if the stored hash of any block below the tip is
/// changed (so the store still holds pairwise distinct hashes), the
/// ancestry walk from the tip, as `verify_chain` runs it, fails.
pub proof fn lemma_flipped_interior_hash_rejected(s: Seq<BlockView>, t: Seq<BlockView>, k: int)
    requires
        sequentially_linked(s),
        t.len() == s.len(),
        0 <= k < s.len() - 1,
        forall|j: int| 0 <= j < s.len() && j != k ==> t[j] == s[j],
        t[k].hash != s[k].hash,
        distinct_hashes(t),
    ensures
        !spec_walk(t, t[t.len() - 1], t.len() as nat),
{
    lemma_flip_aux(s, t, k, s.len() - 1);
}

/// The same, stated as a single-character flip: change exactly one
/// character of the stored hash of a block below the tip. The store must
/// still hold pairwise distinct hashes afterwards: a flip that lands on
/// another stored block's hash could hand the walk a wrong parent.
pub proof fn lemma_single_char_flip_rejected(s: Seq<BlockView>, t: Seq<BlockView>, k: int, p: int)
    requires
        sequentially_linked(s),
        t.len() == s.len(),
        0 <= k < s.len() - 1,
        forall|j: int| 0 <= j < s.len() && j != k ==> t[j] == s[j],
        t[k].hash.len() == s[k].hash.len(),
        0 <= p < s[k].hash.len(),
        t[k].hash[p] != s[k].hash[p],
        distinct_hashes(t),
    ensures
        !spec_walk(t, t[t.len() - 1], t.len() as nat),
{
    assert(t[k].hash != s[k].hash);
    lemma_flipped_interior_hash_rejected(s, t, k);
}

} // verus!
