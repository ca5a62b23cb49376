//! The block store: archived anchor and execution blocks by hash, the hash of
//! each height, the chain tips, and the contracts that blocks deploy.
use crate::table::Table;
use crate::types::{
    BitcoinBlockData, BlockIdentifier, StacksBlockData, StacksMicroblockData,
    StacksMicroblocksTrail, StacksTransactionData, StacksTransactionKind, TransactionIdentifier,
};
use vstd::prelude::*;

verus! {

impl View for StacksBlockData {
    type V = StacksBlockData;

    open spec fn view(&self) -> StacksBlockData {
        *self
    }
}

impl View for BitcoinBlockData {
    type V = BitcoinBlockData;

    open spec fn view(&self) -> BitcoinBlockData {
        *self
    }
}

impl View for StacksMicroblockData {
    type V = StacksMicroblockData;

    open spec fn view(&self) -> StacksMicroblockData {
        *self
    }
}

/// Where and how a contract was deployed.
#[derive(Clone, Debug)]
pub struct ContractInstanciation {
    /// Also known as the block height.
    pub block_identifier: BlockIdentifier,
    pub tx_identifier: TransactionIdentifier,
    pub code: String,
}

/// A deployment seen as (block index, block hash, transaction hash, source code).
pub type DeploymentView = (u64, Seq<char>, Seq<char>, Seq<char>);

impl View for ContractInstanciation {
    type V = DeploymentView;

    open spec fn view(&self) -> DeploymentView {
        (self.block_identifier.index, self.block_identifier.hash@, self.tx_identifier.hash@, self.code@)
    }
}

impl ContractInstanciation {
    pub fn duplicate(&self) -> (r: Self)
        ensures
            r@ == self@,
    {
        ContractInstanciation {
            block_identifier: self.block_identifier.duplicate(),
            tx_identifier: self.tx_identifier.duplicate(),
            code: self.code.clone(),
        }
    }
}

#[derive(PartialEq, Eq, Structural, Clone, Copy, Debug)]
pub enum BlockStoreError {
    /// A block below the current tip was archived without a rollback first.
    TipRegression,
    /// A microblock trail names a parent block that is not archived.
    MissingParentBlock,
}

/// The deployments that a list of transactions makes, recorded over `m`;
/// a later deployment of the same contract replaces an earlier one.
pub open spec fn with_deployments(
    m: Map<Seq<char>, DeploymentView>,
    block: (u64, Seq<char>),
    txs: Seq<StacksTransactionData>,
) -> Map<Seq<char>, DeploymentView>
    decreases txs.len(),
{
    if txs.len() == 0 {
        m
    } else {
        let before = with_deployments(m, block, txs.drop_last());
        let tx = txs.last();
        match tx.kind {
            StacksTransactionKind::ContractDeployment(d) => before.insert(
                d.contract_identifier@,
                (block.0, block.1, tx.transaction_identifier.hash@, d.code@),
            ),
            _ => before,
        }
    }
}

/// The transactions of a microblock trail, microblock after microblock.
pub open spec fn trail_transactions(mbs: Seq<StacksMicroblockData>) -> Seq<StacksTransactionData>
    decreases mbs.len(),
{
    if mbs.len() == 0 {
        Seq::empty()
    } else {
        trail_transactions(mbs.drop_last()) + mbs.last().transactions@
    }
}

/// A block that can be archived: it knows its own height and hash.
pub trait ArchivedBlock: View<V = Self> + Sized {
    spec fn spec_id(&self) -> (u64, Seq<char>);

    proof fn lemma_view_is_self(&self)
        ensures
            self@ == *self,
    ;

    fn block_index(&self) -> (r: u64)
        ensures
            r == self.spec_id().0,
    ;

    fn block_hash(&self) -> (r: &String)
        ensures
            r@ == self.spec_id().1,
    ;
}

impl ArchivedBlock for StacksBlockData {
    open spec fn spec_id(&self) -> (u64, Seq<char>) {
        (self.block_identifier.index, self.block_identifier.hash@)
    }

    proof fn lemma_view_is_self(&self) {
    }

    fn block_index(&self) -> (r: u64) {
        self.block_identifier.index
    }

    fn block_hash(&self) -> (r: &String) {
        &self.block_identifier.hash
    }
}

impl ArchivedBlock for BitcoinBlockData {
    open spec fn spec_id(&self) -> (u64, Seq<char>) {
        (self.block_identifier.index, self.block_identifier.hash@)
    }

    proof fn lemma_view_is_self(&self) {
    }

    fn block_index(&self) -> (r: u64) {
        self.block_identifier.index
    }

    fn block_hash(&self) -> (r: &String) {
        &self.block_identifier.hash
    }
}

/// Every height entry names an archived block, and that block carries the
/// same height and hash.
pub open spec fn heights_agree<B: ArchivedBlock>(blocks: Map<Seq<char>, B>, hashes: Map<u64, Seq<char>>) -> bool {
    forall|n: u64| #[trigger]
        hashes.contains_key(n) ==> {
            &&& blocks.contains_key(hashes[n])
            &&& blocks[hashes[n]].spec_id() == (n, hashes[n])
        }
}

/// The height entries that do not name the hash `h`.
pub open spec fn unname(hashes: Map<u64, Seq<char>>, h: Seq<char>) -> Map<u64, Seq<char>> {
    Map::new(|n: u64| hashes.contains_key(n) && hashes[n] != h, |n: u64| hashes[n])
}

/// Some block is listed under the hash.
pub open spec fn listed(ids: Seq<BlockIdentifier>, h: Seq<char>) -> bool {
    exists|i: int| 0 <= i < ids.len() && ids[i].hash@ == h
}

/// The tip is the highest height with an entry, or none when no height has one.
pub open spec fn is_highest(hashes: Map<u64, Seq<char>>, tip: Option<u64>) -> bool {
    match tip {
        Some(t) => hashes.contains_key(t) && forall|n: u64| #[trigger] hashes.contains_key(n) ==> n <= t,
        None => forall|n: u64| !#[trigger] hashes.contains_key(n),
    }
}

/// The tip after archiving a block at `index`: archiving below the tip is refused.
pub open spec fn advanced_tip(tip: Option<u64>, index: u64) -> Option<Option<u64>> {
    match tip {
        Some(t) => if index < t {
            None
        } else {
            Some(Some(index))
        },
        None => Some(Some(index)),
    }
}

/// The blocks of one chain by hash, the hash archived at each height, and the tip.
pub struct ChainArchive<B: ArchivedBlock> {
    blocks: Table<String, B>,
    hashes: Table<u64, String>,
    tip: Option<u64>,
}

impl<B: ArchivedBlock> ChainArchive<B> {
    pub closed spec fn wf(&self) -> bool {
        &&& self.blocks.wf()
        &&& self.hashes.wf()
        &&& heights_agree(self.blocks@, self.hashes@)
    }

    pub closed spec fn blocks_view(&self) -> Map<Seq<char>, B> {
        self.blocks@
    }

    pub closed spec fn hashes_view(&self) -> Map<u64, Seq<char>> {
        self.hashes@
    }

    pub closed spec fn tip_view(&self) -> Option<u64> {
        self.tip
    }

    /// Each height with an entry addresses exactly one archived block, and the
    /// two lookups agree on its height and hash.
    pub proof fn lemma_heights_agree(&self)
        requires
            self.wf(),
        ensures
            heights_agree(self.blocks_view(), self.hashes_view()),
    {
    }

    pub fn new() -> (r: Self)
        ensures
            r.wf(),
            r.blocks_view().is_empty(),
            r.hashes_view().is_empty(),
            r.tip_view().is_none(),
    {
        ChainArchive { blocks: Table::new(), hashes: Table::new(), tip: None }
    }

    pub fn chain_tip(&self) -> (r: Option<u64>)
        ensures
            r == self.tip_view(),
    {
        self.tip
    }

    pub fn block_by_hash(&self, hash: &String) -> (r: Option<&B>)
        requires
            self.wf(),
        ensures
            r.is_some() == self.blocks_view().contains_key(hash@),
            r.is_some() ==> *r.unwrap() == self.blocks_view()[hash@],
    {
        let r = self.blocks.get(hash);
        proof {
            if r.is_some() {
                r.unwrap().lemma_view_is_self();
            }
        }
        r
    }

    /// The block archived at a height, found through its hash.
    pub fn block_at(&self, index: u64) -> (r: Option<&B>)
        requires
            self.wf(),
        ensures
            r.is_some() == self.hashes_view().contains_key(index),
            r.is_some() ==> {
                &&& *r.unwrap() == self.blocks_view()[self.hashes_view()[index]]
                &&& r.unwrap().spec_id().0 == index
            },
    {
        match self.hashes.get(&index) {
            Some(h) => {
                let r = self.blocks.get(h);
                proof {
                    r.unwrap().lemma_view_is_self();
                }
                r
            },
            None => None,
        }
    }

    /// Removes the block stored under a hash, and hands it back.
    pub fn take_block(&mut self, hash: &String) -> (r: Option<B>)
        requires
            old(self).wf(),
        ensures
            final(self).wf(),
            final(self).blocks_view() == old(self).blocks_view().remove(hash@),
            final(self).hashes_view() == unname(old(self).hashes_view(), hash@),
            final(self).tip_view() == old(self).tip_view(),
            r.is_some() == old(self).blocks_view().contains_key(hash@),
            r.is_some() ==> r.unwrap() == old(self).blocks_view()[hash@],
    {
        let ghost hashes0 = self.hashes@;
        match self.blocks.take(hash) {
            Some(b) => {
                proof {
                    b.lemma_view_is_self();
                }
                let index = b.block_index();
                let names_block = match self.hashes.get(&index) {
                    Some(h) => h.eq(hash),
                    None => false,
                };
                if names_block {
                    self.hashes.remove(&index);
                }
                proof {
                    assert forall|n: u64| #[trigger] hashes0.contains_key(n) && hashes0[n] == hash@
                        implies n == index by {
                        assert(old(self).blocks@[hashes0[n]].spec_id() == (n, hashes0[n]));
                        assert(old(self).blocks@[hash@] == b);
                    }
                    assert(self.hashes@ =~= unname(hashes0, hash@));
                }
                Some(b)
            },
            None => {
                proof {
                    assert forall|n: u64| #[trigger] hashes0.contains_key(n) implies hashes0[n]
                        != hash@ by {
                        assert(old(self).blocks@.contains_key(hashes0[n]));
                    }
                    assert(self.hashes@ =~= unname(hashes0, hash@));
                }
                None
            },
        }
    }

    /// Stores a block under its hash without touching heights or the tip;
    /// a block already under that hash is replaced and loses its height entry.
    pub fn put_block(&mut self, block: B)
        requires
            old(self).wf(),
        ensures
            final(self).wf(),
            final(self).blocks_view() == old(self).blocks_view().insert(block.spec_id().1, block),
            final(self).hashes_view() == unname(old(self).hashes_view(), block.spec_id().1),
            final(self).tip_view() == old(self).tip_view(),
    {
        let hash = block.block_hash().clone();
        proof {
            block.lemma_view_is_self();
        }
        let _ = self.take_block(&hash);
        let ghost blocks1 = self.blocks@;
        self.blocks.put(hash, block);
        proof {
            assert forall|n: u64| #[trigger] self.hashes@.contains_key(n) implies {
                &&& self.blocks@.contains_key(self.hashes@[n])
                &&& self.blocks@[self.hashes@[n]].spec_id() == (n, self.hashes@[n])
            } by {
                assert(blocks1.contains_key(self.hashes@[n]));
            }
            assert(self.blocks@ =~= old(self).blocks@.insert(block.spec_id().1, block));
        }
    }

    /// Archives a block under its hash, records its hash at its height and
    /// moves the tip to it; a block below the tip is refused. Archiving the
    /// same block twice leaves the same store.
    pub fn archive(&mut self, block: B) -> (r: Result<(), BlockStoreError>)
        requires
            old(self).wf(),
        ensures
            final(self).wf(),
            match advanced_tip(old(self).tip_view(), block.spec_id().0) {
                None => {
                    &&& r == Err::<(), BlockStoreError>(BlockStoreError::TipRegression)
                    &&& final(self).blocks_view() == old(self).blocks_view()
                    &&& final(self).hashes_view() == old(self).hashes_view()
                    &&& final(self).tip_view() == old(self).tip_view()
                },
                Some(t) => {
                    &&& r is Ok
                    &&& final(self).blocks_view() == old(self).blocks_view().insert(
                        block.spec_id().1,
                        block,
                    )
                    &&& final(self).hashes_view() == unname(
                        old(self).hashes_view(),
                        block.spec_id().1,
                    ).insert(block.spec_id().0, block.spec_id().1)
                    &&& final(self).tip_view() == t
                },
            },
    {
        let index = block.block_index();
        match self.tip {
            Some(t) => {
                if index < t {
                    return Err(BlockStoreError::TipRegression);
                }
            },
            None => {},
        }
        let hash = block.block_hash().clone();
        self.put_block(block);
        let ghost blocks1 = self.blocks@;
        let ghost hashes1 = self.hashes@;
        self.hashes.put(index, hash);
        self.tip = Some(index);
        proof {
            assert forall|n: u64| #[trigger] self.hashes@.contains_key(n) implies {
                &&& self.blocks@.contains_key(self.hashes@[n])
                &&& self.blocks@[self.hashes@[n]].spec_id() == (n, self.hashes@[n])
            } by {
                if n != index {
                    assert(hashes1.contains_key(n));
                }
            }
        }
        Ok(())
    }

    /// Removes blocks by hash, with the height entries that name them; the
    /// tip becomes the highest height still archived. Other blocks and their
    /// heights stay.
    pub fn delete_blocks(&mut self, block_ids: &Vec<BlockIdentifier>)
        requires
            old(self).wf(),
        ensures
            final(self).wf(),
            forall|i: int|
                0 <= i < block_ids.len() ==> !final(self).blocks_view().contains_key(
                    #[trigger] block_ids@[i].hash@,
                ),
            forall|h: Seq<char>| #[trigger]
                final(self).blocks_view().contains_key(h) ==> old(self).blocks_view().contains_key(h)
                    && final(self).blocks_view()[h] == old(self).blocks_view()[h],
            forall|h: Seq<char>| #[trigger]
                old(self).blocks_view().contains_key(h) && !listed(block_ids@, h)
                    ==> final(self).blocks_view().contains_key(h),
            forall|n: u64| #[trigger]
                final(self).hashes_view().contains_key(n) ==> old(self).hashes_view().contains_key(n)
                    && final(self).hashes_view()[n] == old(self).hashes_view()[n],
            forall|n: u64| #[trigger]
                old(self).hashes_view().contains_key(n) && !listed(block_ids@, old(self).hashes_view()[n])
                    ==> final(self).hashes_view().contains_key(n),
            is_highest(final(self).hashes_view(), final(self).tip_view()),
    {
        let mut i: usize = 0;
        while i < block_ids.len()
            invariant
                self.wf(),
                i <= block_ids.len(),
                forall|j: int| 0 <= j < i ==> !self.blocks_view().contains_key(#[trigger] block_ids@[j].hash@),
                forall|h: Seq<char>| #[trigger]
                    self.blocks_view().contains_key(h) ==> old(self).blocks_view().contains_key(h)
                        && self.blocks_view()[h] == old(self).blocks_view()[h],
                forall|h: Seq<char>| #[trigger]
                    old(self).blocks_view().contains_key(h) && !listed(block_ids@.take(i as int), h)
                        ==> self.blocks_view().contains_key(h),
                forall|n: u64| #[trigger]
                    self.hashes_view().contains_key(n) ==> old(self).hashes_view().contains_key(n)
                        && self.hashes_view()[n] == old(self).hashes_view()[n],
                forall|n: u64| #[trigger]
                    old(self).hashes_view().contains_key(n) && !listed(
                        block_ids@.take(i as int),
                        old(self).hashes_view()[n],
                    ) ==> self.hashes_view().contains_key(n),
            decreases block_ids.len() - i,
        {
            let ghost before = *self;
            let _ = self.take_block(&block_ids[i].hash);
            proof {
                let t0 = block_ids@.take(i as int);
                let t1 = block_ids@.take(i + 1);
                assert(t1 =~= t0.push(block_ids@[i as int]));
                assert forall|h: Seq<char>| !listed(t1, h) implies !listed(t0, h) && h != block_ids@[i as int].hash@ by {
                    if listed(t0, h) {
                        let j = choose|j: int| 0 <= j < t0.len() && t0[j].hash@ == h;
                        assert(t1[j] == t0[j]);
                    }
                    if h == block_ids@[i as int].hash@ {
                        assert(t1[i as int] == block_ids@[i as int]);
                    }
                }
            }
            i += 1;
        }
        assert(block_ids@.take(i as int) =~= block_ids@);
        let ghost blocks_after = self.blocks_view();
        let ghost hashes_after = self.hashes_view();
        self.tip = self.hashes.max_key();
        assert(self.blocks_view() == blocks_after);
        assert(self.hashes_view() == hashes_after);
    }
}

impl ChainArchive<StacksBlockData> {
    /// Appends transactions to the archived block under `hash`, if there is one.
    pub fn append_transactions(&mut self, hash: &String, txs: Vec<StacksTransactionData>) -> (r: bool)
        requires
            old(self).wf(),
        ensures
            final(self).wf(),
            r == old(self).blocks_view().contains_key(hash@),
            final(self).hashes_view() == old(self).hashes_view(),
            final(self).tip_view() == old(self).tip_view(),
            final(self).blocks_view().dom() == old(self).blocks_view().dom(),
            forall|h: Seq<char>| #[trigger]
                final(self).blocks_view().contains_key(h) && h != hash@ ==> final(self).blocks_view()[h]
                    == old(self).blocks_view()[h],
            r ==> {
                let before = old(self).blocks_view()[hash@];
                let after = final(self).blocks_view()[hash@];
                &&& after.block_identifier == before.block_identifier
                &&& after.parent_block_identifier == before.parent_block_identifier
                &&& after.timestamp == before.timestamp
                &&& after.metadata == before.metadata
                &&& after.transactions@ == before.transactions@ + txs@
            },
    {
        let mut txs = txs;
        let ghost added = txs@;
        match self.blocks.take(hash) {
            Some(mut b) => {
                let ghost before = b;
                b.transactions.append(&mut txs);
                let ghost blocks1 = self.blocks@;
                self.blocks.put(hash.clone(), b);
                proof {
                    assert(self.blocks@ =~= old(self).blocks@.insert(hash@, b));
                    assert forall|n: u64| #[trigger] self.hashes@.contains_key(n) implies {
                        &&& self.blocks@.contains_key(self.hashes@[n])
                        &&& self.blocks@[self.hashes@[n]].spec_id() == (n, self.hashes@[n])
                    } by {
                        assert(old(self).blocks@.contains_key(self.hashes@[n]));
                    }
                }
                true
            },
            None => false,
        }
    }
}

/// The deployments of a list of transactions, recorded into a table.
pub fn record_deployments(
    contracts: &mut Table<String, ContractInstanciation>,
    block_identifier: &BlockIdentifier,
    transactions: &Vec<StacksTransactionData>,
)
    requires
        old(contracts).wf(),
    ensures
        final(contracts).wf(),
        final(contracts)@ == with_deployments(
            old(contracts)@,
            (block_identifier.index, block_identifier.hash@),
            transactions@,
        ),
{
    let ghost block = (block_identifier.index, block_identifier.hash@);
    let mut i: usize = 0;
    while i < transactions.len()
        invariant
            block == (block_identifier.index, block_identifier.hash@),
            i <= transactions.len(),
            contracts.wf(),
            contracts@ == with_deployments(old(contracts)@, block, transactions@.take(i as int)),
        decreases transactions.len() - i,
    {
        let tx = &transactions[i];
        assert(transactions@.take(i + 1).drop_last() =~= transactions@.take(i as int));
        assert(transactions@.take(i + 1).last() == *tx);
        match &tx.kind {
            StacksTransactionKind::ContractDeployment(data) => {
                let instanciation = ContractInstanciation {
                    block_identifier: block_identifier.duplicate(),
                    tx_identifier: tx.transaction_identifier.duplicate(),
                    code: data.code.clone(),
                };
                contracts.put(data.contract_identifier.clone(), instanciation);
            },
            _ => {},
        }
        i += 1;
    }
    assert(transactions@.take(i as int) =~= transactions@);
}

/// The transactions of a trail, taken out of it in order.
pub fn take_trail_transactions(trail: StacksMicroblocksTrail) -> (r: Vec<StacksTransactionData>)
    ensures
        r@ == trail_transactions(trail.microblocks@),
{
    let ghost mbs = trail.microblocks@;
    let mut microblocks = trail.microblocks;
    let mut all: Vec<StacksTransactionData> = Vec::new();
    let ghost mut taken: int = 0;
    while microblocks.len() > 0
        invariant
            0 <= taken <= mbs.len(),
            microblocks@ == mbs.skip(taken),
            all@ == trail_transactions(mbs.take(taken)),
        decreases microblocks.len(),
    {
        let mut mb = microblocks.remove(0);
        assert(mb == mbs[taken]);
        let ghost txs = mb.transactions@;
        all.append(&mut mb.transactions);
        proof {
            assert(mbs.take(taken + 1).drop_last() =~= mbs.take(taken));
            assert(mbs.take(taken + 1).last() == mbs[taken]);
            taken = taken + 1;
            assert(microblocks@ =~= mbs.skip(taken));
        }
    }
    assert(mbs.take(taken) =~= mbs);
    all
}

/// What archiving an anchor block does to the store.
pub open spec fn bitcoin_block_stored(
    before: BlockStoreManager,
    after: BlockStoreManager,
    block: BitcoinBlockData,
    r: Result<(), BlockStoreError>,
) -> bool {
    &&& match advanced_tip(before.bitcoin_view().tip_view(), block.block_identifier.index) {
        None => {
            &&& r == Err::<(), BlockStoreError>(BlockStoreError::TipRegression)
            &&& after.bitcoin_view().blocks_view() == before.bitcoin_view().blocks_view()
            &&& after.bitcoin_view().hashes_view() == before.bitcoin_view().hashes_view()
            &&& after.bitcoin_view().tip_view() == before.bitcoin_view().tip_view()
        },
        Some(t) => {
            &&& r is Ok
            &&& after.bitcoin_view().blocks_view() == before.bitcoin_view().blocks_view().insert(
                block.block_identifier.hash@,
                block,
            )
            &&& after.bitcoin_view().hashes_view() == unname(
                before.bitcoin_view().hashes_view(),
                block.block_identifier.hash@,
            ).insert(block.block_identifier.index, block.block_identifier.hash@)
            &&& after.bitcoin_view().tip_view() == t
        },
    }
    &&& after.stacks_view() == before.stacks_view()
    &&& after.contracts_view() == before.contracts_view()
}

/// What archiving an execution block, with the trail it confirms, does to the store.
pub open spec fn stacks_block_stored(
    before: BlockStoreManager,
    after: BlockStoreManager,
    block: StacksBlockData,
    anchored_trail: Option<StacksMicroblocksTrail>,
    r: Result<(), BlockStoreError>,
) -> bool {
    &&& after.bitcoin_view() == before.bitcoin_view()
    &&& ({
        let old_blocks = before.stacks_view().blocks_view();
        let new_blocks = after.stacks_view().blocks_view();
        let hash = block.block_identifier.hash@;
        let parent = block.parent_block_identifier.hash@;
        if advanced_tip(before.stacks_view().tip_view(), block.block_identifier.index) is None {
            &&& r == Err::<(), BlockStoreError>(BlockStoreError::TipRegression)
            &&& new_blocks == old_blocks
            &&& after.stacks_view().hashes_view() == before.stacks_view().hashes_view()
            &&& after.stacks_view().tip_view() == before.stacks_view().tip_view()
            &&& after.contracts_view() == before.contracts_view()
        } else if anchored_trail is Some && !old_blocks.contains_key(parent) {
            &&& r == Err::<(), BlockStoreError>(BlockStoreError::MissingParentBlock)
            &&& new_blocks == old_blocks
            &&& after.stacks_view().hashes_view() == before.stacks_view().hashes_view()
            &&& after.stacks_view().tip_view() == before.stacks_view().tip_view()
            &&& after.contracts_view() == before.contracts_view()
        } else {
            &&& r is Ok
            &&& new_blocks.contains_key(hash)
            &&& new_blocks[hash] == block
            &&& after.stacks_view().hashes_view() == unname(
                before.stacks_view().hashes_view(),
                hash,
            ).insert(block.block_identifier.index, hash)
            &&& after.stacks_view().tip_view() == Some(block.block_identifier.index)
            &&& after.contracts_view() == with_deployments(
                before.contracts_view(),
                (block.block_identifier.index, hash),
                block.transactions@,
            )
            &&& forall|h: Seq<char>| #[trigger]
                new_blocks.contains_key(h) && h != hash && (anchored_trail is None || h
                    != parent) ==> old_blocks.contains_key(h) && new_blocks[h] == old_blocks[h]
            &&& forall|h: Seq<char>| #[trigger]
                old_blocks.contains_key(h) && h != hash ==> new_blocks.contains_key(h)
            &&& match anchored_trail {
                Some(trail) => parent != hash ==> {
                    &&& new_blocks[parent].block_identifier == old_blocks[parent].block_identifier
                    &&& new_blocks[parent].parent_block_identifier
                        == old_blocks[parent].parent_block_identifier
                    &&& new_blocks[parent].timestamp == old_blocks[parent].timestamp
                    &&& new_blocks[parent].metadata == old_blocks[parent].metadata
                    &&& new_blocks[parent].transactions@ == old_blocks[parent].transactions@
                        + trail_transactions(trail.microblocks@)
                },
                None => true,
            }
        }
    })
}

/// What archiving a microblock does to the store.
pub open spec fn microblock_stored(
    before: BlockStoreManager,
    after: BlockStoreManager,
    microblock: StacksMicroblockData,
) -> bool {
    &&& after.bitcoin_view() == before.bitcoin_view()
    &&& after.stacks_view() == before.stacks_view()
    &&& after.contracts_view() == with_deployments(
        before.contracts_view(),
        (microblock.parent_block_identifier.index, microblock.parent_block_identifier.hash@),
        microblock.transactions@,
    )
    &&& after.microblocks_view() == before.microblocks_view().insert(
        microblock.block_identifier.index,
        microblock,
    )
    &&& after.microblock_tip_view() == Some(microblock.block_identifier.index)
}

/// What rolling back anchor blocks does to the store.
pub open spec fn bitcoin_blocks_deleted(
    before: BlockStoreManager,
    after: BlockStoreManager,
    block_ids: Seq<BlockIdentifier>,
) -> bool {
    &&& forall|i: int|
        0 <= i < block_ids.len() ==> !after.bitcoin_view().blocks_view().contains_key(
            #[trigger] block_ids[i].hash@,
        )
    &&& forall|h: Seq<char>| #[trigger]
        after.bitcoin_view().blocks_view().contains_key(h) ==> before.bitcoin_view().blocks_view().contains_key(h)
            && after.bitcoin_view().blocks_view()[h] == before.bitcoin_view().blocks_view()[h]
    &&& forall|h: Seq<char>| #[trigger]
        before.bitcoin_view().blocks_view().contains_key(h) && !listed(block_ids, h)
            ==> after.bitcoin_view().blocks_view().contains_key(h)
    &&& is_highest(after.bitcoin_view().hashes_view(), after.bitcoin_view().tip_view())
    &&& after.stacks_view() == before.stacks_view()
    &&& after.contracts_view() == before.contracts_view()
}

/// What rolling back execution blocks does to the store.
pub open spec fn stacks_blocks_deleted(
    before: BlockStoreManager,
    after: BlockStoreManager,
    block_ids: Seq<BlockIdentifier>,
) -> bool {
    &&& forall|i: int|
        0 <= i < block_ids.len() ==> !after.stacks_view().blocks_view().contains_key(
            #[trigger] block_ids[i].hash@,
        )
    &&& forall|h: Seq<char>| #[trigger]
        after.stacks_view().blocks_view().contains_key(h) ==> before.stacks_view().blocks_view().contains_key(h)
            && after.stacks_view().blocks_view()[h] == before.stacks_view().blocks_view()[h]
    &&& forall|h: Seq<char>| #[trigger]
        before.stacks_view().blocks_view().contains_key(h) && !listed(block_ids, h)
            ==> after.stacks_view().blocks_view().contains_key(h)
    &&& is_highest(after.stacks_view().hashes_view(), after.stacks_view().tip_view())
    &&& after.bitcoin_view() == before.bitcoin_view()
    &&& after.contracts_view() == before.contracts_view()
}

/// What rolling back microblocks does to the store.
pub open spec fn microblocks_deleted(
    before: BlockStoreManager,
    after: BlockStoreManager,
    microblock_ids: Seq<BlockIdentifier>,
) -> bool {
    &&& forall|i: int|
        0 <= i < microblock_ids.len() ==> !after.microblocks_view().contains_key(
            #[trigger] microblock_ids[i].index,
        )
    &&& forall|n: u64| #[trigger]
        after.microblocks_view().contains_key(n) ==> before.microblocks_view().contains_key(n)
            && after.microblocks_view()[n] == before.microblocks_view()[n]
    &&& after.bitcoin_view() == before.bitcoin_view()
    &&& after.stacks_view() == before.stacks_view()
    &&& after.contracts_view() == before.contracts_view()
}

/// The block database: both chains, the execution chain's microblocks, and
/// the contracts that execution blocks deploy.
pub struct BlockStoreManager {
    bitcoin: ChainArchive<BitcoinBlockData>,
    stacks: ChainArchive<StacksBlockData>,
    contracts: Table<String, ContractInstanciation>,
    microblocks: Table<u64, StacksMicroblockData>,
    microblock_tip: Option<u64>,
}

impl BlockStoreManager {
    pub closed spec fn wf(&self) -> bool {
        &&& self.bitcoin.wf()
        &&& self.stacks.wf()
        &&& self.contracts.wf()
        &&& self.microblocks.wf()
    }

    pub closed spec fn bitcoin_view(&self) -> ChainArchive<BitcoinBlockData> {
        self.bitcoin
    }

    pub closed spec fn stacks_view(&self) -> ChainArchive<StacksBlockData> {
        self.stacks
    }

    pub closed spec fn contracts_view(&self) -> Map<Seq<char>, DeploymentView> {
        self.contracts@
    }

    pub closed spec fn microblocks_view(&self) -> Map<u64, StacksMicroblockData> {
        self.microblocks@
    }

    pub closed spec fn microblock_tip_view(&self) -> Option<u64> {
        self.microblock_tip
    }

    pub fn new() -> (r: Self)
        ensures
            r.wf(),
            r.bitcoin_view().blocks_view().is_empty(),
            r.bitcoin_view().tip_view().is_none(),
            r.stacks_view().blocks_view().is_empty(),
            r.stacks_view().tip_view().is_none(),
            r.contracts_view().is_empty(),
            r.microblocks_view().is_empty(),
            r.microblock_tip_view().is_none(),
    {
        BlockStoreManager {
            bitcoin: ChainArchive::new(),
            stacks: ChainArchive::new(),
            contracts: Table::new(),
            microblocks: Table::new(),
            microblock_tip: None,
        }
    }

    pub fn bitcoin_blocks(&self) -> (r: &ChainArchive<BitcoinBlockData>)
        requires
            self.wf(),
        ensures
            r.wf(),
            *r == self.bitcoin_view(),
    {
        &self.bitcoin
    }

    pub fn stacks_blocks(&self) -> (r: &ChainArchive<StacksBlockData>)
        requires
            self.wf(),
        ensures
            r.wf(),
            *r == self.stacks_view(),
    {
        &self.stacks
    }

    /// Where a contract was deployed, with its source.
    pub fn contract_instanciation(&self, contract_id: &String) -> (r: Option<&ContractInstanciation>)
        requires
            self.wf(),
        ensures
            r.is_some() == self.contracts_view().contains_key(contract_id@),
            r.is_some() ==> r.unwrap()@ == self.contracts_view()[contract_id@],
    {
        self.contracts.get(contract_id)
    }

    pub fn store_bitcoin_block(&mut self, block: BitcoinBlockData) -> (r: Result<(), BlockStoreError>)
        requires
            old(self).wf(),
        ensures
            final(self).wf(),
            bitcoin_block_stored(*old(self), *final(self), block, r),
    {
        self.bitcoin.archive(block)
    }

    /// Archives an execution block. A trail of microblocks that came with it
    /// is folded into the stored parent block first: its transactions are
    /// appended there, microblock after microblock. Then the contracts that
    /// the block deploys are recorded, and the block is archived as the tip.
    pub fn store_stacks_block(
        &mut self,
        block: StacksBlockData,
        anchored_trail: Option<StacksMicroblocksTrail>,
    ) -> (r: Result<(), BlockStoreError>)
        requires
            old(self).wf(),
        ensures
            final(self).wf(),
            stacks_block_stored(*old(self), *final(self), block, anchored_trail, r),
    {
        let index = block.block_identifier.index;
        match self.stacks.chain_tip() {
            Some(t) => {
                if index < t {
                    return Err(BlockStoreError::TipRegression);
                }
            },
            None => {},
        }
        match anchored_trail {
            Some(trail) => {
                if self.stacks.block_by_hash(&block.parent_block_identifier.hash).is_none() {
                    return Err(BlockStoreError::MissingParentBlock);
                }
                let txs = take_trail_transactions(trail);
                let _ = self.stacks.append_transactions(&block.parent_block_identifier.hash, txs);
            },
            None => {},
        }
        record_deployments(&mut self.contracts, &block.block_identifier, &block.transactions);
        let r = self.stacks.archive(block);
        r
    }

    /// Archives a microblock under its sequence number and records the
    /// contracts it deploys, as deployed in its parent block.
    pub fn store_stacks_microblock(&mut self, microblock: StacksMicroblockData)
        requires
            old(self).wf(),
        ensures
            final(self).wf(),
            microblock_stored(*old(self), *final(self), microblock),
    {
        record_deployments(
            &mut self.contracts,
            &microblock.parent_block_identifier,
            &microblock.transactions,
        );
        let index = microblock.block_identifier.index;
        self.microblocks.put(index, microblock);
        self.microblock_tip = Some(index);
    }

    pub fn delete_bitcoin_blocks(&mut self, block_ids: &Vec<BlockIdentifier>)
        requires
            old(self).wf(),
        ensures
            final(self).wf(),
            bitcoin_blocks_deleted(*old(self), *final(self), block_ids@),
    {
        self.bitcoin.delete_blocks(block_ids);
    }

    pub fn delete_stacks_blocks(&mut self, block_ids: &Vec<BlockIdentifier>)
        requires
            old(self).wf(),
        ensures
            final(self).wf(),
            stacks_blocks_deleted(*old(self), *final(self), block_ids@),
    {
        self.stacks.delete_blocks(block_ids);
    }

    /// Removes microblocks by sequence number.
    pub fn delete_stacks_microblocks(&mut self, microblock_ids: &Vec<BlockIdentifier>)
        requires
            old(self).wf(),
        ensures
            final(self).wf(),
            microblocks_deleted(*old(self), *final(self), microblock_ids@),
    {
        let mut i: usize = 0;
        while i < microblock_ids.len()
            invariant
                self.wf(),
                i <= microblock_ids.len(),
                forall|j: int| 0 <= j < i ==> !self.microblocks@.contains_key(#[trigger] microblock_ids@[j].index),
                forall|n: u64| #[trigger]
                    self.microblocks@.contains_key(n) ==> old(self).microblocks@.contains_key(n)
                        && self.microblocks@[n] == old(self).microblocks@[n],
                self.bitcoin == old(self).bitcoin,
                self.stacks == old(self).stacks,
                self.contracts == old(self).contracts,
            decreases microblock_ids.len() - i,
        {
            self.microblocks.remove(&microblock_ids[i].index);
            i += 1;
        }
    }
}

/// The requests that the block store serves, in the order they arrive.
pub enum BlockStoreManagerMessage {
    ArchiveBitcoinBlock(BitcoinBlockData),
    RollbackBitcoinBlocks(Vec<BlockIdentifier>),
    ArchiveStacksBlock(StacksBlockData, Option<StacksMicroblocksTrail>),
    RollbackStacksBlocks(Vec<BlockIdentifier>),
    ArchiveStacksMicroblock(StacksMicroblockData),
    RollbackStacksMicroblocks(Vec<BlockIdentifier>),
    Exit,
}

impl BlockStoreManager {
    /// Serves one request.
    pub fn handle_message(&mut self, message: BlockStoreManagerMessage) -> (r: Result<(), BlockStoreError>)
        requires
            old(self).wf(),
        ensures
            final(self).wf(),
            match message {
                BlockStoreManagerMessage::ArchiveBitcoinBlock(block) => bitcoin_block_stored(
                    *old(self),
                    *final(self),
                    block,
                    r,
                ),
                BlockStoreManagerMessage::RollbackBitcoinBlocks(ids) => r is Ok && bitcoin_blocks_deleted(
                    *old(self),
                    *final(self),
                    ids@,
                ),
                BlockStoreManagerMessage::ArchiveStacksBlock(block, trail) => stacks_block_stored(
                    *old(self),
                    *final(self),
                    block,
                    trail,
                    r,
                ),
                BlockStoreManagerMessage::RollbackStacksBlocks(ids) => r is Ok && stacks_blocks_deleted(
                    *old(self),
                    *final(self),
                    ids@,
                ),
                BlockStoreManagerMessage::ArchiveStacksMicroblock(microblock) => r is Ok
                    && microblock_stored(*old(self), *final(self), microblock),
                BlockStoreManagerMessage::RollbackStacksMicroblocks(ids) => r is Ok && microblocks_deleted(
                    *old(self),
                    *final(self),
                    ids@,
                ),
                BlockStoreManagerMessage::Exit => r is Ok && *final(self) == *old(self),
            },
    {
        match message {
            BlockStoreManagerMessage::ArchiveBitcoinBlock(block) => self.store_bitcoin_block(block),
            BlockStoreManagerMessage::RollbackBitcoinBlocks(ids) => {
                self.delete_bitcoin_blocks(&ids);
                Ok(())
            },
            BlockStoreManagerMessage::ArchiveStacksBlock(block, trail) => self.store_stacks_block(block, trail),
            BlockStoreManagerMessage::RollbackStacksBlocks(ids) => {
                self.delete_stacks_blocks(&ids);
                Ok(())
            },
            BlockStoreManagerMessage::ArchiveStacksMicroblock(microblock) => {
                self.store_stacks_microblock(microblock);
                Ok(())
            },
            BlockStoreManagerMessage::RollbackStacksMicroblocks(ids) => {
                self.delete_stacks_microblocks(&ids);
                Ok(())
            },
            BlockStoreManagerMessage::Exit => Ok(()),
        }
    }
}

} // verus!
