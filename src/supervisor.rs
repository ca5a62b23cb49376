//! The supervisor's decisions: which protocols and contracts are observed,
//! and what each chain event asks of the block store and of the processors.
use crate::processor::{mutates, touches};
use crate::table::Table;
use crate::types::{
    BitcoinBlockData, BitcoinChainEvent, BlockIdentifier, ProtocolObserverId, StacksBlockData,
    StacksChainEvent, StacksMicroblocksTrail, StacksTransactionData,
};
use vstd::prelude::*;

verus! {

/// The positions of the transactions that touch the contract, in order.
pub open spec fn touching_positions(contract: Seq<char>, txs: Seq<StacksTransactionData>) -> Seq<usize>
    decreases txs.len(),
{
    if txs.len() == 0 {
        Seq::empty()
    } else if mutates(contract, txs.last()) {
        touching_positions(contract, txs.drop_last()).push((txs.len() - 1) as usize)
    } else {
        touching_positions(contract, txs.drop_last())
    }
}

/// One batch per registered contract that some transaction touches, holding
/// the positions of those transactions in order, and no other batch.
pub open spec fn is_grouping(
    groups: Seq<(String, Vec<usize>)>,
    registered: Set<Seq<char>>,
    txs: Seq<StacksTransactionData>,
) -> bool {
    &&& forall|k: int|
        0 <= k < groups.len() ==> {
            &&& (#[trigger] groups[k]).1@ == touching_positions(groups[k].0@, txs)
            &&& groups[k].1@.len() > 0
            &&& registered.contains(groups[k].0@)
        }
    &&& forall|c: Seq<char>|
        #[trigger] registered.contains(c) && touching_positions(c, txs).len() > 0 ==> exists|k: int|
            0 <= k < groups.len() && #[trigger] groups[k].0@ == c
    &&& forall|k1: int, k2: int|
        0 <= k1 < groups.len() && 0 <= k2 < groups.len() && k1 != k2 ==> #[trigger] groups[k1].0@
            != #[trigger] groups[k2].0@
}

/// The positions of the transactions that touch the contract.
pub fn transactions_touching(contract_id: &String, transactions: &Vec<StacksTransactionData>) -> (r:
    Vec<usize>)
    ensures
        r@ == touching_positions(contract_id@, transactions@),
{
    let mut r: Vec<usize> = Vec::new();
    let mut i: usize = 0;
    while i < transactions.len()
        invariant
            i <= transactions.len(),
            r@ == touching_positions(contract_id@, transactions@.take(i as int)),
        decreases transactions.len() - i,
    {
        assert(transactions@.take(i + 1).drop_last() =~= transactions@.take(i as int));
        assert(transactions@.take(i + 1).last() == transactions@[i as int]);
        if touches(contract_id, &transactions[i]) {
            r.push(i);
        }
        i += 1;
    }
    assert(transactions@.take(i as int) =~= transactions@);
    r
}

/// Groups the transactions of a block by the registered contract they touch;
/// a transaction that touches several goes to each of their batches.
pub fn group_transactions_by_contract(
    registered: &Vec<String>,
    transactions: &Vec<StacksTransactionData>,
) -> (r: Vec<(String, Vec<usize>)>)
    requires
        forall|i: int, j: int|
            0 <= i < registered.len() && 0 <= j < registered.len() && i != j ==> #[trigger] registered@[i]@
                != #[trigger] registered@[j]@,
    ensures
        is_grouping(
            r@,
            Set::new(|c: Seq<char>| exists|j: int| 0 <= j < registered.len() && registered@[j]@ == c),
            transactions@,
        ),
{
    let ghost reg = Set::new(
        |c: Seq<char>| exists|j: int| 0 <= j < registered.len() && registered@[j]@ == c,
    );
    let mut r: Vec<(String, Vec<usize>)> = Vec::new();
    let mut j: usize = 0;
    while j < registered.len()
        invariant
            j <= registered.len(),
            reg == Set::new(
                |c: Seq<char>| exists|jj: int| 0 <= jj < registered.len() && registered@[jj]@ == c,
            ),
            forall|i: int, jj: int|
                0 <= i < registered.len() && 0 <= jj < registered.len() && i != jj ==> #[trigger] registered@[i]@
                    != #[trigger] registered@[jj]@,
            forall|k: int|
                0 <= k < r.len() ==> {
                    &&& (#[trigger] r@[k]).1@ == touching_positions(r@[k].0@, transactions@)
                    &&& r@[k].1@.len() > 0
                    &&& exists|jj: int| 0 <= jj < j && registered@[jj]@ == r@[k].0@
                },
            forall|jj: int|
                0 <= jj < j && touching_positions(#[trigger] registered@[jj]@, transactions@).len() > 0
                    ==> exists|k: int| 0 <= k < r.len() && #[trigger] r@[k].0@ == registered@[jj]@,
            forall|k1: int, k2: int|
                0 <= k1 < r.len() && 0 <= k2 < r.len() && k1 != k2 ==> #[trigger] r@[k1].0@
                    != #[trigger] r@[k2].0@,
        decreases registered.len() - j,
    {
        let positions = transactions_touching(&registered[j], transactions);
        if positions.len() > 0 {
            let ghost r0 = r@;
            let entry = (registered[j].clone(), positions);
            r.push(entry);
            proof {
                assert(r@[r0.len() as int] == entry);
                assert forall|k1: int, k2: int|
                    0 <= k1 < r.len() && 0 <= k2 < r.len() && k1 != k2 implies #[trigger] r@[k1].0@
                        != #[trigger] r@[k2].0@ by {
                    if k2 == r0.len() && k1 < r0.len() {
                        let jj = choose|jj: int| 0 <= jj < j && registered@[jj]@ == r0[k1].0@;
                        assert(registered@[jj]@ != registered@[j as int]@);
                    } else if k1 == r0.len() && k2 < r0.len() {
                        let jj = choose|jj: int| 0 <= jj < j && registered@[jj]@ == r0[k2].0@;
                        assert(registered@[jj]@ != registered@[j as int]@);
                    } else {
                        assert(r@[k1] == r0[k1] && r@[k2] == r0[k2]);
                    }
                }
                assert forall|jj: int|
                    0 <= jj < j + 1 && touching_positions(#[trigger] registered@[jj]@, transactions@).len()
                        > 0 implies exists|k: int| 0 <= k < r.len() && #[trigger] r@[k].0@ == registered@[jj]@ by {
                    if jj == j {
                        assert(r@[r0.len() as int].0@ == registered@[jj]@);
                    } else {
                        let k = choose|k: int| 0 <= k < r0.len() && #[trigger] r0[k].0@ == registered@[jj]@;
                        assert(r@[k] == r0[k]);
                    }
                }
                assert forall|k: int| 0 <= k < r.len() implies {
                    &&& (#[trigger] r@[k]).1@ == touching_positions(r@[k].0@, transactions@)
                    &&& r@[k].1@.len() > 0
                    &&& exists|jj: int| 0 <= jj < j + 1 && registered@[jj]@ == r@[k].0@
                } by {
                    if k < r0.len() {
                        assert(r@[k] == r0[k]);
                        let jj = choose|jj: int| 0 <= jj < j && registered@[jj]@ == r0[k].0@;
                        assert(0 <= jj < j + 1 && registered@[jj]@ == r@[k].0@);
                    } else {
                        assert(registered@[j as int]@ == r@[k].0@);
                    }
                }
            }
        } else {
            proof {
                assert forall|k: int| 0 <= k < r.len() implies exists|jj: int|
                    0 <= jj < j + 1 && registered@[jj]@ == (#[trigger] r@[k]).0@ by {
                    let jj = choose|jj: int| 0 <= jj < j && registered@[jj]@ == r@[k].0@;
                    assert(0 <= jj < j + 1);
                }
            }
        }
        j += 1;
    }
    proof {
        assert forall|c: Seq<char>|
            #[trigger] reg.contains(c) && touching_positions(c, transactions@).len() > 0 implies exists|k: int|
                0 <= k < r.len() && #[trigger] r@[k].0@ == c by {
            let jj = choose|jj: int| 0 <= jj < registered.len() && registered@[jj]@ == c;
            assert(touching_positions(registered@[jj]@, transactions@).len() > 0);
        }
        assert forall|k: int| 0 <= k < r.len() implies reg.contains((#[trigger] r@[k]).0@) by {
            let jj = choose|jj: int| 0 <= jj < j && registered@[jj]@ == r@[k].0@;
        }
    }
    r
}

/// A chain event that the supervisor does not handle.
#[derive(PartialEq, Eq, Structural, Clone, Copy, Debug)]
pub enum SupervisorError {
    /// Reorganizations of microblock trails are not supported.
    MicroblockReorgUnsupported,
    /// A microblock update came with an empty trail.
    EmptyMicroblockTrail,
}

/// What an execution-chain event asks for: the block store is started if it
/// was not; the listed blocks are rolled back; then each delivered block is
/// archived, in order, and its batches are handed to the contract processors.
pub struct StacksEventPlan {
    pub start_block_store: bool,
    pub rollback: Vec<BlockIdentifier>,
    /// For each delivered block, in order, its batches by contract.
    pub batches: Vec<Vec<(String, Vec<usize>)>>,
}

/// What an anchor-chain event asks for: the block store is started if it was
/// not; the listed blocks are rolled back; then the delivered blocks are archived.
pub struct BitcoinEventPlan {
    pub start_block_store: bool,
    pub rollback: Vec<BlockIdentifier>,
}

pub open spec fn id_view(b: BlockIdentifier) -> (u64, Seq<char>) {
    (b.index, b.hash@)
}

pub open spec fn ids_view(s: Seq<BlockIdentifier>) -> Seq<(u64, Seq<char>)> {
    s.map_values(|b: BlockIdentifier| id_view(b))
}

pub open spec fn branch_ids(s: Seq<(Option<StacksMicroblocksTrail>, StacksBlockData)>) -> Seq<(u64, Seq<char>)> {
    s.map_values(|p: (Option<StacksMicroblocksTrail>, StacksBlockData)| id_view(p.1.block_identifier))
}

pub open spec fn bitcoin_ids(s: Seq<BitcoinBlockData>) -> Seq<(u64, Seq<char>)> {
    s.map_values(|b: BitcoinBlockData| id_view(b.block_identifier))
}

/// The transactions of each block that an execution-chain event delivers:
/// the new block, the new branch of a reorganization, or the tip microblock
/// of a trail.
pub open spec fn delivered_transactions(event: StacksChainEvent) -> Seq<Seq<StacksTransactionData>> {
    match event {
        StacksChainEvent::ChainUpdatedWithBlock(u) => seq![u.new_block.transactions@],
        StacksChainEvent::ChainUpdatedWithReorg(u) => u.new_blocks@.map_values(
            |p: (Option<StacksMicroblocksTrail>, StacksBlockData)| p.1.transactions@,
        ),
        StacksChainEvent::ChainUpdatedWithMicroblock(u) => seq![
            u.current_trail.microblocks@.last().transactions@,
        ],
        StacksChainEvent::ChainUpdatedWithMicroblockReorg(_) => Seq::empty(),
    }
}

/// The blocks that an execution-chain event takes back.
pub open spec fn rolled_back(event: StacksChainEvent) -> Seq<(u64, Seq<char>)> {
    match event {
        StacksChainEvent::ChainUpdatedWithReorg(u) => branch_ids(u.old_blocks@),
        _ => Seq::empty(),
    }
}

/// Subscribes a protocol to a contract; the first subscription registers the contract.
pub open spec fn subscribe(subs: Map<Seq<char>, Seq<u64>>, protocol: u64, c: Seq<char>) -> Map<
    Seq<char>,
    Seq<u64>,
> {
    if subs.contains_key(c) {
        if subs[c].contains(protocol) {
            subs
        } else {
            subs.insert(c, subs[c].push(protocol))
        }
    } else {
        subs.insert(c, seq![protocol])
    }
}

pub open spec fn subscribe_all(subs: Map<Seq<char>, Seq<u64>>, protocol: u64, cs: Seq<Seq<char>>) -> Map<
    Seq<char>,
    Seq<u64>,
>
    decreases cs.len(),
{
    if cs.len() == 0 {
        subs
    } else {
        subscribe(subscribe_all(subs, protocol, cs.drop_last()), protocol, cs.last())
    }
}

/// The contracts that an analysis registers for the first time, in order.
pub open spec fn newly_registered(subs: Map<Seq<char>, Seq<u64>>, protocol: u64, cs: Seq<Seq<char>>) -> Seq<
    Seq<char>,
>
    decreases cs.len(),
{
    if cs.len() == 0 {
        Seq::empty()
    } else if subscribe_all(subs, protocol, cs.drop_last()).contains_key(cs.last()) {
        newly_registered(subs, protocol, cs.drop_last())
    } else {
        newly_registered(subs, protocol, cs.drop_last()).push(cs.last())
    }
}

pub open spec fn string_views(v: Seq<String>) -> Seq<Seq<char>> {
    v.map_values(|s: String| s@)
}

/// The supervisor's registries.
pub struct OrchestraSupervisor {
    protocol_observers: Table<u64, ()>,
    subscriptions: Table<String, Vec<u64>>,
    block_store_started: bool,
}

impl OrchestraSupervisor {
    pub closed spec fn wf(&self) -> bool {
        self.protocol_observers.wf() && self.subscriptions.wf()
    }

    /// The protocols with a running observer.
    pub closed spec fn observers(&self) -> Set<u64> {
        self.protocol_observers@.dom()
    }

    /// For each registered contract, the protocols subscribed to it.
    pub closed spec fn subscriptions_view(&self) -> Map<Seq<char>, Seq<u64>> {
        self.subscriptions@
    }

    pub closed spec fn block_store_running(&self) -> bool {
        self.block_store_started
    }

    pub fn new() -> (r: Self)
        ensures
            r.wf(),
            r.observers().is_empty(),
            r.subscriptions_view().is_empty(),
            !r.block_store_running(),
    {
        OrchestraSupervisor {
            protocol_observers: Table::new(),
            subscriptions: Table::new(),
            block_store_started: false,
        }
    }

    /// Records a protocol; `true` when it is new and its observer must be started.
    pub fn register_protocol_observer(&mut self, identifier: &ProtocolObserverId) -> (r: bool)
        requires
            old(self).wf(),
        ensures
            final(self).wf(),
            r == !old(self).observers().contains(identifier.0),
            final(self).observers() == old(self).observers().insert(identifier.0),
            final(self).subscriptions_view() == old(self).subscriptions_view(),
            final(self).block_store_running() == old(self).block_store_running(),
    {
        if self.protocol_observers.get(&identifier.0).is_some() {
            return false;
        }
        self.protocol_observers.put(identifier.0, ());
        proof {
            assert(self.protocol_observers@.dom() =~= old(self).protocol_observers@.dom().insert(
                identifier.0,
            ));
        }
        true
    }

    /// Forgets a protocol whose registration could not complete, so that it
    /// can be registered again.
    pub fn unregister_protocol_observer(&mut self, identifier: &ProtocolObserverId)
        requires
            old(self).wf(),
        ensures
            final(self).wf(),
            final(self).observers() == old(self).observers().remove(identifier.0),
            final(self).subscriptions_view() == old(self).subscriptions_view(),
            final(self).block_store_running() == old(self).block_store_running(),
    {
        self.protocol_observers.remove(&identifier.0);
        proof {
            assert(self.protocol_observers@.dom() =~= old(self).protocol_observers@.dom().remove(identifier.0));
        }
    }

    /// Whether a protocol has a running observer.
    pub fn is_observed(&self, identifier: &ProtocolObserverId) -> (r: bool)
        requires
            self.wf(),
        ensures
            r == self.observers().contains(identifier.0),
    {
        self.protocol_observers.get(&identifier.0).is_some()
    }

    /// Subscribes the protocol to each analyzed contract, in order, and
    /// returns the contracts registered for the first time: each needs a
    /// processor.
    pub fn handle_contracts_analyzed(&mut self, protocol: &ProtocolObserverId, contracts: &Vec<String>) -> (r:
        Vec<String>)
        requires
            old(self).wf(),
        ensures
            final(self).wf(),
            final(self).subscriptions_view() == subscribe_all(
                old(self).subscriptions_view(),
                protocol.0,
                string_views(contracts@),
            ),
            string_views(r@) == newly_registered(
                old(self).subscriptions_view(),
                protocol.0,
                string_views(contracts@),
            ),
            final(self).observers() == old(self).observers(),
            final(self).block_store_running() == old(self).block_store_running(),
    {
        let ghost subs0 = self.subscriptions@;
        let ghost cs = string_views(contracts@);
        let p = protocol.0;
        let mut started: Vec<String> = Vec::new();
        let mut i: usize = 0;
        while i < contracts.len()
            invariant
                i <= contracts.len(),
                cs == string_views(contracts@),
                self.wf(),
                self.subscriptions@ == subscribe_all(subs0, p, cs.take(i as int)),
                string_views(started@) == newly_registered(subs0, p, cs.take(i as int)),
                self.protocol_observers == old(self).protocol_observers,
                self.block_store_started == old(self).block_store_started,
            decreases contracts.len() - i,
        {
            let c = &contracts[i];
            assert(cs.take(i + 1).drop_last() =~= cs.take(i as int));
            assert(cs.take(i + 1).last() == c@);
            let ghost before = self.subscriptions@;
            let current = match self.subscriptions.get(c) {
                Some(ps) => Some(contains_u64(ps, p)),
                None => None,
            };
            match current {
                Some(true) => {},
                Some(false) => {
                    let mut ps = match self.subscriptions.take(c) {
                        Some(ps) => ps,
                        None => Vec::new(),
                    };
                    ps.push(p);
                    self.subscriptions.put(c.clone(), ps);
                    assert(self.subscriptions@ =~= before.insert(c@, before[c@].push(p)));
                },
                None => {
                    let ghost s0 = started@;
                    started.push(c.clone());
                    assert(string_views(started@) =~= string_views(s0).push(c@));
                    let mut ps: Vec<u64> = Vec::new();
                    ps.push(p);
                    self.subscriptions.put(c.clone(), ps);
                    assert(ps@ =~= seq![p]);
                },
            }
            i += 1;
        }
        assert(cs.take(i as int) =~= cs);
        started
    }

    /// The protocols subscribed to a contract, if the contract is registered.
    pub fn subscribers(&self, contract_id: &String) -> (r: Option<&Vec<u64>>)
        requires
            self.wf(),
        ensures
            r.is_some() == self.subscriptions_view().contains_key(contract_id@),
            r.is_some() ==> r.unwrap()@ == self.subscriptions_view()[contract_id@],
    {
        self.subscriptions.get(contract_id)
    }

    /// The registered contracts, each once.
    pub fn registered_contracts(&self) -> (r: Vec<String>)
        requires
            self.wf(),
        ensures
            forall|i: int, j: int|
                0 <= i < r.len() && 0 <= j < r.len() && i != j ==> #[trigger] r@[i]@ != #[trigger] r@[j]@,
            Set::new(|c: Seq<char>| exists|j: int| 0 <= j < r.len() && r@[j]@ == c)
                == self.subscriptions_view().dom(),
    {
        let entries = self.subscriptions.entries();
        let mut r: Vec<String> = Vec::new();
        let mut i: usize = 0;
        while i < entries.len()
            invariant
                i <= entries.len(),
                r.len() == i,
                forall|k: int| 0 <= k < i ==> #[trigger] r@[k]@ == entries@[k].0@,
            decreases entries.len() - i,
        {
            r.push(entries[i].0.clone());
            i += 1;
        }
        proof {
            assert forall|a: int, b: int| 0 <= a < r.len() && 0 <= b < r.len() && a != b implies #[trigger] r@[a]@
                != #[trigger] r@[b]@ by {
                assert(entries@[a].0@ != entries@[b].0@);
            }
            let reg = Set::new(|c: Seq<char>| exists|j: int| 0 <= j < r.len() && r@[j]@ == c);
            assert forall|c: Seq<char>| reg.contains(c) implies self.subscriptions@.dom().contains(c) by {
                let j = choose|j: int| 0 <= j < r.len() && r@[j]@ == c;
                assert(self.subscriptions@.contains_key(entries@[j].0@));
            }
            assert forall|c: Seq<char>| self.subscriptions@.dom().contains(c) implies reg.contains(c) by {
                assert(self.subscriptions@.contains_key(c));
                let j = choose|j: int| 0 <= j < entries.len() && #[trigger] entries@[j].0@ == c;
                assert(r@[j]@ == c);
            }
            assert(reg =~= self.subscriptions@.dom());
        }
        r
    }

    /// Decides what an execution-chain event asks of the block store and of
    /// the contract processors.
    pub fn handle_stacks_chain_event(&mut self, event: &StacksChainEvent) -> (r: Result<
        StacksEventPlan,
        SupervisorError,
    >)
        requires
            old(self).wf(),
        ensures
            final(self).wf(),
            final(self).observers() == old(self).observers(),
            final(self).subscriptions_view() == old(self).subscriptions_view(),
            match *event {
                StacksChainEvent::ChainUpdatedWithMicroblockReorg(_) => {
                    &&& r == Err::<StacksEventPlan, SupervisorError>(
                        SupervisorError::MicroblockReorgUnsupported,
                    )
                    &&& final(self).block_store_running() == old(self).block_store_running()
                },
                StacksChainEvent::ChainUpdatedWithMicroblock(u) if u.current_trail.microblocks.len()
                    == 0 => {
                    &&& r == Err::<StacksEventPlan, SupervisorError>(
                        SupervisorError::EmptyMicroblockTrail,
                    )
                    &&& final(self).block_store_running() == old(self).block_store_running()
                },
                _ => {
                    let plan = r->Ok_0;
                    let delivered = delivered_transactions(*event);
                    &&& r is Ok
                    &&& final(self).block_store_running()
                    &&& plan.start_block_store == !old(self).block_store_running()
                    &&& ids_view(plan.rollback@) == rolled_back(*event)
                    &&& plan.batches.len() == delivered.len()
                    &&& forall|i: int|
                        0 <= i < delivered.len() ==> is_grouping(
                            (#[trigger] plan.batches@[i])@,
                            old(self).subscriptions_view().dom(),
                            delivered[i],
                        )
                },
            },
    {
        match event {
            StacksChainEvent::ChainUpdatedWithMicroblockReorg(_) => {
                return Err(SupervisorError::MicroblockReorgUnsupported);
            },
            StacksChainEvent::ChainUpdatedWithMicroblock(u) => {
                if u.current_trail.microblocks.len() == 0 {
                    return Err(SupervisorError::EmptyMicroblockTrail);
                }
            },
            _ => {},
        }
        let start_block_store = !self.block_store_started;
        self.block_store_started = true;
        let registered = self.registered_contracts();
        let ghost reg = self.subscriptions@.dom();
        let mut rollback: Vec<BlockIdentifier> = Vec::new();
        let mut batches: Vec<Vec<(String, Vec<usize>)>> = Vec::new();
        match event {
            StacksChainEvent::ChainUpdatedWithBlock(u) => {
                batches.push(group_transactions_by_contract(&registered, &u.new_block.transactions));
            },
            StacksChainEvent::ChainUpdatedWithReorg(u) => {
                let mut i: usize = 0;
                while i < u.old_blocks.len()
                    invariant
                        i <= u.old_blocks.len(),
                        ids_view(rollback@) == branch_ids(u.old_blocks@.take(i as int)),
                    decreases u.old_blocks.len() - i,
                {
                    let ghost r0 = rollback@;
                    let id = u.old_blocks[i].1.block_identifier.duplicate();
                    rollback.push(id);
                    assert(u.old_blocks@.take(i + 1) =~= u.old_blocks@.take(i as int).push(
                        u.old_blocks@[i as int],
                    ));
                    assert(ids_view(rollback@) =~= ids_view(r0).push(id_view(id)));
                    assert(branch_ids(u.old_blocks@.take(i + 1)) =~= branch_ids(u.old_blocks@.take(i as int)).push(
                        id_view(u.old_blocks@[i as int].1.block_identifier),
                    ));
                    i += 1;
                }
                assert(u.old_blocks@.take(i as int) =~= u.old_blocks@);
                let mut i: usize = 0;
                while i < u.new_blocks.len()
                    invariant
                        i <= u.new_blocks.len(),
                        batches.len() == i,
                        reg == Set::new(
                            |c: Seq<char>| exists|j: int| 0 <= j < registered.len() && registered@[j]@ == c,
                        ),
                        forall|i: int, j: int|
                            0 <= i < registered.len() && 0 <= j < registered.len() && i != j
                                ==> #[trigger] registered@[i]@ != #[trigger] registered@[j]@,
                        forall|k: int|
                            0 <= k < i ==> is_grouping(
                                (#[trigger] batches@[k])@,
                                reg,
                                u.new_blocks@[k].1.transactions@,
                            ),
                    decreases u.new_blocks.len() - i,
                {
                    batches.push(group_transactions_by_contract(&registered, &u.new_blocks[i].1.transactions));
                    i += 1;
                }
            },
            StacksChainEvent::ChainUpdatedWithMicroblock(u) => {
                let n = u.current_trail.microblocks.len();
                batches.push(
                    group_transactions_by_contract(&registered, &u.current_trail.microblocks[n - 1].transactions),
                );
            },
            StacksChainEvent::ChainUpdatedWithMicroblockReorg(_) => {},
        }
        Ok(StacksEventPlan { start_block_store, rollback, batches })
    }

    /// Decides what an anchor-chain event asks of the block store.
    pub fn handle_bitcoin_chain_event(&mut self, event: &BitcoinChainEvent) -> (r: BitcoinEventPlan)
        requires
            old(self).wf(),
        ensures
            final(self).wf(),
            final(self).observers() == old(self).observers(),
            final(self).subscriptions_view() == old(self).subscriptions_view(),
            final(self).block_store_running(),
            r.start_block_store == !old(self).block_store_running(),
            ids_view(r.rollback@) == match *event {
                BitcoinChainEvent::ChainUpdatedWithBlock(_) => Seq::empty(),
                BitcoinChainEvent::ChainUpdatedWithReorg(old_segment, _) => bitcoin_ids(old_segment@),
            },
    {
        let start_block_store = !self.block_store_started;
        self.block_store_started = true;
        let mut rollback: Vec<BlockIdentifier> = Vec::new();
        match event {
            BitcoinChainEvent::ChainUpdatedWithBlock(_) => {
                assert(ids_view(rollback@) =~= Seq::<(u64, Seq<char>)>::empty());
            },
            BitcoinChainEvent::ChainUpdatedWithReorg(old_segment, _) => {
                let mut i: usize = 0;
                while i < old_segment.len()
                    invariant
                        i <= old_segment.len(),
                        ids_view(rollback@) == bitcoin_ids(old_segment@.take(i as int)),
                    decreases old_segment.len() - i,
                {
                    let ghost r0 = rollback@;
                    let id = old_segment[i].block_identifier.duplicate();
                    rollback.push(id);
                    assert(old_segment@.take(i + 1) =~= old_segment@.take(i as int).push(old_segment@[i as int]));
                    assert(ids_view(rollback@) =~= ids_view(r0).push(id_view(id)));
                    assert(bitcoin_ids(old_segment@.take(i + 1)) =~= bitcoin_ids(old_segment@.take(i as int)).push(
                        id_view(old_segment@[i as int].block_identifier),
                    ));
                    i += 1;
                }
                assert(old_segment@.take(i as int) =~= old_segment@);
            },
        }
        BitcoinEventPlan { start_block_store, rollback }
    }
}

fn contains_u64(v: &Vec<u64>, x: u64) -> (r: bool)
    ensures
        r == v@.contains(x),
{
    let mut i: usize = 0;
    while i < v.len()
        invariant
            i <= v.len(),
            forall|j: int| 0 <= j < i ==> v@[j] != x,
        decreases v.len() - i,
    {
        if v[i] == x {
            return true;
        }
        i += 1;
    }
    false
}

} // verus!
