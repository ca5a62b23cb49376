//! Triggers that watch chain activity, and which of them a block fires.
use crate::table::Table;
use crate::types::{StacksBlockData, StacksTransactionData, TriggerId};
use vstd::prelude::*;

verus! {

/// The triggers registered on execution-chain activity, by what they watch.
pub struct StacksChainPredicates {
    pub watching_contract_id_activity: Table<String, Vec<TriggerId>>,
    pub watching_contract_data_mutation_activity: Table<String, Vec<TriggerId>>,
    pub watching_principal_activity: Table<String, Vec<TriggerId>>,
    pub watching_ft_move_activity: Table<String, Vec<TriggerId>>,
    pub watching_nft_activity: Table<String, Vec<TriggerId>>,
    pub watching_any_block_activity: Vec<TriggerId>,
}

pub open spec fn tables_wf(p: StacksChainPredicates) -> bool {
    &&& p.watching_contract_id_activity.wf()
    &&& p.watching_contract_data_mutation_activity.wf()
    &&& p.watching_principal_activity.wf()
    &&& p.watching_ft_move_activity.wf()
    &&& p.watching_nft_activity.wf()
}

fn copy_triggers(v: &Vec<TriggerId>) -> (r: Vec<TriggerId>)
    ensures
        r@ == v@,
{
    let mut r: Vec<TriggerId> = Vec::new();
    let mut i: usize = 0;
    while i < v.len()
        invariant
            i <= v.len(),
            r@ == v@.take(i as int),
        decreases v.len() - i,
    {
        r.push(v[i]);
        assert(v@.take(i + 1) =~= v@.take(i as int).push(v@[i as int]));
        i += 1;
    }
    assert(v@.take(i as int) =~= v@);
    r
}

/// `after` holds the entries of `before` and of `from`, those of `from`
/// winning under a shared key.
pub open spec fn merged(
    after: Map<Seq<char>, Seq<TriggerId>>,
    before: Map<Seq<char>, Seq<TriggerId>>,
    from: Map<Seq<char>, Seq<TriggerId>>,
) -> bool {
    &&& forall|k: Seq<char>| #[trigger] after.contains_key(k) <==> before.contains_key(k) || from.contains_key(k)
    &&& forall|k: Seq<char>| #[trigger] from.contains_key(k) ==> after[k] == from[k]
    &&& forall|k: Seq<char>| #[trigger]
        after.contains_key(k) && !from.contains_key(k) ==> after[k] == before[k]
}

/// Copies every entry of `from` into `into`, replacing entries under the same key.
fn merge_into(into: &mut Table<String, Vec<TriggerId>>, from: &Table<String, Vec<TriggerId>>)
    requires
        old(into).wf(),
        from.wf(),
    ensures
        final(into).wf(),
        merged(final(into)@, old(into)@, from@),
{
    let entries = from.entries();
    let mut i: usize = 0;
    while i < entries.len()
        invariant
            i <= entries.len(),
            into.wf(),
            from.wf(),
            entries@ == from.entry_seq(),
            forall|a: int, b: int|
                0 <= a < entries.len() && 0 <= b < entries.len() && a != b ==> #[trigger] entries@[a].0@
                    != #[trigger] entries@[b].0@,
            forall|j: int| 0 <= j < entries.len() ==> {
                &&& #[trigger] from@.contains_key(entries@[j].0@)
                &&& from@[entries@[j].0@] == entries@[j].1@
            },
            forall|k| #[trigger] from@.contains_key(k) ==> exists|j: int|
                0 <= j < entries.len() && #[trigger] entries@[j].0@ == k,
            forall|k: Seq<char>| #[trigger]
                into@.contains_key(k) <==> old(into)@.contains_key(k) || exists|j: int|
                    0 <= j < i && entries@[j].0@ == k,
            forall|j: int| 0 <= j < i ==> #[trigger] into@[entries@[j].0@] == entries@[j].1@,
            forall|k: Seq<char>| #[trigger]
                into@.contains_key(k) && !(exists|j: int| 0 <= j < i && entries@[j].0@ == k)
                    ==> into@[k] == old(into)@[k],
        decreases entries.len() - i,
    {
        let ghost before = into@;
        into.put(entries[i].0.clone(), copy_triggers(&entries[i].1));
        proof {
            assert forall|j: int| 0 <= j < i + 1 implies #[trigger] into@[entries@[j].0@] == entries@[j].1@ by {
                if j < i {
                    assert(entries@[j].0@ != entries@[i as int].0@);
                }
            }
            assert forall|k: Seq<char>| #[trigger] into@.contains_key(k) <==> old(into)@.contains_key(k)
                || exists|j: int| 0 <= j < i + 1 && entries@[j].0@ == k by {
                if k == entries@[i as int].0@ {
                    assert(exists|j: int| 0 <= j < i + 1 && entries@[j].0@ == k);
                } else if exists|j: int| 0 <= j < i + 1 && entries@[j].0@ == k {
                    let j = choose|j: int| 0 <= j < i + 1 && entries@[j].0@ == k;
                    assert(j != i);
                }
            }
            assert forall|k: Seq<char>| #[trigger] into@.contains_key(k) && !(exists|j: int|
                0 <= j < i + 1 && entries@[j].0@ == k) implies into@[k] == old(into)@[k] by {
                assert(k != entries@[i as int].0@);
            }
        }
        i += 1;
    }
    proof {
        assert forall|k: Seq<char>| #[trigger] from@.contains_key(k) implies into@[k] == from@[k] by {
            let j = choose|j: int| 0 <= j < entries.len() && #[trigger] entries@[j].0@ == k;
        }
        assert forall|k: Seq<char>| #[trigger] into@.contains_key(k) <==> old(into)@.contains_key(k)
            || from@.contains_key(k) by {
            if exists|j: int| 0 <= j < i && entries@[j].0@ == k {
                let j = choose|j: int| 0 <= j < i && entries@[j].0@ == k;
                assert(from@.contains_key(entries@[j].0@));
            }
        }
    }
}

/// The triggers registered on each contract of a radius, in order.
pub open spec fn radius_triggers(m: Map<Seq<char>, Seq<TriggerId>>, radius: Seq<String>) -> Seq<TriggerId>
    decreases radius.len(),
{
    if radius.len() == 0 {
        Seq::empty()
    } else {
        radius_triggers(m, radius.drop_last()) + if m.contains_key(radius.last()@) {
            m[radius.last()@]
        } else {
            Seq::empty()
        }
    }
}

/// The triggers that the successful transactions of a block fire through
/// the contracts they touch, in order.
pub open spec fn block_triggers(m: Map<Seq<char>, Seq<TriggerId>>, txs: Seq<StacksTransactionData>) -> Seq<
    TriggerId,
>
    decreases txs.len(),
{
    if txs.len() == 0 {
        Seq::empty()
    } else {
        block_triggers(m, txs.drop_last()) + if txs.last().success {
            radius_triggers(m, txs.last().receipt.mutated_contracts_radius@)
        } else {
            Seq::empty()
        }
    }
}

impl StacksChainPredicates {
    pub fn new() -> (r: Self)
        ensures
            tables_wf(r),
            r.watching_contract_id_activity@.is_empty(),
            r.watching_contract_data_mutation_activity@.is_empty(),
            r.watching_principal_activity@.is_empty(),
            r.watching_ft_move_activity@.is_empty(),
            r.watching_nft_activity@.is_empty(),
            r.watching_any_block_activity@.len() == 0,
    {
        StacksChainPredicates {
            watching_contract_id_activity: Table::new(),
            watching_contract_data_mutation_activity: Table::new(),
            watching_principal_activity: Table::new(),
            watching_ft_move_activity: Table::new(),
            watching_nft_activity: Table::new(),
            watching_any_block_activity: Vec::new(),
        }
    }

    /// Adds the triggers of `predicates`; a key registered again gets the new triggers.
    pub fn register_predicates(&mut self, predicates: &StacksChainPredicates)
        requires
            tables_wf(*old(self)),
            tables_wf(*predicates),
        ensures
            tables_wf(*final(self)),
            merged(
                final(self).watching_contract_id_activity@,
                old(self).watching_contract_id_activity@,
                predicates.watching_contract_id_activity@,
            ),
            merged(
                final(self).watching_contract_data_mutation_activity@,
                old(self).watching_contract_data_mutation_activity@,
                predicates.watching_contract_data_mutation_activity@,
            ),
            merged(
                final(self).watching_principal_activity@,
                old(self).watching_principal_activity@,
                predicates.watching_principal_activity@,
            ),
            merged(
                final(self).watching_ft_move_activity@,
                old(self).watching_ft_move_activity@,
                predicates.watching_ft_move_activity@,
            ),
            merged(
                final(self).watching_nft_activity@,
                old(self).watching_nft_activity@,
                predicates.watching_nft_activity@,
            ),
            final(self).watching_any_block_activity@ == old(self).watching_any_block_activity@
                + predicates.watching_any_block_activity@,
    {
        merge_into(&mut self.watching_contract_id_activity, &predicates.watching_contract_id_activity);
        merge_into(
            &mut self.watching_contract_data_mutation_activity,
            &predicates.watching_contract_data_mutation_activity,
        );
        merge_into(&mut self.watching_principal_activity, &predicates.watching_principal_activity);
        merge_into(&mut self.watching_ft_move_activity, &predicates.watching_ft_move_activity);
        merge_into(&mut self.watching_nft_activity, &predicates.watching_nft_activity);
        let mut more = copy_triggers(&predicates.watching_any_block_activity);
        self.watching_any_block_activity.append(&mut more);
    }

    /// The triggers that a new block fires: those watching any block, then
    /// those watching a contract that one of its successful transactions
    /// touches, in order.
    pub fn handle_new_stacks_block(&self, block: &StacksBlockData) -> (r: Vec<TriggerId>)
        requires
            tables_wf(*self),
        ensures
            r@ == self.watching_any_block_activity@ + block_triggers(
                self.watching_contract_id_activity@,
                block.transactions@,
            ),
    {
        let ghost m = self.watching_contract_id_activity@;
        let mut r = copy_triggers(&self.watching_any_block_activity);
        let ghost any = self.watching_any_block_activity@;
        let mut i: usize = 0;
        while i < block.transactions.len()
            invariant
                tables_wf(*self),
                m == self.watching_contract_id_activity@,
                any == self.watching_any_block_activity@,
                i <= block.transactions.len(),
                r@ == any + block_triggers(m, block.transactions@.take(i as int)),
            decreases block.transactions.len() - i,
        {
            let tx = &block.transactions[i];
            let ghost before = r@;
            assert(block.transactions@.take(i + 1).drop_last() =~= block.transactions@.take(i as int));
            assert(block.transactions@.take(i + 1).last() == *tx);
            if tx.success {
                let radius = &tx.receipt.mutated_contracts_radius;
                let mut j: usize = 0;
                while j < radius.len()
                    invariant
                        tables_wf(*self),
                        m == self.watching_contract_id_activity@,
                        j <= radius.len(),
                        r@ == before + radius_triggers(m, radius@.take(j as int)),
                    decreases radius.len() - j,
                {
                    assert(radius@.take(j + 1).drop_last() =~= radius@.take(j as int));
                    assert(radius@.take(j + 1).last() == radius@[j as int]);
                    let ghost r0 = r@;
                    match self.watching_contract_id_activity.get(&radius[j]) {
                        Some(triggers) => {
                            let mut more = copy_triggers(triggers);
                            r.append(&mut more);
                            assert(r@ =~= before + radius_triggers(m, radius@.take(j + 1)));
                        },
                        None => {
                            assert(r@ =~= before + radius_triggers(m, radius@.take(j + 1)));
                        },
                    }
                    j += 1;
                }
                assert(radius@.take(j as int) =~= radius@);
                assert(r@ =~= any + block_triggers(m, block.transactions@.take(i + 1)));
            } else {
                assert(r@ =~= any + block_triggers(m, block.transactions@.take(i + 1)));
            }
            i += 1;
        }
        assert(block.transactions@.take(i as int) =~= block.transactions@);
        r
    }
}

} // verus!
