//! The protocol observer's logic: which contracts a protocol needs, in which
//! order they are analyzed, and how field queries are answered.
use crate::block_store::{ArchivedBlock, ChainArchive};
use crate::format::{ft_event_formatted, map_event_formatted, nft_event_formatted};
use crate::processor::{log_sorted, precedes, ContractProcessor, EventRecord, RecordedEvent};
use crate::types::{
    DataMapEventFormattedValue, DataVarSetEventFormattedValue,
    FTEventFormattedValue, NFTEventFormattedValue, ProtocolObserverConfig, StacksBlockData,
};
use vstd::string::StrSliceExecFns;
use vstd::prelude::*;

verus! {

/// Why the contracts of a protocol cannot be put in analysis order.
#[derive(PartialEq, Eq, Structural, Clone, Copy, Debug)]
pub enum AnalysisError {
    /// Some contracts depend on each other in a cycle.
    DependencyCycle,
}

pub open spec fn keys_of(deps: Seq<(String, Vec<String>)>) -> Set<Seq<char>> {
    Set::new(|c: Seq<char>| exists|j: int| 0 <= j < deps.len() && deps[j].0@ == c)
}

/// `d` is a dependency of the `i`-th contract.
pub open spec fn depends_on(deps: Seq<(String, Vec<String>)>, i: int, d: Seq<char>) -> bool {
    exists|k: int| 0 <= k < deps[i].1.len() && (#[trigger] deps[i].1@[k])@ == d
}

/// `order` lists every contract of `deps` once, each after the contracts of
/// `deps` that it depends on.
pub open spec fn is_dependency_order(deps: Seq<(String, Vec<String>)>, order: Seq<String>) -> bool {
    &&& order.len() == deps.len()
    &&& forall|a: int, b: int|
        0 <= a < order.len() && 0 <= b < order.len() && a != b ==> #[trigger] order[a]@
            != #[trigger] order[b]@
    &&& forall|a: int| 0 <= a < order.len() ==> keys_of(deps).contains(#[trigger] order[a]@)
    &&& forall|a: int, j: int, d: Seq<char>|
        #![trigger depends_on(deps, j, d), order[a]]
        0 <= a < order.len() && 0 <= j < deps.len() && deps[j].0@ == order[a]@ && depends_on(
            deps,
            j,
            d,
        ) && keys_of(deps).contains(d) ==> exists|b: int|
            0 <= b < a && #[trigger] order[b]@ == d
}

/// A certificate of a cycle: a non-empty set of the protocol's contracts in
/// which every contract depends on one of the set.
pub open spec fn has_dependency_cycle(deps: Seq<(String, Vec<String>)>) -> bool {
    exists|s: Set<Seq<char>>|
        {
            &&& #[trigger] s.len() > 0
            &&& s.finite()
            &&& forall|c: Seq<char>| s.contains(c) ==> keys_of(deps).contains(c)
            &&& forall|j: int|
                0 <= j < deps.len() && s.contains(deps[j].0@) ==> exists|d: Seq<char>|
                    #[trigger] depends_on(deps, j, d) && s.contains(d)
        }
}

fn position_of(names: &Vec<String>, name: &String) -> (r: Option<usize>)
    ensures
        r.is_none() ==> forall|j: int| 0 <= j < names.len() ==> names@[j]@ != name@,
        r.is_some() ==> r.unwrap() < names.len() && names@[r.unwrap() as int]@ == name@,
{
    let mut j: usize = 0;
    while j < names.len()
        invariant
            j <= names.len(),
            forall|k: int| 0 <= k < j ==> names@[k]@ != name@,
        decreases names.len() - j,
    {
        if names[j].eq(name) {
            return Some(j);
        }
        j += 1;
    }
    None
}

fn key_position(deps: &Vec<(String, Vec<String>)>, name: &String) -> (r: Option<usize>)
    ensures
        r.is_none() ==> !keys_of(deps@).contains(name@),
        r.is_some() ==> r.unwrap() < deps.len() && deps@[r.unwrap() as int].0@ == name@,
{
    let mut j: usize = 0;
    while j < deps.len()
        invariant
            j <= deps.len(),
            forall|k: int| 0 <= k < j ==> deps@[k].0@ != name@,
        decreases deps.len() - j,
    {
        if deps[j].0.eq(name) {
            return Some(j);
        }
        j += 1;
    }
    None
}

/// Whether every dependency of the `i`-th contract that is itself in `deps`
/// is already placed; if not, one that is missing.
fn first_unplaced_dependency(deps: &Vec<(String, Vec<String>)>, i: usize, placed: &Vec<String>) -> (r:
    Option<usize>)
    requires
        i < deps.len(),
    ensures
        r.is_none() ==> forall|d: Seq<char>|
            #[trigger] depends_on(deps@, i as int, d) && keys_of(deps@).contains(d) ==> exists|b: int|
                0 <= b < placed.len() && placed@[b]@ == d,
        r.is_some() ==> {
            let k = r.unwrap() as int;
            &&& 0 <= k < deps@[i as int].1.len()
            &&& keys_of(deps@).contains(deps@[i as int].1@[k]@)
            &&& forall|b: int| 0 <= b < placed.len() ==> placed@[b]@ != deps@[i as int].1@[k]@
        },
{
    let ds = &deps[i].1;
    let mut k: usize = 0;
    while k < ds.len()
        invariant
            i < deps.len(),
            ds == deps@[i as int].1,
            k <= ds.len(),
            forall|kk: int|
                0 <= kk < k && keys_of(deps@).contains(#[trigger] ds@[kk]@) ==> exists|b: int|
                    0 <= b < placed.len() && placed@[b]@ == ds@[kk]@,
        decreases ds.len() - k,
    {
        if key_position(deps, &ds[k]).is_some() && position_of(placed, &ds[k]).is_none() {
            return Some(k);
        }
        k += 1;
    }
    proof {
        assert forall|d: Seq<char>|
            #[trigger] depends_on(deps@, i as int, d) && keys_of(deps@).contains(d) implies exists|b: int|
                0 <= b < placed.len() && placed@[b]@ == d by {
            let kk = choose|kk: int| 0 <= kk < deps@[i as int].1.len() && (#[trigger] deps@[i as int].1@[kk])@ == d;
            assert(keys_of(deps@).contains(ds@[kk]@));
        }
    }
    None
}

/// Orders the contracts of a protocol so that each comes after the contracts
/// it depends on; dependencies outside the protocol are not ordered. When no
/// such order exists, reports the cycle.
pub fn order_contracts(deps: &Vec<(String, Vec<String>)>) -> (r: Result<Vec<String>, AnalysisError>)
    requires
        forall|a: int, b: int|
            0 <= a < deps.len() && 0 <= b < deps.len() && a != b ==> #[trigger] deps@[a].0@
                != #[trigger] deps@[b].0@,
    ensures
        match r {
            Ok(order) => is_dependency_order(deps@, order@),
            Err(e) => e == AnalysisError::DependencyCycle && has_dependency_cycle(deps@),
        },
{
    let n = deps.len();
    let mut order: Vec<String> = Vec::new();
    let mut done: Vec<bool> = Vec::new();
    let mut j: usize = 0;
    while j < n
        invariant
            n == deps.len(),
            j <= n,
            done.len() == j,
            forall|k: int| 0 <= k < j ==> !done@[k],
        decreases n - j,
    {
        done.push(false);
        j += 1;
    }
    assert(Set::new(|k: int| 0 <= k < n && done@[k]) =~= Set::<int>::empty());
    // Each round places the first contract whose dependencies are all placed.
    while order.len() < n
        invariant
            n == deps.len(),
            done.len() == n,
            order.len() <= n,
            forall|a: int, b: int|
                0 <= a < n && 0 <= b < n && a != b ==> #[trigger] deps@[a].0@ != #[trigger] deps@[b].0@,
            // the placed contracts are exactly those marked done
            forall|k: int| 0 <= k < n ==> (#[trigger] done@[k] <==> exists|b: int|
                0 <= b < order.len() && order@[b]@ == deps@[k].0@),
            order.len() == Set::new(|k: int| 0 <= k < n && done@[k]).len(),
            Set::new(|k: int| 0 <= k < n && done@[k]).finite(),
            forall|a: int, b: int|
                0 <= a < order.len() && 0 <= b < order.len() && a != b ==> #[trigger] order@[a]@
                    != #[trigger] order@[b]@,
            forall|a: int| 0 <= a < order.len() ==> keys_of(deps@).contains(#[trigger] order@[a]@),
            forall|a: int, jj: int, d: Seq<char>|
                #![trigger depends_on(deps@, jj, d), order@[a]]
                0 <= a < order.len() && 0 <= jj < n && deps@[jj].0@ == order@[a]@ && depends_on(
                    deps@,
                    jj,
                    d,
                ) && keys_of(deps@).contains(d) ==> exists|b: int|
                    0 <= b < a && #[trigger] order@[b]@ == d,
        decreases n - order.len(),
    {
        let mut pick: Option<usize> = None;
        let mut i: usize = 0;
        while i < n
            invariant
                n == deps.len(),
                done.len() == n,
                i <= n,
                pick.is_some() ==> pick.unwrap() < n && !done@[pick.unwrap() as int] && forall|d: Seq<char>|
                    #[trigger] depends_on(deps@, pick.unwrap() as int, d) && keys_of(deps@).contains(d)
                        ==> exists|b: int| 0 <= b < order.len() && order@[b]@ == d,
                pick.is_none() ==> forall|k: int|
                    0 <= k < i && !(#[trigger] done@[k]) ==> exists|d: Seq<char>|
                        depends_on(deps@, k, d) && keys_of(deps@).contains(d) && forall|b: int|
                            0 <= b < order.len() ==> order@[b]@ != d,
            decreases n - i,
        {
            if pick.is_none() && !done[i] {
                match first_unplaced_dependency(deps, i, &order) {
                    None => {
                        pick = Some(i);
                    },
                    Some(k) => {
                        proof {
                            let d = deps@[i as int].1@[k as int]@;
                            assert(depends_on(deps@, i as int, d));
                        }
                    },
                }
            }
            i += 1;
        }
        match pick {
            Some(p) => {
                let ghost order0 = order@;
                let ghost done0 = done@;
                order.push(deps[p].0.clone());
                done.set(p, true);
                proof {
                    assert(!done0[p as int]);
                    assert forall|a: int| 0 <= a < order0.len() implies order0[a]@ != deps@[p as int].0@ by {
                        if order0[a]@ == deps@[p as int].0@ {
                            assert(done0[p as int]);
                        }
                    }
                    assert forall|k: int| 0 <= k < n implies (#[trigger] done@[k] <==> exists|b: int|
                        0 <= b < order.len() && order@[b]@ == deps@[k].0@) by {
                        if k == p {
                            assert(order@[order0.len() as int]@ == deps@[k].0@);
                        } else {
                            if done@[k] {
                                let b = choose|b: int| 0 <= b < order0.len() && order0[b]@ == deps@[k].0@;
                                assert(order@[b] == order0[b]);
                            }
                            if exists|b: int| 0 <= b < order.len() && order@[b]@ == deps@[k].0@ {
                                let b = choose|b: int| 0 <= b < order.len() && order@[b]@ == deps@[k].0@;
                                if b == order0.len() {
                                    assert(deps@[p as int].0@ == deps@[k].0@);
                                } else {
                                    assert(order0[b]@ == deps@[k].0@);
                                }
                            }
                        }
                    }
                    let before = Set::new(|k: int| 0 <= k < n && done0[k]);
                    let after = Set::new(|k: int| 0 <= k < n && done@[k]);
                    assert(after =~= before.insert(p as int));
                    assert(keys_of(deps@).contains(deps@[p as int].0@));
                    assert forall|a: int, jj: int, d: Seq<char>|
                        #![trigger depends_on(deps@, jj, d), order@[a]]
                        0 <= a < order.len() && 0 <= jj < n && deps@[jj].0@ == order@[a]@ && depends_on(
                            deps@,
                            jj,
                            d,
                        ) && keys_of(deps@).contains(d) implies exists|b: int|
                            0 <= b < a && #[trigger] order@[b]@ == d by {
                        if a == order0.len() {
                            assert(jj == p);
                            let b = choose|b: int| 0 <= b < order0.len() && order0[b]@ == d;
                            assert(order@[b] == order0[b]);
                        } else {
                            assert(order@[a] == order0[a]);
                            let b = choose|b: int| 0 <= b < a && #[trigger] order0[b]@ == d;
                            assert(order@[b] == order0[b]);
                        }
                    }
                }
            },
            None => {
                proof {
                    let s = Set::new(|c: Seq<char>| exists|k: int| 0 <= k < n && !done@[k] && deps@[k].0@ == c);
                    let undone = Set::new(|k: int| 0 <= k < n && !done@[k]);
                    let all = Set::new(|k: int| 0 <= k < n);
                    let placed = Set::new(|k: int| 0 <= k < n && done@[k]);
                    vstd::set_lib::lemma_int_range(0, n as int);
                    assert(all =~= vstd::set_lib::set_int_range(0, n as int));
                    assert(placed.subset_of(all));
                    assert(placed.len() < n);
                    assert(undone =~= all.difference(placed));
                    assert(all.intersect(placed) =~= placed);
                    vstd::set_lib::lemma_set_difference_len(all, placed);
                    assert(undone.len() > 0);
                    assert(exists|k: int| undone.contains(k)) by {
                        if !(exists|k: int| undone.contains(k)) {
                            assert(undone =~= Set::<int>::empty());
                        }
                    }
                    let k0 = undone.choose();
                    assert(undone.contains(k0));
                    assert(s.contains(deps@[k0].0@));
                    let f = |k: int| deps@[k].0@;
                    assert forall|c: Seq<char>| s.contains(c) implies undone.map(f).contains(c) by {
                        let k = choose|k: int| 0 <= k < n && !done@[k] && deps@[k].0@ == c;
                        assert(undone.contains(k) && f(k) == c);
                    }
                    assert forall|c: Seq<char>| undone.map(f).contains(c) implies s.contains(c) by {
                        let k = choose|k: int| undone.contains(k) && f(k) == c;
                        assert(0 <= k < n && !done@[k] && deps@[k].0@ == c);
                    }
                    assert(s =~= undone.map(f));
                    undone.lemma_map_finite(f);
                    assert(s.len() > 0) by {
                        if s.len() == 0 {
                            s.lemma_len0_is_empty();
                            assert(s.contains(deps@[k0].0@));
                        }
                    }
                    assert forall|jj: int|
                        0 <= jj < deps.len() && s.contains(deps@[jj].0@) implies exists|d: Seq<char>|
                            #[trigger] depends_on(deps@, jj, d) && s.contains(d) by {
                        let k = choose|k: int| 0 <= k < n && !done@[k] && deps@[k].0@ == deps@[jj].0@;
                        assert(k == jj);
                        let d = choose|d: Seq<char>|
                            depends_on(deps@, k, d) && keys_of(deps@).contains(d) && forall|b: int|
                                0 <= b < order.len() ==> order@[b]@ != d;
                        let kd = choose|kd: int| 0 <= kd < deps.len() && deps@[kd].0@ == d;
                        if done@[kd] {
                            let b = choose|b: int| 0 <= b < order.len() && order@[b]@ == deps@[kd].0@;
                            assert(false);
                        }
                        assert(s.contains(d));
                    }
                    assert(s.finite());
                    assert forall|c: Seq<char>| s.contains(c) implies keys_of(deps@).contains(c) by {
                        let k = choose|k: int| 0 <= k < n && !done@[k] && deps@[k].0@ == c;
                        assert(0 <= k < deps.len() && deps@[k].0@ == c);
                    }
                }
                return Err(AnalysisError::DependencyCycle);
            },
        }
    }
    proof {
        assert(order.len() == deps.len());
    }
    Ok(order)
}

/// Breadth-first discovery of the contracts a protocol needs: the declared
/// contracts first, then every contract they depend on. The analyser that
/// names the dependencies of a contract is consulted by the caller, between
/// `next_pending` and `record`.
pub struct DependencyCollector {
    queue: Vec<String>,
    next: usize,
    dependencies: Vec<(String, Vec<String>)>,
}

impl DependencyCollector {
    pub closed spec fn wf(&self) -> bool {
        &&& self.next <= self.queue.len()
        &&& forall|a: int, b: int|
            0 <= a < self.dependencies.len() && 0 <= b < self.dependencies.len() && a != b
                ==> #[trigger] self.dependencies@[a].0@ != #[trigger] self.dependencies@[b].0@
        &&& forall|q: int| 0 <= q < self.next ==> keys_of(self.dependencies@).contains(
            #[trigger] self.queue@[q]@,
        )
        &&& forall|j: int, d: Seq<char>|
            0 <= j < self.dependencies.len() && #[trigger] depends_on(self.dependencies@, j, d)
                ==> exists|q: int| 0 <= q < self.queue.len() && #[trigger] self.queue@[q]@ == d
    }

    /// The contracts recorded so far, each with its dependencies.
    pub closed spec fn recorded(&self) -> Seq<(String, Vec<String>)> {
        self.dependencies@
    }

    /// Every contract that was ever queued: declared or depended upon.
    pub closed spec fn queued(&self) -> Seq<String> {
        self.queue@
    }

    /// Starts with the contracts that the protocol declares, in order.
    pub fn new(config: &ProtocolObserverConfig) -> (r: Self)
        ensures
            r.wf(),
            r.recorded().len() == 0,
            r.queued().len() == config.contracts.len(),
            forall|i: int| 0 <= i < config.contracts.len() ==> #[trigger] r.queued()[i]@
                == config.contracts@[i].0@,
    {
        let mut queue: Vec<String> = Vec::new();
        let mut i: usize = 0;
        while i < config.contracts.len()
            invariant
                i <= config.contracts.len(),
                queue.len() == i,
                forall|k: int| 0 <= k < i ==> #[trigger] queue@[k]@ == config.contracts@[k].0@,
            decreases config.contracts.len() - i,
        {
            queue.push(config.contracts[i].0.clone());
            i += 1;
        }
        DependencyCollector { queue, next: 0, dependencies: Vec::new() }
    }

    /// The next queued contract whose dependencies are not recorded yet;
    /// `None` once every queued contract is recorded.
    pub fn next_pending(&mut self) -> (r: Option<String>)
        requires
            old(self).wf(),
        ensures
            final(self).wf(),
            final(self).recorded() == old(self).recorded(),
            final(self).queued() == old(self).queued(),
            r.is_some() ==> !keys_of(final(self).recorded()).contains(r.unwrap()@) && exists|q: int|
                0 <= q < final(self).queued().len() && final(self).queued()[q]@ == r.unwrap()@,
            r.is_none() ==> forall|q: int|
                0 <= q < final(self).queued().len() ==> keys_of(final(self).recorded()).contains(
                    #[trigger] final(self).queued()[q]@,
                ),
    {
        while self.next < self.queue.len()
            invariant
                self.wf(),
                self.queue == old(self).queue,
                self.dependencies == old(self).dependencies,
            decreases self.queue.len() - self.next,
        {
            let c = &self.queue[self.next];
            let mut known = false;
            let mut j: usize = 0;
            while j < self.dependencies.len()
                invariant
                    j <= self.dependencies.len(),
                    known == exists|k: int| 0 <= k < j && self.dependencies@[k].0@ == c@,
                decreases self.dependencies.len() - j,
            {
                if self.dependencies[j].0.eq(c) {
                    known = true;
                }
                j += 1;
            }
            if !known {
                proof {
                    assert(self.queue@[self.next as int]@ == c@);
                    assert(!keys_of(self.dependencies@).contains(c@)) by {
                        if keys_of(self.dependencies@).contains(c@) {
                            let k = choose|k: int| 0 <= k < self.dependencies@.len() && self.dependencies@[k].0@ == c@;
                            assert(exists|k: int| 0 <= k < j && self.dependencies@[k].0@ == c@);
                        }
                    }
                }
                return Some(c.clone());
            }
            self.next = self.next + 1;
        }
        None
    }

    /// Records the dependencies of a contract and queues them; a contract
    /// recorded before keeps its first record.
    pub fn record(&mut self, contract_id: String, dependencies: Vec<String>)
        requires
            old(self).wf(),
        ensures
            final(self).wf(),
            keys_of(old(self).recorded()).contains(contract_id@) ==> final(self).recorded() == old(
                self,
            ).recorded() && final(self).queued() == old(self).queued(),
            !keys_of(old(self).recorded()).contains(contract_id@) ==> {
                &&& final(self).recorded().len() == old(self).recorded().len() + 1
                &&& final(self).recorded().take(old(self).recorded().len() as int) == old(self).recorded()
                &&& final(self).recorded().last().0@ == contract_id@
                &&& final(self).recorded().last().1@ == dependencies@
                &&& final(self).queued().take(old(self).queued().len() as int) == old(self).queued()
            },
    {
        let mut j: usize = 0;
        while j < self.dependencies.len()
            invariant
                j <= self.dependencies.len(),
                forall|k: int| 0 <= k < j ==> self.dependencies@[k].0@ != contract_id@,
                self.wf(),
                self.queue == old(self).queue,
                self.dependencies == old(self).dependencies,
                self.next == old(self).next,
            decreases self.dependencies.len() - j,
        {
            if self.dependencies[j].0.eq(&contract_id) {
                return;
            }
            j += 1;
        }
        let ghost q0 = self.queue@;
        let ghost d0 = self.dependencies@;
        let mut k: usize = 0;
        while k < dependencies.len()
            invariant
                k <= dependencies.len(),
                self.queue@.len() == q0.len() + k,
                self.queue@.take(q0.len() as int) == q0,
                forall|kk: int| 0 <= kk < k ==> #[trigger] self.queue@[q0.len() + kk]@ == dependencies@[kk]@,
                self.dependencies == old(self).dependencies,
                self.next == old(self).next,
            decreases dependencies.len() - k,
        {
            let ghost qk = self.queue@;
            self.queue.push(dependencies[k].clone());
            assert(self.queue@.take(q0.len() as int) =~= qk.take(q0.len() as int));
            k += 1;
        }
        let ghost q1 = self.queue@;
        self.dependencies.push((contract_id, dependencies));
        proof {
            assert forall|q: int| 0 <= q < self.next implies keys_of(self.dependencies@).contains(
                #[trigger] self.queue@[q]@,
            ) by {
                assert(self.queue@[q] == q1.take(q0.len() as int)[q]);
                let jj = choose|jj: int| 0 <= jj < d0.len() && d0[jj].0@ == q0[q]@;
                assert(self.dependencies@[jj] == d0[jj]);
            }
            assert forall|jj: int, d: Seq<char>|
                0 <= jj < self.dependencies.len() && #[trigger] depends_on(self.dependencies@, jj, d)
                    implies exists|q: int| 0 <= q < self.queue.len() && #[trigger] self.queue@[q]@ == d by {
                if jj < d0.len() {
                    assert(self.dependencies@[jj] == d0[jj]);
                    assert(depends_on(d0, jj, d));
                    let q = choose|q: int| 0 <= q < q0.len() && #[trigger] q0[q]@ == d;
                    assert(self.queue@[q] == q1.take(q0.len() as int)[q]);
                } else {
                    let kk = choose|kk: int|
                        0 <= kk < self.dependencies@[jj].1.len() && (#[trigger] self.dependencies@[jj].1@[kk])@ == d;
                    assert(self.queue@[q0.len() + kk]@ == d);
                }
            }
            assert forall|a: int, b: int|
                0 <= a < self.dependencies.len() && 0 <= b < self.dependencies.len() && a != b
                    implies #[trigger] self.dependencies@[a].0@ != #[trigger] self.dependencies@[b].0@ by {
                if a < d0.len() && b < d0.len() {
                    assert(self.dependencies@[a] == d0[a] && self.dependencies@[b] == d0[b]);
                } else if a < d0.len() {
                    assert(self.dependencies@[a] == d0[a]);
                } else if b < d0.len() {
                    assert(self.dependencies@[b] == d0[b]);
                }
            }
            assert(self.dependencies@.take(d0.len() as int) =~= d0);
            if keys_of(d0).contains(contract_id@) {
                let jj = choose|jj: int| 0 <= jj < d0.len() && d0[jj].0@ == contract_id@;
                assert(false);
            }
        }
    }

    /// The recorded contracts with their dependencies, in discovery order.
    pub fn dependencies(&self) -> (r: &Vec<(String, Vec<String>)>)
        requires
            self.wf(),
        ensures
            r@ == self.recorded(),
            forall|a: int, b: int|
                0 <= a < r.len() && 0 <= b < r.len() && a != b ==> #[trigger] r@[a].0@ != #[trigger] r@[b].0@,
    {
        &self.dependencies
    }
}

/// Once discovery is drained, every dependency of a recorded contract is
/// recorded too: the analysis order covers the whole protocol.
pub proof fn lemma_drained_discovery_is_closed(c: DependencyCollector)
    requires
        c.wf(),
        forall|q: int| 0 <= q < c.queued().len() ==> keys_of(c.recorded()).contains(
            #[trigger] c.queued()[q]@,
        ),
    ensures
        forall|j: int, d: Seq<char>|
            0 <= j < c.recorded().len() && #[trigger] depends_on(c.recorded(), j, d) ==> keys_of(
                c.recorded(),
            ).contains(d),
{
    assert forall|j: int, d: Seq<char>|
        0 <= j < c.recorded().len() && #[trigger] depends_on(c.recorded(), j, d) implies keys_of(
            c.recorded(),
        ).contains(d) by {
        let q = choose|q: int| 0 <= q < c.queue.len() && #[trigger] c.queue@[q]@ == d;
        assert(keys_of(c.recorded()).contains(c.queued()[q]@));
    }
}

/// A field that a contract declares, with its type as text.
#[derive(Clone, Debug)]
pub struct ContractInterfaceField {
    pub name: String,
    pub type_signature: String,
}

/// The typed catalogue of a contract's fields.
#[derive(Clone, Debug)]
pub struct ContractInterface {
    pub variables: Vec<ContractInterfaceField>,
    pub maps: Vec<ContractInterfaceField>,
    pub fungible_tokens: Vec<ContractInterfaceField>,
    pub non_fungible_tokens: Vec<ContractInterfaceField>,
}

/// A field of a contract, by kind.
#[derive(Clone, Debug)]
pub enum DataField {
    Var(String),
    DataMap(String),
    NonFungibleToken(String),
    FungibleToken(String),
}

#[derive(PartialEq, Eq, Structural, Clone, Copy, Debug)]
pub enum QueryError {
    /// The contract declares no field of that name.
    UnknownField,
    /// A height between the known block and the tip has no archived block.
    MissingBlock,
}

pub open spec fn declares(fields: Seq<ContractInterfaceField>, name: Seq<char>) -> bool {
    exists|i: int| 0 <= i < fields.len() && #[trigger] fields[i].name@ == name
}

fn find_field(fields: &Vec<ContractInterfaceField>, name: &String) -> (r: bool)
    ensures
        r == declares(fields@, name@),
{
    let mut i: usize = 0;
    while i < fields.len()
        invariant
            i <= fields.len(),
            forall|k: int| 0 <= k < i ==> fields@[k].name@ != name@,
        decreases fields.len() - i,
    {
        if fields[i].name.eq(name) {
            return true;
        }
        i += 1;
    }
    false
}

/// Finds what kind of field a name denotes: variables first, then maps,
/// non-fungible tokens and fungible tokens.
pub fn resolve_field(interface: &ContractInterface, field_name: &String) -> (r: Option<DataField>)
    ensures
        match r {
            Some(DataField::Var(n)) => n@ == field_name@ && declares(interface.variables@, field_name@),
            Some(DataField::DataMap(n)) => n@ == field_name@ && !declares(interface.variables@, field_name@)
                && declares(interface.maps@, field_name@),
            Some(DataField::NonFungibleToken(n)) => n@ == field_name@ && !declares(
                interface.variables@,
                field_name@,
            ) && !declares(interface.maps@, field_name@) && declares(
                interface.non_fungible_tokens@,
                field_name@,
            ),
            Some(DataField::FungibleToken(n)) => n@ == field_name@ && !declares(
                interface.variables@,
                field_name@,
            ) && !declares(interface.maps@, field_name@) && !declares(
                interface.non_fungible_tokens@,
                field_name@,
            ) && declares(interface.fungible_tokens@, field_name@),
            None => !declares(interface.variables@, field_name@) && !declares(
                interface.maps@,
                field_name@,
            ) && !declares(interface.non_fungible_tokens@, field_name@) && !declares(
                interface.fungible_tokens@,
                field_name@,
            ),
        },
{
    if find_field(&interface.variables, field_name) {
        Some(DataField::Var(field_name.clone()))
    } else if find_field(&interface.maps, field_name) {
        Some(DataField::DataMap(field_name.clone()))
    } else if find_field(&interface.non_fungible_tokens, field_name) {
        Some(DataField::NonFungibleToken(field_name.clone()))
    } else if find_field(&interface.fungible_tokens, field_name) {
        Some(DataField::FungibleToken(field_name.clone()))
    } else {
        None
    }
}

/// The asset class of a token field: `<contract>::<name>`.
pub open spec fn asset_class(contract: Seq<char>, name: Seq<char>) -> Seq<char> {
    contract + seq![':', ':'] + name
}

/// Whether `asset` reads `<contract>::<name>`.
pub fn is_asset_class(contract_id: &String, name: &String, asset: &String) -> (r: bool)
    ensures
        r == (asset@ == asset_class(contract_id@, name@)),
{
    let c = contract_id.as_str();
    let n = name.as_str();
    let a = asset.as_str();
    let cl = c.unicode_len();
    let nl = n.unicode_len();
    let al = a.unicode_len();
    let ghost target = asset_class(contract_id@, name@);
    if al < 2 || al - 2 < cl || al - 2 - cl != nl {
        return false;
    }
    let mut i: usize = 0;
    while i < al
        invariant
            al == a@.len(),
            cl == c@.len(),
            nl == n@.len(),
            al == cl + 2 + nl,
            c@ == contract_id@,
            n@ == name@,
            a@ == asset@,
            target == asset_class(contract_id@, name@),
            target.len() == al,
            i <= al,
            forall|j: int| 0 <= j < i ==> a@[j] == target[j],
        decreases al - i,
    {
        let expected = if i < cl {
            c.get_char(i)
        } else if i < cl + 2 {
            ':'
        } else {
            n.get_char(i - cl - 2)
        };
        if a.get_char(i) != expected {
            return false;
        }
        i += 1;
    }
    assert(a@ =~= target);
    true
}

/// A field of a contract, by kind and name.
pub enum FieldRef {
    Var(Seq<char>),
    DataMap(Seq<char>),
    NonFungibleToken(Seq<char>),
    FungibleToken(Seq<char>),
}

impl View for DataField {
    type V = FieldRef;

    open spec fn view(&self) -> FieldRef {
        match self {
            DataField::Var(n) => FieldRef::Var(n@),
            DataField::DataMap(n) => FieldRef::DataMap(n@),
            DataField::NonFungibleToken(n) => FieldRef::NonFungibleToken(n@),
            DataField::FungibleToken(n) => FieldRef::FungibleToken(n@),
        }
    }
}

/// Whether a log entry records an event of the field.
pub open spec fn records_field(contract: Seq<char>, field: FieldRef, r: EventRecord) -> bool {
    match (field, r.event) {
        (FieldRef::Var(v), RecordedEvent::DataVar { var, .. }) => var@ == v,
        (FieldRef::DataMap(m), RecordedEvent::DataMap { map, .. }) => map@ == m,
        (
            FieldRef::NonFungibleToken(name),
            RecordedEvent::NonFungibleToken { asset_class_identifier, .. },
        ) => asset_class_identifier@ == asset_class(contract, name),
        (
            FieldRef::FungibleToken(name),
            RecordedEvent::FungibleToken { asset_class_identifier, .. },
        ) => asset_class_identifier@ == asset_class(contract, name),
        _ => false,
    }
}

/// The positions in the log of the entries that record events of the field.
pub open spec fn positions_of(contract: Seq<char>, field: FieldRef, log: Seq<EventRecord>) -> Seq<usize>
    decreases log.len(),
{
    if log.len() == 0 {
        Seq::empty()
    } else if records_field(contract, field, log.last()) {
        positions_of(contract, field, log.drop_last()).push((log.len() - 1) as usize)
    } else {
        positions_of(contract, field, log.drop_last())
    }
}

/// The positions in the log of the field's events: all of them, in log
/// order, hence in (block index, event index) order.
pub fn field_event_positions(contract_id: &String, field: &DataField, log: &Vec<EventRecord>) -> (r:
    Vec<usize>)
    requires
        log_sorted(log@),
    ensures
        forall|k: int| 0 <= k < r.len() ==> (#[trigger] r@[k]) < log.len() && records_field(
            contract_id@,
            field@,
            log@[r@[k] as int],
        ),
        forall|i: int|
            0 <= i < log.len() && records_field(contract_id@, field@, #[trigger] log@[i]) ==> exists|k: int|
                0 <= k < r.len() && r@[k] == i,
        forall|a: int, b: int| 0 <= a < b < r.len() ==> #[trigger] r@[a] < #[trigger] r@[b],
        forall|a: int, b: int|
            0 <= a < b < r.len() ==> precedes(log@[#[trigger] r@[a] as int], log@[#[trigger] r@[b] as int]),
        r@ == positions_of(contract_id@, field@, log@),
{
    let mut r: Vec<usize> = Vec::new();
    let mut i: usize = 0;
    while i < log.len()
        invariant
            i <= log.len(),
            log_sorted(log@),
            forall|k: int| 0 <= k < r.len() ==> (#[trigger] r@[k]) < i && records_field(
                contract_id@,
                field@,
                log@[r@[k] as int],
            ),
            forall|j: int|
                0 <= j < i && records_field(contract_id@, field@, #[trigger] log@[j]) ==> exists|k: int|
                    0 <= k < r.len() && r@[k] == j,
            forall|a: int, b: int| 0 <= a < b < r.len() ==> #[trigger] r@[a] < #[trigger] r@[b],
            r@ == positions_of(contract_id@, field@, log@.take(i as int)),
        decreases log.len() - i,
    {
        assert(log@.take(i + 1).drop_last() =~= log@.take(i as int));
        assert(log@.take(i + 1).last() == log@[i as int]);
        let matches = match (field, &log[i].event) {
            (DataField::Var(v), RecordedEvent::DataVar { var, .. }) => var.eq(v),
            (DataField::DataMap(m), RecordedEvent::DataMap { map, .. }) => map.eq(m),
            (DataField::NonFungibleToken(name), RecordedEvent::NonFungibleToken { asset_class_identifier, .. }) => {
                is_asset_class(contract_id, name, asset_class_identifier)
            },
            (DataField::FungibleToken(name), RecordedEvent::FungibleToken { asset_class_identifier, .. }) => {
                is_asset_class(contract_id, name, asset_class_identifier)
            },
            _ => false,
        };
        if matches {
            let ghost r0 = r@;
            r.push(i);
            assert forall|j: int|
                0 <= j < i + 1 && records_field(contract_id@, field@, #[trigger] log@[j]) implies exists|k: int|
                    0 <= k < r.len() && r@[k] == j by {
                if j == i {
                    assert(r@[r0.len() as int] == j);
                } else {
                    let k = choose|k: int| 0 <= k < r0.len() && r0[k] == j;
                    assert(r@[k] == j);
                }
            }
        }
        i += 1;
    }
    assert(log@.take(i as int) =~= log@);
    r
}

/// The archived blocks above a known height, up to the tip, in order.
pub fn blocks_since<'a, B: ArchivedBlock>(store: &'a ChainArchive<B>, known: u64) -> (r: Result<
    Vec<&'a B>,
    QueryError,
>)
    requires
        store.wf(),
    ensures
        match store.tip_view() {
            None => r is Ok && r->Ok_0.len() == 0,
            Some(t) => {
                &&& (forall|n: u64| known < n <= t ==> #[trigger] store.hashes_view().contains_key(n))
                    ==> r is Ok && r->Ok_0.len() == if t > known {
                    t - known
                } else {
                    0
                } && forall|k: int|
                    0 <= k < r->Ok_0.len() ==> *(#[trigger] r->Ok_0@[k]) == store.blocks_view()[store.hashes_view()[(
                    known + 1 + k) as u64]]
                &&& !(forall|n: u64| known < n <= t ==> #[trigger] store.hashes_view().contains_key(n))
                    ==> r == Err::<Vec<&'a B>, QueryError>(QueryError::MissingBlock)
            },
        },
{
    let mut r: Vec<&'a B> = Vec::new();
    let t = match store.chain_tip() {
        Some(t) => t,
        None => {
            return Ok(r);
        },
    };
    if t <= known {
        return Ok(r);
    }
    let mut n: u64 = known;
    while n < t
        invariant
            store.wf(),
            store.tip_view() == Some(t),
            known <= n <= t,
            r.len() == n - known,
            forall|m: u64| known < m <= n ==> #[trigger] store.hashes_view().contains_key(m),
            forall|k: int|
                0 <= k < r.len() ==> *(#[trigger] r@[k]) == store.blocks_view()[store.hashes_view()[(known
                    + 1 + k) as u64]],
        decreases t - n,
    {
        n = n + 1;
        match store.block_at(n) {
            Some(b) => {
                r.push(b);
            },
            None => {
                return Err(QueryError::MissingBlock);
            },
        }
    }
    Ok(r)
}

/// The current value of a variable and its assignments.
#[derive(Clone, Debug)]
pub struct VarValues {
    /// The decoded value; `None` while the variable was never assigned.
    pub value: Option<String>,
    pub events: Vec<DataVarSetEventFormattedValue>,
}

/// The current entries of a data map, decoded, and its events.
#[derive(Clone, Debug)]
pub struct MapValues {
    pub entries: Vec<(String, String)>,
    pub events: Vec<DataMapEventFormattedValue>,
}

/// The current owner of each token, with decoded token ids, and the events.
#[derive(Clone, Debug)]
pub struct NftValues {
    pub tokens: Vec<(String, String)>,
    pub events: Vec<NFTEventFormattedValue>,
}

/// The balance of each owner and the events.
#[derive(Clone, Debug)]
pub struct FtValues {
    pub balances: Vec<(String, u128)>,
    pub events: Vec<FTEventFormattedValue>,
}

#[derive(Clone, Debug)]
pub enum FieldValues {
    Var(VarValues),
    DataMap(MapValues),
    Nft(NftValues),
    Ft(FtValues),
}

/// The (block index, event index) of the log entries at the given positions.
pub open spec fn log_positions(log: Seq<EventRecord>, positions: Seq<usize>) -> Seq<(u64, u64)> {
    positions.map_values(|i: usize| (log[i as int].block_index, log[i as int].event_index))
}

pub open spec fn var_positions(events: Seq<DataVarSetEventFormattedValue>) -> Seq<(u64, u64)> {
    events.map_values(|e: DataVarSetEventFormattedValue| (e.block_index, e.event_index))
}

/// The returned event renders the assignment logged in the entry.
pub open spec fn var_event_matches<F: Fn(&String) -> String>(
    decode: &F,
    rec: EventRecord,
    e: DataVarSetEventFormattedValue,
) -> bool {
    match rec.event {
        RecordedEvent::DataVar { value, .. } => {
            &&& decode.ensures((&value.hex_value,), e.value)
            &&& e.block_index == rec.block_index
            &&& e.event_index == rec.event_index
        },
        _ => false,
    }
}

/// The returned event renders the data map event logged in the entry.
pub open spec fn map_event_matches<F: Fn(&String) -> String>(
    decode: &F,
    rec: EventRecord,
    e: DataMapEventFormattedValue,
) -> bool {
    match rec.event {
        RecordedEvent::DataMap { value, .. } => map_event_formatted(
            decode,
            value,
            rec.block_index,
            rec.event_index,
            e,
        ),
        _ => false,
    }
}

/// The returned event renders the token event logged in the entry.
pub open spec fn nft_event_matches<F: Fn(&String) -> String>(
    decode: &F,
    rec: EventRecord,
    e: NFTEventFormattedValue,
) -> bool {
    match rec.event {
        RecordedEvent::NonFungibleToken { value, .. } => nft_event_formatted(
            decode,
            value,
            rec.block_index,
            rec.event_index,
            e,
        ),
        _ => false,
    }
}

/// The returned event renders the fungible-token event logged in the entry.
pub open spec fn ft_event_matches(rec: EventRecord, e: FTEventFormattedValue) -> bool {
    match rec.event {
        RecordedEvent::FungibleToken { value, .. } => ft_event_formatted(
            value,
            rec.block_index,
            rec.event_index,
            e,
        ),
        _ => false,
    }
}

/// What a variable query returns: the decoded current value, present when
/// the variable was ever assigned, and the variable's events in log order.
pub open spec fn var_values_spec<F: Fn(&String) -> String>(
    processor: ContractProcessor,
    var: Seq<char>,
    decode: &F,
    r: VarValues,
) -> bool {
    &&& processor.ledger_view().vars.contains_key(var) == r.value.is_some()
    &&& r.value.is_some() ==> exists|h: &String|
        h@ == processor.ledger_view().vars[var] && decode.ensures((h,), r.value.unwrap())
    &&& var_positions(r.events@) == log_positions(
        processor.log_view(),
        positions_of(processor.contract(), FieldRef::Var(var), processor.log_view()),
    )
    &&& events_in_order(var_positions(r.events@))
    &&& r.events.len() == positions_of(processor.contract(), FieldRef::Var(var), processor.log_view()).len()
    &&& forall|k: int|
        0 <= k < r.events.len() ==> var_event_matches(
            decode,
            processor.log_view()[positions_of(processor.contract(), FieldRef::Var(var), processor.log_view())[k] as int],
            #[trigger] r.events@[k],
        )
}

/// What a data map query returns: its entries, decoded, and its events in log order.
pub open spec fn map_values_spec<F: Fn(&String) -> String>(
    processor: ContractProcessor,
    map: Seq<char>,
    decode: &F,
    r: MapValues,
) -> bool {
    &&& decoded_entries(
        decode,
        selected_entries(processor.ledger_state().map_entry_seq(), map),
        r.entries@,
        true,
    )
    &&& map_event_positions(r.events@) == log_positions(
        processor.log_view(),
        positions_of(processor.contract(), FieldRef::DataMap(map), processor.log_view()),
    )
    &&& events_in_order(map_event_positions(r.events@))
    &&& r.events.len() == positions_of(processor.contract(), FieldRef::DataMap(map), processor.log_view()).len()
    &&& forall|k: int|
        0 <= k < r.events.len() ==> map_event_matches(
            decode,
            processor.log_view()[positions_of(processor.contract(), FieldRef::DataMap(map), processor.log_view())[k] as int],
            #[trigger] r.events@[k],
        )
}

/// What a non-fungible token query returns: each token with its owner, token
/// ids decoded, and the events in log order.
pub open spec fn nft_values_spec<F: Fn(&String) -> String>(
    processor: ContractProcessor,
    name: Seq<char>,
    decode: &F,
    r: NftValues,
) -> bool {
    &&& decoded_entries(
        decode,
        selected_entries(processor.ledger_state().owner_seq(), asset_class(processor.contract(), name)),
        r.tokens@,
        false,
    )
    &&& nft_event_positions(r.events@) == log_positions(
        processor.log_view(),
        positions_of(processor.contract(), FieldRef::NonFungibleToken(name), processor.log_view()),
    )
    &&& events_in_order(nft_event_positions(r.events@))
    &&& r.events.len() == positions_of(processor.contract(), FieldRef::NonFungibleToken(name), processor.log_view()).len()
    &&& forall|k: int|
        0 <= k < r.events.len() ==> nft_event_matches(
            decode,
            processor.log_view()[positions_of(processor.contract(), FieldRef::NonFungibleToken(name), processor.log_view())[k] as int],
            #[trigger] r.events@[k],
        )
}

/// What a fungible token query returns: each owner's balance and the events in log order.
pub open spec fn ft_values_spec(processor: ContractProcessor, name: Seq<char>, r: FtValues) -> bool {
    &&& balance_views(r.balances@) == selected_balances(
        processor.ledger_state().balance_seq(),
        asset_class(processor.contract(), name),
    )
    &&& ft_event_positions(r.events@) == log_positions(
        processor.log_view(),
        positions_of(processor.contract(), FieldRef::FungibleToken(name), processor.log_view()),
    )
    &&& events_in_order(ft_event_positions(r.events@))
    &&& r.events.len() == positions_of(processor.contract(), FieldRef::FungibleToken(name), processor.log_view()).len()
    &&& forall|k: int|
        0 <= k < r.events.len() ==> ft_event_matches(
            processor.log_view()[positions_of(processor.contract(), FieldRef::FungibleToken(name), processor.log_view())[k] as int],
            #[trigger] r.events@[k],
        )
}

pub open spec fn events_in_order(positions: Seq<(u64, u64)>) -> bool {
    forall|a: int, b: int|
        0 <= a < b < positions.len() ==> (#[trigger] positions[a]).0 < (#[trigger] positions[b]).0 || (
        positions[a].0 == positions[b].0 && positions[a].1 < positions[b].1)
}

/// The current value of a variable and its events, in (block index, event
/// index) order, values decoded by `decode`.
pub fn variable_values<F: Fn(&String) -> String>(
    processor: &ContractProcessor,
    var: &String,
    decode: &F,
) -> (r: VarValues)
    requires
        processor.wf(),
        forall|s: &String| #[trigger] decode.requires((s,)),
    ensures
        var_values_spec(*processor, var@, decode, r),

{
    let ledger = processor.ledger();
    let value = match ledger.var_value(var) {
        Some(h) => Some(decode(h)),
        None => None,
    };
    let log = processor.event_log();
    let field = DataField::Var(var.clone());
    proof {
        processor.lemma_log_ordered();
    }
    let positions = field_event_positions(processor.contract_id(), &field, log);
    let mut events: Vec<DataVarSetEventFormattedValue> = Vec::new();
    let mut k: usize = 0;
    while k < positions.len()
        invariant
            k <= positions.len(),
            events.len() == k,
            forall|j: int| 0 <= j < k ==> (#[trigger] var_positions(events@)[j]) == (
                log@[positions@[j] as int].block_index,
                log@[positions@[j] as int].event_index,
            ),
            forall|j: int| 0 <= j < positions.len() ==> (#[trigger] positions@[j]) < log.len(),
            field@ == FieldRef::Var(var@),
            log@ == processor.log_view(),
            forall|j: int|
                0 <= j < positions.len() ==> records_field(
                    processor.contract(),
                    field@,
                    log@[#[trigger] positions@[j] as int],
                ),
            forall|j: int| 0 <= j < k ==> var_event_matches(decode, log@[positions@[j] as int], #[trigger] events@[j]),
            forall|s: &String| #[trigger] decode.requires((s,)),
        decreases positions.len() - k,
    {
        let rec = &log[positions[k]];
        assert(records_field(processor.contract(), field@, *rec));
        let formatted = match &rec.event {
            RecordedEvent::DataVar { value, .. } => DataVarSetEventFormattedValue {
                value: decode(&value.hex_value),
                block_index: rec.block_index,
                event_index: rec.event_index,
            },
            _ => DataVarSetEventFormattedValue {
                value: String::new(),
                block_index: rec.block_index,
                event_index: rec.event_index,
            },
        };
        assert(var_event_matches(decode, *rec, formatted));
        let ghost e0 = events@;
        events.push(formatted);
        assert(var_positions(events@) =~= var_positions(e0).push((formatted.block_index, formatted.event_index)));
        k += 1;
    }
    proof {
        assert(var_positions(events@) =~= log_positions(log@, positions@));
        assert forall|a: int, b: int|
            0 <= a < b < events.len() implies (#[trigger] var_positions(events@)[a]).0 < (
            #[trigger] var_positions(events@)[b]).0 || (var_positions(events@)[a].0
                == var_positions(events@)[b].0 && var_positions(events@)[a].1
                < var_positions(events@)[b].1) by {
            assert(precedes(log@[positions@[a] as int], log@[positions@[b] as int]));
        }
    }
    VarValues { value, events }
}

pub open spec fn map_event_positions(events: Seq<DataMapEventFormattedValue>) -> Seq<(u64, u64)> {
    events.map_values(
        |e: DataMapEventFormattedValue| match e {
            DataMapEventFormattedValue::Insert(f) => (f.block_index, f.event_index),
            DataMapEventFormattedValue::Update(f) => (f.block_index, f.event_index),
            DataMapEventFormattedValue::Delete(f) => (f.block_index, f.event_index),
        },
    )
}

pub open spec fn nft_event_positions(events: Seq<NFTEventFormattedValue>) -> Seq<(u64, u64)> {
    events.map_values(
        |e: NFTEventFormattedValue| match e {
            NFTEventFormattedValue::Mint(f) => (f.block_index, f.event_index),
            NFTEventFormattedValue::Transfer(f) => (f.block_index, f.event_index),
            NFTEventFormattedValue::Burn(f) => (f.block_index, f.event_index),
        },
    )
}

pub open spec fn ft_event_positions(events: Seq<FTEventFormattedValue>) -> Seq<(u64, u64)> {
    events.map_values(
        |e: FTEventFormattedValue| match e {
            FTEventFormattedValue::Mint(f) => (f.block_index, f.event_index),
            FTEventFormattedValue::Transfer(f) => (f.block_index, f.event_index),
            FTEventFormattedValue::Burn(f) => (f.block_index, f.event_index),
        },
    )
}

/// The entries whose first key part is `first`, in table order.
pub open spec fn selected_entries(entries: Seq<((String, String), String)>, first: Seq<char>) -> Seq<
    ((String, String), String),
>
    decreases entries.len(),
{
    if entries.len() == 0 {
        Seq::empty()
    } else if entries.last().0.0@ == first {
        selected_entries(entries.drop_last(), first).push(entries.last())
    } else {
        selected_entries(entries.drop_last(), first)
    }
}

/// Each selected entry, its second key part decoded, and its value decoded
/// too or kept as it is.
pub open spec fn decoded_entries<F: Fn(&String) -> String>(
    decode: &F,
    selected: Seq<((String, String), String)>,
    out: Seq<(String, String)>,
    decode_value: bool,
) -> bool {
    &&& out.len() == selected.len()
    &&& forall|k: int|
        0 <= k < out.len() ==> {
            &&& decode.ensures((&selected[k].0.1,), (#[trigger] out[k]).0)
            &&& if decode_value {
                decode.ensures((&selected[k].1,), out[k].1)
            } else {
                out[k].1@ == selected[k].1@
            }
        }
}

fn decode_entries<F: Fn(&String) -> String>(
    entries: &Vec<((String, String), String)>,
    first: &String,
    decode: &F,
    decode_value: bool,
) -> (r: Vec<(String, String)>)
    requires
        forall|s: &String| #[trigger] decode.requires((s,)),
    ensures
        decoded_entries(decode, selected_entries(entries@, first@), r@, decode_value),
{
    let mut r: Vec<(String, String)> = Vec::new();
    let mut i: usize = 0;
    while i < entries.len()
        invariant
            i <= entries.len(),
            forall|s: &String| #[trigger] decode.requires((s,)),
            decoded_entries(decode, selected_entries(entries@.take(i as int), first@), r@, decode_value),
        decreases entries.len() - i,
    {
        assert(entries@.take(i + 1).drop_last() =~= entries@.take(i as int));
        assert(entries@.take(i + 1).last() == entries@[i as int]);
        let e = &entries[i];
        if e.0.0.eq(first) {
            let a = decode(&e.0.1);
            let b = if decode_value {
                decode(&e.1)
            } else {
                e.1.clone()
            };
            let ghost r0 = r@;
            r.push((a, b));
            proof {
                let sel = selected_entries(entries@.take(i + 1), first@);
                assert(sel == selected_entries(entries@.take(i as int), first@).push(*e));
                assert forall|k: int| 0 <= k < r.len() implies {
                    &&& decode.ensures((&sel[k].0.1,), (#[trigger] r@[k]).0)
                    &&& if decode_value {
                        decode.ensures((&sel[k].1,), r@[k].1)
                    } else {
                        r@[k].1@ == sel[k].1@
                    }
                } by {
                    if k < r0.len() {
                        assert(r@[k] == r0[k]);
                    }
                }
            }
        }
        i += 1;
    }
    assert(entries@.take(i as int) =~= entries@);
    r
}

/// The entries of a data map, decoded, and its events in (block index,
/// event index) order.
pub fn data_map_values<F: Fn(&String) -> String>(
    processor: &ContractProcessor,
    map: &String,
    decode: &F,
) -> (r: MapValues)
    requires
        processor.wf(),
        forall|s: &String| #[trigger] decode.requires((s,)),
    ensures
        map_values_spec(*processor, map@, decode, r),

{
    let table = processor.ledger().map_entries();
    let entries = decode_entries(table, map, decode, true);
    let log = processor.event_log();
    let field = DataField::DataMap(map.clone());
    proof {
        processor.lemma_log_ordered();
    }
    let positions = field_event_positions(processor.contract_id(), &field, log);
    let mut events: Vec<DataMapEventFormattedValue> = Vec::new();
    let mut k: usize = 0;
    while k < positions.len()
        invariant
            k <= positions.len(),
            events.len() == k,
            forall|j: int| 0 <= j < k ==> (#[trigger] map_event_positions(events@)[j]) == (
                log@[positions@[j] as int].block_index,
                log@[positions@[j] as int].event_index,
            ),
            forall|j: int| 0 <= j < positions.len() ==> (#[trigger] positions@[j]) < log.len(),
            field@ == FieldRef::DataMap(map@),
            log@ == processor.log_view(),
            forall|j: int|
                0 <= j < positions.len() ==> records_field(
                    processor.contract(),
                    field@,
                    log@[#[trigger] positions@[j] as int],
                ),
            forall|j: int| 0 <= j < k ==> map_event_matches(decode, log@[positions@[j] as int], #[trigger] events@[j]),
            forall|s: &String| #[trigger] decode.requires((s,)),
        decreases positions.len() - k,
    {
        let rec = &log[positions[k]];
        assert(records_field(processor.contract(), field@, *rec));
        let formatted = match &rec.event {
            RecordedEvent::DataMap { value, .. } => value.get_formatted_decoded_event(
                rec.block_index,
                rec.event_index,
                decode,
            ),
            _ => DataMapEventFormattedValue::Delete(
                crate::types::DataMapDeleteFormattedValue {
                    deleted_key: String::new(),
                    block_index: rec.block_index,
                    event_index: rec.event_index,
                },
            ),
        };
        assert(map_event_matches(decode, *rec, formatted));
        let ghost e0 = events@;
        events.push(formatted);
        assert(map_event_positions(events@) =~= map_event_positions(e0).push(
            map_event_positions(seq![formatted])[0],
        ));
        k += 1;
    }
    proof {
        assert(map_event_positions(events@) =~= log_positions(log@, positions@));
        assert forall|a: int, b: int|
            0 <= a < b < events.len() implies (#[trigger] map_event_positions(events@)[a]).0 < (
            #[trigger] map_event_positions(events@)[b]).0 || (map_event_positions(events@)[a].0
                == map_event_positions(events@)[b].0 && map_event_positions(events@)[a].1
                < map_event_positions(events@)[b].1) by {
            assert(precedes(log@[positions@[a] as int], log@[positions@[b] as int]));
        }
    }
    MapValues { entries, events }
}

fn decode_asset_entries<F: Fn(&String) -> String>(
    entries: &Vec<((String, String), String)>,
    contract_id: &String,
    name: &String,
    decode: &F,
) -> (r: Vec<(String, String)>)
    requires
        forall|s: &String| #[trigger] decode.requires((s,)),
    ensures
        decoded_entries(
            decode,
            selected_entries(entries@, asset_class(contract_id@, name@)),
            r@,
            false,
        ),
{
    let ghost first = asset_class(contract_id@, name@);
    let mut r: Vec<(String, String)> = Vec::new();
    let mut i: usize = 0;
    while i < entries.len()
        invariant
            i <= entries.len(),
            first == asset_class(contract_id@, name@),
            forall|s: &String| #[trigger] decode.requires((s,)),
            decoded_entries(decode, selected_entries(entries@.take(i as int), first), r@, false),
        decreases entries.len() - i,
    {
        assert(entries@.take(i + 1).drop_last() =~= entries@.take(i as int));
        assert(entries@.take(i + 1).last() == entries@[i as int]);
        let e = &entries[i];
        if is_asset_class(contract_id, name, &e.0.0) {
            let a = decode(&e.0.1);
            let b = e.1.clone();
            let ghost r0 = r@;
            r.push((a, b));
            proof {
                let sel = selected_entries(entries@.take(i + 1), first);
                assert(sel == selected_entries(entries@.take(i as int), first).push(*e));
                assert forall|k: int| 0 <= k < r.len() implies {
                    &&& decode.ensures((&sel[k].0.1,), (#[trigger] r@[k]).0)
                    &&& r@[k].1@ == sel[k].1@
                } by {
                    if k < r0.len() {
                        assert(r@[k] == r0[k]);
                    }
                }
            }
        }
        i += 1;
    }
    assert(entries@.take(i as int) =~= entries@);
    r
}

/// The balances of an asset class, in table order.
pub open spec fn selected_balances(entries: Seq<((String, String), u128)>, asset: Seq<char>) -> Seq<
    (Seq<char>, u128),
>
    decreases entries.len(),
{
    if entries.len() == 0 {
        Seq::empty()
    } else if entries.last().0.0@ == asset {
        selected_balances(entries.drop_last(), asset).push((entries.last().0.1@, entries.last().1))
    } else {
        selected_balances(entries.drop_last(), asset)
    }
}

pub open spec fn balance_views(r: Seq<(String, u128)>) -> Seq<(Seq<char>, u128)> {
    r.map_values(|p: (String, u128)| (p.0@, p.1))
}

fn asset_balances(entries: &Vec<((String, String), u128)>, contract_id: &String, name: &String) -> (r: Vec<
    (String, u128),
>)
    ensures
        balance_views(r@) == selected_balances(entries@, asset_class(contract_id@, name@)),
{
    let ghost first = asset_class(contract_id@, name@);
    let mut r: Vec<(String, u128)> = Vec::new();
    let mut i: usize = 0;
    while i < entries.len()
        invariant
            i <= entries.len(),
            first == asset_class(contract_id@, name@),
            balance_views(r@) == selected_balances(entries@.take(i as int), first),
        decreases entries.len() - i,
    {
        assert(entries@.take(i + 1).drop_last() =~= entries@.take(i as int));
        assert(entries@.take(i + 1).last() == entries@[i as int]);
        if is_asset_class(contract_id, name, &entries[i].0.0) {
            let ghost r0 = r@;
            let e = (entries[i].0.1.clone(), entries[i].1);
            r.push(e);
            assert(balance_views(r@) =~= balance_views(r0).push((e.0@, e.1)));
        }
        i += 1;
    }
    assert(entries@.take(i as int) =~= entries@);
    r
}

/// The owner of each token of a non-fungible token field, token ids
/// decoded, and its events in (block index, event index) order.
pub fn nft_values<F: Fn(&String) -> String>(processor: &ContractProcessor, name: &String, decode: &F) -> (r:
    NftValues)
    requires
        processor.wf(),
        forall|s: &String| #[trigger] decode.requires((s,)),
    ensures
        nft_values_spec(*processor, name@, decode, r),

{
    let table = processor.ledger().owner_entries();
    let tokens = decode_asset_entries(table, processor.contract_id(), name, decode);
    let log = processor.event_log();
    let field = DataField::NonFungibleToken(name.clone());
    proof {
        processor.lemma_log_ordered();
    }
    let positions = field_event_positions(processor.contract_id(), &field, log);
    let mut events: Vec<NFTEventFormattedValue> = Vec::new();
    let mut k: usize = 0;
    while k < positions.len()
        invariant
            k <= positions.len(),
            events.len() == k,
            forall|j: int| 0 <= j < k ==> (#[trigger] nft_event_positions(events@)[j]) == (
                log@[positions@[j] as int].block_index,
                log@[positions@[j] as int].event_index,
            ),
            forall|j: int| 0 <= j < positions.len() ==> (#[trigger] positions@[j]) < log.len(),
            field@ == FieldRef::NonFungibleToken(name@),
            log@ == processor.log_view(),
            forall|j: int|
                0 <= j < positions.len() ==> records_field(
                    processor.contract(),
                    field@,
                    log@[#[trigger] positions@[j] as int],
                ),
            forall|j: int| 0 <= j < k ==> nft_event_matches(decode, log@[positions@[j] as int], #[trigger] events@[j]),
            forall|s: &String| #[trigger] decode.requires((s,)),
        decreases positions.len() - k,
    {
        let rec = &log[positions[k]];
        assert(records_field(processor.contract(), field@, *rec));
        let formatted = match &rec.event {
            RecordedEvent::NonFungibleToken { value, .. } => value.get_formatted_decoded_event(
                rec.block_index,
                rec.event_index,
                decode,
            ),
            _ => NFTEventFormattedValue::Burn(
                crate::types::NFTBurnEventFormattedValue {
                    sender: String::new(),
                    asset_identifier: String::new(),
                    block_index: rec.block_index,
                    event_index: rec.event_index,
                },
            ),
        };
        assert(nft_event_matches(decode, *rec, formatted));
        let ghost e0 = events@;
        events.push(formatted);
        assert(nft_event_positions(events@) =~= nft_event_positions(e0).push(
            nft_event_positions(seq![formatted])[0],
        ));
        k += 1;
    }
    proof {
        assert(nft_event_positions(events@) =~= log_positions(log@, positions@));
        assert forall|a: int, b: int|
            0 <= a < b < events.len() implies (#[trigger] nft_event_positions(events@)[a]).0 < (
            #[trigger] nft_event_positions(events@)[b]).0 || (nft_event_positions(events@)[a].0
                == nft_event_positions(events@)[b].0 && nft_event_positions(events@)[a].1
                < nft_event_positions(events@)[b].1) by {
            assert(precedes(log@[positions@[a] as int], log@[positions@[b] as int]));
        }
    }
    NftValues { tokens, events }
}

/// The balance of each owner of a fungible token field and its events in
/// (block index, event index) order.
pub fn ft_values(processor: &ContractProcessor, name: &String) -> (r: FtValues)
    requires
        processor.wf(),
    ensures
        ft_values_spec(*processor, name@, r),

{
    let table = processor.ledger().balance_entries();
    let balances = asset_balances(table, processor.contract_id(), name);
    let log = processor.event_log();
    let field = DataField::FungibleToken(name.clone());
    proof {
        processor.lemma_log_ordered();
    }
    let positions = field_event_positions(processor.contract_id(), &field, log);
    let mut events: Vec<FTEventFormattedValue> = Vec::new();
    let mut k: usize = 0;
    while k < positions.len()
        invariant
            k <= positions.len(),
            events.len() == k,
            forall|j: int| 0 <= j < k ==> (#[trigger] ft_event_positions(events@)[j]) == (
                log@[positions@[j] as int].block_index,
                log@[positions@[j] as int].event_index,
            ),
            forall|j: int| 0 <= j < positions.len() ==> (#[trigger] positions@[j]) < log.len(),
            field@ == FieldRef::FungibleToken(name@),
            log@ == processor.log_view(),
            forall|j: int|
                0 <= j < positions.len() ==> records_field(
                    processor.contract(),
                    field@,
                    log@[#[trigger] positions@[j] as int],
                ),
            forall|j: int| 0 <= j < k ==> ft_event_matches(log@[positions@[j] as int], #[trigger] events@[j]),
        decreases positions.len() - k,
    {
        let rec = &log[positions[k]];
        assert(records_field(processor.contract(), field@, *rec));
        let formatted = match &rec.event {
            RecordedEvent::FungibleToken { value, .. } => {
                value.get_formatted_decoded_event(rec.block_index, rec.event_index)
            },
            _ => {
                FTEventFormattedValue::Burn(
                crate::types::FTBurnEventFormattedValue {
                    sender: String::new(),
                    amount: String::new(),
                    block_index: rec.block_index,
                    event_index: rec.event_index,
                },
            )
            },
        };
        assert(ft_event_matches(*rec, formatted));
        let ghost e0 = events@;
        events.push(formatted);
        assert(ft_event_positions(events@) =~= ft_event_positions(e0).push(
            ft_event_positions(seq![formatted])[0],
        ));
        k += 1;
    }
    proof {
        assert(ft_event_positions(events@) =~= log_positions(log@, positions@));
        assert forall|a: int, b: int|
            0 <= a < b < events.len() implies (#[trigger] ft_event_positions(events@)[a]).0 < (
            #[trigger] ft_event_positions(events@)[b]).0 || (ft_event_positions(events@)[a].0
                == ft_event_positions(events@)[b].0 && ft_event_positions(events@)[a].1
                < ft_event_positions(events@)[b].1) by {
            assert(precedes(log@[positions@[a] as int], log@[positions@[b] as int]));
        }
    }
    FtValues { balances, events }
}

/// Answers a query on one field of a contract. The name is looked up among
/// the variables, then the maps, then the non-fungible and fungible tokens;
/// a name the contract does not declare is an error.
pub fn field_values<F: Fn(&String) -> String>(
    processor: &ContractProcessor,
    interface: &ContractInterface,
    field_name: &String,
    decode: &F,
) -> (r: Result<FieldValues, QueryError>)
    requires
        processor.wf(),
        forall|s: &String| #[trigger] decode.requires((s,)),
    ensures
        match r {
            Err(e) => {
                &&& e == QueryError::UnknownField
                &&& !declares(interface.variables@, field_name@)
                &&& !declares(interface.maps@, field_name@)
                &&& !declares(interface.non_fungible_tokens@, field_name@)
                &&& !declares(interface.fungible_tokens@, field_name@)
            },
            Ok(FieldValues::Var(v)) => declares(interface.variables@, field_name@) && var_values_spec(
                *processor,
                field_name@,
                decode,
                v,
            ),
            Ok(FieldValues::DataMap(m)) => !declares(interface.variables@, field_name@) && declares(
                interface.maps@,
                field_name@,
            ) && map_values_spec(*processor, field_name@, decode, m),
            Ok(FieldValues::Nft(n)) => !declares(interface.variables@, field_name@) && !declares(
                interface.maps@,
                field_name@,
            ) && declares(interface.non_fungible_tokens@, field_name@) && nft_values_spec(
                *processor,
                field_name@,
                decode,
                n,
            ),
            Ok(FieldValues::Ft(f)) => !declares(interface.variables@, field_name@) && !declares(
                interface.maps@,
                field_name@,
            ) && !declares(interface.non_fungible_tokens@, field_name@) && declares(
                interface.fungible_tokens@,
                field_name@,
            ) && ft_values_spec(*processor, field_name@, f),
        },
{
    match resolve_field(interface, field_name) {
        Some(DataField::Var(n)) => Ok(FieldValues::Var(variable_values(processor, &n, decode))),
        Some(DataField::DataMap(n)) => Ok(FieldValues::DataMap(data_map_values(processor, &n, decode))),
        Some(DataField::NonFungibleToken(n)) => Ok(FieldValues::Nft(nft_values(processor, &n, decode))),
        Some(DataField::FungibleToken(n)) => Ok(FieldValues::Ft(ft_values(processor, &n))),
        None => Err(QueryError::UnknownField),
    }
}

} // verus!
