use vstd::prelude::*;
use std::collections::HashMap;
use crate::staged_forest::{MetaProcessError, ProcessDependency, StagedForest};
use crate::keys::{keys_of, max_key};
use crate::text::{nat_text, usize_to_string, strings_view, sort_texts, text_le};

verus! {

broadcast use {vstd::std_specs::hash::group_hash_axioms, vstd::seq_lib::group_seq_properties};

/// Errors of meta processing: the evaluator's own errors, or structural ones
/// of the meta pipeline (such as a dependency cycle).
#[derive(Debug)]
pub enum ProcessError<E> {
    Eval(E),
    Meta(MetaProcessError),
}

// ── Scheduling the trees ─────────────────────────────────────────────────────

pub open spec fn dep_ids(ds: Seq<ProcessDependency>) -> Seq<usize> {
    ds.map_values(|d: ProcessDependency| d.spec_dep_id())
}

/// How many of `ds` are not in `done`, counting repeats.
pub open spec fn pending(ds: Seq<usize>, done: Set<usize>) -> nat
    decreases ds.len(),
{
    if ds.len() == 0 {
        0
    } else {
        pending(ds.drop_last(), done) + if done.contains(ds.last()) { 0nat } else { 1nat }
    }
}

/// How many times `t` occurs in `ds`.
pub open spec fn occurrences(ds: Seq<usize>, t: usize) -> nat
    decreases ds.len(),
{
    if ds.len() == 0 {
        0
    } else {
        occurrences(ds.drop_last(), t) + if ds.last() == t { 1nat } else { 0nat }
    }
}

proof fn lemma_pending_resolve(ds: Seq<usize>, done: Set<usize>, t: usize)
    requires
        !done.contains(t),
    ensures
        pending(ds, done.insert(t)) + occurrences(ds, t) == pending(ds, done),
    decreases ds.len(),
{
    if ds.len() > 0 {
        lemma_pending_resolve(ds.drop_last(), done, t);
    }
}

proof fn lemma_pending_zero(ds: Seq<usize>, done: Set<usize>)
    ensures
        pending(ds, done) == 0 <==> (forall|i: int| 0 <= i < ds.len() ==> done.contains(#[trigger] ds[i])),
    decreases ds.len(),
{
    if ds.len() > 0 {
        lemma_pending_zero(ds.drop_last(), done);
        if pending(ds, done) == 0 {
            assert forall|i: int| 0 <= i < ds.len() implies done.contains(#[trigger] ds[i]) by {
                if i < ds.len() - 1 {
                    assert(ds[i] == ds.drop_last()[i]);
                }
            }
        } else {
            if pending(ds.drop_last(), done) != 0 {
                let i = choose|i: int| 0 <= i < ds.drop_last().len() && !done.contains(#[trigger] ds.drop_last()[i]);
                assert(ds[i] == ds.drop_last()[i]);
            } else {
                assert(!done.contains(ds[ds.len() - 1]));
            }
        }
    }
}

/// Kahn's scheduling of the trees of a forest: a tree becomes ready once
/// every tree it depends on is resolved.
pub struct Scheduler {
    trees: Vec<usize>,
    deps: Vec<Vec<usize>>,
    degree: Vec<usize>,
    queue: Vec<usize>,
    head: usize,
    graph: Ghost<Map<usize, Seq<usize>>>,
    done: Ghost<Set<usize>>,
}

impl Scheduler {
    /// Each tree and the trees it depends on.
    pub closed spec fn graph(&self) -> Map<usize, Seq<usize>> {
        self.graph@
    }

    /// The trees resolved so far.
    pub closed spec fn resolved(&self) -> Set<usize> {
        self.done@
    }

    /// The trees handed out so far, in order.
    pub closed spec fn popped(&self) -> Seq<usize> {
        self.queue@.subrange(0, self.head as int)
    }

    pub closed spec fn wf(&self) -> bool {
        &&& self.trees@.no_duplicates()
        &&& self.trees@.len() == self.deps@.len()
        &&& self.trees@.len() == self.degree@.len()
        &&& self.trees@.to_set() == self.graph@.dom()
        &&& forall|k: int| 0 <= k < self.trees@.len() ==> self.graph@[#[trigger] self.trees@[k]] == self.deps@[k]@
        &&& forall|k: int| 0 <= k < self.trees@.len() ==> #[trigger] self.degree@[k] == pending(self.deps@[k]@, self.done@)
        &&& self.queue@.no_duplicates()
        &&& self.head <= self.queue@.len()
        &&& forall|j: int| 0 <= j < self.queue@.len() ==> self.trees@.contains(#[trigger] self.queue@[j])
        &&& forall|j: int, k: int| 0 <= j < self.queue@.len() && 0 <= k < self.trees@.len()
                && #[trigger] self.trees@[k] == #[trigger] self.queue@[j] ==> self.degree@[k] == 0
        &&& forall|k: int| 0 <= k < self.trees@.len() && #[trigger] self.degree@[k] == 0
                ==> self.queue@.contains(self.trees@[k])
        &&& forall|t: usize| #[trigger] self.done@.contains(t) ==> self.popped().contains(t)
    }

    /// Starts from the dependency map: every tree with no dependency is ready.
    pub fn new(dependency_map: &HashMap<usize, Vec<ProcessDependency>>) -> (s: Self)
        ensures
            s.wf(),
            s.graph().dom() == dependency_map@.dom(),
            forall|t: usize| #[trigger] s.graph().contains_key(t) ==> s.graph()[t] == dep_ids(dependency_map@[t]@),
            s.resolved() == Set::<usize>::empty(),
            s.popped().len() == 0,
    {
        let trees = keys_of(dependency_map);
        let ghost g = Map::new(|t: usize| dependency_map@.contains_key(t), |t: usize| dep_ids(dependency_map@[t]@));
        let mut deps: Vec<Vec<usize>> = Vec::new();
        let mut degree: Vec<usize> = Vec::new();
        let mut queue: Vec<usize> = Vec::new();
        let mut k: usize = 0;
        while k < trees.len()
            invariant
                trees@.to_set() == dependency_map@.dom(),
                trees@.no_duplicates(),
                k <= trees@.len(),
                deps@.len() == k,
                degree@.len() == k,
                forall|i: int| 0 <= i < k ==> #[trigger] deps@[i]@ == dep_ids(dependency_map@[trees@[i]]@),
                forall|i: int| 0 <= i < k ==> #[trigger] degree@[i] == pending(deps@[i]@, Set::<usize>::empty()),
                queue@.no_duplicates(),
                forall|j: int| 0 <= j < queue@.len() ==> trees@.subrange(0, k as int).contains(#[trigger] queue@[j]),
                forall|j: int, i: int| 0 <= j < queue@.len() && 0 <= i < k
                    && #[trigger] trees@[i] == #[trigger] queue@[j] ==> degree@[i] == 0,
                forall|i: int| 0 <= i < k && #[trigger] degree@[i] == 0 ==> queue@.contains(trees@[i]),
            decreases trees@.len() - k,
        {
            let t = trees[k];
            proof { assert(trees@.to_set().contains(t)); }
            let ds = dependency_map.get(&t).unwrap();
            let mut ids: Vec<usize> = Vec::new();
            let mut j: usize = 0;
            while j < ds.len()
                invariant
                    j <= ds@.len(),
                    ids@ == dep_ids(ds@.subrange(0, j as int)),
                decreases ds@.len() - j,
            {
                ids.push(ds[j].dep_id());
                j = j + 1;
                proof { assert(ids@ =~= dep_ids(ds@.subrange(0, j as int))); }
            }
            proof {
                assert(ds@.subrange(0, ds@.len() as int) =~= ds@);
                lemma_pending_all(ids@);
            }
            let n = ids.len();
            let ghost old_queue = queue@;
            if n == 0 {
                proof {
                    assert(!queue@.contains(t)) by {
                        if queue@.contains(t) {
                            let j = choose|j: int| 0 <= j < queue@.len() && queue@[j] == t;
                            assert(trees@.subrange(0, k as int).contains(queue@[j]));
                            let i = choose|i: int| 0 <= i < k && trees@.subrange(0, k as int)[i] == queue@[j];
                            assert(trees@[i] == trees@[k as int]);
                        }
                    }
                }
                queue.push(t);
            }
            deps.push(ids);
            degree.push(n);
            proof {
                assert forall|j: int| 0 <= j < queue@.len() implies trees@.subrange(0, k + 1).contains(#[trigger] queue@[j]) by {
                    if j < old_queue.len() {
                        assert(queue@[j] == old_queue[j]);
                        assert(trees@.subrange(0, k as int).contains(old_queue[j]));
                        let i = choose|i: int| 0 <= i < k && trees@.subrange(0, k as int)[i] == old_queue[j];
                        assert(trees@.subrange(0, k + 1)[i] == queue@[j]);
                    } else {
                        assert(trees@.subrange(0, k + 1)[k as int] == queue@[j]);
                    }
                }
                assert forall|j: int, i: int| 0 <= j < queue@.len() && 0 <= i < k + 1
                    && #[trigger] trees@[i] == #[trigger] queue@[j] implies degree@[i] == 0 by {
                    if j < old_queue.len() {
                        assert(queue@[j] == old_queue[j]);
                        if i == k {
                            assert(trees@.subrange(0, k as int).contains(old_queue[j]));
                            let i2 = choose|i2: int| 0 <= i2 < k && trees@.subrange(0, k as int)[i2] == old_queue[j];
                            assert(trees@[i2] == trees@[k as int]);
                        }
                    } else {
                        assert(queue@[j] == t);
                        if i < k {
                            assert(trees@[i] == trees@[k as int]);
                        }
                    }
                }
                assert forall|i: int| 0 <= i < k + 1 && #[trigger] degree@[i] == 0 implies queue@.contains(trees@[i]) by {
                    if i < k {
                        assert(old_queue.contains(trees@[i]));
                        let j = choose|j: int| 0 <= j < old_queue.len() && old_queue[j] == trees@[i];
                        assert(queue@[j] == trees@[i]);
                    } else {
                        assert(queue@[queue@.len() - 1] == trees@[i]);
                    }
                }
            }
            k = k + 1;
        }
        let s = Scheduler {
            trees,
            deps,
            degree,
            queue,
            head: 0,
            graph: Ghost(g),
            done: Ghost(Set::empty()),
        };
        proof {
            assert(g.dom() =~= dependency_map@.dom());
            assert(s.popped() =~= Seq::<usize>::empty());
            assert forall|k: int| 0 <= k < s.trees@.len() implies s.graph@[#[trigger] s.trees@[k]] == s.deps@[k]@ by {
                assert(s.trees@.to_set().contains(s.trees@[k]));
            }
            assert(s.trees@.to_set() == s.graph@.dom());
            assert(s.done@ == Set::<usize>::empty());
            assert forall|k: int| 0 <= k < s.trees@.len() implies #[trigger] s.degree@[k] == pending(s.deps@[k]@, s.done@) by {
                assert(s.degree@[k] == pending(s.deps@[k]@, Set::<usize>::empty()));
            }
            assert(k == s.trees@.len());
            assert(s.trees@.subrange(0, k as int) =~= s.trees@);
            assert(forall|k: int| 0 <= k < s.trees@.len() && #[trigger] s.degree@[k] == 0
                ==> s.queue@.contains(s.trees@[k]));
            assert(forall|t: usize| #[trigger] s.done@.contains(t) ==> s.popped().contains(t));
        }
        s
    }
}

proof fn lemma_pending_all(ds: Seq<usize>)
    ensures
        pending(ds, Set::<usize>::empty()) == ds.len(),
    decreases ds.len(),
{
    if ds.len() > 0 {
        lemma_pending_all(ds.drop_last());
    }
}

impl Scheduler {
    /// The next ready tree, if any. Every tree it depends on has been
    /// resolved, and it was not handed out before.
    pub fn pop(&mut self) -> (r: Option<usize>)
        requires
            old(self).wf(),
        ensures
            final(self).wf(),
            final(self).graph() == old(self).graph(),
            final(self).resolved() == old(self).resolved(),
            match r {
                Some(t) => {
                    &&& old(self).graph().contains_key(t)
                    &&& forall|i: int| 0 <= i < old(self).graph()[t].len()
                            ==> old(self).resolved().contains(#[trigger] old(self).graph()[t][i])
                    &&& !old(self).popped().contains(t)
                    &&& final(self).popped() == old(self).popped().push(t)
                },
                None => {
                    &&& final(self).popped() == old(self).popped()
                    &&& forall|t: usize| #[trigger] old(self).graph().contains_key(t)
                            && (forall|i: int| 0 <= i < old(self).graph()[t].len()
                                ==> old(self).resolved().contains(old(self).graph()[t][i]))
                            ==> old(self).popped().contains(t)
                },
            },
    {
        if self.head < self.queue.len() {
            let t = self.queue[self.head];
            proof {
                let j = self.head as int;
                assert(self.trees@.contains(self.queue@[j]));
                let k = choose|k: int| 0 <= k < self.trees@.len() && self.trees@[k] == self.queue@[j];
                assert(self.degree@[k] == 0);
                lemma_pending_zero(self.deps@[k]@, self.done@);
                assert(self.trees@.to_set().contains(t));
                assert(!self.popped().contains(t)) by {
                    if self.popped().contains(t) {
                        let j2 = choose|j2: int| 0 <= j2 < self.head && self.popped()[j2] == t;
                        assert(self.queue@[j2] == self.queue@[j]);
                    }
                }
            }
            let ghost before = self.popped();
            self.head = self.head + 1;
            proof {
                assert(self.popped() =~= before.push(t));
                assert forall|u: usize| #[trigger] self.done@.contains(u) implies self.popped().contains(u) by {
                    assert(before.contains(u));
                    let j2 = choose|j2: int| 0 <= j2 < before.len() && before[j2] == u;
                    assert(self.popped()[j2] == u);
                }
            }
            Some(t)
        } else {
            proof {
                assert(self.popped() =~= self.queue@);
                assert forall|t: usize| #[trigger] self.graph@.contains_key(t)
                    && (forall|i: int| 0 <= i < self.graph@[t].len() ==> self.done@.contains(self.graph@[t][i]))
                    implies self.popped().contains(t) by {
                    assert(self.trees@.to_set().contains(t));
                    let k = choose|k: int| 0 <= k < self.trees@.len() && self.trees@[k] == t;
                    lemma_pending_zero(self.deps@[k]@, self.done@);
                    assert(self.degree@[k] == 0);
                }
            }
            None
        }
    }

    /// Marks `tree` resolved: each tree waiting on it waits on one thing less
    /// per time it names it, and becomes ready when nothing is left.
    pub fn resolve(&mut self, tree: usize)
        requires
            old(self).wf(),
            old(self).popped().contains(tree),
            !old(self).resolved().contains(tree),
        ensures
            final(self).wf(),
            final(self).graph() == old(self).graph(),
            final(self).resolved() == old(self).resolved().insert(tree),
            final(self).popped() == old(self).popped(),
    {
        let ghost old_done = self.done@;
        let ghost old_degree = self.degree@;
        let ghost old_popped = self.popped();
        proof { self.done = Ghost(self.done@.insert(tree)); }
        let mut k: usize = 0;
        while k < self.trees.len()
            invariant
                self.trees@.no_duplicates(),
                self.trees@.len() == self.deps@.len(),
                self.trees@.len() == self.degree@.len(),
                self.trees@.to_set() == self.graph@.dom(),
                forall|i: int| 0 <= i < self.trees@.len() ==> self.graph@[#[trigger] self.trees@[i]] == self.deps@[i]@,
                self.done@ == old_done.insert(tree),
                self.graph@ == old(self).graph@,
                !old_done.contains(tree),
                old_degree.len() == self.trees@.len(),
                forall|i: int| 0 <= i < self.trees@.len() ==> #[trigger] old_degree[i] == pending(self.deps@[i]@, old_done),
                k <= self.trees@.len(),
                forall|i: int| 0 <= i < k ==> #[trigger] self.degree@[i] == pending(self.deps@[i]@, self.done@),
                forall|i: int| k <= i < self.trees@.len() ==> #[trigger] self.degree@[i] == old_degree[i],
                self.queue@.no_duplicates(),
                self.head <= self.queue@.len(),
                self.queue@.subrange(0, self.head as int) == old_popped,
                forall|j: int| 0 <= j < self.queue@.len() ==> self.trees@.contains(#[trigger] self.queue@[j]),
                forall|j: int, i: int| 0 <= j < self.queue@.len() && 0 <= i < self.trees@.len()
                    && #[trigger] self.trees@[i] == #[trigger] self.queue@[j] ==> self.degree@[i] == 0,
                forall|i: int| 0 <= i < self.trees@.len() && #[trigger] self.degree@[i] == 0
                    ==> self.queue@.contains(self.trees@[i]),
            decreases self.trees@.len() - k,
        {
            let mut c: usize = 0;
            let mut j: usize = 0;
            let ds = &self.deps[k];
            while j < ds.len()
                invariant
                    j <= ds@.len(),
                    c == occurrences(ds@.subrange(0, j as int), tree),
                    c <= j,
                decreases ds@.len() - j,
            {
                proof { assert(ds@.subrange(0, j + 1).drop_last() =~= ds@.subrange(0, j as int)); }
                if ds[j] == tree {
                    c = c + 1;
                }
                j = j + 1;
            }
            proof {
                assert(ds@.subrange(0, ds@.len() as int) =~= ds@);
                lemma_pending_resolve(self.deps@[k as int]@, old_done, tree);
            }
            let d = self.degree[k];
            let nd = d - c;
            let ghost q0 = self.queue@;
            self.degree.set(k, nd);
            if c > 0 && nd == 0 {
                let t = self.trees[k];
                proof {
                    assert(!self.queue@.contains(t)) by {
                        if self.queue@.contains(t) {
                            let j2 = choose|j2: int| 0 <= j2 < self.queue@.len() && self.queue@[j2] == t;
                            assert(old_degree[k as int] == 0);
                        }
                    }
                }
                self.queue.push(t);
                proof {
                    assert(self.queue@.subrange(0, self.head as int) =~= q0.subrange(0, self.head as int));
                }
            }
            proof {
                assert forall|j2: int, i: int| 0 <= j2 < self.queue@.len() && 0 <= i < self.trees@.len()
                    && #[trigger] self.trees@[i] == #[trigger] self.queue@[j2] implies self.degree@[i] == 0 by {
                    if j2 < q0.len() {
                        assert(self.queue@[j2] == q0[j2]);
                        if i == k {
                            assert(old_degree[k as int] == 0);
                        }
                    } else {
                        if i != k {
                            assert(self.trees@[i] == self.trees@[k as int]);
                        }
                    }
                }
                assert forall|i: int| 0 <= i < self.trees@.len() && #[trigger] self.degree@[i] == 0
                    implies self.queue@.contains(self.trees@[i]) by {
                    if i == k {
                        if c == 0 {
                            assert(q0.contains(self.trees@[i]));
                            let j2 = choose|j2: int| 0 <= j2 < q0.len() && q0[j2] == self.trees@[i];
                            assert(self.queue@[j2] == self.trees@[i]);
                        } else {
                            assert(self.queue@[self.queue@.len() - 1] == self.trees@[i]);
                        }
                    } else {
                        assert(q0.contains(self.trees@[i]));
                        let j2 = choose|j2: int| 0 <= j2 < q0.len() && q0[j2] == self.trees@[i];
                        assert(self.queue@[j2] == self.trees@[i]);
                    }
                }
                assert forall|j2: int| 0 <= j2 < self.queue@.len() implies self.trees@.contains(#[trigger] self.queue@[j2]) by {
                    if j2 < q0.len() {
                        assert(self.queue@[j2] == q0[j2]);
                    } else {
                        assert(self.queue@[j2] == self.trees@[k as int]);
                    }
                }
            }
            k = k + 1;
        }
        proof {
            assert(self.popped() == old_popped);
            assert forall|u: usize| #[trigger] self.done@.contains(u) implies self.popped().contains(u) by {
                if u != tree {
                    assert(old_done.contains(u));
                }
            }
        }
    }

    /// The trees still waiting on something, in the scheduler's order.
    pub fn stuck(&self) -> (r: Vec<usize>)
        requires
            self.wf(),
        ensures
            r@.no_duplicates(),
            forall|t: usize| r@.contains(t) <==> (#[trigger] self.graph().contains_key(t)
                && exists|i: int| 0 <= i < self.graph()[t].len() && !self.resolved().contains(#[trigger] self.graph()[t][i])),
    {
        let mut out: Vec<usize> = Vec::new();
        let mut k: usize = 0;
        while k < self.trees.len()
            invariant
                self.wf(),
                k <= self.trees@.len(),
                out@.no_duplicates(),
                forall|t: usize| out@.contains(t) <==> (exists|i: int| 0 <= i < k && self.trees@[i] == t && #[trigger] self.degree@[i] > 0),
            decreases self.trees@.len() - k,
        {
            let ghost before = out@;
            if self.degree[k] > 0 {
                proof {
                    assert(!before.contains(self.trees@[k as int])) by {
                        if before.contains(self.trees@[k as int]) {
                            let i = choose|i: int| 0 <= i < k && self.trees@[i] == self.trees@[k as int] && #[trigger] self.degree@[i] > 0;
                        }
                    }
                }
                out.push(self.trees[k]);
                proof {
                    assert forall|t: usize| out@.contains(t) <==> (exists|i: int| 0 <= i < k + 1 && self.trees@[i] == t && #[trigger] self.degree@[i] > 0) by {
                        if out@.contains(t) {
                            let j = choose|j: int| 0 <= j < out@.len() && out@[j] == t;
                            if j < before.len() {
                                assert(before.contains(t));
                            } else {
                                assert(self.trees@[k as int] == t && self.degree@[k as int] > 0);
                            }
                        }
                        if exists|i: int| 0 <= i < k + 1 && self.trees@[i] == t && #[trigger] self.degree@[i] > 0 {
                            let i = choose|i: int| 0 <= i < k + 1 && self.trees@[i] == t && #[trigger] self.degree@[i] > 0;
                            if i < k {
                                assert(before.contains(t));
                                let j = choose|j: int| 0 <= j < before.len() && before[j] == t;
                                assert(out@[j] == t);
                            } else {
                                assert(out@[out@.len() - 1] == t);
                            }
                        }
                    }
                }
            }
            k = k + 1;
        }
        proof {
            assert forall|t: usize| out@.contains(t) <==> (#[trigger] self.graph().contains_key(t)
                && exists|i: int| 0 <= i < self.graph()[t].len() && !self.resolved().contains(#[trigger] self.graph()[t][i])) by {
                if out@.contains(t) {
                    let i = choose|i: int| 0 <= i < k && self.trees@[i] == t && #[trigger] self.degree@[i] > 0;
                    assert(self.trees@.to_set().contains(t));
                    lemma_pending_zero(self.deps@[i]@, self.done@);
                    let i2 = choose|i2: int| 0 <= i2 < self.deps@[i]@.len() && !self.done@.contains(#[trigger] self.deps@[i]@[i2]);
                    assert(!self.resolved().contains(self.graph()[t][i2]));
                }
                if self.graph().contains_key(t)
                    && exists|i: int| 0 <= i < self.graph()[t].len() && !self.resolved().contains(#[trigger] self.graph()[t][i]) {
                    assert(self.trees@.to_set().contains(t));
                    let i = choose|i: int| 0 <= i < self.trees@.len() && self.trees@[i] == t;
                    lemma_pending_zero(self.deps@[i]@, self.done@);
                    assert(self.degree@[i] > 0);
                }
            }
        }
        out
    }
}

/// Trees come out in dependency order: a tree is resolved only after it was
/// handed out, and `pop` hands a tree out only once every tree it depends on
/// is resolved, so each tree follows all the trees it depends on.
pub proof fn law_resolved_were_handed_out(s: &Scheduler, t: usize)
    requires
        s.wf(),
        s.resolved().contains(t),
    ensures
        s.popped().contains(t),
{
}

// ── Finding a cycle ──────────────────────────────────────────────────────────

/// Tree `a` depends on tree `b`.
pub open spec fn edge(deps: Map<usize, Vec<ProcessDependency>>, a: usize, b: usize) -> bool {
    deps.contains_key(a) && dep_ids(deps[a]@).contains(b)
}

/// `chain` is a path `A → B → … → A` through `cyclic` trees, each depending
/// on the next.
pub open spec fn is_cycle(chain: Seq<usize>, cyclic: Seq<usize>, deps: Map<usize, Vec<ProcessDependency>>) -> bool {
    &&& chain.len() >= 2
    &&& chain[0] == chain[chain.len() - 1]
    &&& forall|i: int| 0 <= i < chain.len() - 1 ==> #[trigger] edge(deps, chain[i], chain[i + 1])
    &&& forall|i: int| 0 <= i < chain.len() ==> cyclic.contains(#[trigger] chain[i])
}

/// `path` is a walk through `cyclic` trees without repeats.
pub open spec fn walk(path: Seq<usize>, cyclic: Seq<usize>, deps: Map<usize, Vec<ProcessDependency>>) -> bool {
    &&& path.no_duplicates()
    &&& forall|i: int| 0 <= i < path.len() - 1 ==> #[trigger] edge(deps, path[i], path[i + 1])
    &&& forall|i: int| 0 <= i < path.len() ==> cyclic.contains(#[trigger] path[i])
}

/// `visited` holds distinct `cyclic` trees, none on `path`.
pub open spec fn explored(visited: Seq<usize>, path: Seq<usize>, cyclic: Seq<usize>) -> bool {
    &&& visited.no_duplicates()
    &&& forall|i: int| 0 <= i < visited.len() ==> cyclic.contains(#[trigger] visited[i])
    &&& forall|i: int| 0 <= i < visited.len() ==> !path.contains(#[trigger] visited[i])
}

/// Every `cyclic` tree that a tree of `visited` depends on comes before it
/// in `visited` (the order in which the search finished them).
pub open spec fn finished(visited: Seq<usize>, cyclic: Seq<usize>, deps: Map<usize, Vec<ProcessDependency>>) -> bool {
    forall|i: int, m: usize| 0 <= i < visited.len() && cyclic.contains(m) && #[trigger] edge(deps, visited[i], m)
        ==> exists|j: int| 0 <= j < i && visited[j] == m
}

/// Some cycle runs through the `cyclic` trees.
pub open spec fn has_cycle(cyclic: Seq<usize>, deps: Map<usize, Vec<ProcessDependency>>) -> bool {
    exists|c: Seq<usize>| #[trigger] is_cycle(c, cyclic, deps)
}

/// No tree finished before `bound` lies on a cycle: its successor on the
/// cycle would have to be finished earlier still.
proof fn lemma_no_descent(visited: Seq<usize>, cyclic: Seq<usize>, deps: Map<usize, Vec<ProcessDependency>>,
    c: Seq<usize>, bound: nat)
    requires
        finished(visited, cyclic, deps),
        visited.no_duplicates(),
        is_cycle(c, cyclic, deps),
    ensures
        forall|k: int, j: int| #![trigger visited[j], c[k]] 0 <= k < c.len() - 1 && 0 <= j < bound && j < visited.len() ==> visited[j] != c[k],
    decreases bound,
{
    if bound > 0 {
        lemma_no_descent(visited, cyclic, deps, c, (bound - 1) as nat);
        let j = bound - 1;
        assert forall|k: int| 0 <= k < c.len() - 1 && j < visited.len() implies visited[j] != #[trigger] c[k] by {
            if visited[j] == c[k] {
                let k2 = if k + 1 < c.len() - 1 { k + 1 } else { 0 };
                assert(edge(deps, c[k], c[k + 1]));
                assert(c[k2] == c[k + 1]);
                assert(cyclic.contains(c[k + 1]));
                assert(edge(deps, visited[j], c[k + 1]));
                let j2 = choose|j2: int| 0 <= j2 < j && visited[j2] == c[k + 1];
                assert(visited[j2] != c[k2]);
            }
        }
    }
}

/// When every `cyclic` tree is finished, no cycle runs through them.
proof fn lemma_finished_acyclic(visited: Seq<usize>, cyclic: Seq<usize>, deps: Map<usize, Vec<ProcessDependency>>)
    requires
        finished(visited, cyclic, deps),
        visited.no_duplicates(),
        forall|x: usize| cyclic.contains(x) ==> visited.contains(x),
    ensures
        !has_cycle(cyclic, deps),
{
    if has_cycle(cyclic, deps) {
        let c = choose|c: Seq<usize>| #[trigger] is_cycle(c, cyclic, deps);
        assert(cyclic.contains(c[0]));
        let j = choose|j: int| 0 <= j < visited.len() && visited[j] == c[0];
        lemma_no_descent(visited, cyclic, deps, c, visited.len());
        assert(visited[j] != c[0]);
    }
}

proof fn lemma_fits(a: Seq<usize>, b: Seq<usize>, c: Seq<usize>)
    requires
        a.no_duplicates(),
        b.no_duplicates(),
        c.no_duplicates(),
        forall|i: int| 0 <= i < a.len() ==> c.contains(#[trigger] a[i]),
        forall|i: int| 0 <= i < b.len() ==> c.contains(#[trigger] b[i]),
        forall|i: int| 0 <= i < b.len() ==> !a.contains(#[trigger] b[i]),
    ensures
        a.len() + b.len() <= c.len(),
{
    let ab = a + b;
    assert(ab.no_duplicates()) by {
        assert forall|i: int, j: int| 0 <= i < ab.len() && 0 <= j < ab.len() && i != j implies ab[i] != ab[j] by {
            if i < a.len() && j >= a.len() {
                assert(!a.contains(b[j - a.len()]));
            } else if j < a.len() && i >= a.len() {
                assert(!a.contains(b[i - a.len()]));
            }
        }
    }
    ab.unique_seq_to_set();
    c.unique_seq_to_set();
    assert(ab.to_set().subset_of(c.to_set())) by {
        assert forall|x: usize| ab.to_set().contains(x) implies c.to_set().contains(x) by {
            let i = choose|i: int| 0 <= i < ab.len() && ab[i] == x;
            if i < a.len() {
                assert(c.contains(a[i]));
            } else {
                assert(c.contains(b[i - a.len()]));
            }
        }
    }
    vstd::set_lib::lemma_len_subset(ab.to_set(), c.to_set());
}

fn contains_id(v: &Vec<usize>, x: usize) -> (r: bool)
    ensures
        r == v@.contains(x),
{
    let mut i: usize = 0;
    while i < v.len()
        invariant
            i <= v@.len(),
            forall|j: int| 0 <= j < i ==> v@[j] != x,
        decreases v@.len() - i,
    {
        if v[i] == x {
            return true;
        }
        i = i + 1;
    }
    false
}

/// Depth-first search from `node` for a cycle among the `cyclic` trees,
/// `path` being the walk that led to `node`.
#[verifier::loop_isolation(false)]
fn dfs_cycle(node: usize, cyclic: &Vec<usize>, deps: &HashMap<usize, Vec<ProcessDependency>>,
    path: &mut Vec<usize>, visited: &mut Vec<usize>) -> (r: Option<Vec<usize>>)
    requires
        cyclic@.no_duplicates(),
        cyclic@.contains(node),
        walk(old(path)@, cyclic@, deps@),
        old(path)@.len() > 0 ==> edge(deps@, old(path)@.last(), node),
        explored(old(visited)@, old(path)@, cyclic@),
        finished(old(visited)@, cyclic@, deps@),
    ensures
        match r {
            Some(c) => is_cycle(c@, cyclic@, deps@),
            None => {
                &&& final(path)@ == old(path)@
                &&& explored(final(visited)@, old(path)@, cyclic@)
                &&& final(visited)@.len() >= old(visited)@.len()
                &&& final(visited)@.subrange(0, old(visited)@.len() as int) == old(visited)@
                &&& finished(final(visited)@, cyclic@, deps@)
                &&& final(visited)@.contains(node)
            },
        },
    decreases cyclic@.len() - old(path)@.len() - old(visited)@.len(),
{
    proof { lemma_fits(path@, visited@, cyclic@); }
    let n = path.len();
    let mut p: usize = 0;
    while p < n
        invariant
            n == path@.len(),
            p <= n,
            forall|j: int| 0 <= j < p ==> path@[j] != node,
        decreases n - p,
    {
        if path[p] == node {
            let mut cycle: Vec<usize> = Vec::new();
            let mut q = p;
            while q < n
                invariant
                    p <= q <= n,
                    n == path@.len(),
                    cycle@ == path@.subrange(p as int, q as int),
                decreases n - q,
            {
                cycle.push(path[q]);
                q = q + 1;
                proof { assert(cycle@ =~= path@.subrange(p as int, q as int)); }
            }
            cycle.push(node);
            proof {
                let c = cycle@;
                assert(c =~= path@.subrange(p as int, n as int).push(node));
                assert forall|i: int| 0 <= i < c.len() - 1 implies #[trigger] edge(deps@, c[i], c[i + 1]) by {
                    if i < c.len() - 2 {
                        assert(c[i] == path@[p + i] && c[i + 1] == path@[p + i + 1]);
                    } else {
                        assert(c[i] == path@.last());
                    }
                }
                assert forall|i: int| 0 <= i < c.len() implies cyclic@.contains(#[trigger] c[i]) by {
                    if i < c.len() - 1 {
                        assert(c[i] == path@[p + i]);
                    }
                }
            }
            return Some(cycle);
        }
        p = p + 1;
    }
    proof { assert(!path@.contains(node)); }
    if contains_id(visited, node) {
        return None;
    }
    let ghost path0 = path@;
    let ghost visited0 = visited@;
    path.push(node);
    proof {
        assert(path@ == path0.push(node));
        assert forall|i: int| 0 <= i < path@.len() - 1 implies #[trigger] edge(deps@, path@[i], path@[i + 1]) by {
            if i < path0.len() - 1 {
                assert(path@[i] == path0[i] && path@[i + 1] == path0[i + 1]);
            } else {
                assert(path@[i] == path0.last());
            }
        }
        assert forall|i: int| 0 <= i < visited@.len() implies !path@.contains(#[trigger] visited@[i]) by {
            if path@.contains(visited@[i]) {
                let j = choose|j: int| 0 <= j < path@.len() && path@[j] == visited@[i];
                if j < path0.len() {
                    assert(path0.contains(visited@[i]));
                }
            }
        }
    }
    match deps.get(&node) {
        Some(ns) => {
            let mut k: usize = 0;
            while k < ns.len()
                invariant
                    cyclic@.no_duplicates(),
                    cyclic@.contains(node),
                    deps@.contains_key(node),
                    ns@ == deps@[node]@,
                    k <= ns@.len(),
                    path@ == path0.push(node),
                    walk(path@, cyclic@, deps@),
                    explored(visited@, path@, cyclic@),
                    visited@.len() >= visited0.len(),
                    path0.len() + visited0.len() < cyclic@.len() + 1,
                    path0 == old(path)@,
                    visited0 == old(visited)@,
                    finished(visited@, cyclic@, deps@),
                    visited@.subrange(0, visited0.len() as int) == visited0,
                    forall|j: int| 0 <= j < k && cyclic@.contains(#[trigger] dep_ids(ns@)[j]) ==> visited@.contains(dep_ids(ns@)[j]),
                decreases ns@.len() - k,
            {
                let next = ns[k].dep_id();
                if contains_id(cyclic, next) {
                    proof {
                        assert(dep_ids(ns@)[k as int] == next);
                        assert(edge(deps@, path@.last(), next));
                        lemma_fits(path@, visited@, cyclic@);
                    }
                    let ghost vb = visited@;
                    match dfs_cycle(next, cyclic, deps, path, visited) {
                        Some(c) => {
                            return Some(c);
                        },
                        None => {
                            proof {
                                assert forall|j: int| 0 <= j < k + 1 && cyclic@.contains(#[trigger] dep_ids(ns@)[j])
                                    implies visited@.contains(dep_ids(ns@)[j]) by {
                                    if j < k {
                                        let t = choose|t: int| 0 <= t < vb.len() && vb[t] == dep_ids(ns@)[j];
                                        assert(visited@.subrange(0, vb.len() as int)[t] == vb[t]);
                                    }
                                }
                                assert(visited@.subrange(0, visited0.len() as int) =~= visited0) by {
                                    assert forall|t: int| 0 <= t < visited0.len() implies visited@[t] == visited0[t] by {
                                        assert(visited@.subrange(0, vb.len() as int)[t] == vb[t]);
                                        assert(vb.subrange(0, visited0.len() as int)[t] == visited0[t]);
                                    }
                                }
                            }
                        },
                    }
                } else {
                    proof {
                        assert forall|j: int| 0 <= j < k + 1 && cyclic@.contains(#[trigger] dep_ids(ns@)[j])
                            implies visited@.contains(dep_ids(ns@)[j]) by {
                            if j == k {
                                assert(dep_ids(ns@)[k as int] == next);
                            }
                        }
                    }
                }
                k = k + 1;
            }
        },
        None => {},
    }
    let ghost visited1 = visited@;
    proof {
        assert forall|m: usize| cyclic@.contains(m) && edge(deps@, node, m) implies visited1.contains(m) by {
            let ns = deps@[node]@;
            let j = choose|j: int| 0 <= j < dep_ids(ns).len() && dep_ids(ns)[j] == m;
        }
    }
    path.pop();
    proof { assert(path@ =~= path0); }
    visited.push(node);
    proof {
        assert(visited@ == visited1.push(node));
        assert forall|i: int, m: usize| 0 <= i < visited@.len() && cyclic@.contains(m) && #[trigger] edge(deps@, visited@[i], m)
            implies exists|j: int| 0 <= j < i && visited@[j] == m by {
            if i < visited1.len() {
                assert(visited@[i] == visited1[i]);
                let j = choose|j: int| 0 <= j < i && visited1[j] == m;
                assert(visited@[j] == m);
            } else {
                assert(visited@[i] == node);
                let j = choose|j: int| 0 <= j < visited1.len() && visited1[j] == m;
                assert(visited@[j] == m);
            }
        }
        assert(visited@.subrange(0, visited0.len() as int) =~= visited0) by {
            assert forall|t: int| 0 <= t < visited0.len() implies visited@[t] == visited0[t] by {
                assert(visited1.subrange(0, visited0.len() as int)[t] == visited0[t]);
            }
        }
        assert(visited@[visited1.len() as int] == node);
        assert forall|i: int| 0 <= i < visited@.len() implies !path0.contains(#[trigger] visited@[i]) by {
            if i < visited1.len() {
                assert(visited@[i] == visited1[i]);
                if path0.contains(visited1[i]) {
                    let j = choose|j: int| 0 <= j < path0.len() && path0[j] == visited1[i];
                    assert(path0.push(node)[j] == visited1[i]);
                }
            }
        }
        assert(visited@.no_duplicates()) by {
            assert(!visited1.contains(node)) by {
                if visited1.contains(node) {
                    let j = choose|j: int| 0 <= j < visited1.len() && visited1[j] == node;
                    assert(path0.push(node)[path0.len() as int] == node);
                }
            }
        }
    }
    None
}

/// A cycle among the `cyclic` trees, as `A → B → … → A`, or `None` when
/// there is none.
pub fn find_cycle_chain(cyclic: &Vec<usize>, deps: &HashMap<usize, Vec<ProcessDependency>>) -> (r: Option<Vec<usize>>)
    requires
        cyclic@.no_duplicates(),
    ensures
        match r {
            Some(c) => is_cycle(c@, cyclic@, deps@),
            None => !has_cycle(cyclic@, deps@),
        },
{
    let mut visited: Vec<usize> = Vec::new();
    let mut path: Vec<usize> = Vec::new();
    let mut i: usize = 0;
    while i < cyclic.len()
        invariant
            cyclic@.no_duplicates(),
            i <= cyclic@.len(),
            path@.len() == 0,
            explored(visited@, path@, cyclic@),
            finished(visited@, cyclic@, deps@),
            forall|j: int| 0 <= j < i ==> visited@.contains(#[trigger] cyclic@[j]),
        decreases cyclic@.len() - i,
    {
        let ghost vb = visited@;
        match dfs_cycle(cyclic[i], cyclic, deps, &mut path, &mut visited) {
            Some(c) => {
                return Some(c);
            },
            None => {
                proof {
                    assert forall|j: int| 0 <= j < i + 1 implies visited@.contains(#[trigger] cyclic@[j]) by {
                        if j < i {
                            let t = choose|t: int| 0 <= t < vb.len() && vb[t] == cyclic@[j];
                            assert(visited@.subrange(0, vb.len() as int)[t] == vb[t]);
                        }
                    }
                }
            },
        }
        i = i + 1;
    }
    proof {
        assert forall|x: usize| cyclic@.contains(x) implies visited@.contains(x) by {
            let j = choose|j: int| 0 <= j < cyclic@.len() && cyclic@[j] == x;
        }
        lemma_finished_acyclic(visited@, cyclic@, deps@);
    }
    None
}

// ── Naming the trees of a cycle ──────────────────────────────────────────────

/// The first name `provides` gives tree `tid`.
pub open spec fn first_name_of(provides: Seq<(String, usize)>, tid: usize) -> Option<Seq<char>>
    decreases provides.len(),
{
    if provides.len() == 0 {
        None
    } else if provides[0].1 == tid {
        Some(provides[0].0@)
    } else {
        first_name_of(provides.drop_first(), tid)
    }
}

/// A tree as a diagnostic names it: a name it provides, or `<tree N>`.
pub open spec fn tree_label(provides: Seq<(String, usize)>, tid: usize) -> Seq<char> {
    match first_name_of(provides, tid) {
        Some(n) => n,
        None => "<tree "@ + nat_text(tid as nat) + ">"@,
    }
}

pub open spec fn tree_labels(provides: Seq<(String, usize)>, ids: Seq<usize>) -> Seq<Seq<char>> {
    ids.map_values(|t: usize| tree_label(provides, t))
}

fn tree_name(provides: &Vec<(String, usize)>, tid: usize) -> (r: String)
    ensures
        r@ == tree_label(provides@, tid),
{
    let mut i: usize = 0;
    while i < provides.len()
        invariant
            i <= provides@.len(),
            first_name_of(provides@, tid) == first_name_of(provides@.skip(i as int), tid),
        decreases provides@.len() - i,
    {
        proof { assert(provides@.skip(i as int).drop_first() =~= provides@.skip(i + 1)); }
        if provides[i].1 == tid {
            return provides[i].0.clone();
        }
        i = i + 1;
    }
    let n = usize_to_string(tid);
    let mut s = String::from_str("<tree ");
    s.append(n.as_str());
    s.append(">");
    s
}

fn tree_names(provides: &Vec<(String, usize)>, ids: &Vec<usize>) -> (r: Vec<String>)
    ensures
        strings_view(r@) == tree_labels(provides@, ids@),
{
    let mut out: Vec<String> = Vec::new();
    let mut i: usize = 0;
    while i < ids.len()
        invariant
            i <= ids@.len(),
            strings_view(out@) == tree_labels(provides@, ids@.subrange(0, i as int)),
        decreases ids@.len() - i,
    {
        let ghost o = out@;
        let nm = tree_name(provides, ids[i]);
        out.push(nm);
        proof {
            assert(strings_view(out@) =~= strings_view(o).push(nm@));
            assert(tree_labels(provides@, ids@.subrange(0, i + 1))
                =~= tree_labels(provides@, ids@.subrange(0, i as int)).push(tree_label(provides@, ids@[i as int])));
        }
        i = i + 1;
    }
    proof { assert(ids@.subrange(0, ids@.len() as int) =~= ids@); }
    out
}

/// The error for trees that never became ready: a dependency cycle among
/// them, by name, when there is one; else all of them by name, in ascending
/// order.
pub fn circular_dependency(stuck: &Vec<usize>, deps: &HashMap<usize, Vec<ProcessDependency>>,
    provides: &Vec<(String, usize)>) -> (e: MetaProcessError)
    requires
        stuck@.no_duplicates(),
    ensures
        match e {
            MetaProcessError::CircularDependency(names) =>
                (has_cycle(stuck@, deps@) ==> exists|chain: Seq<usize>| is_cycle(chain, stuck@, deps@)
                    && strings_view(names@) == tree_labels(provides@, chain))
                && (!has_cycle(stuck@, deps@) ==> strings_view(names@).to_multiset() == tree_labels(provides@, stuck@).to_multiset()
                    && forall|i: int, j: int| 0 <= i < j < names@.len()
                        ==> text_le(#[trigger] names@[i]@, #[trigger] names@[j]@)),
            _ => false,
        },
{
    match find_cycle_chain(stuck, deps) {
        Some(chain) => {
            let names = tree_names(provides, &chain);
            MetaProcessError::CircularDependency(names)
        },
        None => {
            let names = tree_names(provides, stuck);
            let sorted = sort_texts(names);
            MetaProcessError::CircularDependency(sorted)
        },
    }
}

// ── Generated code IDs ───────────────────────────────────────────────────────

/// Every tree ID and every node ID of `f` is below `bound`.
pub open spec fn ids_below(f: StagedForest, bound: nat) -> bool {
    &&& forall|t: usize| #[trigger] f.ast_map@.contains_key(t) ==> t < bound
    &&& forall|t: usize, k: usize| f.ast_map@.contains_key(t) && #[trigger] f.ast_map@[t].stmts@.contains_key(k) ==> k < bound
    &&& forall|t: usize, k: usize| f.ast_map@.contains_key(t) && #[trigger] f.ast_map@[t].exprs@.contains_key(k) ==> k < bound
}

/// The first ID for code generated by meta blocks: one past every tree and
/// node ID of the forest.
pub fn collector_start_id(f: &StagedForest) -> (r: usize)
    requires
        ids_below(*f, usize::MAX as nat),
    ensures
        ids_below(*f, r as nat),
        r >= 1,
        r == 1 || !ids_below(*f, (r - 1) as nat),
{
    let mut best = max_key(&f.ast_map);
    let trees = keys_of(&f.ast_map);
    let mut i: usize = 0;
    while i < trees.len()
        invariant
            ids_below(*f, usize::MAX as nat),
            trees@.to_set() == f.ast_map@.dom(),
            i <= trees@.len(),
            forall|t: usize| #[trigger] f.ast_map@.contains_key(t) ==> t <= best,
            forall|j: int, k: usize| 0 <= j < i && #[trigger] f.ast_map@[trees@[j]].stmts@.contains_key(k) ==> k <= best,
            forall|j: int, k: usize| 0 <= j < i && #[trigger] f.ast_map@[trees@[j]].exprs@.contains_key(k) ==> k <= best,
            best == 0 || !ids_below(*f, best as nat),
        decreases trees@.len() - i,
    {
        let t = trees[i];
        proof { assert(trees@.to_set().contains(t)); }
        let ast = f.ast_map.get(&t).unwrap();
        let s = max_key(&ast.stmts);
        let e = max_key(&ast.exprs);
        if s > best {
            best = s;
        }
        if e > best {
            best = e;
        }
        i = i + 1;
    }
    proof {
        assert forall|t: usize, k: usize| f.ast_map@.contains_key(t) && #[trigger] f.ast_map@[t].stmts@.contains_key(k)
            implies k <= best by {
            assert(trees@.to_set().contains(t));
            let j = choose|j: int| 0 <= j < trees@.len() && trees@[j] == t;
            assert(f.ast_map@[trees@[j]].stmts@.contains_key(k));
        }
        assert forall|t: usize, k: usize| f.ast_map@.contains_key(t) && #[trigger] f.ast_map@[t].exprs@.contains_key(k)
            implies k <= best by {
            assert(trees@.to_set().contains(t));
            let j = choose|j: int| 0 <= j < trees@.len() && trees@[j] == t;
            assert(f.ast_map@[trees@[j]].exprs@.contains_key(k));
        }
    }
    best + 1
}

} // verus!
