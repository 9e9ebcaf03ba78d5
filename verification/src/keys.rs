use vstd::prelude::*;
use std::collections::HashMap;

verus! {

broadcast use {vstd::std_specs::hash::group_hash_axioms, vstd::std_specs::hash::axiom_spec_keys_iter};
use vstd::std_specs::iter::IteratorSpec;

/// The keys of `m`, each once.
pub fn keys_of<V>(m: &HashMap<usize, V>) -> (r: Vec<usize>)
    ensures
        r@.to_set() == m@.dom(),
        r@.no_duplicates(),
{
    let mut out: Vec<usize> = Vec::new();
    let ghost keys_seq = vstd::std_specs::hash::spec_keys_iter(m).remaining();
    for k in it: m.keys()
        invariant
            it.seq() == keys_seq,
            keys_seq.unref().to_set() == m@.dom(),
            keys_seq.unref().no_duplicates(),
            out@ == keys_seq.unref().subrange(0, it.index() as int),
    {
        let ghost i = it.index();
        assert(*k == *keys_seq[i]);
        out.push(*k);
        proof { assert(out@ =~= keys_seq.unref().subrange(0, i + 1)); }
    }
    proof { assert(out@ =~= keys_seq.unref()); }
    out
}

/// The largest key of `m`, or 0 when `m` is empty.
pub fn max_key<V>(m: &HashMap<usize, V>) -> (r: usize)
    ensures
        forall|k: usize| #[trigger] m@.contains_key(k) ==> k <= r,
        r == 0 || m@.contains_key(r),
{
    let keys = keys_of(m);
    let mut best: usize = 0;
    let mut i: usize = 0;
    while i < keys.len()
        invariant
            i <= keys@.len(),
            keys@.to_set() == m@.dom(),
            forall|j: int| 0 <= j < i ==> #[trigger] keys@[j] <= best,
            best == 0 || m@.contains_key(best),
        decreases keys@.len() - i,
    {
        proof { assert(keys@.to_set().contains(keys@[i as int])); }
        if keys[i] > best {
            best = keys[i];
        }
        i = i + 1;
    }
    proof {
        assert forall|k: usize| #[trigger] m@.contains_key(k) implies k <= best by {
            assert(keys@.to_set().contains(k));
            let j = choose|j: int| 0 <= j < keys@.len() && keys@[j] == k;
        }
    }
    best
}

} // verus!
