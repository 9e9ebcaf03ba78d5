use vstd::prelude::*;
use std::collections::HashMap;
use crate::types::{Type, type_has_var, contains_var};
use vstd::std_specs::hash::spec_keys_iter;
use vstd::std_specs::iter::IteratorSpec;

verus! {

broadcast use {vstd::std_specs::hash::group_hash_axioms, vstd::std_specs::hash::axiom_spec_keys_iter};

/// Checks that no type in `type_map` still holds a type variable.
///
/// Returns `Ok(())` when every type is concrete, or `Err(ids)` listing, once
/// each, every expression ID whose type still holds a variable.
pub fn verify_no_type_vars(type_map: &HashMap<usize, Type>) -> (r: Result<(), Vec<usize>>)
    ensures
        match r {
            Ok(()) => forall|k: usize| #[trigger] type_map@.contains_key(k) ==> !contains_var(type_map@[k]),
            Err(ids) => {
                &&& ids@.len() > 0
                &&& ids@.no_duplicates()
                &&& forall|k: usize| ids@.contains(k) <==> (#[trigger] type_map@.contains_key(k)
                        && contains_var(type_map@[k]))
            },
        },
{
    let mut offenders: Vec<usize> = Vec::new();
    let ghost keys_seq = spec_keys_iter(type_map).remaining();
    proof {
        assert(keys_seq.unref().to_set() == type_map@.dom());
    }
    for k in it: type_map.keys()
        invariant
            it.seq() == keys_seq,
            keys_seq.unref().to_set() == type_map@.dom(),
            keys_seq.no_duplicates(),
            offenders@.no_duplicates(),
            forall|x: usize| offenders@.contains(x) <==> (exists|j: int| 0 <= j < it.index()
                && *#[trigger] keys_seq[j] == x && contains_var(type_map@[x])),
    {
        let ghost i = it.index();
        let ghost before = offenders@;
        assert(*k == *keys_seq[i]);
        assert(keys_seq.unref().contains(*k));
        if let Some(t) = type_map.get(k) {
            if type_has_var(t) {
                proof {
                    assert forall|j: int| 0 <= j < i implies *keys_seq[j] != *k by {
                        if *keys_seq[j] == *k {
                            assert(keys_seq.unref()[j] == keys_seq.unref()[i]);
                        }
                    }
                    assert(!before.contains(*k));
                }
                offenders.push(*k);
                proof {
                    assert forall|x: usize| offenders@.contains(x) <==> (exists|j: int| 0 <= j < i + 1
                        && *#[trigger] keys_seq[j] == x && contains_var(type_map@[x])) by {
                        assert(offenders@ == before.push(*k));
                        if offenders@.contains(x) && x != *k {
                            let idx = choose|idx: int| 0 <= idx < offenders@.len() && offenders@[idx] == x;
                            assert(idx < before.len());
                            assert(before[idx] == x);
                            assert(before.contains(x));
                        }
                        if before.contains(x) {
                            let idx = choose|idx: int| 0 <= idx < before.len() && before[idx] == x;
                            assert(offenders@[idx] == x);
                        }
                        if x == *k {
                            assert(offenders@[before.len() as int] == x);
                            assert(*keys_seq[i] == x && contains_var(type_map@[x]));
                        }
                        if (exists|j: int| 0 <= j < i + 1 && *#[trigger] keys_seq[j] == x && contains_var(type_map@[x])) && x != *k {
                            let j = choose|j: int| 0 <= j < i + 1 && *#[trigger] keys_seq[j] == x && contains_var(type_map@[x]);
                            assert(j != i);
                            assert(before.contains(x));
                        }
                    }
                }
            }
        }
    }
    proof {
        assert forall|x: usize| #[trigger] type_map@.contains_key(x) implies
            (offenders@.contains(x) <==> contains_var(type_map@[x])) by {
            assert(keys_seq.unref().to_set().contains(x));
            let j = choose|j: int| 0 <= j < keys_seq.unref().len() && keys_seq.unref()[j] == x;
            assert(*keys_seq[j] == x);
        }
        assert forall|x: usize| offenders@.contains(x) implies #[trigger] type_map@.contains_key(x) by {
            let j = choose|j: int| 0 <= j < keys_seq.len() && *#[trigger] keys_seq[j] == x
                && contains_var(type_map@[x]);
            assert(keys_seq.unref()[j] == x);
            assert(keys_seq.unref().to_set().contains(x));
        }
    }
    if offenders.len() == 0 {
        Ok(())
    } else {
        Err(offenders)
    }
}

} // verus!
