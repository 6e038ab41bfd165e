//! Area-of-interest filtering: keep only the entities a viewer can see, so
//! replication bandwidth is `O(nearby)`, not `O(world)`.

use std::collections::BTreeSet;
use vstd::prelude::*;
use crate::netcode::snapshot::EntitySnapshot;

verus! {

broadcast use vstd::std_specs::btree::group_btree_axioms;

/// `e` is in the viewer's interest set.
pub open spec fn interesting(interest: Set<u64>) -> spec_fn(EntitySnapshot) -> bool {
    |e: EntitySnapshot| interest.contains(e.id)
}

/// Keep only the entities whose id is in the viewer's `interest` set,
/// preserving input order.
pub fn filter_by_interest(entities: &[EntitySnapshot], interest: &BTreeSet<u64>) -> (r: Vec<
    EntitySnapshot,
>)
    ensures
        r@ == entities@.filter(interesting(interest@)),
{
    let mut out: Vec<EntitySnapshot> = Vec::new();
    let mut i: usize = 0;
    while i < entities.len()
        invariant
            i <= entities.len(),
            out@ == entities@.take(i as int).filter(interesting(interest@)),
        decreases entities.len() - i,
    {
        let e = entities[i];
        proof {
            assert(entities@.take(i + 1) =~= entities@.take(i as int).push(e));
            entities@.take(i as int).lemma_filter_push(e, interesting(interest@));
        }
        if interest.contains(&e.id) {
            out.push(e);
        }
        i = i + 1;
    }
    assert(entities@.take(entities@.len() as int) =~= entities@);
    out
}

} // verus!
