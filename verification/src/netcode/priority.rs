//! Per-client bandwidth budget: fill a fixed per-tick byte budget by
//! priority (self > combat > near > far), ties broken by entity id.

use vstd::prelude::*;
use crate::netcode::snapshot::{EntitySnapshot, WIRE_SIZE, insert_sorted, sorted_by_id};

verus! {

/// Replication priority, highest first.
#[derive(Debug, Clone, Copy, PartialEq, Eq, PartialOrd, Ord, Hash, Structural)]
pub enum Priority {
    /// The client's own entity — always highest.
    SelfPlayer,
    /// Entities in active combat with the client.
    Combat,
    /// Nearby entities.
    Near,
    /// Distant entities.
    Far,
}

/// The position of a priority in the order self > combat > near > far.
pub open spec fn priority_rank(p: Priority) -> int {
    match p {
        Priority::SelfPlayer => 0,
        Priority::Combat => 1,
        Priority::Near => 2,
        Priority::Far => 3,
    }
}

impl Priority {
    /// The position of this priority (0 = sent first).
    pub fn rank(self) -> (r: u8)
        ensures
            r == priority_rank(self),
    {
        match self {
            Priority::SelfPlayer => 0,
            Priority::Combat => 1,
            Priority::Near => 2,
            Priority::Far => 3,
        }
    }
}

/// A replication candidate: its state plus how it should be prioritized.
#[derive(Debug, Clone, Copy, PartialEq, Structural)]
pub struct Candidate {
    /// The entity state to send.
    pub snap: EntitySnapshot,
    /// How urgently it should be sent.
    pub priority: Priority,
}

impl Candidate {
    /// A candidate at the given priority.
    pub fn new(snap: EntitySnapshot, priority: Priority) -> (c: Self)
        ensures
            c.snap == snap,
            c.priority == priority,
    {
        Self { snap, priority }
    }
}

/// `a` is sent no later than `b`: higher priority, or equal priority and an
/// id that is not larger.
pub open spec fn sent_before(a: Candidate, b: Candidate) -> bool {
    priority_rank(a.priority) < priority_rank(b.priority) || (priority_rank(a.priority)
        == priority_rank(b.priority) && a.snap.id <= b.snap.id)
}

/// Candidate `i` goes out before candidate `j`: it is sent no later, and
/// when the two tie on priority and id, it comes earlier in the input.
pub open spec fn ranked_before(cands: Seq<Candidate>, i: int, j: int) -> bool {
    &&& sent_before(cands[i], cands[j])
    &&& sent_before(cands[j], cands[i]) ==> i < j
}

fn sent_before_exec(a: &Candidate, b: &Candidate) -> (r: bool)
    ensures
        r == sent_before(*a, *b),
{
    let ra = a.priority.rank();
    let rb = b.priority.rank();
    ra < rb || (ra == rb && a.snap.id <= b.snap.id)
}

/// How many entities of `WIRE_SIZE` bytes fit `budget`, capped at `n`.
pub open spec fn fit_count(n: int, budget: int) -> int {
    if n < budget / (WIRE_SIZE as int) {
        n
    } else {
        budget / (WIRE_SIZE as int)
    }
}

/// The entity states of the candidates at the indices `picked`.
pub open spec fn snaps_at(cands: Seq<Candidate>, picked: Seq<int>) -> Seq<EntitySnapshot> {
    picked.map_values(|i: int| cands[i].snap)
}

/// `picked` names `k` distinct candidates, each ranked before every
/// candidate left out.
pub open spec fn is_priority_pick(cands: Seq<Candidate>, picked: Seq<int>, k: int) -> bool {
    &&& picked.len() == k
    &&& picked.no_duplicates()
    &&& forall|p: int| 0 <= p < picked.len() ==> 0 <= #[trigger] picked[p] < cands.len()
    &&& forall|p: int, j: int|
        0 <= p < picked.len() && 0 <= j < cands.len() && !picked.contains(j) ==> #[trigger] ranked_before(
            cands,
            picked[p],
            j,
        )
}

/// Select the entities to send this tick, highest priority first, until the
/// byte `budget` is exhausted; the output is sorted by id.
pub fn fill_budget(candidates: Vec<Candidate>, budget: usize) -> (r: Vec<EntitySnapshot>)
    ensures
        r@.len() == fit_count(candidates@.len() as int, budget as int),
        r@.len() * WIRE_SIZE <= budget,
        sorted_by_id(r@),
        exists|picked: Seq<int>|
            is_priority_pick(candidates@, picked, r@.len() as int) && #[trigger] snaps_at(
                candidates@,
                picked,
            ).to_multiset() == r@.to_multiset(),
{
    let n = candidates.len();
    let ghost cs = candidates@;
    // `order` lists candidate indices sorted by (priority, id), stably.
    let mut order: Vec<usize> = Vec::with_capacity(n);
    let mut m: usize = 0;
    while m < n
        invariant
            m <= n,
            n == cs.len(),
            cs == candidates@,
            order@.len() == m,
            order@.no_duplicates(),
            forall|p: int| 0 <= p < order@.len() ==> #[trigger] order@[p] < m,
            forall|x: usize| x < m ==> #[trigger] order@.contains(x),
            forall|p: int, q: int|
                0 <= p < q < order@.len() ==> ranked_before(cs, order@[p] as int, order@[q] as int),
        decreases n - m,
    {
        let mut p: usize = order.len();
        while p > 0 && !sent_before_exec(&candidates[order[p - 1]], &candidates[m])
            invariant
                p <= order@.len(),
                m < n,
                n == cs.len(),
                cs == candidates@,
                forall|q: int| 0 <= q < order@.len() ==> #[trigger] order@[q] < m,
                forall|q: int| p <= q < order@.len() ==> !sent_before(cs[order@[q] as int], cs[m as int]),
            decreases p,
        {
            p = p - 1;
        }
        let ghost before = order@;
        order.insert(p, m);
        proof {
            assert forall|a: int, b: int|
                0 <= a < b < order@.len() implies ranked_before(cs, order@[a] as int, order@[b] as int) by {
                if a < p && b == p {
                    assert(sent_before(cs[before[p - 1] as int], cs[m as int]));
                    assert(ranked_before(cs, before[a] as int, before[p - 1] as int) || a == p - 1);
                    assert(before[a] < m);
                } else if a == p && b > p {
                    assert(!sent_before(cs[before[b - 1] as int], cs[m as int]));
                } else if a < p && b > p {
                    assert(ranked_before(cs, before[a] as int, before[b - 1] as int));
                } else if a > p {
                    assert(ranked_before(cs, before[a - 1] as int, before[b - 1] as int));
                }
            }
            assert forall|x: usize| x < m + 1 implies #[trigger] order@.contains(x) by {
                if x < m {
                    assert(before.contains(x));
                    let q = choose|q: int| 0 <= q < before.len() && before[q] == x;
                    if q < p {
                        assert(order@[q] == x);
                    } else {
                        assert(order@[q + 1] == x);
                    }
                } else {
                    assert(order@[p as int] == x);
                }
            }
            assert forall|a: int, b: int| 0 <= a < order@.len() && 0 <= b < order@.len() && a != b implies order@[a] != order@[b] by {
                if a != p && b != p {
                    let a0 = if a < p { a } else { a - 1 };
                    let b0 = if b < p { b } else { b - 1 };
                    assert(before[a0] != before[b0]);
                }
            }
        }
        m = m + 1;
    }
    let slots = budget / WIRE_SIZE;
    let k: usize = if n < slots {
        n
    } else {
        slots
    };
    let mut out: Vec<EntitySnapshot> = Vec::with_capacity(k);
    let mut t: usize = 0;
    assert(snaps_at(cs, order@.take(0).map_values(|i: usize| i as int)) =~= out@);
    while t < k
        invariant
            t <= k <= n,
            n == cs.len(),
            cs == candidates@,
            order@.len() == n,
            forall|p: int| 0 <= p < order@.len() ==> #[trigger] order@[p] < n,
            sorted_by_id(out@),
            out@.to_multiset() == snaps_at(cs, order@.take(t as int).map_values(|i: usize| i as int)).to_multiset(),
        decreases k - t,
    {
        let e = candidates[order[t]].snap;
        insert_sorted(&mut out, e);
        proof {
            let prev = order@.take(t as int).map_values(|i: usize| i as int);
            let next = order@.take(t + 1).map_values(|i: usize| i as int);
            assert(next =~= prev.push(order@[t as int] as int));
            assert(snaps_at(cs, next) =~= snaps_at(cs, prev).push(e));
            vstd::seq_lib::to_multiset_build(snaps_at(cs, prev), e);
        }
        t = t + 1;
    }
    proof {
        let picked = order@.take(k as int).map_values(|i: usize| i as int);
        assert(picked.no_duplicates()) by {
            assert forall|a: int, b: int| 0 <= a < picked.len() && 0 <= b < picked.len() && a != b implies picked[a] != picked[b] by {
                assert(order@[a] != order@[b]);
            }
        }
        assert forall|p: int, j: int|
            0 <= p < picked.len() && 0 <= j < cs.len() && !picked.contains(j) implies #[trigger] ranked_before(
                cs,
                picked[p],
                j,
            ) by {
            assert(order@.contains(j as usize));
            let q = choose|q: int| 0 <= q < order@.len() && order@[q] == j as usize;
            if q < k {
                assert(picked[q] == j);
            }
            assert(p < q);
        }
        assert(is_priority_pick(cs, picked, k as int));
        assert(out@.len() == k) by {
            vstd::seq_lib::to_multiset_len(out@);
            vstd::seq_lib::to_multiset_len(snaps_at(cs, picked));
        }
        assert(k * WIRE_SIZE <= budget) by (nonlinear_arith)
            requires
                k as int == fit_count(cs.len() as int, budget as int),
                WIRE_SIZE == 26,
        {
        }
    }
    out
}


/// Priority classes are strict: while a candidate of some class is left out,
/// nothing of a lower class is sent (the own player before combat, combat
/// before near, near before far), and within a class lower ids go first.
pub proof fn lemma_pick_respects_classes(cands: Seq<Candidate>, picked: Seq<int>, k: int)
    requires
        is_priority_pick(cands, picked, k),
    ensures
        forall|p: int, j: int|
            0 <= p < picked.len() && 0 <= j < cands.len() && !picked.contains(j) ==> {
                let s = #[trigger] cands[picked[p]];
                let o = #[trigger] cands[j];
                &&& o.priority == Priority::SelfPlayer ==> s.priority == Priority::SelfPlayer
                &&& o.priority == Priority::Combat ==> (s.priority == Priority::SelfPlayer
                    || s.priority == Priority::Combat)
                &&& o.priority == Priority::Near ==> s.priority != Priority::Far
                &&& s.priority == o.priority ==> s.snap.id <= o.snap.id
            },
{
    assert forall|p: int, j: int|
        0 <= p < picked.len() && 0 <= j < cands.len() && !picked.contains(j) implies {
            let s = #[trigger] cands[picked[p]];
            let o = #[trigger] cands[j];
            &&& o.priority == Priority::SelfPlayer ==> s.priority == Priority::SelfPlayer
            &&& o.priority == Priority::Combat ==> (s.priority == Priority::SelfPlayer
                || s.priority == Priority::Combat)
            &&& o.priority == Priority::Near ==> s.priority != Priority::Far
            &&& s.priority == o.priority ==> s.snap.id <= o.snap.id
        } by {
        assert(ranked_before(cands, picked[p], j));
    }
}

} // verus!
