//! Delta compression against a per-client acked baseline: send only what
//! changed since the last snapshot a client acknowledged. Applying the delta
//! of `current` against `baseline` onto `baseline` rebuilds `current`.

use vstd::prelude::*;
use crate::netcode::snapshot::{
    EntitySnapshot, SnapshotFrame, Tick, same_state, strictly_sorted,
};

verus! {

/// A compact diff from a baseline frame to a target frame: only the entities
/// that appeared or changed, plus the ids that left the client's view.
#[derive(Debug, Clone, PartialEq, Default)]
pub struct DeltaFrame {
    /// Tick of the target (current) frame this delta reconstructs.
    pub tick: Tick,
    /// Tick of the baseline this delta is computed against.
    pub baseline_tick: Tick,
    /// Echoed last processed input sequence (carried through from the target).
    pub last_input_seq: u32,
    /// Entities new or changed versus the baseline, sorted by id.
    pub changed: Vec<EntitySnapshot>,
    /// Ids present in the baseline but gone from the target.
    pub removed: Vec<u64>,
}

/// Some entity of `s` has this id.
pub open spec fn has_id(s: Seq<EntitySnapshot>, id: u64) -> bool {
    exists|k: int| 0 <= k < s.len() && #[trigger] s[k].id == id
}

/// `base` holds an entity with exactly the replicated state of `c`.
pub open spec fn unchanged_in(base: Seq<EntitySnapshot>, c: EntitySnapshot) -> bool {
    exists|k: int| 0 <= k < base.len() && #[trigger] same_state(base[k], c)
}

/// Entities of the target that must be sent: new or changed.
pub open spec fn needs_send(base: Seq<EntitySnapshot>) -> spec_fn(EntitySnapshot) -> bool {
    |c: EntitySnapshot| !unchanged_in(base, c)
}

/// Entities of the baseline that are gone from the target.
pub open spec fn gone_from(cur: Seq<EntitySnapshot>) -> spec_fn(EntitySnapshot) -> bool {
    |b: EntitySnapshot| !has_id(cur, b.id)
}

/// The id of an entity.
pub open spec fn id_of() -> spec_fn(EntitySnapshot) -> u64 {
    |e: EntitySnapshot| e.id
}

/// `d` is the delta that turns `base` into `cur`.
pub open spec fn is_delta_of(base: SnapshotFrame, cur: SnapshotFrame, d: DeltaFrame) -> bool {
    &&& d.tick == cur.tick
    &&& d.baseline_tick == base.tick
    &&& d.last_input_seq == cur.last_input_seq
    &&& d.changed@ == cur.entities@.filter(needs_send(base.entities@))
    &&& d.removed@ == base.entities@.filter(gone_from(cur.entities@)).map_values(id_of())
}

/// No id occurs twice in `s`.
pub open spec fn unique_ids(s: Seq<EntitySnapshot>) -> bool {
    forall|i: int, j: int| 0 <= i < s.len() && 0 <= j < s.len() && i != j ==> s[i].id != s[j].id
}

/// `r` is `base` with `d` applied: the removed ids dropped, every changed
/// entity inserted or replacing its baseline version, all sorted by id.
pub open spec fn is_application(base: SnapshotFrame, d: DeltaFrame, r: SnapshotFrame) -> bool {
    &&& r.tick == d.tick
    &&& r.last_input_seq == d.last_input_seq
    &&& strictly_sorted(r.entities@)
    &&& forall|id: u64|
        #![trigger has_id(r.entities@, id)]
        has_id(r.entities@, id) <==> (has_id(d.changed@, id) || (has_id(base.entities@, id)
            && !d.removed@.contains(id)))
    &&& forall|k: int|
        #![trigger r.entities@[k]]
        0 <= k < r.entities@.len() ==> if has_id(d.changed@, r.entities@[k].id) {
            d.changed@.contains(r.entities@[k])
        } else {
            base.entities@.contains(r.entities@[k]) && !d.removed@.contains(r.entities@[k].id)
        }
}

/// Compute the delta that turns `baseline` into `current`. Both frames must
/// be sorted by id; a frame is an entity set, holding each entity once, so
/// no id occurs twice. The merge walk is `O(n+m)`.
pub fn diff(baseline: &SnapshotFrame, current: &SnapshotFrame) -> (d: DeltaFrame)
    requires
        strictly_sorted(baseline.entities@),
        strictly_sorted(current.entities@),
    ensures
        is_delta_of(*baseline, *current, d),
        strictly_sorted(d.changed@),
{
    let base = &baseline.entities;
    let cur = &current.entities;
    let ghost bs = base@;
    let ghost cs = cur@;
    let mut changed: Vec<EntitySnapshot> = Vec::new();
    let mut removed: Vec<u64> = Vec::new();
    let mut i: usize = 0;
    let mut j: usize = 0;
    assert(bs.take(0).filter(gone_from(cs)) =~= Seq::<EntitySnapshot>::empty());
    assert(cs.take(0).filter(needs_send(bs)) =~= Seq::<EntitySnapshot>::empty());
    while i < base.len() || j < cur.len()
        invariant
            bs == base@,
            cs == cur@,
            strictly_sorted(bs),
            strictly_sorted(cs),
            i <= bs.len(),
            j <= cs.len(),
            forall|k: int, l: int| 0 <= k < i && j <= l < cs.len() ==> bs[k].id < cs[l].id,
            forall|k: int, l: int| 0 <= l < j && i <= k < bs.len() ==> cs[l].id < bs[k].id,
            changed@ == cs.take(j as int).filter(needs_send(bs)),
            strictly_sorted(changed@),
            forall|k: int, l: int| 0 <= k < changed@.len() && j <= l < cs.len() ==> changed@[k].id < cs[l].id,
            removed@ == bs.take(i as int).filter(gone_from(cs)).map_values(id_of()),
        decreases (bs.len() - i) + (cs.len() - j),
    {
        let take_base: bool;
        let take_cur: bool;
        if i < base.len() && j < cur.len() {
            if base[i].id == cur[j].id {
                take_base = true;
                take_cur = true;
            } else if base[i].id < cur[j].id {
                take_base = true;
                take_cur = false;
            } else {
                take_base = false;
                take_cur = true;
            }
        } else if i < base.len() {
            take_base = true;
            take_cur = false;
        } else {
            take_base = false;
            take_cur = true;
        }
        if take_base && take_cur {
            let b = base[i];
            let c = cur[j];
            proof {
                assert(cs.take(j + 1) =~= cs.take(j as int).push(c));
                cs.take(j as int).lemma_filter_push(c, needs_send(bs));
                assert(bs.take(i + 1) =~= bs.take(i as int).push(b));
                bs.take(i as int).lemma_filter_push(b, gone_from(cs));
                assert(has_id(cs, b.id)) by {
                    assert(cs[j as int].id == b.id);
                }
                assert(unchanged_in(bs, c) <==> same_state(b, c)) by {
                    if unchanged_in(bs, c) {
                        let k = choose|k: int| 0 <= k < bs.len() && #[trigger] same_state(bs[k], c);
                        if k != i {
                            assert(bs[k].id != bs[i as int].id);
                        }
                    }
                    if same_state(b, c) {
                        assert(same_state(bs[i as int], c));
                    }
                }
            }
            if !b.state_eq(&c) {
                changed.push(c);
            }
            i = i + 1;
            j = j + 1;
        } else if take_base {
            let b = base[i];
            proof {
                assert(bs.take(i + 1) =~= bs.take(i as int).push(b));
                bs.take(i as int).lemma_filter_push(b, gone_from(cs));
                assert(!has_id(cs, b.id)) by {
                    if has_id(cs, b.id) {
                        let l = choose|l: int| 0 <= l < cs.len() && #[trigger] cs[l].id == b.id;
                        if l < j {
                            assert(cs[l].id < bs[i as int].id);
                        } else {
                            assert(bs[i as int].id < cs[l].id);
                        }
                    }
                }
                let f = bs.take(i as int).filter(gone_from(cs));
                assert(f.push(b).map_values(id_of()) =~= f.map_values(id_of()).push(b.id));
            }
            removed.push(b.id);
            i = i + 1;
        } else {
            let c = cur[j];
            proof {
                assert(cs.take(j + 1) =~= cs.take(j as int).push(c));
                cs.take(j as int).lemma_filter_push(c, needs_send(bs));
                assert(!unchanged_in(bs, c)) by {
                    if unchanged_in(bs, c) {
                        let k = choose|k: int| 0 <= k < bs.len() && #[trigger] same_state(bs[k], c);
                        if k < i {
                            assert(bs[k].id < cs[j as int].id);
                        } else {
                            assert(cs[j as int].id < bs[k].id);
                        }
                    }
                }
            }
            changed.push(c);
            j = j + 1;
        }
    }
    assert(bs.take(bs.len() as int) =~= bs);
    assert(cs.take(cs.len() as int) =~= cs);
    DeltaFrame {
        tick: current.tick,
        baseline_tick: baseline.tick,
        last_input_seq: current.last_input_seq,
        changed,
        removed,
    }
}

fn contains_id(v: &Vec<u64>, id: u64) -> (r: bool)
    ensures
        r == v@.contains(id),
{
    let mut i: usize = 0;
    while i < v.len()
        invariant
            i <= v.len(),
            forall|k: int| 0 <= k < i ==> v@[k] != id,
        decreases v.len() - i,
    {
        if v[i] == id {
            return true;
        }
        i = i + 1;
    }
    false
}

/// Where `id` sits in the strictly sorted `v`: `(true, k)` with `v[k].id == id`,
/// or `(false, k)` with every id before `k` smaller and every id from `k` on larger.
fn search_id(v: &Vec<EntitySnapshot>, id: u64) -> (r: (bool, usize))
    requires
        strictly_sorted(v@),
    ensures
        r.1 <= v@.len(),
        r.0 ==> r.1 < v@.len() && v@[r.1 as int].id == id,
        !r.0 ==> (forall|k: int| 0 <= k < r.1 ==> v@[k].id < id) && (forall|k: int|
            r.1 <= k < v@.len() ==> v@[k].id > id),
{
    let mut lo: usize = 0;
    let mut hi: usize = v.len();
    while lo < hi
        invariant
            lo <= hi <= v.len(),
            strictly_sorted(v@),
            forall|k: int| 0 <= k < lo ==> v@[k].id < id,
            forall|k: int| hi <= k < v@.len() ==> v@[k].id > id,
        decreases hi - lo,
    {
        let mid = lo + (hi - lo) / 2;
        let m = v[mid].id;
        if m < id {
            lo = mid + 1;
        } else if m > id {
            hi = mid;
        } else {
            return (true, mid);
        }
    }
    (false, lo)
}

/// Reconstruct the target frame by applying `delta` onto `baseline`, a frame
/// sorted by id that holds each entity once.
pub fn apply_delta(baseline: &SnapshotFrame, delta: &DeltaFrame) -> (r: SnapshotFrame)
    requires
        strictly_sorted(baseline.entities@),
    ensures
        is_application(*baseline, *delta, r),
{
    let ghost bs = baseline.entities@;
    let ghost ch = delta.changed@;
    let ghost rm = delta.removed@;
    let mut entities: Vec<EntitySnapshot> = Vec::new();
    let mut i: usize = 0;
    while i < baseline.entities.len()
        invariant
            bs == baseline.entities@,
            rm == delta.removed@,
            strictly_sorted(bs),
            i <= bs.len(),
            strictly_sorted(entities@),
            forall|k: int|
                #![trigger entities@[k]]
                0 <= k < entities@.len() ==> exists|m: int| 0 <= m < i && #[trigger] bs[m] == entities@[k],
            forall|id: u64|
                #![trigger has_id(entities@, id)]
                has_id(entities@, id) <==> (has_id(bs.take(i as int), id) && !rm.contains(id)),
            forall|k: int|
                #![trigger entities@[k]]
                0 <= k < entities@.len() ==> bs.contains(entities@[k]) && !rm.contains(entities@[k].id),
        decreases bs.len() - i,
    {
        let b = baseline.entities[i];
        let keep = !contains_id(&delta.removed, b.id);
        let ghost before = entities@;
        if keep {
            entities.push(b);
        }
        proof {
            assert(bs.contains(b)) by {
                assert(bs[i as int] == b);
            }
            assert(keep == !rm.contains(b.id));
            assert forall|id: u64|
                #![trigger has_id(entities@, id)]
                has_id(entities@, id) <==> (has_id(bs.take(i + 1), id) && !rm.contains(id)) by {
                assert(has_id(before, id) <==> (has_id(bs.take(i as int), id) && !rm.contains(id)));
                if has_id(bs.take(i + 1), id) && !rm.contains(id) {
                    let m = choose|m: int| 0 <= m < i + 1 && #[trigger] bs.take(i + 1)[m].id == id;
                    if m < i {
                        assert(bs.take(i as int)[m].id == id);
                        assert(has_id(bs.take(i as int), id));
                        let k = choose|k: int| 0 <= k < before.len() && #[trigger] before[k].id == id;
                        assert(entities@[k].id == id);
                    } else {
                        assert(entities@[before.len() as int].id == id);
                    }
                }
                if has_id(entities@, id) {
                    let k = choose|k: int| 0 <= k < entities@.len() && #[trigger] entities@[k].id == id;
                    if k < before.len() {
                        assert(before[k].id == id);
                        assert(has_id(before, id));
                        let m = choose|m: int| 0 <= m < i && #[trigger] bs.take(i as int)[m].id == id;
                        assert(bs.take(i + 1)[m].id == id);
                    } else {
                        assert(bs.take(i + 1)[i as int].id == id);
                    }
                }
            }
            assert forall|k: int|
                #![trigger entities@[k]]
                0 <= k < entities@.len() implies exists|m: int| 0 <= m < i + 1 && #[trigger] bs[m] == entities@[k] by {
                if k < before.len() {
                    let m = choose|m: int| 0 <= m < i && #[trigger] bs[m] == before[k];
                    assert(bs[m] == entities@[k]);
                } else {
                    assert(bs[i as int] == entities@[k]);
                }
            }
            assert forall|x: int, y: int| 0 <= x < y < entities@.len() implies entities@[x].id < entities@[y].id by {
                if y == before.len() {
                    let m = choose|m: int| 0 <= m < i && #[trigger] bs[m] == before[x];
                    assert(bs[m].id < bs[i as int].id);
                }
            }
        }
        i = i + 1;
    }
    assert(bs.take(bs.len() as int) =~= bs);
    let mut j: usize = 0;
    assert(ch.take(0) =~= Seq::<EntitySnapshot>::empty());
    while j < delta.changed.len()
        invariant
            bs == baseline.entities@,
            ch == delta.changed@,
            rm == delta.removed@,
            j <= ch.len(),
            strictly_sorted(entities@),
            forall|id: u64|
                #![trigger has_id(entities@, id)]
                has_id(entities@, id) <==> (has_id(ch.take(j as int), id) || (has_id(bs, id)
                    && !rm.contains(id))),
            forall|k: int|
                #![trigger entities@[k]]
                0 <= k < entities@.len() ==> if has_id(ch.take(j as int), entities@[k].id) {
                    ch.contains(entities@[k])
                } else {
                    bs.contains(entities@[k]) && !rm.contains(entities@[k].id)
                },
        decreases ch.len() - j,
    {
        let c = delta.changed[j];
        let (found, idx) = search_id(&entities, c.id);
        let ghost before = entities@;
        proof {
            assert(ch.take(j + 1) =~= ch.take(j as int).push(c));
            assert(ch.contains(c)) by {
                assert(ch[j as int] == c);
            }
        }
        if found {
            entities.set(idx, c);
        } else {
            entities.insert(idx, c);
        }
        proof {
            assert forall|id: u64|
                #![trigger has_id(entities@, id)]
                has_id(entities@, id) <==> (has_id(ch.take(j + 1), id) || (has_id(bs, id)
                    && !rm.contains(id))) by {
                if has_id(ch.take(j + 1), id) {
                    let m = choose|m: int| 0 <= m < j + 1 && #[trigger] ch.take(j + 1)[m].id == id;
                    if m < j {
                        assert(ch.take(j as int)[m].id == id);
                    }
                }
                if has_id(ch.take(j as int), id) {
                    let m = choose|m: int| 0 <= m < j && #[trigger] ch.take(j as int)[m].id == id;
                    assert(ch.take(j + 1)[m].id == id);
                }
                if id == c.id {
                    assert(ch.take(j + 1)[j as int].id == id);
                    assert(entities@[idx as int].id == id);
                }
                if has_id(entities@, id) && id != c.id {
                    let k = choose|k: int| 0 <= k < entities@.len() && #[trigger] entities@[k].id == id;
                    if found {
                        assert(before[k].id == id);
                    } else if k < idx {
                        assert(before[k].id == id);
                    } else {
                        assert(before[k - 1].id == id);
                    }
                }
                if has_id(before, id) && id != c.id {
                    let k = choose|k: int| 0 <= k < before.len() && #[trigger] before[k].id == id;
                    if found {
                        assert(entities@[k].id == id);
                    } else if k < idx {
                        assert(entities@[k].id == id);
                    } else {
                        assert(entities@[k + 1].id == id);
                    }
                }
            }
            assert forall|k: int|
                #![trigger entities@[k]]
                0 <= k < entities@.len() implies if has_id(ch.take(j + 1), entities@[k].id) {
                    ch.contains(entities@[k])
                } else {
                    bs.contains(entities@[k]) && !rm.contains(entities@[k].id)
                } by {
                let e = entities@[k];
                let kb: int = if found || k < idx {
                    k
                } else {
                    k - 1
                };
                if e.id != c.id {
                    assert(kb != idx || !found);
                    assert(before[kb] == e);
                    if has_id(ch.take(j + 1), e.id) {
                        let m = choose|m: int| 0 <= m < j + 1 && #[trigger] ch.take(j + 1)[m].id == e.id;
                        assert(m < j);
                        assert(ch.take(j as int)[m].id == e.id);
                    }
                    if has_id(ch.take(j as int), e.id) {
                        let m = choose|m: int| 0 <= m < j && #[trigger] ch.take(j as int)[m].id == e.id;
                        assert(ch.take(j + 1)[m].id == e.id);
                    }
                } else {
                    assert(ch.take(j + 1)[j as int].id == e.id);
                    if !found {
                        assert(e == c);
                    } else {
                        if k != idx {
                            assert(before[k].id == before[idx as int].id);
                        }
                    }
                }
            }
            assert forall|x: int, y: int| 0 <= x < y < entities@.len() implies entities@[x].id < entities@[y].id by {
                if !found {
                    if x < idx && y > idx {
                        assert(before[x].id < before[y - 1].id);
                    } else if x > idx {
                        assert(before[x - 1].id < before[y - 1].id);
                    }
                }
            }
        }
        j = j + 1;
    }
    assert(ch.take(ch.len() as int) =~= ch);
    SnapshotFrame { tick: delta.tick, last_input_seq: delta.last_input_seq, entities }
}

proof fn lemma_strict_unique(s: Seq<EntitySnapshot>)
    requires
        strictly_sorted(s),
    ensures
        unique_ids(s),
{
    assert forall|i: int, j: int| 0 <= i < s.len() && 0 <= j < s.len() && i != j implies s[i].id
        != s[j].id by {
        if i < j {
            assert(s[i].id < s[j].id);
        } else {
            assert(s[j].id < s[i].id);
        }
    }
}

/// The changed entities of a delta computed by [`diff`] are sorted by id with
/// no id twice, so the delta can always be applied.
pub proof fn lemma_delta_changed_unique(d: DeltaFrame)
    requires
        strictly_sorted(d.changed@),
    ensures
        unique_ids(d.changed@),
{
    lemma_strict_unique(d.changed@);
}

proof fn lemma_same_ids_sorted(r: Seq<EntitySnapshot>, c: Seq<EntitySnapshot>)
    requires
        strictly_sorted(r),
        strictly_sorted(c),
        forall|id: u64| #[trigger] has_id(r, id) <==> has_id(c, id),
    ensures
        r.len() == c.len(),
        forall|k: int| 0 <= k < r.len() ==> r[k].id == c[k].id,
    decreases r.len() + c.len(),
{
    if r.len() == 0 {
        if c.len() > 0 {
            assert(has_id(c, c[0].id));
            assert(has_id(r, c[0].id));
        }
    } else if c.len() == 0 {
        assert(has_id(r, r[0].id));
    } else {
        assert(has_id(r, r[0].id));
        assert(has_id(c, c[0].id));
        assert(has_id(r, c[0].id));
        let l = choose|l: int| 0 <= l < c.len() && #[trigger] c[l].id == r[0].id;
        let m = choose|m: int| 0 <= m < r.len() && #[trigger] r[m].id == c[0].id;
        if l > 0 {
            assert(c[0].id < c[l].id);
        }
        if m > 0 {
            assert(r[0].id < r[m].id);
        }
        assert(r[0].id == c[0].id);
        let r1 = r.drop_first();
        let c1 = c.drop_first();
        assert forall|id: u64| #[trigger] has_id(r1, id) <==> has_id(c1, id) by {
            if has_id(r1, id) {
                let k = choose|k: int| 0 <= k < r1.len() && #[trigger] r1[k].id == id;
                assert(r[k + 1].id == id);
                assert(has_id(r, id));
                let q = choose|q: int| 0 <= q < c.len() && #[trigger] c[q].id == id;
                assert(r[0].id < r[k + 1].id);
                assert(q != 0);
                assert(c1[q - 1].id == id);
            }
            if has_id(c1, id) {
                let k = choose|k: int| 0 <= k < c1.len() && #[trigger] c1[k].id == id;
                assert(c[k + 1].id == id);
                assert(has_id(c, id));
                assert(has_id(r, id));
                let q = choose|q: int| 0 <= q < r.len() && #[trigger] r[q].id == id;
                assert(c[0].id < c[k + 1].id);
                assert(q != 0);
                assert(r1[q - 1].id == id);
            }
        }
        lemma_same_ids_sorted(r1, c1);
        assert forall|k: int| 0 <= k < r.len() implies r[k].id == c[k].id by {
            if k > 0 {
                assert(r1[k - 1].id == c1[k - 1].id);
            }
        }
    }
}

/// Applying the delta of `cur` against `base` onto `base` rebuilds `cur`:
/// the same tick and input sequence, the same entities in the same order,
/// each either identical to its counterpart in `cur` or carrying exactly the
/// same replicated state (floats equal as floats).
pub proof fn lemma_apply_of_diff_rebuilds(
    base: SnapshotFrame,
    cur: SnapshotFrame,
    d: DeltaFrame,
    r: SnapshotFrame,
)
    requires
        strictly_sorted(base.entities@),
        strictly_sorted(cur.entities@),
        is_delta_of(base, cur, d),
        is_application(base, d, r),
    ensures
        r.tick == cur.tick,
        r.last_input_seq == cur.last_input_seq,
        r.entities@.len() == cur.entities@.len(),
        forall|k: int|
            0 <= k < r.entities@.len() ==> r.entities@[k] == cur.entities@[k] || same_state(
                r.entities@[k],
                cur.entities@[k],
            ),
{
    let bs = base.entities@;
    let cs = cur.entities@;
    let ch = d.changed@;
    let rm = d.removed@;
    let rs = r.entities@;
    let send = needs_send(bs);
    let gone = gone_from(cs);
    let f = bs.filter(gone);
    assert forall|x: EntitySnapshot| #[trigger] ch.contains(x) implies cs.contains(x) && !unchanged_in(bs, x) by {
        cs.lemma_filter_contains_rev(send, x);
        let i = choose|i: int| 0 <= i < ch.len() && ch[i] == x;
        cs.lemma_filter_pred(send, i);
    }
    assert forall|k: int| 0 <= k < cs.len() && !unchanged_in(bs, cs[k]) implies #[trigger] ch.contains(cs[k]) by {
        cs.lemma_filter_contains(send, k);
    }
    assert forall|id: u64| #[trigger] rm.contains(id) implies has_id(bs, id) && !has_id(cs, id) by {
        let i = choose|i: int| 0 <= i < rm.len() && rm[i] == id;
        assert(f[i].id == id);
        cs.len();
        bs.lemma_filter_pred(gone, i);
        assert(f.contains(f[i]));
        bs.lemma_filter_contains_rev(gone, f[i]);
        let k = choose|k: int| 0 <= k < bs.len() && bs[k] == f[i];
        assert(bs[k].id == id);
    }
    assert forall|id: u64| has_id(bs, id) && !has_id(cs, id) implies #[trigger] rm.contains(id) by {
        let k = choose|k: int| 0 <= k < bs.len() && #[trigger] bs[k].id == id;
        bs.lemma_filter_contains(gone, k);
        let i = choose|i: int| 0 <= i < f.len() && f[i] == bs[k];
        assert(rm[i] == id);
    }
    assert forall|id: u64| #[trigger] has_id(rs, id) <==> has_id(cs, id) by {
        if has_id(ch, id) {
            let i = choose|i: int| 0 <= i < ch.len() && #[trigger] ch[i].id == id;
            assert(ch.contains(ch[i]));
            let l = choose|l: int| 0 <= l < cs.len() && cs[l] == ch[i];
            assert(cs[l].id == id);
        }
        if has_id(cs, id) {
            let l = choose|l: int| 0 <= l < cs.len() && #[trigger] cs[l].id == id;
            if unchanged_in(bs, cs[l]) {
                let k = choose|k: int| 0 <= k < bs.len() && #[trigger] same_state(bs[k], cs[l]);
                assert(bs[k].id == id);
                assert(has_id(bs, id));
                if rm.contains(id) {
                    assert(!has_id(cs, id));
                }
            } else {
                assert(ch.contains(cs[l]));
                let i = choose|i: int| 0 <= i < ch.len() && ch[i] == cs[l];
                assert(ch[i].id == id);
            }
        }
        if has_id(bs, id) && !rm.contains(id) && !has_id(ch, id) {
            assert(has_id(cs, id));
        }
    }
    lemma_same_ids_sorted(rs, cs);
    lemma_strict_unique(cs);
    lemma_strict_unique(bs);
    assert forall|k: int|
        0 <= k < rs.len() implies rs[k] == cs[k] || same_state(rs[k], cs[k]) by {
        let e = rs[k];
        assert(e.id == cs[k].id);
        if has_id(ch, e.id) {
            assert(ch.contains(e));
            let l = choose|l: int| 0 <= l < cs.len() && cs[l] == e;
            if l != k {
                assert(cs[l].id != cs[k].id);
            }
        } else {
            assert(bs.contains(e));
            let m = choose|m: int| 0 <= m < bs.len() && bs[m] == e;
            if !unchanged_in(bs, cs[k]) {
                assert(ch.contains(cs[k]));
                let i = choose|i: int| 0 <= i < ch.len() && ch[i] == cs[k];
                assert(ch[i].id == e.id);
            }
            let q = choose|q: int| 0 <= q < bs.len() && #[trigger] same_state(bs[q], cs[k]);
            if q != m {
                assert(bs[q].id != bs[m].id);
            }
        }
    }
}


/// Two position coordinates differ as floats: their bits differ, and they
/// are not `0.0` and `-0.0`.
pub open spec fn coord_moved(a: u32, b: u32) -> bool {
    a != b && !((a & 0x7fff_ffffu32) == 0u32 && (b & 0x7fff_ffffu32) == 0u32)
}

/// A delta sends every entity of the target whose id is new, or whose
/// position moved on some axis, or whose yaw bits or health differ from its
/// baseline version: no move, turn or hit is dropped.
pub proof fn lemma_diff_sends_changed_state(base: SnapshotFrame, cur: SnapshotFrame, d: DeltaFrame, j: int)
    requires
        is_delta_of(base, cur, d),
        0 <= j < cur.entities@.len(),
        forall|k: int|
            0 <= k < base.entities@.len() && #[trigger] base.entities@[k].id == cur.entities@[j].id ==> (
            coord_moved(base.entities@[k].pos.x, cur.entities@[j].pos.x) || coord_moved(
                base.entities@[k].pos.y,
                cur.entities@[j].pos.y,
            ) || coord_moved(base.entities@[k].pos.z, cur.entities@[j].pos.z)
                || base.entities@[k].yaw != cur.entities@[j].yaw || base.entities@[k].health
                != cur.entities@[j].health),
    ensures
        d.changed@.contains(cur.entities@[j]),
{
    let bs = base.entities@;
    let c = cur.entities@[j];
    assert forall|k: int| 0 <= k < bs.len() implies !same_state(#[trigger] bs[k], c) by {
        if bs[k].id == c.id && same_state(bs[k], c) {
            assert(!coord_moved(bs[k].pos.x, c.pos.x));
            assert(!coord_moved(bs[k].pos.y, c.pos.y));
            assert(!coord_moved(bs[k].pos.z, c.pos.z));
        }
    }
    assert(!unchanged_in(bs, c));
    cur.entities@.lemma_filter_contains(needs_send(bs), j);
}

/// Rebuilding `cur` from its delta reproduces every entity's id, yaw bits
/// and health exactly, in order.
pub proof fn lemma_rebuild_keeps_exact_fields(
    base: SnapshotFrame,
    cur: SnapshotFrame,
    d: DeltaFrame,
    r: SnapshotFrame,
)
    requires
        strictly_sorted(base.entities@),
        strictly_sorted(cur.entities@),
        is_delta_of(base, cur, d),
        is_application(base, d, r),
    ensures
        r.entities@.len() == cur.entities@.len(),
        forall|k: int|
            0 <= k < r.entities@.len() ==> #[trigger] r.entities@[k].id == cur.entities@[k].id
                && r.entities@[k].yaw == cur.entities@[k].yaw && r.entities@[k].health
                == cur.entities@[k].health,
{
    lemma_apply_of_diff_rebuilds(base, cur, d, r);
}

} // verus!
