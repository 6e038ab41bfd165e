//! The per-tick snapshot: the authoritative state a shard sends its clients.
//!
//! Floating-point state travels as IEEE-754 bit patterns (`u32`). `==` on
//! these types compares the bit patterns; comparing the state as floats
//! (where `NaN` equals nothing and `0.0` equals `-0.0`) is
//! [`f32_bits_eq`] and [`EntitySnapshot::state_eq`], which the delta encoder
//! uses.

use vstd::prelude::*;

verus! {

/// A simulation tick number.
#[derive(Debug, Clone, Copy, PartialEq, Eq, PartialOrd, Ord, Hash, Default, Structural)]
pub struct Tick(pub u64);

/// A world position, one IEEE-754 `f32` bit pattern per axis.
#[derive(Debug, Clone, Copy, PartialEq, Eq, Default, Structural)]
pub struct Vec3 {
    /// Bits of the x coordinate.
    pub x: u32,
    /// Bits of the y coordinate.
    pub y: u32,
    /// Bits of the z coordinate.
    pub z: u32,
}

/// The `f32` with these bits is a NaN.
pub open spec fn f32_is_nan(b: u32) -> bool {
    (b & 0x7f80_0000u32) == 0x7f80_0000u32 && (b & 0x007f_ffffu32) != 0u32
}

/// The `f32` values with bits `a` and `b` compare equal under IEEE-754 `==`.
pub open spec fn f32_eq(a: u32, b: u32) -> bool {
    &&& !f32_is_nan(a)
    &&& !f32_is_nan(b)
    &&& (a == b || ((a & 0x7fff_ffffu32) == 0u32 && (b & 0x7fff_ffffu32) == 0u32))
}

/// IEEE-754 `==` on two `f32` bit patterns.
pub fn f32_bits_eq(a: u32, b: u32) -> (r: bool)
    ensures
        r == f32_eq(a, b),
{
    let a_nan = (a & 0x7f80_0000u32) == 0x7f80_0000u32 && (a & 0x007f_ffffu32) != 0u32;
    let b_nan = (b & 0x7f80_0000u32) == 0x7f80_0000u32 && (b & 0x007f_ffffu32) != 0u32;
    !a_nan && !b_nan && (a == b || ((a & 0x7fff_ffffu32) == 0u32 && (b & 0x7fff_ffffu32) == 0u32))
}

/// One entity's replicated state in a snapshot.
#[derive(Debug, Clone, Copy, PartialEq, Structural)]
pub struct EntitySnapshot {
    /// Server-issued entity id (raw).
    pub id: u64,
    /// World position.
    pub pos: Vec3,
    /// Bits of the facing angle in radians about the vertical axis.
    pub yaw: u32,
    /// Current hit points.
    pub health: u32,
}

/// Bytes an entity costs on the wire once quantized: id(8) + pos(3×4) +
/// yaw(2) + health(4).
pub const WIRE_SIZE: usize = 26;

/// Two snapshots carry identical replicated state: same id, positions equal
/// as floats, bit-identical yaw, same health.
pub open spec fn same_state(a: EntitySnapshot, b: EntitySnapshot) -> bool {
    &&& a.id == b.id
    &&& f32_eq(a.pos.x, b.pos.x)
    &&& f32_eq(a.pos.y, b.pos.y)
    &&& f32_eq(a.pos.z, b.pos.z)
    &&& a.yaw == b.yaw
    &&& a.health == b.health
}

impl EntitySnapshot {
    /// Bytes this entity costs on the wire once quantized.
    pub const WIRE_SIZE: usize = 26;

    /// Whether two snapshots of the same entity carry identical replicated
    /// state (so the delta encoder can omit an unchanged entity).
    pub fn state_eq(&self, other: &Self) -> (r: bool)
        ensures
            r == same_state(*self, *other),
    {
        self.id == other.id && f32_bits_eq(self.pos.x, other.pos.x) && f32_bits_eq(
            self.pos.y,
            other.pos.y,
        ) && f32_bits_eq(self.pos.z, other.pos.z) && self.yaw == other.yaw && self.health
            == other.health
    }
}

/// Ids never decrease along `s`.
pub open spec fn sorted_by_id(s: Seq<EntitySnapshot>) -> bool {
    forall|i: int, j: int| 0 <= i < j < s.len() ==> s[i].id <= s[j].id
}

/// Ids strictly increase along `s` (sorted, no id twice).
pub open spec fn strictly_sorted(s: Seq<EntitySnapshot>) -> bool {
    forall|i: int, j: int| 0 <= i < j < s.len() ==> s[i].id < s[j].id
}

/// A full replicated frame for one client at one tick.
#[derive(Debug, Clone, PartialEq, Default)]
pub struct SnapshotFrame {
    /// The tick that produced this frame.
    pub tick: Tick,
    /// The last client input sequence the server had processed at this tick.
    pub last_input_seq: u32,
    /// The replicated entities, sorted ascending by id.
    pub entities: Vec<EntitySnapshot>,
}

/// Selects the entities with id `k`.
pub open spec fn with_id(k: u64) -> spec_fn(EntitySnapshot) -> bool {
    |e: EntitySnapshot| e.id == k
}

proof fn lemma_filter_none(s: Seq<EntitySnapshot>, k: u64)
    requires
        forall|i: int| 0 <= i < s.len() ==> s[i].id != k,
    ensures
        s.filter(with_id(k)) =~= Seq::<EntitySnapshot>::empty(),
    decreases s.len(),
{
    reveal(Seq::filter);
    if s.len() > 0 {
        lemma_filter_none(s.drop_last(), k);
    }
}

/// Insert `e` into the id-sorted `v` after every entry whose id is not larger.
pub(crate) fn insert_sorted(v: &mut Vec<EntitySnapshot>, e: EntitySnapshot)
    requires
        sorted_by_id(old(v)@),
    ensures
        sorted_by_id(final(v)@),
        final(v)@.to_multiset() == old(v)@.to_multiset().insert(e),
        forall|k: u64|
            #[trigger] final(v)@.filter(with_id(k)) == if e.id == k {
                old(v)@.filter(with_id(k)).push(e)
            } else {
                old(v)@.filter(with_id(k))
            },
{
    let mut p: usize = v.len();
    while p > 0 && v[p - 1].id > e.id
        invariant
            p <= v.len(),
            sorted_by_id(v@),
            forall|k: int| p <= k < v.len() ==> v@[k].id > e.id,
        decreases p,
    {
        p = p - 1;
    }
    let ghost before = v@;
    v.insert(p, e);
    proof {
        let a = before.take(p as int);
        let b = before.skip(p as int);
        assert(before =~= a + b);
        assert(v@ =~= a.push(e) + b);
        assert forall|k: u64|
            #[trigger] v@.filter(with_id(k)) == if e.id == k {
                before.filter(with_id(k)).push(e)
            } else {
                before.filter(with_id(k))
            } by {
            Seq::filter_distributes_over_add(a.push(e), b, with_id(k));
            Seq::filter_distributes_over_add(a, b, with_id(k));
            a.lemma_filter_push(e, with_id(k));
            if e.id == k {
                lemma_filter_none(b, k);
                assert(a.filter(with_id(k)) + b.filter(with_id(k)) =~= a.filter(with_id(k)));
                assert(a.filter(with_id(k)).push(e) + b.filter(with_id(k)) =~= a.filter(with_id(k)).push(e));
            }
        }
        vstd::seq_lib::to_multiset_insert(before, p as int, e);
        assert forall|i: int, j: int| 0 <= i < j < v@.len() implies v@[i].id <= v@[j].id by {
            if p > 0 {
                assert(before[p - 1].id <= e.id);
            }
        }
    }
}

impl SnapshotFrame {
    /// Build a frame from an unordered entity set, sorting by id.
    pub fn new(tick: Tick, last_input_seq: u32, entities: Vec<EntitySnapshot>) -> (f: Self)
        ensures
            f.tick == tick,
            f.last_input_seq == last_input_seq,
            sorted_by_id(f.entities@),
            f.entities@.to_multiset() == entities@.to_multiset(),
            forall|k: u64| #[trigger] f.entities@.filter(with_id(k)) == entities@.filter(with_id(k)),
    {
        let mut out: Vec<EntitySnapshot> = Vec::with_capacity(entities.len());
        let mut i: usize = 0;
        assert(out@ =~= entities@.take(0));
        while i < entities.len()
            invariant
                i <= entities.len(),
                sorted_by_id(out@),
                out@.to_multiset() == entities@.take(i as int).to_multiset(),
                forall|k: u64| #[trigger] out@.filter(with_id(k)) == entities@.take(i as int).filter(with_id(k)),
            decreases entities.len() - i,
        {
            insert_sorted(&mut out, entities[i]);
            proof {
                assert(entities@.take(i + 1) =~= entities@.take(i as int).push(entities@[i as int]));
                assert forall|k: u64| #[trigger] out@.filter(with_id(k)) == entities@.take(i + 1).filter(with_id(k)) by {
                    entities@.take(i as int).lemma_filter_push(entities@[i as int], with_id(k));
                }
                vstd::seq_lib::to_multiset_build(entities@.take(i as int), entities@[i as int]);
            }
            i = i + 1;
        }
        assert(entities@.take(entities.len() as int) =~= entities@);
        Self { tick, last_input_seq, entities: out }
    }

    /// Look up an entity by id (frames are sorted, so this binary-searches).
    /// A returned entity always has that id; on a sorted frame `None` means no
    /// entity has it.
    pub fn get(&self, id: u64) -> (r: Option<&EntitySnapshot>)
        ensures
            r matches Some(e) ==> e.id == id && self.entities@.contains(*e),
            r is None && sorted_by_id(self.entities@) ==> forall|k: int|
                0 <= k < self.entities@.len() ==> self.entities@[k].id != id,
    {
        let mut lo: usize = 0;
        let mut hi: usize = self.entities.len();
        while lo < hi
            invariant
                lo <= hi <= self.entities.len(),
                sorted_by_id(self.entities@) ==> forall|k: int|
                    0 <= k < lo ==> self.entities@[k].id < id,
                sorted_by_id(self.entities@) ==> forall|k: int|
                    hi <= k < self.entities@.len() ==> self.entities@[k].id > id,
            decreases hi - lo,
        {
            let mid = lo + (hi - lo) / 2;
            let m = self.entities[mid].id;
            if m < id {
                lo = mid + 1;
            } else if m > id {
                hi = mid;
            } else {
                return Some(&self.entities[mid]);
            }
        }
        None
    }

    /// Total wire size of the frame's entities, for bandwidth accounting.
    pub fn wire_size(&self) -> (r: usize)
        requires
            self.entities@.len() * WIRE_SIZE <= usize::MAX,
        ensures
            r == self.entities@.len() * WIRE_SIZE,
    {
        self.entities.len() * WIRE_SIZE
    }
}

} // verus!
