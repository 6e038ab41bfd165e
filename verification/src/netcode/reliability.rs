//! Reliability primitives for the UDP transport: wrapping 16-bit sequence
//! numbers and a 32-entry ack bitfield.

use vstd::prelude::*;

verus! {

/// Half the sequence space; the threshold for "newer than" comparisons.
pub const HALF: u16 = 32768;

/// `a` is newer than `b` in the wrapping 16-bit sequence space.
pub open spec fn seq_newer(a: u16, b: u16) -> bool {
    (a > b && a - b <= HALF) || (b > a && b - a > HALF)
}

/// "Newer than" is a strict order on nearby sequence numbers: never both
/// ways, never a number against itself, and the next number (wrapping
/// `65535` to `0`) is always newer.
pub proof fn lemma_seq_newer_order(a: u16, b: u16)
    ensures
        !(seq_newer(a, b) && seq_newer(b, a)),
        !seq_newer(a, a),
        seq_newer(((a + 1) % 65536) as u16, a),
        !seq_newer(a, ((a + 1) % 65536) as u16),
{
}

/// How far `to` lies behind `from`, counted modulo 2^16.
pub open spec fn seq_dist(from: u16, to: u16) -> int {
    if from >= to {
        from - to
    } else {
        from - to + 65536
    }
}

/// Bit `n` of `bits` is set.
pub open spec fn bit_set(bits: u32, n: int) -> bool {
    0 <= n < 32 && (bits >> (n as u32)) & 1u32 == 1u32
}

/// RFC 1982-style comparison: is `a` newer than `b` in a wrapping sequence?
/// `1` is newer than `65535`.
pub fn seq_greater_than(a: u16, b: u16) -> (r: bool)
    ensures
        r == seq_newer(a, b),
{
    ((a > b) && (a - b <= HALF)) || ((b > a) && (b - a > HALF))
}

/// The abstract state of an [`AckTracker`].
pub ghost struct AckWindow {
    pub latest: u16,
    pub bits: u32,
    pub seen_any: bool,
}

/// `s` lies inside the 33-sequence window ending at `w.latest`.
pub open spec fn in_window(w: AckWindow, s: u16) -> bool {
    w.seen_any && seq_dist(w.latest, s) <= 32
}

/// `s` has been recorded and is still inside the window.
pub open spec fn acked(w: AckWindow, s: u16) -> bool {
    &&& w.seen_any
    &&& (s == w.latest || (1 <= seq_dist(w.latest, s) <= 32 && bit_set(
        w.bits,
        seq_dist(w.latest, s) - 1,
    )))
}

/// The window after recording `seq` into `w`.
pub open spec fn next_latest(w: AckWindow, seq: u16) -> u16 {
    if !w.seen_any || seq_newer(seq, w.latest) {
        seq
    } else {
        w.latest
    }
}

/// Tracks which recent packets have been received, for building acks.
///
/// `latest` is the highest sequence seen; `bits` records the 32 sequences
/// before it (bit `n` set == `latest - 1 - n` was received).
#[derive(Debug, Clone, Copy)]
pub struct AckTracker {
    latest: u16,
    bits: u32,
    seen_any: bool,
}

impl Default for AckTracker {
    /// A tracker that has seen nothing.
    fn default() -> (t: Self)
        ensures
            t@ == (AckWindow { latest: 0, bits: 0, seen_any: false }),
            forall|s: u16| !acked(t@, s),
    {
        AckTracker::new()
    }
}

impl View for AckTracker {
    type V = AckWindow;

    closed spec fn view(&self) -> AckWindow {
        AckWindow { latest: self.latest, bits: self.bits, seen_any: self.seen_any }
    }
}

proof fn lemma_shift_window(bits: u32, shift: u32, j: u32)
    by (bit_vector)
    requires
        1 <= shift,
        j < 32,
    ensures
        ((((if shift < 32 { bits << shift } else { 0u32 }) | (if shift - 1 < 32 {
            1u32 << ((shift - 1) as u32)
        } else {
            0u32
        })) >> j) & 1u32 == 1u32) <==> ((j >= shift && (bits >> ((j - shift) as u32)) & 1u32
            == 1u32) || j == shift - 1),
{
}

proof fn lemma_set_bit(bits: u32, k: u32, j: u32)
    by (bit_vector)
    requires
        k < 32,
        j < 32,
    ensures
        (((bits | (1u32 << k)) >> j) & 1u32 == 1u32) <==> ((bits >> j) & 1u32 == 1u32 || j == k),
{
}

proof fn lemma_zero_bits(j: u32)
    by (bit_vector)
    ensures
        (0u32 >> j) & 1u32 == 0u32,
{
}

proof fn lemma_mask_bit(bits: u32, k: u32)
    by (bit_vector)
    requires
        k < 32,
    ensures
        ((bits & (1u32 << k)) != 0u32) <==> ((bits >> k) & 1u32 == 1u32),
{
}

impl AckTracker {
    #[verifier::type_invariant]
    spec fn fresh_is_empty(self) -> bool {
        !self.seen_any ==> self.latest == 0 && self.bits == 0
    }

    /// A fresh tracker that has seen nothing.
    pub fn new() -> (t: Self)
        ensures
            t@ == (AckWindow { latest: 0, bits: 0, seen_any: false }),
            forall|s: u16| !acked(t@, s),
    {
        Self { latest: 0, bits: 0, seen_any: false }
    }

    /// Record a received sequence number, updating the ack window.
    ///
    /// Afterwards exactly the sequences that are inside the new window and
    /// were either already acked or are `seq` itself count as acked.
    pub fn record(&mut self, seq: u16)
        ensures
            final(self)@.seen_any,
            final(self)@.latest == next_latest(old(self)@, seq),
            forall|s: u16|
                #![trigger acked(final(self)@, s)]
                acked(final(self)@, s) <==> (in_window(final(self)@, s) && (s == seq || acked(
                    old(self)@,
                    s,
                ))),
    {
        proof {
            use_type_invariant(&*self);
        }
        if !self.seen_any {
            self.seen_any = true;
            self.latest = seq;
            proof {
                assert forall|s: u16|
                    #![trigger acked(self@, s)]
                    acked(self@, s) <==> (in_window(self@, s) && (s == seq || acked(old(self)@, s))) by {
                    let d = seq_dist(seq, s);
                    if 1 <= d <= 32 {
                        lemma_zero_bits((d - 1) as u32);
                    }
                }
            }
            return ;
        }
        let ghost w0 = self@;
        if seq_greater_than(seq, self.latest) {
            let shift: u16 = seq.wrapping_sub(self.latest);
            let sh: u32 = shift as u32;
            assert(1 <= sh <= 32768);
            let shifted: u32 = if sh < 32 {
                self.bits << sh
            } else {
                0
            };
            let marker: u32 = if sh - 1 < 32 {
                1u32 << (sh - 1)
            } else {
                0
            };
            self.bits = shifted | marker;
            self.latest = seq;
            proof {
                assert forall|s: u16|
                    #![trigger acked(self@, s)]
                    acked(self@, s) <==> (in_window(self@, s) && (s == seq || acked(w0, s))) by {
                    let d1 = seq_dist(seq, s);
                    let d0 = seq_dist(w0.latest, s);
                    if 1 <= d1 <= 32 {
                        lemma_shift_window(w0.bits, sh, (d1 - 1) as u32);
                    }
                    if acked(w0, s) && d0 >= 1 && d0 + sh <= 32 {
                        lemma_shift_window(w0.bits, sh, (d0 + sh - 1) as u32);
                    }
                }
            }
        } else {
            let diff: u16 = self.latest.wrapping_sub(seq);
            if 1 <= diff && diff <= 32 {
                let k: u32 = (diff - 1) as u32;
                self.bits = self.bits | (1u32 << k);
                proof {
                    assert forall|s: u16|
                        #![trigger acked(self@, s)]
                        acked(self@, s) <==> (in_window(self@, s) && (s == seq || acked(w0, s))) by {
                        let d = seq_dist(w0.latest, s);
                        if 1 <= d <= 32 {
                            lemma_set_bit(w0.bits, k, (d - 1) as u32);
                        }
                    }
                }
            } else {
                proof {
                    assert forall|s: u16|
                        #![trigger acked(self@, s)]
                        acked(self@, s) <==> (in_window(self@, s) && (s == seq || acked(w0, s))) by {
                    }
                }
            }
        }
    }

    /// The highest sequence acknowledged so far.
    pub fn latest(&self) -> (r: u16)
        ensures
            r == self@.latest,
    {
        self.latest
    }

    /// The 32-bit ack bitfield: bit `n` set == `latest() - 1 - n` was received.
    pub fn ack_bits(&self) -> (r: u32)
        ensures
            r == self@.bits,
            forall|n: int|
                0 <= n < 32 ==> (#[trigger] bit_set(r, n) <==> acked(
                    self@,
                    ((self@.latest - 1 - n) % 65536) as u16,
                )),
    {
        proof {
            use_type_invariant(self);
            assert forall|n: int| 0 <= n < 32 implies (#[trigger] bit_set(self.bits, n) <==> acked(
                self@,
                ((self@.latest - 1 - n) % 65536) as u16,
            )) by {
                let s = ((self@.latest - 1 - n) % 65536) as u16;
                assert(seq_dist(self@.latest, s) == n + 1);
                if !self.seen_any {
                    lemma_zero_bits(n as u32);
                }
            }
        }
        self.bits
    }

    /// Whether `seq` is within the window and has been received.
    pub fn is_acked(&self, seq: u16) -> (r: bool)
        ensures
            r == acked(self@, seq),
    {
        if !self.seen_any {
            return false;
        }
        if seq == self.latest {
            return true;
        }
        let diff: u16 = self.latest.wrapping_sub(seq);
        if 1 <= diff && diff <= 32 {
            let k: u32 = (diff - 1) as u32;
            proof {
                lemma_mask_bit(self.bits, k);
            }
            (self.bits & (1u32 << k)) != 0
        } else {
            false
        }
    }
}

} // verus!
