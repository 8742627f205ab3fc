//! The anti-replay window.

use vstd::prelude::*;

verus! {

/// Anti-replay window over sequence numbers: a bitmap of the last
/// `BITS` sequences below the highest seen.
pub struct ReplayWindow {
    highest: u64,
    bits: [u64; 64],
}

/// Whether the bit of `seq` is set in a window's words.
pub open spec fn slot_set(bits: Seq<u64>, seq: u64) -> bool {
    bits[((seq % 4096) / 64) as int] & (1u64 << (seq % 64)) != 0
}

impl ReplayWindow {
    pub const BITS: u64 = 4096;

    /// The highest sequence marked.
    pub closed spec fn highest(&self) -> u64 {
        self.highest
    }

    /// Whether `seq` counts as seen. Meaningful within `BITS` of the highest.
    pub closed spec fn seen(&self, seq: u64) -> bool {
        slot_set(self.bits@, seq)
    }

    /// Whether `seq` lies within the window.
    pub open spec fn covers(&self, seq: u64) -> bool {
        seq <= self.highest() && self.highest() - seq < Self::BITS
    }

    /// Whether `seq` is new: above the highest, or in the window and not
    /// seen. 0 is never new.
    pub open spec fn fresh(&self, seq: u64) -> bool {
        seq != 0 && (seq > self.highest() || (self.covers(seq) && !self.seen(seq)))
    }

    pub fn is_fresh(&self, seq: u64) -> (fresh: bool)
        ensures
            fresh == self.fresh(seq),
    {
        if seq == 0 {
            return false;
        }
        if seq > self.highest {
            return true;
        }
        if self.highest - seq >= Self::BITS {
            return false;
        }
        !self.test(seq)
    }

    fn test(&self, seq: u64) -> (on: bool)
        ensures
            on == self.seen(seq),
    {
        let bit: u64 = seq % Self::BITS;
        assert(bit % 64 == seq % 64);
        self.bits[(bit / 64) as usize] & (1u64 << (bit % 64)) != 0
    }

    fn set(&mut self, seq: u64, on: bool)
        ensures
            final(self).highest() == old(self).highest(),
            forall|s: u64| #[trigger]
                final(self).seen(s) == (if s % Self::BITS == seq % Self::BITS {
                    on
                } else {
                    old(self).seen(s)
                }),
    {
        let bit: u64 = seq % Self::BITS;
        let i: usize = (bit / 64) as usize;
        let b: u64 = bit % 64;
        let word: u64 = self.bits[i];
        let new_word: u64 = if on { word | (1u64 << b) } else { word & !(1u64 << b) };
        self.bits[i] = new_word;
        proof {
            assert forall|s: u64| #[trigger] self.seen(s) == (if s % Self::BITS == seq % Self::BITS {
                on
            } else {
                old(self).seen(s)
            }) by {
                let c: u64 = s % 64;
                lemma_slot(s, seq);
                lemma_set_bit(word, b, c);
            }
        }
    }

    /// Count `seq` as seen and slide the window up to it if it is the highest.
    pub fn mark(&mut self, seq: u64)
        ensures
            marked(*old(self), seq, *final(self)),
    {
        if seq > self.highest {
            // Clear the bits the window slides over.
            let gap: u64 = seq - self.highest;
            let advance: u64 = if gap < Self::BITS { gap } else { Self::BITS };
            let mut s: u64 = 0;
            while s < advance
                invariant
                    s <= advance <= Self::BITS,
                    advance <= seq - old(self).highest(),
                    seq > old(self).highest(),
                    self.highest() == old(self).highest(),
                    forall|t: u64|
                        old(self).highest() < t <= old(self).highest() + s ==> !#[trigger] self.seen(t),
                    forall|t: u64| #[trigger]
                        self.seen(t) ==> old(self).seen(t),
                    forall|t: u64|
                        old(self).highest() + s < t + Self::BITS && t <= old(self).highest() ==> #[trigger] self.seen(t)
                            == old(self).seen(t),
                decreases advance - s,
            {
                s = s + 1;
                let ghost before = *self;
                self.set(self.highest + s, false);
                proof {
                    assert forall|t: u64|
                        old(self).highest() + s < t + Self::BITS && t
                            <= old(self).highest() implies #[trigger] self.seen(t) == old(self).seen(t) by {
                        lemma_same_slot(t, (old(self).highest() + s) as u64);
                        assert(before.seen(t) == old(self).seen(t));
                    }
                }
            }
            let ghost cleared = *self;
            self.highest = seq;
            proof {
                assert forall|t: u64| self.covers(t) implies self.seen(t) == (t <= old(self).highest() && old(
                    self,
                ).seen(t)) by {
                    assert(self.seen(t) == cleared.seen(t));
                    if t > old(self).highest() && advance == Self::BITS {
                        // Every slot was cleared.
                        let u = lemma_cleared_witness(t, old(self).highest());
                        assert(!cleared.seen(u));
                        lemma_slot_shared(self.bits@, t, u);
                    }
                }
            }
        }
        let ghost mid = *self;
        self.set(seq, true);
        proof {
            assert forall|s: u64| #[trigger] self.covers(s) implies self.seen(s) == (s % Self::BITS == seq
                % Self::BITS || (s <= old(self).highest() && old(self).seen(s))) by {
                assert(mid.covers(s));
                assert(self.seen(s) == (s % Self::BITS == seq % Self::BITS || mid.seen(s)));
            }
        }
    }
}

/// `after` is `before` with `seq` counted as seen: the highest rises to it,
/// and within the window it joins what was seen. (Sequences share a slot
/// modulo the window's size, so marking one from below the window would mark
/// its namesake within.)
pub open spec fn marked(before: ReplayWindow, seq: u64, after: ReplayWindow) -> bool {
    &&& after.highest() == (if seq > before.highest() {
        seq
    } else {
        before.highest()
    })
    &&& forall|s: u64| #[trigger]
        after.covers(s) ==> after.seen(s) == (s % ReplayWindow::BITS == seq % ReplayWindow::BITS || (s
            <= before.highest() && before.seen(s)))
}

/// A sequence is not new once it is marked.
pub proof fn law_marked_is_not_fresh(before: ReplayWindow, seq: u64, after: ReplayWindow)
    requires
        marked(before, seq, after),
    ensures
        !after.fresh(seq),
{
    if after.covers(seq) {
        assert(after.seen(seq));
    }
}

/// What is not new stays so, whatever is marked later.
pub proof fn law_stale_stays_stale(before: ReplayWindow, seq: u64, after: ReplayWindow, s: u64)
    requires
        marked(before, seq, after),
        !before.fresh(s),
    ensures
        !after.fresh(s),
{
    if after.covers(s) {
        assert(before.covers(s) || s > before.highest() || s == 0);
    }
}

/// A new sequence that is marked takes no other new sequence with it: within
/// the window, what was new and is not the marked one stays new.
pub proof fn law_marking_spares_others(before: ReplayWindow, seq: u64, after: ReplayWindow, s: u64)
    requires
        marked(before, seq, after),
        before.fresh(seq),
        before.fresh(s),
        s != seq,
        s > after.highest() || after.covers(s),
    ensures
        after.fresh(s),
{
    if after.covers(s) {
        if s < seq {
            lemma_same_slot(s, seq);
        } else {
            lemma_same_slot(seq, s);
        }
    }
}

/// Two sequences share a slot exactly when they agree modulo the window.
proof fn lemma_slot(s: u64, t: u64)
    ensures
        (s % 4096) / 64 == (t % 4096) / 64 && s % 64 == t % 64 <==> s % 4096 == t % 4096,
        (s % 4096) % 64 == s % 64,
        (t % 4096) % 64 == t % 64,
{
    assert(((s % 4096) / 64 == (t % 4096) / 64 && s % 64 == t % 64) == (s % 4096 == t % 4096) && (s % 4096) % 64
        == s % 64 && (t % 4096) % 64 == t % 64) by (bit_vector);
}

/// Less than a window apart, only equal sequences share a slot.
proof fn lemma_same_slot(s: u64, t: u64)
    requires
        s < t,
        t - s < 4096,
    ensures
        s % 4096 != t % 4096,
{
}

proof fn lemma_slot_shared(bits: Seq<u64>, s: u64, t: u64)
    requires
        s % 4096 == t % 4096,
    ensures
        slot_set(bits, s) == slot_set(bits, t),
{
    lemma_slot(s, t);
}

/// A sequence above `highest` shares its slot with one among the next 4096.
proof fn lemma_cleared_witness(t: u64, highest: u64) -> (u: u64)
    requires
        t > highest,
    ensures
        highest < u <= highest + 4096,
        u % 4096 == t % 4096,
        u <= t,
{
    (highest + 1 + (t - highest - 1) % 4096) as u64
}

/// Setting or clearing one bit of a word leaves the others.
proof fn lemma_set_bit(word: u64, b: u64, c: u64)
    requires
        b < 64,
        c < 64,
    ensures
        ((word | (1u64 << b)) & (1u64 << c) != 0) == (b == c || word & (1u64 << c) != 0),
        ((word & !(1u64 << b)) & (1u64 << c) != 0) == (b != c && word & (1u64 << c) != 0),
{
    assert(((word | (1u64 << b)) & (1u64 << c) != 0) == (b == c || word & (1u64 << c) != 0)) by (bit_vector)
        requires
            b < 64,
            c < 64,
    ;
    assert(((word & !(1u64 << b)) & (1u64 << c) != 0) == (b != c && word & (1u64 << c) != 0)) by (bit_vector)
        requires
            b < 64,
            c < 64,
    ;
}

impl Default for ReplayWindow {
    fn default() -> (w: Self)
        ensures
            w.highest() == 0,
            forall|s: u64| !#[trigger] w.seen(s),
    {
        let w = Self { highest: 0, bits: [0u64; 64] };
        proof {
            assert forall|s: u64| !#[trigger] w.seen(s) by {
                let b = 1u64 << (s % 64);
                assert(0u64 & b == 0) by (bit_vector);
            }
        }
        w
    }
}

} // verus!
