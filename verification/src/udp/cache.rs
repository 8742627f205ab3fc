//! The server's side: parts of recent frames, kept for retransmission.

use std::collections::VecDeque;
use vstd::prelude::*;

verus! {

/// The bytes of a frame's parts together.
pub open spec fn parts_len(parts: Seq<Vec<u8>>) -> nat
    decreases parts.len(),
{
    if parts.len() == 0 {
        0
    } else {
        parts_len(parts.drop_last()) + parts.last()@.len()
    }
}

/// The bytes of several frames together.
pub open spec fn frames_len(frames: Seq<(u64, Vec<Vec<u8>>)>) -> nat
    decreases frames.len(),
{
    if frames.len() == 0 {
        0
    } else {
        frames_len(frames.drop_first()) + parts_len(frames[0].1@)
    }
}

/// Whether frames are few and small enough to keep.
pub open spec fn within_limits(frames: Seq<(u64, Vec<Vec<u8>>)>) -> bool {
    frames.len() <= PartCache::MAX_FRAMES && frames_len(frames) <= PartCache::MAX_BYTES
}

/// `frames` without the oldest, as many as it takes to keep the limits.
pub open spec fn trimmed(frames: Seq<(u64, Vec<Vec<u8>>)>) -> Seq<(u64, Vec<Vec<u8>>)>
    decreases frames.len(),
{
    if frames.len() == 0 || within_limits(frames) {
        frames
    } else {
        trimmed(frames.drop_first())
    }
}

/// The parts of recent frames, oldest first.
pub struct PartCache {
    frames: VecDeque<(u64, Vec<Vec<u8>>)>,
    bytes: usize,
}

impl PartCache {
    /// Retransmit cache: enough frames for a NACK to arrive at any RTT the
    /// ack window allows.
    pub const MAX_FRAMES: usize = 16;

    pub const MAX_BYTES: usize = 8388608;

    /// The frames kept, oldest first.
    pub closed spec fn frames(&self) -> Seq<(u64, Vec<Vec<u8>>)> {
        self.frames@
    }

    pub closed spec fn wf(&self) -> bool {
        self.bytes == frames_len(self.frames@) && within_limits(self.frames@)
    }

    pub fn new() -> (c: Self)
        ensures
            c.wf(),
            c.frames() == Seq::<(u64, Vec<Vec<u8>>)>::empty(),
    {
        Self { frames: VecDeque::new(), bytes: 0 }
    }

    pub fn insert(&mut self, frame_id: u64, parts: Vec<Vec<u8>>)
        requires
            old(self).wf(),
        ensures
            final(self).wf(),
            final(self).frames() == trimmed(old(self).frames().push((frame_id, parts))),
            within_limits(final(self).frames()),
    {
        let ghost before = self.frames@;
        let n: usize = match small_len(&parts) {
            Some(n) => n,
            None => {
                proof {
                    assert(before.push((frame_id, parts)).last().1 == parts);
                    law_too_large_a_frame_empties_the_cache(before.push((frame_id, parts)));
                }
                self.frames.clear();
                self.bytes = 0;
                return;
            },
        };
        self.bytes = self.bytes + n;
        self.frames.push_back((frame_id, parts));
        proof {
            lemma_push_len(before, (frame_id, parts));
        }
        let ghost all = self.frames@;
        while self.frames.len() > Self::MAX_FRAMES || self.bytes > Self::MAX_BYTES
            invariant
                self.bytes == frames_len(self.frames@),
                trimmed(all) == trimmed(self.frames@),
                all == old(self).frames().push((frame_id, parts)),
            decreases self.frames@.len(),
        {
            let ghost now = self.frames@;
            match self.frames.pop_front() {
                Some((_, gone)) => {
                    proof {
                        assert(self.frames@ =~= now.drop_first());
                    }
                    self.bytes = self.bytes - total_len(&gone);
                },
                None => {},
            }
        }
    }

    pub fn part(&self, frame_id: u64, index: u16) -> (res: Option<&[u8]>)
        ensures
            match (res, part_of(self.frames(), frame_id, index, 0)) {
                (Some(bytes), Some(part)) => bytes@ == part,
                (None, None) => true,
                _ => false,
            },
    {
        for i in 0..self.frames.len()
            invariant
                part_of(self.frames@, frame_id, index, 0) == part_of(self.frames@, frame_id, index, i as int),
        {
            let entry = &self.frames[i];
            if entry.0 == frame_id {
                if (index as usize) < entry.1.len() {
                    return Some(entry.1[index as usize].as_slice());
                }
                return None;
            }
        }
        None
    }
}

/// The part of the oldest entry from `i` on that is of frame `frame_id`.
pub open spec fn part_of(frames: Seq<(u64, Vec<Vec<u8>>)>, frame_id: u64, index: u16, i: int) -> Option<Seq<u8>>
    decreases frames.len() - i,
{
    if !(0 <= i < frames.len()) {
        None
    } else if frames[i].0 == frame_id {
        if index < frames[i].1@.len() {
            Some(frames[i].1@[index as int]@)
        } else {
            None
        }
    } else {
        part_of(frames, frame_id, index, i + 1)
    }
}

fn total_len(parts: &Vec<Vec<u8>>) -> (n: usize)
    requires
        parts_len(parts@) <= usize::MAX,
    ensures
        n == parts_len(parts@),
{
    let mut n: usize = 0;
    for i in 0..parts.len()
        invariant
            n == parts_len(parts@.take(i as int)),
            parts_len(parts@) <= usize::MAX,
    {
        proof {
            assert(parts@.take(i + 1).drop_last() =~= parts@.take(i as int));
            lemma_prefix_len(parts@, i + 1);
        }
        n = n + parts[i].len();
    }
    assert(parts@.take(parts@.len() as int) =~= parts@);
    n
}

/// The bytes of parts together; none where the cache cannot hold them.
fn small_len(parts: &Vec<Vec<u8>>) -> (n: Option<usize>)
    ensures
        n == if parts_len(parts@) <= PartCache::MAX_BYTES {
            Some(parts_len(parts@) as usize)
        } else {
            None
        },
{
    let mut n: usize = 0;
    for i in 0..parts.len()
        invariant
            n == parts_len(parts@.take(i as int)) <= PartCache::MAX_BYTES,
    {
        proof {
            assert(parts@.take(i + 1).drop_last() =~= parts@.take(i as int));
            lemma_prefix_len(parts@, i + 1);
        }
        if parts[i].len() > PartCache::MAX_BYTES - n {
            return None;
        }
        n = n + parts[i].len();
    }
    assert(parts@.take(parts@.len() as int) =~= parts@);
    Some(n)
}

proof fn lemma_prefix_len(parts: Seq<Vec<u8>>, n: int)
    requires
        0 <= n <= parts.len(),
    ensures
        parts_len(parts.take(n)) <= parts_len(parts),
    decreases parts.len() - n,
{
    if n < parts.len() {
        lemma_prefix_len(parts, n + 1);
        assert(parts.take(n + 1).drop_last() =~= parts.take(n));
    } else {
        assert(parts.take(n) =~= parts);
    }
}

proof fn lemma_push_len(frames: Seq<(u64, Vec<Vec<u8>>)>, entry: (u64, Vec<Vec<u8>>))
    ensures
        frames_len(frames.push(entry)) == frames_len(frames) + parts_len(entry.1@),
    decreases frames.len(),
{
    if frames.len() == 0 {
        assert(frames.push(entry).drop_first() =~= frames);
    } else {
        lemma_push_len(frames.drop_first(), entry);
        assert(frames.push(entry).drop_first() =~= frames.drop_first().push(entry));
    }
}

/// Trimming drops only old entries: what is kept is the end of the list.
pub proof fn law_trimmed_is_a_suffix(frames: Seq<(u64, Vec<Vec<u8>>)>)
    ensures
        trimmed(frames).len() <= frames.len(),
        trimmed(frames) == frames.skip(frames.len() - trimmed(frames).len()),
        trimmed(frames).len() == 0 || within_limits(trimmed(frames)),
    decreases frames.len(),
{
    if frames.len() == 0 || within_limits(frames) {
        assert(frames.skip(0) =~= frames);
    } else {
        law_trimmed_is_a_suffix(frames.drop_first());
        assert(trimmed(frames) =~= frames.skip(frames.len() - trimmed(frames).len()));
    }
}

/// The newest frame is kept unless it alone exceeds the byte limit.
pub proof fn law_newest_frame_is_kept(frames: Seq<(u64, Vec<Vec<u8>>)>)
    requires
        frames.len() > 0,
        parts_len(frames.last().1@) <= PartCache::MAX_BYTES,
    ensures
        trimmed(frames).len() > 0,
        trimmed(frames).last() == frames.last(),
    decreases frames.len(),
{
    if !within_limits(frames) {
        if frames.len() == 1 {
            assert(frames.drop_first() =~= Seq::empty());
            assert(frames_len(frames.drop_first()) == 0);
        } else {
            law_newest_frame_is_kept(frames.drop_first());
        }
    }
}

/// What is kept is as much as fits: no longer end of the list is within the
/// limits.
pub proof fn law_kept_is_the_longest(frames: Seq<(u64, Vec<Vec<u8>>)>, k: int)
    requires
        0 <= k < frames.len() - trimmed(frames).len(),
    ensures
        !within_limits(frames.skip(k)),
    decreases frames.len(),
{
    assert(!within_limits(frames));
    if k == 0 {
        assert(frames.skip(0) =~= frames);
    } else {
        law_kept_is_the_longest(frames.drop_first(), k - 1);
        assert(frames.drop_first().skip(k - 1) =~= frames.skip(k));
    }
}

/// Trimming before another frame comes loses nothing that would be kept.
proof fn lemma_trimmed_twice(frames: Seq<(u64, Vec<Vec<u8>>)>, entry: (u64, Vec<Vec<u8>>))
    ensures
        trimmed(trimmed(frames).push(entry)) == trimmed(frames.push(entry)),
    decreases frames.len(),
{
    if frames.len() > 0 && !within_limits(frames) {
        lemma_push_len(frames, entry);
        assert(!within_limits(frames.push(entry)));
        lemma_trimmed_twice(frames.drop_first(), entry);
        assert(frames.push(entry).drop_first() =~= frames.drop_first().push(entry));
    }
}

/// What a new cache keeps after these frames were inserted, one by one.
pub open spec fn kept_of(all: Seq<(u64, Vec<Vec<u8>>)>) -> Seq<(u64, Vec<Vec<u8>>)>
    decreases all.len(),
{
    if all.len() == 0 {
        Seq::empty()
    } else {
        trimmed(kept_of(all.drop_last()).push(all.last()))
    }
}

/// After any number of inserts a cache keeps what trimming all of the frames
/// leaves: the longest end of them that is within both limits.
pub proof fn law_cache_keeps_the_longest_end(all: Seq<(u64, Vec<Vec<u8>>)>)
    ensures
        kept_of(all) == trimmed(all),
        kept_of(all) == all.skip(all.len() - kept_of(all).len()),
        within_limits(kept_of(all)),
        forall|k: int| 0 <= k < all.len() - kept_of(all).len() ==> !within_limits(#[trigger] all.skip(k)),
    decreases all.len(),
{
    if all.len() > 0 {
        law_cache_keeps_the_longest_end(all.drop_last());
        lemma_trimmed_twice(all.drop_last(), all.last());
        assert(all.drop_last().push(all.last()) =~= all);
    } else {
        assert(all =~= Seq::empty());
    }
    law_trimmed_is_a_suffix(all);
    assert forall|k: int| 0 <= k < all.len() - kept_of(all).len() implies !within_limits(#[trigger] all.skip(k)) by {
        law_kept_is_the_longest(all, k);
    }
}

/// A frame that exceeds the byte limit by itself leaves nothing kept.
pub proof fn law_too_large_a_frame_empties_the_cache(frames: Seq<(u64, Vec<Vec<u8>>)>)
    requires
        frames.len() > 0,
        parts_len(frames.last().1@) > PartCache::MAX_BYTES,
    ensures
        trimmed(frames).len() == 0,
    decreases frames.len(),
{
    lemma_push_len(frames.drop_last(), frames.last());
    assert(frames.drop_last().push(frames.last()) =~= frames);
    if frames.len() == 1 {
        assert(frames.drop_first() =~= Seq::empty());
        assert(trimmed(frames.drop_first()).len() == 0);
    } else {
        assert(frames.drop_first().last() == frames.last());
        law_too_large_a_frame_empties_the_cache(frames.drop_first());
    }
}

impl Default for PartCache {
    fn default() -> (c: Self)
        ensures
            c.wf(),
            c.frames() == Seq::<(u64, Vec<Vec<u8>>)>::empty(),
    {
        Self::new()
    }
}

proof fn lemma_part_of(frames: Seq<(u64, Vec<Vec<u8>>)>, frame_id: u64, index: u16, i: int, k: int)
    requires
        0 <= i <= k <= frames.len(),
        forall|j: int| i <= j < k ==> (#[trigger] frames[j]).0 != frame_id,
    ensures
        part_of(frames, frame_id, index, i) == part_of(frames, frame_id, index, k),
    decreases k - i,
{
    if i < k {
        lemma_part_of(frames, frame_id, index, i + 1, k);
    }
}

/// A part that is asked for is found where its frame is kept and has so many
/// parts, and it is that part of that frame; a frame that is not kept has
/// none.
pub proof fn law_kept_parts_are_found(frames: Seq<(u64, Vec<Vec<u8>>)>, frame_id: u64, index: u16, k: int)
    requires
        0 <= k <= frames.len(),
        forall|j: int| 0 <= j < k ==> (#[trigger] frames[j]).0 != frame_id,
        k < frames.len() ==> frames[k].0 == frame_id,
    ensures
        k < frames.len() && index < frames[k].1@.len() ==> part_of(frames, frame_id, index, 0) == Some(
            frames[k].1@[index as int]@,
        ),
        k == frames.len() || index >= frames[k].1@.len() ==> part_of(frames, frame_id, index, 0) is None,
{
    lemma_part_of(frames, frame_id, index, 0, k);
}

} // verus!
