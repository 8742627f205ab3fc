//! Frames that go through an encoder and a decoder, and what comes back.

use vstd::prelude::*;

verus! {

/// What precedes a frame.
#[derive(Debug, Clone, Copy, PartialEq, Eq, Structural)]
pub struct Step {
    /// Encode it as a keyframe.
    pub force: bool,
    /// Set the encoder to this many bits per second.
    pub bitrate: Option<u32>,
}

/// Why a run fails.
#[derive(Debug, Clone, Copy, PartialEq, Eq, Structural)]
pub enum Failure {
    /// The first packet is not a keyframe.
    FirstPacket,
    /// A forced keyframe was not honoured.
    NotForced,
}

/// A run through the codec. The CPU decoder outputs pictures in order but one
/// access unit late, so each output is compared with the oldest source that
/// has none.
#[derive(Debug, Clone, Copy, PartialEq, Eq, Structural)]
pub struct Roundtrip {
    pub frames: usize,
    pub bitrate: u32,
    /// Drop the bitrate to a quarter for the middle third of the run.
    pub adapt: bool,
    /// Sources encoded, and outputs decoded.
    pub sent: usize,
    pub decoded: usize,
}

/// What precedes frame `i`.
pub open spec fn step_of(r: Roundtrip, i: int) -> Step {
    Step {
        force: i == r.frames / 2,
        bitrate: if r.adapt && i == 2 * r.frames / 3 {
            Some(r.bitrate)
        } else if r.adapt && i == r.frames / 3 {
            Some((r.bitrate / 4) as u32)
        } else {
            None
        },
    }
}

impl Roundtrip {
    /// No more comes out than went in.
    pub open spec fn wf(&self) -> bool {
        self.decoded <= self.sent <= self.frames <= usize::MAX / 2
    }

    pub fn new(frames: usize, bitrate: u32, adapt: bool) -> (r: Roundtrip)
        requires
            frames <= usize::MAX / 2,
        ensures
            r.wf(),
            r == (Roundtrip { frames, bitrate, adapt, sent: 0, decoded: 0 }),
    {
        Roundtrip { frames, bitrate, adapt, sent: 0, decoded: 0 }
    }

    /// What precedes the next frame; none after the last.
    pub fn step(&self) -> (s: Option<Step>)
        requires
            self.wf(),
        ensures
            s == if self.sent < self.frames {
                Some(step_of(*self, self.sent as int))
            } else {
                None
            },
    {
        if self.sent >= self.frames {
            return None;
        }
        let i: usize = self.sent;
        let bitrate: Option<u32> = if self.adapt && i == 2 * self.frames / 3 {
            Some(self.bitrate)
        } else if self.adapt && i == self.frames / 3 {
            Some(self.bitrate / 4)
        } else {
            None
        };
        Some(Step { force: i == self.frames / 2, bitrate })
    }

    /// The frame was encoded, and its packet decoded to a picture or none:
    /// the source that a picture is of.
    pub fn on_packet(&mut self, keyframe: bool, picture: bool) -> (res: Result<Option<usize>, Failure>)
        requires
            old(self).wf(),
            old(self).sent < old(self).frames,
        ensures
            final(self).wf(),
            match res {
                Err(Failure::FirstPacket) => old(self).sent == 0 && !keyframe,
                Err(Failure::NotForced) => old(self).sent > 0 && !keyframe && step_of(
                    *old(self),
                    old(self).sent as int,
                ).force,
                Ok(of) => {
                    &&& keyframe || (old(self).sent > 0 && !step_of(*old(self), old(self).sent as int).force)
                    &&& of == if picture {
                        Some(old(self).decoded)
                    } else {
                        None
                    }
                },
            },
            res is Err ==> *final(self) == *old(self),
            res is Ok ==> *final(self) == (Roundtrip {
                sent: (old(self).sent + 1) as usize,
                decoded: (old(self).decoded + if picture {
                    1int
                } else {
                    0
                }) as usize,
                ..*old(self)
            }),
    {
        if self.sent == 0 && !keyframe {
            return Err(Failure::FirstPacket);
        }
        if self.sent == self.frames / 2 && !keyframe {
            return Err(Failure::NotForced);
        }
        self.sent = self.sent + 1;
        Ok(self.take(picture))
    }

    /// The decoder was drained: the source that its last picture is of.
    pub fn on_flush(&mut self, picture: bool) -> (of: Option<usize>)
        requires
            old(self).wf(),
        ensures
            final(self).wf(),
            of == if picture && old(self).decoded < old(self).sent {
                Some(old(self).decoded)
            } else {
                None
            },
            *final(self) == (Roundtrip {
                decoded: (old(self).decoded + if of is Some {
                    1int
                } else {
                    0
                }) as usize,
                ..*old(self)
            }),
    {
        if self.decoded < self.sent {
            self.take(picture)
        } else {
            None
        }
    }

    fn take(&mut self, picture: bool) -> (of: Option<usize>)
        requires
            old(self).decoded < old(self).sent,
        ensures
            of == if picture {
                Some(old(self).decoded)
            } else {
                None
            },
            *final(self) == (Roundtrip {
                decoded: (old(self).decoded + if picture {
                    1int
                } else {
                    0
                }) as usize,
                ..*old(self)
            }),
    {
        if !picture {
            return None;
        }
        let of: usize = self.decoded;
        self.decoded = of + 1;
        Some(of)
    }

    /// Every frame came back.
    pub fn is_complete(&self) -> (yes: bool)
        ensures
            yes == (self.decoded == self.frames),
    {
        self.decoded == self.frames
    }
}

/// A keyframe is forced half way; where the rate is to adapt it falls to a
/// quarter after a third of the frames and is back after two thirds.
pub proof fn law_the_rate_falls_and_comes_back(r: Roundtrip, i: int)
    requires
        r.wf(),
        r.frames >= 3,
        0 <= i < r.frames,
    ensures
        step_of(r, i).force <==> 2 * i <= r.frames < 2 * i + 2,
        !r.adapt ==> step_of(r, i).bitrate is None,
        r.adapt && 3 * i <= r.frames < 3 * i + 3 ==> step_of(r, i).bitrate == Some((r.bitrate / 4) as u32),
        r.adapt && 3 * i <= 2 * r.frames < 3 * i + 3 ==> step_of(r, i).bitrate == Some(r.bitrate),
        !(3 * i <= r.frames < 3 * i + 3) && !(3 * i <= 2 * r.frames < 3 * i + 3) ==> step_of(r, i).bitrate is None,
{
}

} // verus!
