//! One client session: which frame is encoded when, how the stream follows
//! the window and the link, and what the client is told.
//!
//! The owner captures, encodes and writes; it hands over what happened, with
//! times in nanoseconds of a clock that does not go back, and does what it is
//! told.

use crate::cbor::item::F64;
use crate::msg::server::ServerMsg;
use crate::msg::types::{ChromaMode, Codec, Rect, VideoPipeline};
use crate::rate::control::{clamped, Bounds, RateController, CONGESTION_RECENCY};
use crate::rate::ladder::{
    ago, law_levels_keep_the_floors, level_of, link_wf, Affordable, Ladder, Level, FPS_CAPS, HOLD_UP,
};
use crate::server::setup::{even, even_of, streams, streams_of, Size};
use vstd::prelude::*;

verus! {

/// The session-wide fps ceiling; ladder levels cap below it.
pub const MAX_FPS: u32 = 60;

/// Still-picture refinement: at most this many re-encodes of an unchanged
/// frame, at least [`REFINE_EVERY`] apart.
pub const MAX_REFINES: u8 = 8;

pub const REFINE_EVERY: u64 = 200_000_000;

/// A static screen produces no damage and so no first frame; after this
/// long the capture is torn down and retried once with full damage.
pub const FIRST_FRAME_DEADLINE: u64 = 700_000_000;

/// The starting ladder level: 30 fps, full quality. It halves the first
/// burst against level 0 while the controller measures available capacity.
pub const START_LEVEL: usize = 1;

/// The smallest window a stream is fitted to.
pub const MIN_WIDTH: u32 = 320;

pub const MIN_HEIGHT: u32 = 240;

/// What is to be encoded now.
#[derive(Debug, Clone, Copy, PartialEq, Eq, Structural)]
pub enum Encode {
    Nothing,
    /// The newest captured frame.
    Newest,
    /// The frame that went out last, once more, so that one that arrived
    /// soft under a low budget converges to sharp.
    Again,
}

/// What a pass over the session asks for.
#[derive(Debug, Clone, Copy, PartialEq, Eq, Structural)]
pub struct Pump {
    pub encode: Encode,
    /// Ask for the next capture.
    pub capture: bool,
}

/// What a client's new window size asks for.
#[derive(Debug, Clone, Copy, PartialEq, Eq, Structural)]
pub enum Resize {
    /// Too small, or as it was.
    Ignore,
    /// Fit the mirrored screen to a window of this size.
    Fit(Size),
    /// Give the headless output this size and the client's scale.
    SetMode(Size),
}

/// How the stream is brought to a size.
#[derive(Debug, Clone, Copy, PartialEq, Eq, Structural)]
pub enum Plan {
    /// It has it: only the rate may change.
    Keep,
    /// It takes another encoder.
    Rebuild { size: Size, chroma: ChromaMode },
}

/// What an encoder is programmed with.
#[derive(Debug, Clone, Copy, PartialEq, Eq, Structural)]
pub struct Rate {
    pub bitrate: u32,
    pub fps: u32,
    pub vbv_ms: u32,
}

/// What became of a frame that was sent.
#[derive(Debug, Clone, Copy, PartialEq, Eq, Structural)]
pub struct Sent {
    /// The frame does not use the capacity there is.
    pub app_limited: bool,
    /// The cadence changed: program the encoder.
    pub apply_rate: bool,
}

#[derive(Debug, Clone, Copy, PartialEq, Eq, Structural)]
pub struct Session {
    /// Physical (captured) size of the output.
    pub output: Size,
    pub headless: bool,
    /// Encoded size. Equals the output size, except for a mirrored screen
    /// larger than the client's window, or any output larger than the
    /// encoder's maximum, which are scaled down to fit.
    pub stream: Size,
    /// The full-quality fit size (the client's view); the active stream is
    /// this scaled by the ladder level.
    pub base_stream: Size,
    /// The largest size the client declared.
    pub max_size: Size,
    /// The client's last reported window size, so a mirrored output that
    /// changes mode can be refitted to the window.
    pub client_extent: Size,
    pub pipeline: VideoPipeline,
    pub chroma: ChromaMode,
    /// The chroma the handshake negotiated; a ladder level may reduce the
    /// active `chroma` to Single420.
    pub base_chroma: ChromaMode,
    /// The client can decode Single420; one that cannot keeps both streams
    /// on every level.
    pub can_drop_aux: bool,
    pub ladder: Ladder,
    pub ctl: RateController,
    /// The one commanded cadence: the pace timer and the encoder's
    /// programmed frame rate both use it.
    pub fps_cmd: u32,
    /// What the encoder can sustain, by its smoothed encode time.
    pub sustainable: u32,
    /// The newest captured frame not yet encoded, by its size.
    pub pending: Option<Size>,
    pub capture_asked: bool,
    /// The pending frame has already counted as blocked for the rate
    /// controller.
    pub blocked_noted: bool,
    pub frame_id: u64,
    pub want_keyframe: bool,
    /// The pace slot for the next frame.
    pub next_send_at: u64,
    /// The last frame that went out, by its size, kept for still-picture
    /// refinement and for the keyframe after a ladder step.
    pub last_frame: Option<Size>,
    /// Refinement passes spent on `last_frame`.
    pub refines: u8,
    pub next_refine_at: u64,
    /// The one-shot first-frame recapture has fired.
    pub recaptured: bool,
    /// The fps cap in the last StreamConfig, so a pace-only level change
    /// still reaches the client.
    pub sent_fps_cap: u32,
    pub cursor_shape_id: u32,
}

/// The time between frames at a rate, to the nearest nanosecond.
#[verifier::opaque]
pub open spec fn interval(fps: u32) -> int {
    if fps < 1 {
        1_000_000_000
    } else {
        (2_000_000_000 + fps) / (2 * fps)
    }
}

/// Whether `n` more bytes may be under way: always one frame, else up to the
/// cap.
pub open spec fn has_room(inflight: u64, n: int, cap: u64) -> bool {
    inflight == 0 || inflight + n <= cap
}

pub fn byte_cap_has_room(inflight: u64, frame_bytes: u64, cap: u64) -> (yes: bool)
    ensures
        yes == has_room(inflight, frame_bytes as int, cap),
{
    inflight == 0 || (frame_bytes <= cap && inflight <= cap - frame_bytes)
}

/// A dimension at a share of its full-quality size: even, and at least two.
pub open spec fn scaled(n: u32, percent: u32) -> int {
    let s = n as int * percent / 100;
    if s < 2 {
        2
    } else {
        s - s % 2
    }
}

impl Session {
    pub open spec fn wf(self) -> bool {
        &&& self.ladder.wf()
        &&& self.ctl.wf()
        &&& 1 <= self.fps_cmd <= MAX_FPS
        &&& self.refines <= MAX_REFINES
    }

    pub open spec fn level(self) -> Level {
        level_of(self.ladder.index as int)
    }

    /// The ladder level's frame-rate ceiling, bounded by the session's.
    pub open spec fn cap(self) -> u32 {
        if self.level().fps_cap < MAX_FPS {
            self.level().fps_cap
        } else {
            MAX_FPS
        }
    }

    /// The cadence to command: the ladder's cap bounded by what the encoder
    /// can sustain.
    pub open spec fn cadence(self, sustainable: u32) -> u32 {
        let fps = if sustainable < self.cap() {
            sustainable
        } else {
            self.cap()
        };
        if fps < 1 {
            1
        } else {
            fps
        }
    }

    /// The chroma the current ladder level allows, within what the client
    /// advertised.
    pub open spec fn level_chroma(self) -> ChromaMode {
        if self.level().aux || !self.can_drop_aux {
            self.base_chroma
        } else {
            ChromaMode::Single420
        }
    }

    /// A frame captured before a resize took effect is stale. The check is
    /// against the captured (output) size, never the fitted stream size: a
    /// mirrored capture keeps output dimensions while its stream is fitted
    /// smaller.
    pub open spec fn current(self, frame: Size) -> bool {
        frame.evened() == self.output
    }

    /// A session that begins now: the first frame is a keyframe, and a
    /// capture has been asked for.
    pub fn new(
        now: u64,
        output: Size,
        headless: bool,
        stream: Size,
        max_size: Size,
        pipeline: VideoPipeline,
        chroma: ChromaMode,
        can_drop_aux: bool,
        ctl: RateController,
    ) -> (s: Session)
        requires
            ctl.wf(),
        ensures
            s.wf(),
            s == Session::begun(now, output, headless, stream, max_size, pipeline, chroma, can_drop_aux, ctl),
    {
        let ladder: Ladder = Ladder::new(START_LEVEL);
        Session {
            output,
            headless,
            stream,
            base_stream: stream,
            max_size,
            client_extent: max_size,
            pipeline,
            chroma,
            base_chroma: chroma,
            can_drop_aux,
            ladder,
            ctl,
            fps_cmd: 30,
            sustainable: MAX_FPS,
            pending: None,
            capture_asked: true,
            blocked_noted: false,
            frame_id: 0,
            want_keyframe: true,
            next_send_at: now,
            last_frame: None,
            refines: MAX_REFINES,
            next_refine_at: now,
            recaptured: false,
            sent_fps_cap: 30,
            cursor_shape_id: 0,
        }
    }

    /// How a session begins: at the starting level's cadence.
    pub open spec fn begun(
        now: u64,
        output: Size,
        headless: bool,
        stream: Size,
        max_size: Size,
        pipeline: VideoPipeline,
        chroma: ChromaMode,
        can_drop_aux: bool,
        ctl: RateController,
    ) -> Session {
        Session {
            output,
            headless,
            stream,
            base_stream: stream,
            max_size,
            client_extent: max_size,
            pipeline,
            chroma,
            base_chroma: chroma,
            can_drop_aux,
            ladder: Ladder {
                index: START_LEVEL,
                hold_up: HOLD_UP,
                below_since: None,
                last_change: None,
                last_step_up: None,
            },
            ctl,
            fps_cmd: FPS_CAPS@[START_LEVEL as int],
            sustainable: MAX_FPS,
            pending: None,
            capture_asked: true,
            blocked_noted: false,
            frame_id: 0,
            want_keyframe: true,
            next_send_at: now,
            last_frame: None,
            refines: MAX_REFINES,
            next_refine_at: now,
            recaptured: false,
            sent_fps_cap: FPS_CAPS@[START_LEVEL as int],
            cursor_shape_id: 0,
        }
    }

    pub fn fps_cap(&self) -> (fps: u32)
        requires
            self.wf(),
        ensures
            fps == self.cap(),
            1 <= fps <= MAX_FPS,
    {
        proof {
            law_levels_keep_the_floors(self.ladder.index as int);
        }
        let fps: u32 = self.ladder.level().fps_cap;
        if fps < MAX_FPS {
            fps
        } else {
            MAX_FPS
        }
    }

    pub fn active_chroma(&self) -> (c: ChromaMode)
        requires
            self.wf(),
        ensures
            c == self.level_chroma(),
    {
        if self.ladder.level().aux || !self.can_drop_aux {
            self.base_chroma
        } else {
            ChromaMode::Single420
        }
    }

    fn cadence_at(&self, sustainable: u32) -> (fps: u32)
        requires
            self.wf(),
        ensures
            fps == self.cadence(sustainable),
            1 <= fps <= MAX_FPS,
    {
        let cap: u32 = self.fps_cap();
        let fps: u32 = if sustainable < cap {
            sustainable
        } else {
            cap
        };
        if fps < 1 {
            1
        } else {
            fps
        }
    }

    /// The time between frames.
    pub fn frame_interval(&self) -> (ns: u64)
        requires
            self.wf(),
        ensures
            ns == interval(self.fps_cmd),
            ns <= 1_000_000_000,
    {
        let fps: u64 = self.fps_cmd as u64;
        let ns: u64 = (2_000_000_000 + fps) / (2 * fps);
        proof {
            reveal(interval);
            assert(ns <= 1_000_000_000) by (nonlinear_arith)
                requires
                    1 <= fps <= 60,
                    ns == (2_000_000_000 + fps) / (2 * fps),
            ;
        }
        ns
    }

    /// A frame was captured. True when a mirrored output has another size
    /// than before: its extent and fit are to follow.
    pub fn on_frame(&mut self, frame: Size) -> (resized: bool)
        requires
            old(self).wf(),
        ensures
            final(self).wf(),
            resized == (!old(self).headless && frame.evened() != old(self).output),
            *final(self) == (Session {
                output: if resized {
                    frame.evened()
                } else {
                    old(self).output
                },
                pending: Some(frame),
                capture_asked: false,
                blocked_noted: false,
                ..*old(self)
            }),
    {
        let size: Size = frame.even();
        let resized: bool = !self.headless && size != self.output;
        if resized {
            self.output = size;
        }
        self.pending = Some(frame);
        self.capture_asked = false;
        self.blocked_noted = false;
        resized
    }

    /// The fit of a resized output is done. Where the stream kept its size
    /// the client is to be told of the new scale, from a keyframe on.
    pub fn on_refit(&mut self, before: Size) -> (tell: bool)
        requires
            old(self).wf(),
        ensures
            final(self).wf(),
            tell == (old(self).stream == before),
            *final(self) == (Session { want_keyframe: old(self).want_keyframe || tell, ..*old(self) }),
    {
        if self.stream == before {
            self.want_keyframe = true;
            true
        } else {
            false
        }
    }

    /// The cursor looks another way.
    pub fn on_cursor(&mut self, size: Size, hot_x: i32, hot_y: i32, argb_len: u32) -> (msg: ServerMsg)
        requires
            old(self).wf(),
            old(self).cursor_shape_id < u32::MAX,
        ensures
            final(self).wf(),
            *final(self) == (Session { cursor_shape_id: (old(self).cursor_shape_id + 1) as u32, ..*old(self) }),
            msg == (ServerMsg::CursorShape {
                id: final(self).cursor_shape_id,
                width: size.width,
                height: size.height,
                hot_x,
                hot_y,
                argb_len,
            }),
    {
        self.cursor_shape_id = self.cursor_shape_id + 1;
        ServerMsg::CursorShape {
            id: self.cursor_shape_id,
            width: size.width,
            height: size.height,
            hot_x,
            hot_y,
            argb_len,
        }
    }

    /// The cursor is elsewhere.
    pub fn on_cursor_pos(&self, x: F64, y: F64, visible: bool) -> (msg: ServerMsg)
        ensures
            msg == (ServerMsg::CursorPos { x, y, shape_id: self.cursor_shape_id, visible }),
    {
        ServerMsg::CursorPos { x, y, shape_id: self.cursor_shape_id, visible }
    }

    /// The pending frame waits on the byte cap, and has not been counted.
    pub open spec fn blocked(self, video_ready: bool, room: bool) -> bool {
        self.pending is Some && !self.blocked_noted && video_ready && !room
    }

    /// What is encoded in a pass: on a link with room, once the pace slot is
    /// due, the newest frame; with none, the last one again while refining
    /// it is due. A stale frame is not.
    pub open spec fn to_encode(self, now: u64, video_ready: bool, room: bool) -> Encode {
        if !(video_ready && room && now >= self.next_send_at) {
            Encode::Nothing
        } else {
            match (self.pending, self.last_frame) {
                (Some(f), _) => if self.current(f) {
                    Encode::Newest
                } else {
                    Encode::Nothing
                },
                (None, Some(f)) => if now >= self.next_refine_at && self.refines < MAX_REFINES && self.current(f) {
                    Encode::Again
                } else {
                    Encode::Nothing
                },
                (None, None) => Encode::Nothing,
            }
        }
    }

    /// After a pass.
    pub open spec fn pumped(self, now: u64, video_ready: bool, room: bool) -> Session {
        let due = video_ready && room && now >= self.next_send_at;
        let what = self.to_encode(now, video_ready, room);
        let refine_due = due && self.pending is None && now >= self.next_refine_at && self.refines < MAX_REFINES;
        Session {
            ctl: if self.blocked(video_ready, room) {
                RateController { blocked_at_cap: true, ..self.ctl }
            } else {
                self.ctl
            },
            blocked_noted: self.blocked_noted || self.blocked(video_ready, room),
            pending: if due {
                None
            } else {
                self.pending
            },
            last_frame: if what == Encode::Newest {
                self.pending
            } else if refine_due && what == Encode::Nothing {
                None
            } else {
                self.last_frame
            },
            refines: if what == Encode::Newest {
                0
            } else if what == Encode::Again {
                (self.refines + 1) as u8
            } else {
                self.refines
            },
            next_refine_at: if what == Encode::Nothing {
                self.next_refine_at
            } else {
                (now + REFINE_EVERY) as u64
            },
            capture_asked: true,
            ..self
        }
    }

    /// One pass: encode if the link has room and the pace slot is due, and
    /// keep one capture request outstanding even while blocked: a newer frame
    /// replaces the pending one, so the frame that finally goes out on a slow
    /// link is current, not as old as the stall.
    ///
    /// `video_ready` says that no frame waits for the writer, `room` that the
    /// bytes under way leave room for another frame. Only a wait on the byte
    /// cap is congestion, and counts once per frame.
    pub fn pump_encoder(&mut self, now: u64, video_ready: bool, room: bool) -> (p: Pump)
        requires
            old(self).wf(),
            now + REFINE_EVERY <= u64::MAX,
        ensures
            final(self).wf(),
            p.encode == old(self).to_encode(now, video_ready, room),
            p.capture == !old(self).capture_asked,
            *final(self) == old(self).pumped(now, video_ready, room),
    {
        if self.pending.is_some() && !self.blocked_noted && video_ready && !room {
            self.ctl.note_blocked_at_cap();
            self.blocked_noted = true;
        }
        let mut encode: Encode = Encode::Nothing;
        if video_ready && room && now >= self.next_send_at {
            if let Some(frame) = self.pending {
                self.pending = None;
                if frame.even() == self.output {
                    encode = Encode::Newest;
                    self.last_frame = Some(frame);
                    self.refines = 0;
                    self.next_refine_at = now + REFINE_EVERY;
                }
            } else if now >= self.next_refine_at && self.refines < MAX_REFINES {
                if let Some(frame) = self.last_frame {
                    if frame.even() == self.output {
                        encode = Encode::Again;
                        self.refines = self.refines + 1;
                        self.next_refine_at = now + REFINE_EVERY;
                    } else {
                        self.last_frame = None;
                    }
                }
            }
        }
        let capture: bool = !self.capture_asked;
        self.capture_asked = true;
        Pump { encode, capture }
    }

    /// Whether the next frame is to be a keyframe; asked once.
    pub fn take_keyframe(&mut self) -> (key: bool)
        requires
            old(self).wf(),
        ensures
            final(self).wf(),
            key == old(self).want_keyframe,
            *final(self) == (Session { want_keyframe: false, ..*old(self) }),
    {
        let key: bool = self.want_keyframe;
        self.want_keyframe = false;
        key
    }

    /// The message before an encoded frame.
    pub fn frame_msg(&self, pts_us: u64, keyframe: bool, main_len: u32, aux_len: u32) -> (msg: ServerMsg)
        ensures
            msg matches ServerMsg::VideoFrame { frame_id, pts_us: p, keyframe: k, damage, data_len, aux_len: a }
                && frame_id == self.frame_id && p == pts_us && k == keyframe && data_len == main_len && a == aux_len
                && damage@ == seq![
                Rect { x: 0, y: 0, width: self.stream.width as i32, height: self.stream.height as i32 },
            ],
    {
        let whole: Rect = Rect { x: 0, y: 0, width: self.stream.width as i32, height: self.stream.height as i32 };
        let damage: Vec<Rect> = vec![whole];
        assert(damage@ =~= seq![whole]);
        ServerMsg::VideoFrame {
            frame_id: self.frame_id,
            pts_us,
            keyframe,
            damage,
            data_len: main_len,
            aux_len,
        }
    }

    /// A cadence moved by more than 15%.
    pub open spec fn moved(before: u32, after: u32) -> bool {
        20 * (if after > before {
            after - before
        } else {
            before - after
        }) > 3 * before
    }

    /// After a frame was sent whose encode began at `t0`.
    pub open spec fn after_sent(self, now: u64, t0: u64, sustainable: u32) -> Session {
        let next = self.cadence(sustainable);
        let fps = if Self::moved(self.fps_cmd, next) {
            next
        } else {
            self.fps_cmd
        };
        let from = if self.next_send_at > t0 {
            self.next_send_at
        } else {
            t0
        };
        Session {
            ctl: RateController {
                started: match (self.ctl.started, self.ctl.startup_idle_since) {
                    (Some(t), Some(i)) => Some((t + ago(now, i)) as u64),
                    _ => self.ctl.started,
                },
                startup_idle_since: None,
                ..self.ctl
            },
            sustainable,
            fps_cmd: fps,
            next_send_at: (from + interval(fps)) as u64,
            blocked_noted: false,
            frame_id: (self.frame_id + 1) as u64,
            ..self
        }
    }

    /// Keeps the cadence unless it moved enough.
    fn note_cadence(&mut self, sustainable: u32) -> (moved: bool)
        requires
            old(self).wf(),
        ensures
            final(self).wf(),
            moved == Self::moved(old(self).fps_cmd, old(self).cadence(sustainable)),
            *final(self) == (Session {
                sustainable,
                fps_cmd: if moved {
                    old(self).cadence(sustainable)
                } else {
                    old(self).fps_cmd
                },
                ..*old(self)
            }),
    {
        let before: u32 = self.fps_cmd;
        let next: u32 = self.cadence_at(sustainable);
        let by: u32 = if next > before {
            next - before
        } else {
            before - next
        };
        let moved: bool = 20 * by > 3 * before;
        if moved {
            self.fps_cmd = next;
        }
        self.sustainable = sustainable;
        moved
    }

    /// A frame of `bytes` was sent whose encode began at `t0`; `sustainable`
    /// is what the encode times now allow. `limited` marks a send that does
    /// not use the capacity there is (a refinement pass). So does a frame
    /// that neither waited on the byte cap nor fills the pipe: its delivery
    /// rate reflects the content, not what the link could carry.
    ///
    /// The pace counts from the encode's start, so a slow encode adds no
    /// extra wait; after an idle gap or a stall the cadence restarts one
    /// interval after this encode, so resuming never sends a burst.
    pub fn on_sent(
        &mut self,
        now: u64,
        t0: u64,
        limited: bool,
        inflight: u64,
        bytes: u64,
        frame_bytes: u64,
        cap: u64,
        sustainable: u32,
    ) -> (s: Sent)
        requires
            old(self).wf(),
            old(self).frame_id < u64::MAX,
            inflight + bytes + frame_bytes <= u64::MAX,
            t0 + 1_000_000_000 <= u64::MAX,
            old(self).next_send_at + 1_000_000_000 <= u64::MAX,
            match (old(self).ctl.started, old(self).ctl.startup_idle_since) {
                (Some(t), Some(i)) => t + ago(now, i) <= u64::MAX,
                _ => true,
            },
        ensures
            final(self).wf(),
            s.app_limited == (limited || (!old(self).blocked_noted && inflight + bytes + frame_bytes <= cap)),
            s.apply_rate == Self::moved(old(self).fps_cmd, old(self).cadence(sustainable)),
            *final(self) == old(self).after_sent(now, t0, sustainable),
    {
        let app_limited: bool = limited || (!self.blocked_noted && inflight + bytes + frame_bytes <= cap);
        let apply_rate: bool = self.note_cadence(sustainable);
        self.ctl.note_frame_sent(now);
        let step: u64 = self.frame_interval();
        self.next_send_at = if self.next_send_at > t0 {
            self.next_send_at + step
        } else {
            t0 + step
        };
        self.blocked_noted = false;
        self.frame_id = self.frame_id + 1;
        Sent { app_limited, apply_rate }
    }

    /// A refinement pass coded so many bytes. One under a fifth of a frame's
    /// budget changed nothing worth sending: the picture has converged, and
    /// no more link is spent on it.
    pub fn on_refined(&mut self, bytes: u64) -> (done: bool)
        requires
            old(self).wf(),
            bytes <= u32::MAX,
        ensures
            final(self).wf(),
            done == (bytes * 40 < old(self).ctl.frame_budget(old(self).fps_cmd) * streams_of(old(self).chroma)),
            *final(self) == (Session {
                refines: if done {
                    MAX_REFINES
                } else {
                    old(self).refines
                },
                ..*old(self)
            }),
    {
        let budget: u32 = self.ctl.budget_per_frame(self.fps_cmd);
        let n: u32 = streams(self.chroma);
        let done: bool = bytes * 40 < budget as u64 * n as u64;
        if done {
            self.refines = MAX_REFINES;
        }
        done
    }

    /// When the refinement timer should next fire, bounded by the pace.
    pub fn refine_wake(&self) -> (at: u64)
        ensures
            at == if self.next_refine_at > self.next_send_at {
                self.next_refine_at
            } else {
                self.next_send_at
            },
    {
        if self.next_refine_at > self.next_send_at {
            self.next_refine_at
        } else {
            self.next_send_at
        }
    }

    /// Whether the refinement timer is armed.
    pub fn can_refine(&self, video_ready: bool, room: bool) -> (yes: bool)
        ensures
            yes == (self.pending is None && self.last_frame is Some && self.refines < MAX_REFINES && video_ready
                && room),
    {
        self.pending.is_none() && self.last_frame.is_some() && self.refines < MAX_REFINES && video_ready && room
    }

    /// No first frame has come in time: recapture, once.
    pub fn on_first_frame_deadline(&mut self) -> (recapture: bool)
        requires
            old(self).wf(),
        ensures
            final(self).wf(),
            recapture == (old(self).frame_id == 0 && !old(self).recaptured),
            *final(self) == (Session { recaptured: old(self).recaptured || recapture, ..*old(self) }),
    {
        if self.frame_id == 0 && !self.recaptured {
            self.recaptured = true;
            true
        } else {
            false
        }
    }

    /// A write took so long. Longer than a frame interval means that the
    /// socket, not the byte cap, was the bottleneck.
    pub fn on_written(&mut self, elapsed: u64)
        requires
            old(self).wf(),
        ensures
            final(self).wf(),
            *final(self) == (Session {
                ctl: if elapsed > interval(old(self).fps_cmd) {
                    RateController { writer_blocked: true, ..old(self).ctl }
                } else {
                    old(self).ctl
                },
                ..*old(self)
            }),
    {
        if elapsed > self.frame_interval() {
            self.ctl.note_writer_blocked();
        }
    }

    /// After an ack, once the controller has seen it: an idle link is noted,
    /// and a move on the ladder considered. Returns the new level.
    pub fn after_ack(&mut self, now: u64, inflight: u64, link: Option<Affordable>) -> (level: Option<usize>)
        requires
            old(self).wf(),
            link_wf(link),
        ensures
            final(self).wf(),
            ({
                let s = *old(self);
                let idle = s.pending is None && inflight == 0 && s.ctl.slow_start && s.ctl.startup_idle_since is None;
                let ctl = RateController {
                    startup_idle_since: if idle {
                        Some(now)
                    } else {
                        s.ctl.startup_idle_since
                    },
                    ..s.ctl
                };
                let congested = ctl.last_congestion matches Some(t) && ago(now, t)
                    <= CONGESTION_RECENCY;
                let moved = s.ladder.considered(now, link, ctl.slow_start, congested);
                level == moved.1 && *final(self) == (Session { ctl, ladder: moved.0, ..s })
            }),
    {
        if self.pending.is_none() && inflight == 0 {
            self.ctl.note_idle(now);
        }
        let slow: bool = self.ctl.is_slow_start();
        let congested: bool = self.ctl.congested_recently(now);
        self.ladder.consider(now, link, slow, congested)
    }

    /// The client's window has another size or scale: within the size it
    /// declared, evened, and not below the smallest. A mirrored screen is
    /// fitted; a headless output follows, unless nothing changed.
    pub fn resize(&mut self, width: u32, height: u32, same_scale: bool) -> (r: Resize)
        requires
            old(self).wf(),
        ensures
            final(self).wf(),
            ({
                let s = *old(self);
                let w = even(
                    if width < s.max_size.width {
                        width
                    } else {
                        s.max_size.width
                    },
                );
                let h = even(
                    if height < s.max_size.height {
                        height
                    } else {
                        s.max_size.height
                    },
                );
                let size = Size { width: w, height: h };
                if w < MIN_WIDTH || h < MIN_HEIGHT {
                    r == Resize::Ignore && *final(self) == s
                } else {
                    &&& *final(self) == (Session { client_extent: size, ..s })
                    &&& r == if !s.headless {
                        Resize::Fit(size)
                    } else if size == s.output && same_scale {
                        Resize::Ignore
                    } else {
                        Resize::SetMode(size)
                    }
                }
            }),
    {
        let w: u32 = even_of(
            if width < self.max_size.width {
                width
            } else {
                self.max_size.width
            },
        );
        let h: u32 = even_of(
            if height < self.max_size.height {
                height
            } else {
                self.max_size.height
            },
        );
        if w < MIN_WIDTH || h < MIN_HEIGHT {
            return Resize::Ignore;
        }
        let size: Size = Size { width: w, height: h };
        self.client_extent = size;
        if !self.headless {
            return Resize::Fit(size);
        }
        if size == self.output && same_scale {
            return Resize::Ignore;
        }
        Resize::SetMode(size)
    }

    /// The stream size that the level asks for, before the encoder's limit.
    pub fn level_size(&self) -> (s: Size)
        requires
            self.wf(),
        ensures
            s.width == scaled(self.base_stream.width, self.level().scale_percent),
            s.height == scaled(self.base_stream.height, self.level().scale_percent),
    {
        let p: u32 = self.ladder.level().scale_percent;
        Size { width: scale_down(self.base_stream.width, p), height: scale_down(self.base_stream.height, p) }
    }

    /// Bring the stream to a size, at the level's chroma and cadence. A
    /// change of size or chroma takes another encoder; a change of cadence
    /// alone does not.
    pub fn plan(&mut self, want: Size) -> (p: Plan)
        requires
            old(self).wf(),
        ensures
            final(self).wf(),
            *final(self) == (Session { fps_cmd: old(self).cadence(old(self).sustainable), ..*old(self) }),
            p == if want == old(self).stream && old(self).level_chroma() == old(self).chroma {
                Plan::Keep
            } else {
                Plan::Rebuild { size: want, chroma: old(self).level_chroma() }
            },
    {
        let fps: u32 = self.cadence_at(self.sustainable);
        self.fps_cmd = fps;
        let chroma: ChromaMode = self.active_chroma();
        if want == self.stream && chroma == self.chroma {
            Plan::Keep
        } else {
            Plan::Rebuild { size: want, chroma }
        }
    }

    /// What to program the encoder with, so bits per frame match the frames
    /// that really leave.
    pub fn rate(&self) -> (r: Rate)
        requires
            self.wf(),
        ensures
            r.bitrate == if self.ctl.target / self.ctl.streams < 1 {
                1
            } else {
                self.ctl.target / self.ctl.streams
            },
            r.fps == self.fps_cmd,
            r.vbv_ms == if !self.ctl.got_ack {
                250u32
            } else if self.ctl.frame_budget(self.fps_cmd) < 2 * self.ctl.floor_bpf {
                100
            } else {
                500
            },
    {
        Rate { bitrate: self.ctl.stream_bitrate(), fps: self.fps_cmd, vbv_ms: self.ctl.vbv_ms(self.fps_cmd) }
    }

    /// Before an encoder is built for another size: the controller follows.
    pub fn prepare(&mut self, bounds: Bounds, chroma: ChromaMode)
        requires
            old(self).wf(),
        ensures
            final(self).wf(),
            ({
                let bare = old(self).ctl.bounded(bounds, streams_of(chroma));
                *final(self) == (Session {
                    ctl: bare.aimed(
                        clamped(old(self).ctl.target, bare.min, bare.ceiling()),
                    ),
                    ..*old(self)
                })
            }),
    {
        self.ctl.reconfigure(bounds, streams(chroma));
    }

    /// The encoder for another size is there. The kept still frame makes the
    /// new stream's keyframe at once, even when nothing changes on screen.
    pub fn rebuilt(&mut self, now: u64, size: Size, chroma: ChromaMode)
        requires
            old(self).wf(),
        ensures
            final(self).wf(),
            *final(self) == (Session {
                stream: size,
                chroma,
                want_keyframe: true,
                sustainable: MAX_FPS,
                refines: 0,
                next_refine_at: now,
                ..*old(self)
            }),
    {
        self.stream = size;
        self.chroma = chroma;
        self.want_keyframe = true;
        self.sustainable = MAX_FPS;
        self.refines = 0;
        self.next_refine_at = now;
    }

    /// Another full-quality fit size; where the encoder then refuses it, the
    /// one before is set again. Returns the one before, unless it is the same.
    pub fn rebase(&mut self, base: Size) -> (before: Option<Size>)
        requires
            old(self).wf(),
        ensures
            final(self).wf(),
            before == if base == old(self).base_stream {
                None
            } else {
                Some(old(self).base_stream)
            },
            *final(self) == (Session { base_stream: base, ..*old(self) }),
    {
        if base == self.base_stream {
            return None;
        }
        let before: Size = self.base_stream;
        self.base_stream = base;
        Some(before)
    }

    /// The headless output has a size.
    pub fn set_output(&mut self, size: Size)
        requires
            old(self).wf(),
        ensures
            final(self).wf(),
            *final(self) == (Session { output: size, ..*old(self) }),
    {
        self.output = size;
    }

    /// What the client is told of the active stream, view and fps cap.
    /// Parameter sets ride in-band on every keyframe.
    pub fn config_msg(&mut self, scale_milli: u32) -> (msg: ServerMsg)
        requires
            old(self).wf(),
        ensures
            final(self).wf(),
            *final(self) == (Session { sent_fps_cap: old(self).cap(), ..*old(self) }),
            msg matches ServerMsg::StreamConfig {
                codec,
                chroma,
                pipeline,
                width,
                height,
                scale_milli: scale,
                extradata,
                aux_extradata,
                view_width,
                view_height,
                fps_cap,
            } && codec == Codec::H264 && chroma == old(self).chroma && pipeline == Some(old(self).pipeline) && width
                == old(self).stream.width && height == old(self).stream.height && scale == scale_milli
                && extradata@.len() == 0 && aux_extradata is None && view_width == old(self).base_stream.width
                && view_height == old(self).base_stream.height && fps_cap == old(self).cap(),
    {
        let cap: u32 = self.fps_cap();
        self.sent_fps_cap = cap;
        ServerMsg::StreamConfig {
            codec: Codec::H264,
            chroma: self.chroma,
            pipeline: Some(self.pipeline),
            width: self.stream.width,
            height: self.stream.height,
            scale_milli,
            extradata: Vec::new(),
            aux_extradata: None,
            view_width: self.base_stream.width,
            view_height: self.base_stream.height,
            fps_cap: cap,
        }
    }
}

fn scale_down(n: u32, percent: u32) -> (s: u32)
    requires
        percent <= 100,
    ensures
        s == scaled(n, percent),
{
    let n: u64 = n as u64;
    let percent: u64 = percent as u64;
    proof {
        assert(n * percent <= n * 100) by (nonlinear_arith)
            requires
                percent <= 100,
        ;
    }
    let s: u64 = n * percent / 100;
    if s < 2 {
        2
    } else {
        (s - s % 2) as u32
    }
}

/// Whether a rate change is worth a software encoder's rebuild and keyframe:
/// a tenth of the bitrate, or another frame rate.
pub fn worth_rebuilding(bitrate: u32, framerate: u32, next_bitrate: u32, next_framerate: u32) -> (yes: bool)
    ensures
        yes == (framerate != next_framerate || 10 * (if next_bitrate > bitrate {
            next_bitrate - bitrate
        } else {
            bitrate - next_bitrate
        }) >= if bitrate < 1 {
            1
        } else {
            bitrate as int
        }),
{
    let by: u32 = if next_bitrate > bitrate {
        next_bitrate - bitrate
    } else {
        bitrate - next_bitrate
    };
    let base: u32 = if bitrate < 1 {
        1
    } else {
        bitrate
    };
    framerate != next_framerate || 10 * by as u64 >= base as u64
}

proof fn lemma_interval(fps: u32)
    requires
        1 <= fps <= MAX_FPS,
    ensures
        0 < interval(fps) <= 1_000_000_000,
{
    reveal(interval);
    assert(0 < (2_000_000_000 + fps) / (2 * fps as int) <= 1_000_000_000) by (nonlinear_arith)
        requires
            1 <= fps <= 60,
    ;
}

/// Frames leave no faster than the cadence: after one is sent, the next pass
/// that encodes comes at least an interval after that frame's encode began.
pub proof fn law_frames_are_paced(s: Session, now: u64, t0: u64, sustainable: u32, later: u64, ready: bool, room: bool)
    requires
        s.wf(),
        t0 + 1_000_000_000 <= u64::MAX,
        s.next_send_at + 1_000_000_000 <= u64::MAX,
        s.after_sent(now, t0, sustainable).to_encode(later, ready, room) != Encode::Nothing,
    ensures
        later >= t0 + interval(s.after_sent(now, t0, sustainable).fps_cmd),
{
    law_levels_keep_the_floors(s.ladder.index as int);
    lemma_interval(s.after_sent(now, t0, sustainable).fps_cmd);
}

/// A wait counts as congestion once per frame, however often the session
/// looks at it.
pub proof fn law_a_wait_counts_once(s: Session, now: u64, later: u64)
    requires
        s.wf(),
        s.pending is Some,
    ensures
        !s.pumped(now, true, false).blocked(true, false),
        s.pumped(now, true, false).pumped(later, true, false).ctl == s.pumped(now, true, false).ctl,
{
}

/// A still picture is refined so many times and no more.
pub proof fn law_refinement_ends(s: Session, now: u64, ready: bool, room: bool)
    requires
        s.wf(),
        s.pending is None,
        s.refines == MAX_REFINES,
    ensures
        s.to_encode(now, ready, room) == Encode::Nothing,
        s.pumped(now, ready, room).last_frame == s.last_frame,
{
}

/// A capture is always asked for, so the frame that goes out is the newest.
pub proof fn law_a_capture_is_outstanding(s: Session, now: u64, ready: bool, room: bool)
    requires
        s.wf(),
    ensures
        s.pumped(now, ready, room).capture_asked,
{
}

/// Frames go out at the pace the encoder keeps up with, no faster than the
/// level allows nor than 60 a second, and at least one a second.
pub proof fn law_the_pace_keeps_the_level(s: Session, sustainable: u32)
    requires
        s.wf(),
    ensures
        ({
            let fps = s.cadence(sustainable);
            let cap = FPS_CAPS@[s.ladder.index as int];
            &&& 1 <= fps <= 60
            &&& fps <= cap || cap == 0
            &&& sustainable >= 1 ==> fps <= sustainable
            &&& fps == sustainable || fps == cap || fps == 60 || fps == 1
            &&& 1 <= sustainable <= cap && sustainable <= 60 ==> fps == sustainable
        }),
{
}

/// The time between frames is a second shared by the frames in it, to the
/// nearest nanosecond.
pub proof fn law_intervals_share_the_second(fps: u32)
    requires
        fps >= 1,
    ensures
        ({
            let d = interval(fps);
            &&& 2 * d * fps <= 2_000_000_000 + fps
            &&& 2 * d * fps + fps > 2_000_000_000
        }),
{
    reveal(interval);
    let d = interval(fps);
    let (a, b) = (2_000_000_000 + fps, 2 * fps as int);
    assert(d * b <= a < (d + 1) * b) by (nonlinear_arith)
        requires
            d == a / b,
            b > 0,
    ;
    assert(d * b == 2 * d * fps && (d + 1) * b == 2 * d * fps + 2 * fps) by (nonlinear_arith)
        requires
            b == 2 * fps,
    ;
}

/// A frame is encoded exactly where the writer and the link have room, its
/// time has come, and one of the output's present size is there: the newest
/// that waits, else the last one again to refine it, at most eight times.
pub proof fn law_what_is_encoded(s: Session, now: u64, ready: bool, room: bool)
    requires
        s.wf(),
        s.output.width % 2 == 0,
        s.output.height % 2 == 0,
    ensures
        ({
            let e = s.to_encode(now, ready, room);
            let due = ready && room && now >= s.next_send_at;
            let fits = |f: Size| f.width - f.width % 2 == s.output.width && f.height - f.height % 2 == s.output.height;
            &&& !due ==> e == Encode::Nothing
            &&& due ==> (s.pending matches Some(f) ==> e == if fits(f) {
                Encode::Newest
            } else {
                Encode::Nothing
            })
            &&& due && s.pending is None ==> (e == Encode::Again <==> s.last_frame is Some && fits(s.last_frame->0)
                && s.refines < 8 && now >= s.next_refine_at)
            &&& s.pending is None ==> e != Encode::Newest
        }),
{
}

/// What a turn of the encoder leaves: a frame that was due is taken, a new one
/// is remembered and starts refinement over, a repeated one counts as one
/// refinement; what waited for the link is noted once.
pub proof fn law_what_a_turn_leaves(s: Session, now: u64, ready: bool, room: bool)
    requires
        s.wf(),
        now + 200_000_000 <= u64::MAX,
    ensures
        ({
            let after = s.pumped(now, ready, room);
            let e = s.to_encode(now, ready, room);
            let due = ready && room && now >= s.next_send_at;
            &&& due ==> after.pending is None
            &&& !due ==> after.pending == s.pending && after.last_frame == s.last_frame && after.refines == s.refines
            &&& e == Encode::Newest ==> after.last_frame == s.pending && after.refines == 0 &&
                after.next_refine_at == now
                + 200_000_000
            &&& e == Encode::Again ==> after.last_frame == s.last_frame && after.refines == s.refines + 1
                && after.next_refine_at == now + 200_000_000
            &&& e == Encode::Nothing ==> after.refines == s.refines && after.next_refine_at == s.next_refine_at
            &&& after.capture_asked
            &&& s.pending is Some && ready && !room && !s.blocked_noted ==> after.ctl.blocked_at_cap &&
                after.blocked_noted
            &&& !(s.pending is Some && ready && !room && !s.blocked_noted) ==> after.ctl == s.ctl && after.blocked_noted
                == s.blocked_noted
            &&& after.frame_id == s.frame_id && after.fps_cmd == s.fps_cmd && after.next_send_at == s.next_send_at
                && after.stream == s.stream && after.ladder == s.ladder
        }),
{
}

/// After a frame was sent the next one waits a full interval from its slot, or
/// from now where the slot was missed; the pace changes only by more than
/// fifteen percent; frames are numbered in turn.
pub proof fn law_what_sending_leaves(s: Session, now: u64, t0: u64, sustainable: u32)
    requires
        s.wf(),
        s.frame_id < u64::MAX,
        t0 + 1_000_000_000 <= u64::MAX,
        s.next_send_at + 1_000_000_000 <= u64::MAX,
    ensures
        ({
            let after = s.after_sent(now, t0, sustainable);
            let pace = s.cadence(sustainable);
            let change = if pace > s.fps_cmd {
                pace - s.fps_cmd
            } else {
                s.fps_cmd - pace
            };
            &&& after.frame_id == s.frame_id + 1
            &&& 100 * change > 15 * s.fps_cmd ==> after.fps_cmd == pace
            &&& 100 * change <= 15 * s.fps_cmd ==> after.fps_cmd == s.fps_cmd
            &&& after.next_send_at >= t0 + interval(after.fps_cmd) || interval(after.fps_cmd) > 1_000_000_000
            &&& interval(after.fps_cmd) <= 1_000_000_000 ==> after.next_send_at == interval(after.fps_cmd) + (
            if s.next_send_at > t0 {
                s.next_send_at
            } else {
                t0
            })
            &&& !after.blocked_noted
            &&& after.sustainable == sustainable
            &&& after.pending == s.pending && after.last_frame == s.last_frame && after.stream == s.stream
                && after.ladder == s.ladder
        }),
{
    law_levels_keep_the_floors(s.ladder.index as int);
    lemma_interval(s.after_sent(now, t0, sustainable).fps_cmd);
}

/// A stream is made smaller to its share of the size, in even numbers, and
/// never under two pixels.
pub proof fn law_scaled_sizes_are_even(n: u32, percent: u32)
    requires
        percent <= 100,
    ensures
        scaled(n, percent) % 2 == 0,
        scaled(n, percent) >= 2,
        n >= 2 ==> scaled(n, percent) <= n,
        scaled(n, percent) > 2 ==> 100 * scaled(n, percent) <= n * percent < 100 * (scaled(n, percent) + 2),
        n % 2 == 0 && n >= 2 ==> scaled(n, 100) == n,
{
    let s = n as int * percent / 100;
    assert(n * percent <= n * 100) by (nonlinear_arith)
        requires
            percent <= 100,
    ;
}

/// The second stream is dropped where the level gives it up and the client can
/// do without it, and nowhere else.
pub proof fn law_the_second_stream_is_given_up(s: Session)
    requires
        s.wf(),
    ensures
        s.ladder.index >= 3 && s.can_drop_aux ==> s.level_chroma() == ChromaMode::Single420,
        s.ladder.index < 3 || !s.can_drop_aux ==> s.level_chroma() == s.base_chroma,
{
    crate::rate::ladder::law_levels_give_up_in_order(s.ladder.index as int);
}

/// A frame may go where nothing is under way, however large it is, or where it
/// fits under the cap with what is.
pub proof fn law_frames_fit_under_the_cap(inflight: u64, n: int, cap: u64)
    ensures
        inflight == 0 ==> has_room(inflight, n, cap),
        inflight > 0 ==> (has_room(inflight, n, cap) <==> inflight + n <= cap),
{
}

} // verus!
