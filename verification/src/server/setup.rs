//! What a session is set up with: the output it serves, the video pipeline,
//! and what both ends can speak.

use crate::cbor::item::F32;
use crate::msg::greeting::Greeting;
use crate::msg::protocol::{ERROR_NO_CHROMA, ERROR_VERSION, PROTOCOL_VERSION};
use crate::msg::server::ServerMsg;
use crate::msg::types::{ChromaMode, ClientCaps, VideoPipeline};
use crate::text::{decimal, push_decimal, text_eq};
use crate::video::VideoMode;
use vstd::prelude::*;
use vstd::string::StringExecFns;

verus! {

/// A size in physical pixels.
#[derive(Debug, Clone, Copy, PartialEq, Eq, Structural)]
pub struct Size {
    pub width: u32,
    pub height: u32,
}

/// The even number at or below.
pub open spec fn even(n: u32) -> u32 {
    (n - n % 2) as u32
}

pub fn even_of(n: u32) -> (e: u32)
    ensures
        e == even(n),
{
    n - n % 2
}

impl Size {
    pub open spec fn evened(self) -> Size {
        Size { width: even(self.width), height: even(self.height) }
    }

    pub fn even(self) -> (s: Size)
        ensures
            s == self.evened(),
    {
        Size { width: even_of(self.width), height: even_of(self.height) }
    }
}

/// A screen of the compositor.
#[derive(Debug, Clone, PartialEq, Eq)]
pub struct Monitor {
    pub name: String,
    pub width: u32,
    pub height: u32,
    pub x: i32,
    pub y: i32,
    pub scale: F32,
    pub focused: bool,
    pub disabled: bool,
}

/// Whether `a` lies before `b`, from left to right and then from the top.
pub open spec fn lies_before(a: Monitor, b: Monitor) -> bool {
    a.x < b.x || (a.x == b.x && a.y < b.y)
}

/// Whether the screen at `i` is the main one: the first focused one that is
/// enabled, or where none is focused, the first of the leftmost enabled ones.
pub open spec fn is_main(mons: Seq<Monitor>, i: int) -> bool {
    &&& 0 <= i < mons.len()
    &&& !mons[i].disabled
    &&& if mons[i].focused {
        forall|k: int| 0 <= k < i ==> !(mons[k].focused && !(#[trigger] mons[k]).disabled)
    } else {
        &&& forall|k: int| 0 <= k < mons.len() ==> !(mons[k].focused && !(#[trigger] mons[k]).disabled)
        &&& forall|k: int| 0 <= k < mons.len() && !(#[trigger] mons[k]).disabled ==> !lies_before(mons[k], mons[i])
        &&& forall|k: int| 0 <= k < i && !(#[trigger] mons[k]).disabled ==> lies_before(mons[i], mons[k])
    }
}

/// The screen the user is most likely looking at: the focused monitor, else
/// the leftmost enabled one.
pub fn main_monitor(mons: &[Monitor]) -> (at: Option<usize>)
    ensures
        at matches Some(i) ==> is_main(mons@, i as int),
        at is None ==> forall|k: int| 0 <= k < mons@.len() ==> (#[trigger] mons@[k]).disabled,
{
    let n: usize = mons.len();
    for i in 0..n
        invariant
            n == mons@.len(),
            forall|k: int| 0 <= k < i ==> !(mons@[k].focused && !(#[trigger] mons@[k]).disabled),
    {
        if mons[i].focused && !mons[i].disabled {
            return Some(i);
        }
    }
    let mut best: Option<usize> = None;
    for i in 0..n
        invariant
            n == mons@.len(),
            forall|k: int| 0 <= k < n ==> !(mons@[k].focused && !(#[trigger] mons@[k]).disabled),
            best is None ==> forall|k: int| 0 <= k < i ==> (#[trigger] mons@[k]).disabled,
            best matches Some(b) ==> {
                &&& b < i
                &&& !mons@[b as int].disabled
                &&& forall|k: int|
                    0 <= k < i && !(#[trigger] mons@[k]).disabled ==> !lies_before(mons@[k], mons@[b as int])
                &&& forall|k: int|
                    0 <= k < b && !(#[trigger] mons@[k]).disabled ==> lies_before(mons@[b as int], mons@[k])
            },
    {
        if !mons[i].disabled {
            best = match best {
                None => Some(i),
                Some(b) => if mons[i].x < mons[b].x || (mons[i].x == mons[b].x && mons[i].y < mons[b].y) {
                    Some(i)
                } else {
                    Some(b)
                },
            };
        }
    }
    best
}

/// The screen to mirror: by its name, or the main one for `auto`.
pub fn pick_output(mons: &[Monitor], name: &str) -> (at: Option<usize>)
    ensures
        name@ == "auto"@ ==> {
            &&& at matches Some(i) ==> is_main(mons@, i as int)
            &&& at is None ==> forall|k: int| 0 <= k < mons@.len() ==> (#[trigger] mons@[k]).disabled
        },
        name@ != "auto"@ ==> {
            &&& at matches Some(i) ==> i < mons@.len() && mons@[i as int].name@ == name@ && forall|k: int|
                0 <= k < i ==> (#[trigger] mons@[k]).name@ != name@
            &&& at is None ==> forall|k: int| 0 <= k < mons@.len() ==> (#[trigger] mons@[k]).name@ != name@
        },
{
    if text_eq(name, "auto") {
        return main_monitor(mons);
    }
    find_named(mons, name)
}

fn find_named(mons: &[Monitor], name: &str) -> (at: Option<usize>)
    ensures
        at matches Some(i) ==> i < mons@.len() && mons@[i as int].name@ == name@ && forall|k: int|
            0 <= k < i ==> (#[trigger] mons@[k]).name@ != name@,
        at is None ==> forall|k: int| 0 <= k < mons@.len() ==> (#[trigger] mons@[k]).name@ != name@,
{
    let n: usize = mons.len();
    for i in 0..n
        invariant
            n == mons@.len(),
            forall|k: int| 0 <= k < i ==> (#[trigger] mons@[k]).name@ != name@,
    {
        if text_eq(mons[i].name.as_str(), name) {
            return Some(i);
        }
    }
    None
}

/// Whether a screen with this name was there before.
pub open spec fn was_there(before: Seq<String>, name: Seq<char>) -> bool {
    exists|k: int| 0 <= k < before.len() && (#[trigger] before[k])@ == name
}

/// The screen that appeared: the compositor names a new output itself.
pub fn appeared(before: &[String], after: &[Monitor]) -> (at: Option<usize>)
    ensures
        at matches Some(i) ==> i < after@.len() && !was_there(before@, after@[i as int].name@) && forall|k: int|
            0 <= k < i ==> was_there(before@, (#[trigger] after@[k]).name@),
        at is None ==> forall|k: int| 0 <= k < after@.len() ==> was_there(before@, (#[trigger] after@[k]).name@),
{
    let n: usize = after.len();
    for i in 0..n
        invariant
            n == after@.len(),
            forall|k: int| 0 <= k < i ==> was_there(before@, (#[trigger] after@[k]).name@),
    {
        let mut known: bool = false;
        let m: usize = before.len();
        for j in 0..m
            invariant
                i < n == after@.len(),
                m == before@.len(),
                known == exists|k: int| 0 <= k < j && (#[trigger] before@[k])@ == after@[i as int].name@,
        {
            if text_eq(before[j].as_str(), after[i].name.as_str()) {
                known = true;
            }
        }
        if !known {
            return Some(i);
        }
    }
    None
}

pub open spec fn between(v: u32, low: u32, high: u32) -> u32 {
    if v < low {
        low
    } else if v > high {
        high
    } else {
        v
    }
}

fn clamp_between(v: u32, low: u32, high: u32) -> (r: u32)
    ensures
        r == between(v, low, high),
{
    if v < low {
        low
    } else if v > high {
        high
    } else {
        v
    }
}

/// The size a headless output starts with: the client's largest, within
/// limits.
pub fn headless_size(max_width: u32, max_height: u32) -> (s: Size)
    ensures
        s == (Size { width: between(max_width, 320, 1920), height: between(max_height, 240, 1080) }).evened(),
{
    Size { width: clamp_between(max_width, 320, 1920), height: clamp_between(max_height, 240, 1080) }.even()
}

/// A size and a scale that an output has.
#[derive(Debug, Clone, Copy, PartialEq, Eq, Structural)]
pub struct Mode {
    pub size: Size,
    pub scale: F32,
}

/// The mode of a screen.
pub open spec fn mode_of(m: Monitor) -> Mode {
    Mode { size: Size { width: m.width, height: m.height }, scale: m.scale }
}

/// Whether the screen at `i` is the first with this name.
pub open spec fn is_first_named(mons: Seq<Monitor>, name: Seq<char>, i: int) -> bool {
    &&& 0 <= i < mons.len()
    &&& mons[i].name@ == name
    &&& forall|k: int| 0 <= k < i ==> (#[trigger] mons[k]).name@ != name
}

/// How often an output is looked at for the mode that was asked for.
pub const MODE_POLLS: u32 = 10;

/// Waits for a new headless output to take its size. The compositor applies
/// a mode later than it answers; what it settled on is streamed, rather than
/// what was asked for.
#[derive(Debug, Clone, Copy, PartialEq, Eq, Structural)]
pub struct ModeWait {
    pub want: Size,
    /// Looks that are left.
    pub left: u32,
    /// What the last look showed that found the output.
    pub seen: Option<Mode>,
}

impl ModeWait {
    pub fn new(want: Size) -> (w: ModeWait)
        ensures
            w == (ModeWait { want, left: MODE_POLLS, seen: None }),
    {
        ModeWait { want, left: MODE_POLLS, seen: None }
    }

    /// A look at the screens. True when the wait is over: the output has the
    /// size, or no look is left.
    pub fn on_poll(&mut self, mons: &[Monitor], name: &str) -> (done: bool)
        requires
            old(self).left > 0,
        ensures
            final(self).want == old(self).want,
            final(self).left == old(self).left - 1,
            forall|i: int| #[trigger]
                is_first_named(mons@, name@, i) ==> final(self).seen == Some(mode_of(mons@[i])) && done == (
                final(self).left == 0 || mode_of(mons@[i]).size == old(self).want),
            (forall|k: int| 0 <= k < mons@.len() ==> (#[trigger] mons@[k]).name@ != name@) ==> final(self).seen == old(
                self,
            ).seen && done == (final(self).left == 0),
    {
        self.left = self.left - 1;
        match find_named(mons, name) {
            Some(at) => {
                let m: &Monitor = &mons[at];
                let mode: Mode = Mode { size: Size { width: m.width, height: m.height }, scale: m.scale };
                self.seen = Some(mode);
                proof {
                    assert forall|i: int| #[trigger] is_first_named(mons@, name@, i) implies i == at by {
                        if i < at {
                            assert(mons@[i].name@ != name@);
                        } else if at < i {
                            assert(mons@[at as int].name@ != name@);
                        }
                    }
                }
                self.left == 0 || mode.size == self.want
            },
            None => self.left == 0,
        }
    }

    /// What the output settled on, or none where it vanished.
    pub fn settled(&self) -> (m: Option<Mode>)
        ensures
            m == match self.seen {
                Some(m) => Some(Mode { size: m.size.evened(), ..m }),
                None => None,
            },
    {
        match self.seen {
            Some(m) => Some(Mode { size: m.size.even(), scale: m.scale }),
            None => None,
        }
    }
}

/// Whether the screen at `i` is the first with this name and size.
pub open spec fn is_first_at(mons: Seq<Monitor>, name: Seq<char>, size: Size, i: int) -> bool {
    &&& 0 <= i < mons.len()
    &&& mons[i].name@ == name && mode_of(mons[i]).size == size
    &&& forall|k: int| 0 <= k < i ==> !((#[trigger] mons[k]).name@ == name && mode_of(mons[k]).size == size)
}

/// The scale of an output that has taken a size, or none while it has not.
pub fn scale_at(mons: &[Monitor], name: &str, size: Size) -> (scale: Option<F32>)
    ensures
        forall|i: int| #[trigger] is_first_at(mons@, name@, size, i) ==> scale == Some(mons@[i].scale),
        scale is None <==> forall|k: int|
            0 <= k < mons@.len() ==> !((#[trigger] mons@[k]).name@ == name@ && mode_of(mons@[k]).size == size),
{
    let n: usize = mons.len();
    for i in 0..n
        invariant
            n == mons@.len(),
            forall|k: int| 0 <= k < i ==> !((#[trigger] mons@[k]).name@ == name@ && mode_of(mons@[k]).size == size),
    {
        let m: &Monitor = &mons[i];
        if text_eq(m.name.as_str(), name) && m.width == size.width && m.height == size.height {
            proof {
                assert(mons@[i as int].name@ == name@ && mode_of(mons@[i as int]).size == size);
                assert forall|j: int| #[trigger] is_first_at(mons@, name@, size, j) implies j == i by {
                    if j < i {
                        assert(!(mons@[j].name@ == name@ && mode_of(mons@[j]).size == size));
                    } else if i < j {
                        assert(!(mons@[i as int].name@ == name@ && mode_of(mons@[i as int]).size == size));
                    }
                }
            }
            return Some(m.scale);
        }
    }
    None
}

/// Waits for a resized output. The compositor may round the scale so that
/// the logical size is whole: the scale it chose is the one in effect.
#[derive(Debug, Clone, Copy, PartialEq, Eq, Structural)]
pub struct ScaleWait {
    pub asked: F32,
    pub left: u32,
    pub seen: Option<F32>,
}

impl ScaleWait {
    pub fn new(asked: F32) -> (w: ScaleWait)
        ensures
            w == (ScaleWait { asked, left: MODE_POLLS, seen: None }),
    {
        ScaleWait { asked, left: MODE_POLLS, seen: None }
    }

    /// A look at the screens found this scale (see [`scale_at`]), which is
    /// or is not close to the one asked for. True when the wait is over.
    pub fn on_poll(&mut self, found: Option<F32>, close: bool) -> (done: bool)
        requires
            old(self).left > 0,
        ensures
            *final(self) == (ScaleWait {
                left: (old(self).left - 1) as u32,
                seen: if found is Some {
                    found
                } else {
                    old(self).seen
                },
                ..*old(self)
            }),
            done == (final(self).left == 0 || (found is Some && close)),
    {
        self.left = self.left - 1;
        if found.is_some() {
            self.seen = found;
        }
        self.left == 0 || (found.is_some() && close)
    }

    /// The scale in effect: the last one found, else the one asked for.
    pub fn scale(&self) -> (s: F32)
        ensures
            s == match self.seen {
                Some(s) => s,
                None => self.asked,
            },
    {
        match self.seen {
            Some(s) => s,
            None => self.asked,
        }
    }
}

/// How a first message is answered.
#[derive(Debug)]
pub enum Handshake {
    Accept { keymap: String, caps: ClientCaps },
    /// Answer with this error and end.
    Refuse(ServerMsg),
}

/// A client of another protocol version is refused.
pub fn handshake(g: Greeting) -> (h: Handshake)
    ensures
        match g {
            Greeting::Hello { keymap, caps } => h == (Handshake::Accept { keymap, caps }),
            Greeting::OtherVersion(v) => h matches Handshake::Refuse(
                ServerMsg::Error { code, message, version },
            ) && code == ERROR_VERSION && message@ == "version "@ + decimal(v as nat) + " unsupported"@ && version
                == Some(PROTOCOL_VERSION),
        },
{
    match g {
        Greeting::Hello { keymap, caps } => Handshake::Accept { keymap, caps },
        Greeting::OtherVersion(v) => {
            let mut text: String = "version ".to_string();
            push_decimal(&mut text, v as u64);
            text.append(" unsupported");
            Handshake::Refuse(ServerMsg::error(ERROR_VERSION, text.as_str()))
        },
    }
}

pub open spec fn speaks(caps: ClientCaps, mode: ChromaMode) -> bool {
    caps.chroma@.contains(mode)
}

pub fn offers_chroma(caps: &ClientCaps, mode: ChromaMode) -> (yes: bool)
    ensures
        yes == speaks(*caps, mode),
{
    let n: usize = caps.chroma.len();
    for i in 0..n
        invariant
            n == caps.chroma@.len(),
            forall|k: int| 0 <= k < i ==> caps.chroma@[k] != mode,
    {
        if caps.chroma[i] == mode {
            return true;
        }
    }
    false
}

/// The error for a client that speaks no chroma mode of this server.
pub fn check_chroma(caps: &ClientCaps) -> (e: Option<ServerMsg>)
    ensures
        speaks(*caps, ChromaMode::Dual420) || speaks(*caps, ChromaMode::Single420) ==> e is None,
        !speaks(*caps, ChromaMode::Dual420) && !speaks(*caps, ChromaMode::Single420) ==> (e matches Some(
            ServerMsg::Error { code, message, version },
        ) && code == ERROR_NO_CHROMA && message@ == "no common chroma mode"@ && version == Some(PROTOCOL_VERSION)),
{
    if offers_chroma(caps, ChromaMode::Dual420) || offers_chroma(caps, ChromaMode::Single420) {
        None
    } else {
        Some(ServerMsg::error(ERROR_NO_CHROMA, "no common chroma mode"))
    }
}

/// The chroma mode a session starts with. The CPU tier defaults to one 4:2:0
/// stream: two double the encode work, which the CPU pays for where the GPU
/// does not. A preference only applies when the client speaks the mode.
pub fn pick_chroma(caps: &ClientCaps, pipeline: VideoPipeline, low_bandwidth: bool, full_chroma: bool) -> (mode:
    ChromaMode)
    ensures
        ({
            let prefer_single = low_bandwidth || (pipeline == VideoPipeline::Cpu && !full_chroma);
            mode == if !speaks(*caps, ChromaMode::Dual420) || (prefer_single && speaks(*caps, ChromaMode::Single420)) {
                ChromaMode::Single420
            } else {
                ChromaMode::Dual420
            }
        }),
        speaks(*caps, ChromaMode::Dual420) || speaks(*caps, ChromaMode::Single420) ==> speaks(*caps, mode),
{
    let prefer_single: bool = low_bandwidth || (pipeline == VideoPipeline::Cpu && !full_chroma);
    if !offers_chroma(caps, ChromaMode::Dual420) || (prefer_single && offers_chroma(caps, ChromaMode::Single420)) {
        ChromaMode::Single420
    } else {
        ChromaMode::Dual420
    }
}

/// How many streams a chroma mode takes.
pub open spec fn streams_of(mode: ChromaMode) -> u32 {
    if mode == ChromaMode::Dual420 {
        2
    } else {
        1
    }
}

pub fn streams(mode: ChromaMode) -> (n: u32)
    ensures
        n == streams_of(mode),
{
    if mode == ChromaMode::Dual420 {
        2
    } else {
        1
    }
}

/// The video pipeline: the GPU's where it was not refused, could be opened
/// and has an encoder; else the CPU's.
pub fn pick_tier(mode: VideoMode, gpu_can_encode: Option<bool>) -> (p: VideoPipeline)
    ensures
        p == if mode != VideoMode::Cpu && gpu_can_encode == Some(true) {
            VideoPipeline::Gpu
        } else {
            VideoPipeline::Cpu
        },
{
    if mode == VideoMode::Cpu {
        return VideoPipeline::Cpu;
    }
    match gpu_can_encode {
        Some(true) => VideoPipeline::Gpu,
        _ => VideoPipeline::Cpu,
    }
}

/// Sizes are made even by dropping at most one pixel, and kept where they are.
pub proof fn law_even_sizes(n: u32)
    ensures
        even(n) % 2 == 0,
        even(n) <= n <= even(n) + 1,
        n % 2 == 0 ==> even(n) == n,
{
}

/// What lies outside the limits is brought to the nearer one; the rest is kept.
pub proof fn law_limits_are_kept(v: u32, low: u32, high: u32)
    requires
        low <= high,
    ensures
        low <= between(v, low, high) <= high,
        low <= v <= high ==> between(v, low, high) == v,
        v < low ==> between(v, low, high) == low,
        v > high ==> between(v, low, high) == high,
{
}

/// There is at most one main monitor: of those that are on, the first that
/// has the focus, else the leftmost, the topmost of several, the first of
/// those.
pub proof fn law_there_is_one_main_monitor(mons: Seq<Monitor>, i: int, j: int)
    requires
        is_main(mons, i),
        is_main(mons, j),
    ensures
        i == j,
        !mons[i].disabled,
        forall|k: int| 0 <= k < mons.len() && !(#[trigger] mons[k]).disabled && mons[k].focused ==> mons[i].focused && i
            <= k,
        !mons[i].focused ==> forall|k: int|
            0 <= k < mons.len() && !(#[trigger] mons[k]).disabled ==> mons[i].x < mons[k].x || (mons[i].x == mons[k].x
                && (mons[i].y < mons[k].y || (mons[i].y == mons[k].y && i <= k))),
{
    assert(!mons[i].disabled && !mons[j].disabled);
    assert forall|k: int| 0 <= k < mons.len() && !(#[trigger] mons[k]).disabled && mons[k].focused implies
        mons[i].focused
        && i <= k by {}
    if !mons[i].focused {
        assert forall|k: int| 0 <= k < mons.len() && !(#[trigger] mons[k]).disabled implies mons[i].x < mons[k].x || (
        mons[i].x == mons[k].x && (mons[i].y < mons[k].y || (mons[i].y == mons[k].y && i <= k))) by {
            assert(!lies_before(mons[k], mons[i]));
        }
    }
}

/// Chroma in full takes a second stream; nothing else does.
pub proof fn law_streams_of_a_mode(mode: ChromaMode)
    ensures
        streams_of(mode) == 2 <==> mode == ChromaMode::Dual420,
        streams_of(mode) == 1 <==> mode != ChromaMode::Dual420,
{
}

/// A screen is found by its name, or by its name and size, before any other
/// that would do.
pub proof fn law_screens_are_found_first(mons: Seq<Monitor>, name: Seq<char>, size: Size, i: int, k: int)
    requires
        0 <= k < mons.len(),
        mons[k].name@ == name,
    ensures
        is_first_named(mons, name, i) ==> 0 <= i <= k && mons[i].name@ == name,
        is_first_at(mons, name, size, i) ==> 0 <= i < mons.len() && mons[i].name@ == name && mons[i].width == size.width
            && mons[i].height == size.height,
        is_first_at(mons, name, size, i) && mons[k].width == size.width && mons[k].height == size.height ==> i <= k,
        mode_of(mons[k]).size.width == mons[k].width && mode_of(mons[k]).size.height == mons[k].height && mode_of(
            mons[k],
        ).scale == mons[k].scale,
{
}

/// A screen was there where one of the names is its own.
pub proof fn law_screens_are_known_by_name(before: Seq<String>, name: Seq<char>)
    ensures
        was_there(before, name) <==> before.map_values(|s: String| s@).contains(name),
{
    let names = before.map_values(|s: String| s@);
    if was_there(before, name) {
        let k = choose|k: int| 0 <= k < before.len() && (#[trigger] before[k])@ == name;
        assert(names[k] == name);
    }
    if names.contains(name) {
        let k = choose|k: int| 0 <= k < names.len() && names[k] == name;
        assert(before[k]@ == name);
    }
}

} // verus!
