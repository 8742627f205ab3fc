//! What a check of this machine decides.

use crate::clipboard::mime::{is_text_mime, text_mime};
use crate::text::{chars_of, text_eq};
use vstd::prelude::*;
use vstd::string::StringExecFns;

verus! {

/// The line that a check prints.
pub fn status(ok: bool, what: &str) -> (line: String)
    ensures
        line@ == if ok {
            "PASS "@ + what@
        } else {
            "FAIL "@ + what@
        },
{
    let mut line: String = if ok {
        "PASS ".to_string()
    } else {
        "FAIL ".to_string()
    };
    line.append(what);
    line
}

pub const EXT_DATA_CONTROL: &'static str = "ext_data_control_manager_v1";

pub const WLR_DATA_CONTROL: &'static str = "zwlr_data_control_manager_v1";

pub const SHORTCUTS_INHIBIT: &'static str = "zwp_keyboard_shortcuts_inhibit_manager_v1";

/// Whether a compositor has a global of this name.
pub open spec fn has(globals: Seq<String>, name: Seq<char>) -> bool {
    exists|k: int| 0 <= k < globals.len() && (#[trigger] globals[k])@ == name
}

pub fn has_global(globals: &[String], name: &str) -> (yes: bool)
    ensures
        yes == has(globals@, name@),
{
    let n: usize = globals.len();
    for i in 0..n
        invariant
            n == globals@.len(),
            forall|k: int| 0 <= k < i ==> (#[trigger] globals@[k])@ != name@,
    {
        if text_eq(globals[i].as_str(), name) {
            return true;
        }
    }
    false
}

/// What a compositor has of what is needed.
#[derive(Debug, Clone, PartialEq, Eq)]
pub struct Protocols {
    /// Of each required global.
    pub required: Vec<bool>,
    /// Either of the clipboard protocols.
    pub clipboard: bool,
    /// What the client asks of its own compositor.
    pub shortcuts: bool,
    /// All that is required is there.
    pub all: bool,
}

pub fn protocols(globals: &[String], required: &[&str]) -> (p: Protocols)
    ensures
        p.required@ == Seq::new(required@.len(), |k: int| has(globals@, required@[k]@)),
        p.clipboard == (has(globals@, EXT_DATA_CONTROL@) || has(globals@, WLR_DATA_CONTROL@)),
        p.shortcuts == has(globals@, SHORTCUTS_INHIBIT@),
        p.all == forall|k: int| 0 <= k < required@.len() ==> has(globals@, (#[trigger] required@[k])@),
{
    let mut found: Vec<bool> = Vec::new();
    let mut all: bool = true;
    let n: usize = required.len();
    for i in 0..n
        invariant
            n == required@.len(),
            found@.len() == i,
            forall|k: int| 0 <= k < i ==> #[trigger] found@[k] == has(globals@, required@[k]@),
            all == forall|k: int| 0 <= k < i ==> has(globals@, (#[trigger] required@[k])@),
    {
        let ok: bool = has_global(globals, required[i]);
        all = all && ok;
        found.push(ok);
    }
    proof {
        assert(found@ =~= Seq::new(required@.len(), |k: int| has(globals@, required@[k]@)));
    }
    Protocols {
        required: found,
        clipboard: has_global(globals, EXT_DATA_CONTROL) || has_global(globals, WLR_DATA_CONTROL),
        shortcuts: has_global(globals, SHORTCUTS_INHIBIT),
        all,
    }
}

/// The output to check: the one asked for, else the first.
pub fn pick_output(asked: Option<String>, names: Vec<String>) -> (name: Option<String>)
    ensures
        name == if asked is Some {
            asked
        } else if names@.len() > 0 {
            Some(names@[0])
        } else {
            None
        },
{
    match asked {
        Some(name) => Some(name),
        None => {
            let mut names = names;
            if names.len() == 0 {
                None
            } else {
                Some(names.swap_remove(0))
            }
        },
    }
}

/// The evdev code of a key that the input check can type.
pub open spec fn key_code(ch: char) -> Option<u32> {
    match ch {
        'h' => Some(35),
        'e' => Some(18),
        'l' => Some(38),
        'o' => Some(24),
        ' ' => Some(57),
        '\n' => Some(28),
        _ => None,
    }
}

fn key_of(ch: char) -> (code: Option<u32>)
    ensures
        code == key_code(ch),
{
    match ch {
        'h' => Some(35),
        'e' => Some(18),
        'l' => Some(38),
        'o' => Some(24),
        ' ' => Some(57),
        '\n' => Some(28),
        _ => None,
    }
}

/// The keys that type a text, up to the first character that has none, and
/// that character.
pub fn typed_keys(text: &str) -> (res: (Vec<u32>, Option<char>))
    ensures
        res.0@.len() <= text@.len(),
        forall|k: int| 0 <= k < res.0@.len() ==> key_code(text@[k]) == Some(#[trigger] res.0@[k]),
        match res.1 {
            Some(ch) => res.0@.len() < text@.len() && ch == text@[res.0@.len() as int] && key_code(ch) is None,
            None => res.0@.len() == text@.len(),
        },
{
    let chars: Vec<char> = chars_of(text);
    let mut codes: Vec<u32> = Vec::new();
    let n: usize = chars.len();
    for i in 0..n
        invariant
            chars@ == text@,
            n == chars@.len(),
            codes@.len() == i,
            forall|k: int| 0 <= k < i ==> key_code(text@[k]) == Some(#[trigger] codes@[k]),
    {
        match key_of(chars[i]) {
            Some(code) => codes.push(code),
            None => return (codes, Some(chars[i])),
        }
    }
    (codes, None)
}

/// What a capture has brought.
#[derive(Debug, Clone, Copy, PartialEq, Eq, Structural)]
pub struct Watch {
    pub cursor: bool,
    pub got_frame: bool,
    pub got_cursor: bool,
}

/// What the capture says.
#[derive(Debug, Clone, Copy, PartialEq, Eq, Structural)]
pub enum Captured {
    Ready,
    Frame,
    CursorShape,
    CursorPos,
    Stopped,
    Error,
}

impl Watch {
    /// Watch for a frame, and where asked for, a cursor shape.
    pub fn new(cursor: bool) -> (w: Watch)
        ensures
            w == (Watch { cursor, got_frame: false, got_cursor: !cursor }),
    {
        Watch { cursor, got_frame: false, got_cursor: !cursor }
    }

    /// Whether there is more to wait for.
    pub fn waits(&self) -> (yes: bool)
        ensures
            yes == !(self.got_frame && self.got_cursor),
    {
        !(self.got_frame && self.got_cursor)
    }

    /// Takes an event; false where the capture failed.
    pub fn on_event(&mut self, e: Captured) -> (ok: bool)
        ensures
            ok == !(e is Stopped || e is Error),
            *final(self) == (Watch {
                got_frame: old(self).got_frame || e is Frame,
                got_cursor: old(self).got_cursor || e is CursorShape,
                ..*old(self)
            }),
    {
        match e {
            Captured::Frame => {
                self.got_frame = true;
                true
            },
            Captured::CursorShape => {
                self.got_cursor = true;
                true
            },
            Captured::Stopped => false,
            Captured::Error => false,
            _ => true,
        }
    }
}

/// How many pixels of a cursor image show.
pub open spec fn opaque_pixels(argb: Seq<u8>, n: int) -> nat
    decreases n,
{
    if n <= 0 {
        0
    } else {
        opaque_pixels(argb, n - 1) + if argb[(n - 1) * 4 + 3] > 0 {
            1nat
        } else {
            0
        }
    }
}

pub fn count_opaque(argb: &[u8]) -> (count: usize)
    ensures
        count == opaque_pixels(argb@, argb@.len() as int / 4),
{
    let n: usize = argb.len() / 4;
    let mut count: usize = 0;
    for i in 0..n
        invariant
            n == argb@.len() / 4,
            argb@.len() <= usize::MAX,
            count <= i,
            count == opaque_pixels(argb@, i as int),
    {
        if argb[i * 4 + 3] > 0 {
            count = count + 1;
        }
    }
    count
}

/// The name of the tier that a pipeline check ran on, and the PSNR in
/// decibels that it has to exceed. OpenH264 takes a first keyframe's QP from
/// a fixed bits-per-pixel table, so the CPU tier scores a few dB below the GPU
/// on the same frame.
pub fn tier_floor(gpu: bool) -> (tier: (&'static str, u32))
    ensures
        tier.0@ == if gpu {
            "GPU"@
        } else {
            "CPU"@
        },
        tier.1 == if gpu {
            35u32
        } else {
            32u32
        },
{
    if gpu {
        ("GPU", 35)
    } else {
        ("CPU", 32)
    }
}

/// Whether a keymap seen has Caps Lock as this keysym.
pub fn saw(seen: &[String], want: &str) -> (yes: bool)
    ensures
        yes == has(seen@, want@),
{
    has_global(seen, want)
}

/// The first text flavour that a selection offers.
pub fn first_text(offered: &[String]) -> (at: Option<usize>)
    ensures
        match at {
            Some(i) => i < offered@.len() && text_mime(offered@[i as int]@) && forall|k: int|
                0 <= k < i ==> !text_mime((#[trigger] offered@[k])@),
            None => forall|k: int| 0 <= k < offered@.len() ==> !text_mime((#[trigger] offered@[k])@),
        },
{
    let n: usize = offered.len();
    for i in 0..n
        invariant
            n == offered@.len(),
            forall|k: int| 0 <= k < i ==> !text_mime((#[trigger] offered@[k])@),
    {
        if is_text_mime(offered[i].as_str()) {
            return Some(i);
        }
    }
    None
}

/// The pixels that show are those whose last byte of four is not zero.
pub proof fn law_opaque_pixels_are_counted(argb: Seq<u8>, n: int)
    requires
        0 <= 4 * n <= argb.len(),
    ensures
        opaque_pixels(argb, n) == Seq::new(n as nat, |i: int| argb[4 * i + 3]).filter(|a: u8| a != 0).len(),
    decreases n,
{
    reveal(Seq::filter);
    let all = Seq::new(n as nat, |i: int| argb[4 * i + 3]);
    let test = |a: u8| a != 0;
    if n > 0 {
        law_opaque_pixels_are_counted(argb, n - 1);
        assert(all.drop_last() =~= Seq::new((n - 1) as nat, |i: int| argb[4 * i + 3]));
        assert(all.last() == argb[(n - 1) * 4 + 3]);
    } else {
        assert(all.filter(test) =~= Seq::empty());
    }
}

/// The keys that can be typed, by their evdev codes.
pub proof fn law_keys_have_their_codes(ch: char)
    ensures
        key_code(ch) == Some(18u32) <==> ch == 'e',
        key_code(ch) == Some(24u32) <==> ch == 'o',
        key_code(ch) == Some(28u32) <==> ch == '\n',
        key_code(ch) == Some(35u32) <==> ch == 'h',
        key_code(ch) == Some(38u32) <==> ch == 'l',
        key_code(ch) == Some(57u32) <==> ch == ' ',
        key_code(ch) is Some <==> ch == 'e' || ch == 'o' || ch == '\n' || ch == 'h' || ch == 'l' || ch == ' ',
{
}

} // verus!
