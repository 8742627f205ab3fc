//! What the window decides: input codes, resizes, reconnects, the clipboard,
//! the cursor and the frame's size.

use crate::client::cursor::quad;
use crate::client::endpoint::{Endpoint, SshTarget};
use crate::text::{decimal, push_decimal, text_eq};
use vstd::prelude::*;
use vstd::string::StringExecFns;
use vstd::utf8::encode_utf8;

verus! {

/// A decoded picture for the window.
#[derive(Debug, Clone, PartialEq, Eq)]
pub struct DecodedFrame {
    pub width: usize,
    pub height: usize,
    pub bgra: Vec<u8>,
}

/// GTK button number to evdev `BTN_*`.
pub open spec fn button_code(n: u32) -> u32 {
    match n {
        2 => 0x112,
        3 => 0x111,
        8 => 0x116,
        9 => 0x115,
        _ => 0x110,
    }
}

/// GTK button number to evdev `BTN_*`: left, middle, right, side (back) and
/// extra (forward); any other is the left button.
pub fn evdev_button(n: u32) -> (code: u32)
    ensures
        code == button_code(n),
{
    match n {
        2 => 0x112,
        3 => 0x111,
        8 => 0x116,
        9 => 0x115,
        _ => 0x110,
    }
}

/// A hardware keycode to the evdev code, eight less.
pub fn evdev_key(keycode: u32) -> (code: u32)
    ensures
        code == if keycode < 8 {
            0
        } else {
            (keycode - 8) as u32
        },
{
    if keycode < 8 {
        0
    } else {
        keycode - 8
    }
}

/// A widget size below this in either direction is not a size yet.
pub const MIN_SIDE: i32 = 64;

/// Polls that a size must outlast.
pub const STABLE_POLLS: u32 = 2;

/// Tells the server of a new size once it has been stable.
#[derive(Debug, Clone, Copy, PartialEq, Eq)]
pub struct Debounce {
    pub sent: (i32, i32),
    pub seen: (i32, i32),
    /// Polls since the size was first seen.
    pub polls: u32,
}

/// Whether a widget of this size is shown at all.
pub open spec fn sized(width: i32, height: i32) -> bool {
    width >= MIN_SIDE && height >= MIN_SIDE
}

impl Debounce {
    /// Polls that a size has outlasted.
    pub open spec fn outlasted(self, width: i32, height: i32) -> u32 {
        if self.seen == (width, height) {
            (self.polls + 1) as u32
        } else {
            0
        }
    }

    /// Whether a poll that finds this size tells the server.
    pub open spec fn due(self, width: i32, height: i32) -> bool {
        sized(width, height) && self.outlasted(width, height) == STABLE_POLLS && self.sent != (width, height)
    }

    /// After a poll that finds this size.
    pub open spec fn after(self, width: i32, height: i32) -> Debounce {
        if !sized(width, height) {
            self
        } else {
            Debounce {
                sent: if self.due(width, height) {
                    (width, height)
                } else {
                    self.sent
                },
                seen: (width, height),
                polls: self.outlasted(width, height),
            }
        }
    }

    pub fn new() -> (d: Debounce)
        ensures
            d == (Debounce { sent: (0, 0), seen: (0, 0), polls: 0 }),
    {
        Debounce { sent: (0, 0), seen: (0, 0), polls: 0 }
    }

    /// The widget has this size now. The size to send, if any.
    pub fn poll(&mut self, width: i32, height: i32) -> (send: Option<(u32, u32)>)
        requires
            old(self).polls < u32::MAX,
        ensures
            send == if old(self).due(width, height) {
                Some((width as u32, height as u32))
            } else {
                None
            },
            *final(self) == old(self).after(width, height),
    {
        if width < MIN_SIDE || height < MIN_SIDE {
            return None;
        }
        if self.seen.0 == width && self.seen.1 == height {
            self.polls = self.polls + 1;
        } else {
            self.seen = (width, height);
            self.polls = 0;
        }
        if self.polls == STABLE_POLLS && !(self.sent.0 == width && self.sent.1 == height) {
            self.sent = (width, height);
            return Some((width as u32, height as u32));
        }
        None
    }
}

/// A size is told once, and only after it was found in three polls in a row:
/// a poll that finds the size last sent, or one that was not stable, tells
/// nothing, and no poll but one that tells changes what was last sent.
pub proof fn law_a_size_is_told_once(d: Debounce, width: i32, height: i32)
    requires
        d.polls < u32::MAX,
    ensures
        d.sent == (width, height) ==> !d.due(width, height),
        d.seen != (width, height) ==> !d.due(width, height),
        d.due(width, height) ==> d.polls + 1 == STABLE_POLLS && d.after(width, height).sent == (width, height),
        !d.due(width, height) ==> d.after(width, height).sent == d.sent,
{
}

/// Failed attempts in a row before the user has to ask again.
pub const MAX_RETRIES: u32 = 5;

/// How long a reconnect waits, in milliseconds.
pub const RETRY_DELAY_MS: u64 = 1500;

/// Consecutive failed connection attempts, reset on a successful connect.
#[derive(Debug, Clone, Copy, PartialEq, Eq, Structural)]
pub struct Retries {
    pub failed: u32,
}

/// What follows a lost connection.
#[derive(Debug, Clone, PartialEq, Eq)]
pub struct Reconnect {
    /// Try again after the delay.
    pub again: bool,
    /// What the window says.
    pub text: String,
}

impl Retries {
    pub fn new() -> (r: Retries)
        ensures
            r.failed == 0,
    {
        Retries { failed: 0 }
    }

    pub fn on_connected(&mut self)
        ensures
            final(self).failed == 0,
    {
        self.failed = 0;
    }

    /// The connection was lost or could not be made.
    pub fn on_lost(&mut self) -> (r: Reconnect)
        requires
            old(self).failed < u32::MAX,
        ensures
            final(self).failed == old(self).failed + 1,
            r.again == (final(self).failed <= MAX_RETRIES),
            r.text@ == if r.again {
                "Reconnecting… (attempt "@ + decimal(final(self).failed as nat) + ")"@
            } else {
                "Disconnected — press Connect to retry"@
            },
    {
        self.failed = self.failed + 1;
        if self.failed > MAX_RETRIES {
            return Reconnect { again: false, text: "Disconnected — press Connect to retry".to_string() };
        }
        let mut text: String = "Reconnecting… (attempt ".to_string();
        push_decimal(&mut text, self.failed as u64);
        text.append(")");
        Reconnect { again: true, text }
    }
}

/// Whether a local text selection goes to the server: not what was just
/// received from it, and of no more bytes than fit.
pub fn forwards_text(text: &str, last_remote: Option<&str>, max: u64) -> (yes: bool)
    ensures
        yes == (!(last_remote matches Some(r) && r@ == text@) && encode_utf8(text@).len() <= max),
{
    let echo: bool = match last_remote {
        Some(r) => text_eq(r, text),
        None => false,
    };
    !echo && text.as_bytes().len() as u64 <= max
}

/// What to do with a remote cursor.
#[derive(Debug, Clone, Copy, PartialEq, Eq, Structural)]
pub enum CursorImage {
    /// Not an image: leave the cursor as it is.
    Keep,
    /// Fully transparent: hide the pointer over the video.
    Hide,
    Show,
}

/// Whether a pixel of the image shows.
pub open spec fn shows(argb: Seq<u8>) -> bool {
    exists|i: int| 0 <= i < argb.len() as int / 4 && #[trigger] argb[4 * i + 3] != 0
}

/// What to do with a remote cursor, by its size and pixels.
pub fn cursor_image(width: u32, height: u32, argb: &[u8]) -> (c: CursorImage)
    ensures
        c == if width == 0 || height == 0 || argb@.len() < width * height * 4 {
            CursorImage::Keep
        } else if shows(argb@) {
            CursorImage::Show
        } else {
            CursorImage::Hide
        },
{
    let len: usize = argb.len();
    proof {
        assert(width * height <= u32::MAX * u32::MAX) by (nonlinear_arith)
            requires
                width <= u32::MAX,
                height <= u32::MAX,
        ;
    }
    if width == 0 || height == 0 || (len as u128) < width as u128 * height as u128 * 4 {
        return CursorImage::Keep;
    }
    let n: usize = len / 4;
    for i in 0..n
        invariant
            len == argb@.len(),
            n == len / 4,
            width > 0 && height > 0 && width * height * 4 <= len,
            forall|k: int| 0 <= k < i ==> #[trigger] argb@[4 * k + 3] == 0,
    {
        if argb[4 * i + 3] != 0 {
            assert(argb@[4 * (i as int) + 3] != 0);
            return CursorImage::Show;
        }
    }
    CursorImage::Hide
}

/// How the command line and the host that was typed in name the server; none
/// where no host was given.
pub fn connect_endpoint(connect: Option<String>, host: String, server_bin: String, headless: bool) -> (e: Option<
    Endpoint,
>)
    ensures
        match connect {
            Some(addr) => e == Some(Endpoint::Tcp(addr)),
            None => if host@.len() == 0 {
                e is None
            } else {
                &&& e matches Some(Endpoint::Ssh(t))
                &&& t.host == host
                &&& t.server_bin == Some(server_bin)
                &&& t.ssh_args@.len() == 0
                &&& t.server_args@.len() == if headless {
                    1int
                } else {
                    0
                }
                &&& headless ==> t.server_args@[0]@ == "--headless"@
            },
        },
{
    match connect {
        Some(addr) => Some(Endpoint::Tcp(addr)),
        None => {
            if host.as_str().is_empty() {
                return None;
            }
            let mut server_args: Vec<String> = Vec::new();
            if headless {
                server_args.push("--headless".to_string());
            }
            Some(Endpoint::Ssh(SshTarget { host, server_bin: Some(server_bin), server_args, ssh_args: Vec::new() }))
        },
    }
}

/// A frame's size on the screen, and what it is drawn at: one stream pixel
/// per device pixel.
#[derive(Debug, Clone, Copy, PartialEq, Eq)]
pub struct FrameSize {
    /// The texture's size; none before the first frame.
    pub texture: Option<(i32, i32)>,
    pub scale: i32,
}

/// A length in logical pixels.
pub open spec fn logical(n: i32, scale: i32) -> i32 {
    if scale > 1 {
        (n / scale) as i32
    } else {
        n
    }
}

impl FrameSize {
    /// The texture's sides are not negative.
    pub open spec fn wf(&self) -> bool {
        self.texture matches Some((w, h)) ==> w >= 0 && h >= 0
    }

    pub fn new() -> (f: FrameSize)
        ensures
            f == (FrameSize { texture: None, scale: 1 }),
            f.wf(),
    {
        FrameSize { texture: None, scale: 1 }
    }

    /// The size that the widget is measured by.
    pub fn intrinsic(&self) -> (size: (i32, i32))
        requires
            self.wf(),
        ensures
            size == match self.texture {
                Some((w, h)) => (logical(w, self.scale), logical(h, self.scale)),
                None => (0, 0),
            },
    {
        match self.texture {
            Some((w, h)) => if self.scale > 1 {
                (w / self.scale, h / self.scale)
            } else {
                (w, h)
            },
            None => (0, 0),
        }
    }

    /// Show a texture, drawn 1:1 on a display of this scale; whether the size
    /// has to be measured anew.
    pub fn set_frame(&mut self, width: i32, height: i32, scale: i32) -> (changed: bool)
        requires
            width >= 0,
            height >= 0,
        ensures
            *final(self) == (FrameSize { texture: Some((width, height)), scale }),
            final(self).wf(),
            changed == (old(self).scale != scale || old(self).texture != Some((width, height))),
    {
        let same: bool = match self.texture {
            Some((w, h)) => w == width && h == height,
            None => false,
        };
        let changed: bool = self.scale != scale || !same;
        self.texture = Some((width, height));
        self.scale = scale;
        changed
    }
}

/// Mouse buttons by their evdev codes: left, middle, right, back and forward;
/// any other is taken as left.
pub proof fn law_buttons_have_their_codes(n: u32)
    ensures
        button_code(n) == 0x112 <==> n == 2,
        button_code(n) == 0x111 <==> n == 3,
        button_code(n) == 0x116 <==> n == 8,
        button_code(n) == 0x115 <==> n == 9,
        n != 2 && n != 3 && n != 8 && n != 9 ==> button_code(n) == 0x110,
{
}

/// A size is told when it has been seen at three polls in a row and is not the
/// one told last; a size too small to use changes nothing.
pub proof fn law_a_size_must_last(d: Debounce, width: i32, height: i32)
    requires
        d.polls < u32::MAX,
    ensures
        ({
            let after = d.after(width, height);
            let small = width < 64 || height < 64;
            &&& small ==> after == d && !d.due(width, height)
            &&& !small ==> after.seen == (width, height)
            &&& !small && d.seen == (width, height) ==> after.polls == d.polls + 1
            &&& !small && d.seen != (width, height) ==> after.polls == 0 && !d.due(width, height)
            &&& d.due(width, height) <==> !small && d.seen == (width, height) && d.polls == 1 && d.sent != (width,
                height)
            &&& d.due(width, height) ==> after.sent == (width, height)
            &&& !d.due(width, height) ==> after.sent == d.sent
        }),
{
}

/// A frame is shown at its size in pixels over the scale, rounded down.
pub proof fn law_frames_are_shown_to_scale(n: i32, scale: i32)
    requires
        n >= 0,
    ensures
        scale <= 1 ==> logical(n, scale) == n,
        scale > 1 ==> logical(n, scale) * scale <= n < (logical(n, scale) + 1) * scale,
{
    if scale > 1 {
        let (a, b) = (n as int, scale as int);
        assert(a / b * b <= a < (a / b + 1) * b) by (nonlinear_arith)
            requires
                b > 0,
        ;
        assert(0 <= a / b <= a) by (nonlinear_arith)
            requires
                a >= 0,
                b > 0,
        ;
    }
}

/// An image shows where some pixel is not clear.
pub proof fn law_images_show_by_their_last_channel(argb: Seq<u8>)
    ensures
        shows(argb) <==> exists|i: int| 0 <= i < argb.len() as int / 4 && (#[trigger] quad(argb, i))[3] != 0,
{
    assert forall|i: int| 0 <= i < argb.len() as int / 4 implies (#[trigger] quad(argb, i))[3] == argb[4 * i + 3] by {}
    if shows(argb) {
        let i = choose|i: int| 0 <= i < argb.len() as int / 4 && #[trigger] argb[4 * i + 3] != 0;
        assert(quad(argb, i)[3] != 0);
    }
}

} // verus!
