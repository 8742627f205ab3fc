//! One session from the client's side.

use crate::msg::client::ClientMsg;
use crate::msg::protocol::PROTOCOL_VERSION;
use crate::msg::server::ServerMsg;
use crate::msg::types::{ChromaMode, ClientCaps};
use crate::rate::ladder::{ago, since};
use crate::text::{decimal, push_decimal, utf8_string};
use vstd::prelude::*;
use vstd::string::StringExecFns;
use vstd::utf8::{decode_utf8, valid_utf8};

verus! {

/// How often the platform side hears figures, in nanoseconds.
pub const REPORT_EVERY: u64 = 1_000_000_000;

/// Lines of ssh's stderr that explain a failure.
pub const TAIL: usize = 3;

/// What a session does next.
#[derive(Debug)]
pub enum Action {
    Nothing,
    /// A stream (re)starts: make a decoder, then tell the platform side.
    Configure { width: u32, height: u32, scale_milli: u32, chroma: ChromaMode },
    /// Decode the payloads, unless no stream was configured, which counts as
    /// a failed decode; then [`Session::on_decoded`].
    Decode { frame_id: u64, configured: bool },
    /// Show the remote cursor; its image is the payload.
    Cursor { width: u32, height: u32, hot_x: i32, hot_y: i32 },
    /// The remote text selection changed.
    Clipboard(String),
    Send(ClientMsg),
    /// The session failed, for this reason.
    Fail(String),
}

/// How a decode went.
#[derive(Debug, Clone, Copy, PartialEq, Eq, Structural)]
pub enum Decoded {
    /// A picture was shown.
    Shown,
    /// The access units produced no picture.
    Nothing,
    Failed,
}

/// What a platform decoder's number says: one for a picture, any other from
/// zero up for none, a negative one for an error.
pub fn decode_result(r: i32) -> (d: Decoded)
    ensures
        d == if r == 1 {
            Decoded::Shown
        } else if r >= 0 {
            Decoded::Nothing
        } else {
            Decoded::Failed
        },
{
    if r == 1 {
        Decoded::Shown
    } else if r >= 0 {
        Decoded::Nothing
    } else {
        Decoded::Failed
    }
}

/// What is reported to the platform side, by kind.
#[derive(Debug, Clone, Copy, PartialEq, Eq, Structural)]
pub enum GliffStatusKind {
    /// Width, height and scale describe the new stream.
    Connected,
    /// Figures over the last second.
    Stats,
    /// A cursor image.
    Cursor,
    /// The remote clipboard's text.
    Clipboard,
    /// A line of ssh or server stderr.
    Log,
    /// The session failed. The last status.
    Error,
    /// The server ended the session. The last status.
    Closed,
}

impl GliffStatusKind {
    /// Nothing follows this status.
    pub fn is_last(self) -> (yes: bool)
        ensures
            yes == (self == GliffStatusKind::Error || self == GliffStatusKind::Closed),
    {
        match self {
            GliffStatusKind::Error => true,
            GliffStatusKind::Closed => true,
            _ => false,
        }
    }
}

/// Figures since the last report.
#[derive(Debug, Clone, Copy, PartialEq, Eq, Structural)]
pub struct Stats {
    /// Pictures shown, stream bytes, and the time spent decoding them.
    pub frames: u32,
    pub bytes: u64,
    pub decode_ns: u64,
    /// Over this long.
    pub elapsed: u64,
}

#[derive(Debug, Clone, Copy, PartialEq, Eq, Structural)]
pub struct Session {
    pub handshaken: bool,
    pub configured: bool,
    pub frames: u32,
    pub bytes: u64,
    pub decode_ns: u64,
    pub last_report: u64,
}

/// The text for a server's error.
pub open spec fn server_error(code: u16, message: Seq<char>) -> Seq<char> {
    "server error "@ + decimal(code as nat) + ": "@ + message
}

/// Whether an action is the answer to a message.
pub open spec fn answers(s: Session, msg: ServerMsg, payload: Seq<u8>, a: Action) -> bool {
    match msg {
        ServerMsg::StreamConfig { width, height, chroma, scale_milli, .. } => a == (Action::Configure {
            width,
            height,
            scale_milli,
            chroma,
        }),
        ServerMsg::VideoFrame { frame_id, .. } => a == (Action::Decode { frame_id, configured: s.configured }),
        ServerMsg::CursorShape { width, height, hot_x, hot_y, .. } => a == (Action::Cursor {
            width,
            height,
            hot_x,
            hot_y,
        }),
        ServerMsg::ClipboardData { .. } => if valid_utf8(payload) {
            a matches Action::Clipboard(text) && text@ == decode_utf8(payload)
        } else {
            a is Nothing
        },
        ServerMsg::Ping { t } => a == Action::Send(ClientMsg::Pong { t }),
        ServerMsg::Error { code, message, .. } => a matches Action::Fail(text) && text@ == server_error(
            code,
            message@,
        ),
        _ => a is Nothing,
    }
}

impl Session {
    pub fn new(now: u64) -> (s: Session)
        ensures
            s == (Session {
                handshaken: false,
                configured: false,
                frames: 0,
                bytes: 0,
                decode_ns: 0,
                last_report: now,
            }),
    {
        Session { handshaken: false, configured: false, frames: 0, bytes: 0, decode_ns: 0, last_report: now }
    }

    /// The client's first message.
    pub fn hello(keymap: String, caps: ClientCaps) -> (msg: ClientMsg)
        ensures
            msg == (ClientMsg::Hello { version: PROTOCOL_VERSION, keymap, caps }),
    {
        ClientMsg::Hello { version: PROTOCOL_VERSION, keymap, caps }
    }

    /// A message from the server, with the first of its payloads.
    pub fn on_msg(&mut self, msg: ServerMsg, payload: Vec<u8>) -> (a: Action)
        ensures
            answers(*old(self), msg, payload@, a),
            *final(self) == (Session {
                handshaken: old(self).handshaken || msg is HelloAck,
                ..*old(self)
            }),
    {
        match msg {
            ServerMsg::HelloAck { .. } => {
                self.handshaken = true;
                Action::Nothing
            },
            ServerMsg::StreamConfig { width, height, chroma, scale_milli, .. } => Action::Configure {
                width,
                height,
                scale_milli,
                chroma,
            },
            ServerMsg::VideoFrame { frame_id, .. } => Action::Decode { frame_id, configured: self.configured },
            ServerMsg::CursorShape { width, height, hot_x, hot_y, .. } => Action::Cursor {
                width,
                height,
                hot_x,
                hot_y,
            },
            ServerMsg::ClipboardData { .. } => match utf8_string(payload) {
                Some(text) => Action::Clipboard(text),
                None => Action::Nothing,
            },
            ServerMsg::Ping { t } => Action::Send(ClientMsg::Pong { t }),
            ServerMsg::Error { code, message, .. } => {
                let mut text: String = "server error ".to_string();
                push_decimal(&mut text, code as u64);
                text.append(": ");
                text.append(message.as_str());
                Action::Fail(text)
            },
            _ => Action::Nothing,
        }
    }

    /// The decoder for a stream is made.
    pub fn on_configured(&mut self)
        ensures
            *final(self) == (Session { configured: true, ..*old(self) }),
    {
        self.configured = true;
    }

    /// A frame of `bytes` was decoded, or could not be: what to send. Every
    /// frame is acked, decoded or not: the server frees a slot in its window
    /// only on an ack. A failure asks for a keyframe.
    pub fn on_decoded(&mut self, frame_id: u64, now_ms: u64, d: Decoded, bytes: u64, decode_ns: u64) -> (msgs: Vec<
        ClientMsg,
    >)
        requires
            old(self).frames < u32::MAX,
            old(self).bytes + bytes <= u64::MAX,
            old(self).decode_ns + decode_ns <= u64::MAX,
        ensures
            msgs@ == seq![ClientMsg::FrameAck { frame_id, decoded_at_ms: now_ms }] + if d == Decoded::Failed {
                seq![ClientMsg::RequestKeyframe]
            } else {
                Seq::empty()
            },
            *final(self) == (Session {
                bytes: (old(self).bytes + bytes) as u64,
                frames: if d == Decoded::Shown {
                    (old(self).frames + 1) as u32
                } else {
                    old(self).frames
                },
                decode_ns: if d == Decoded::Shown {
                    (old(self).decode_ns + decode_ns) as u64
                } else {
                    old(self).decode_ns
                },
                ..*old(self)
            }),
    {
        self.bytes = self.bytes + bytes;
        let mut msgs: Vec<ClientMsg> = Vec::new();
        msgs.push(ClientMsg::FrameAck { frame_id, decoded_at_ms: now_ms });
        match d {
            Decoded::Shown => {
                self.frames = self.frames + 1;
                self.decode_ns = self.decode_ns + decode_ns;
            },
            Decoded::Nothing => {},
            Decoded::Failed => {
                msgs.push(ClientMsg::RequestKeyframe);
            },
        }
        assert(msgs@ =~= seq![ClientMsg::FrameAck { frame_id, decoded_at_ms: now_ms }] + if d == Decoded::Failed {
            seq![ClientMsg::RequestKeyframe]
        } else {
            Seq::empty()
        });
        msgs
    }

    /// The figures, once a second is over; then they start anew.
    pub fn report(&mut self, now: u64) -> (stats: Option<Stats>)
        ensures
            ago(now, old(self).last_report) < REPORT_EVERY ==> stats is None && *final(self) == *old(self),
            ago(now, old(self).last_report) >= REPORT_EVERY ==> {
                &&& stats == Some(
                    Stats {
                        frames: old(self).frames,
                        bytes: old(self).bytes,
                        decode_ns: old(self).decode_ns,
                        elapsed: ago(now, old(self).last_report),
                    },
                )
                &&& *final(self) == (Session { frames: 0, bytes: 0, decode_ns: 0, last_report: now, ..*old(self) })
            },
    {
        let elapsed: u64 = since(now, self.last_report);
        if elapsed < REPORT_EVERY {
            return None;
        }
        let stats: Stats = Stats { frames: self.frames, bytes: self.bytes, decode_ns: self.decode_ns, elapsed };
        self.frames = 0;
        self.bytes = 0;
        self.decode_ns = 0;
        self.last_report = now;
        Some(stats)
    }

    /// The connection closed: an end, or a failure where the server never
    /// answered.
    pub fn on_closed(&self) -> (reason: Option<&'static str>)
        ensures
            reason == if self.handshaken {
                None
            } else {
                Some("connection closed before the server answered")
            },
    {
        if self.handshaken {
            None
        } else {
            Some("connection closed before the server answered")
        }
    }
}

/// The last lines of ssh's stderr.
#[derive(Debug)]
pub struct Tail {
    pub lines: Vec<String>,
}

impl Tail {
    pub open spec fn wf(&self) -> bool {
        self.lines@.len() <= TAIL
    }

    pub fn new() -> (t: Tail)
        ensures
            t.wf(),
            t.lines@.len() == 0,
    {
        Tail { lines: Vec::new() }
    }

    pub fn push(&mut self, line: String)
        requires
            old(self).wf(),
        ensures
            final(self).wf(),
            final(self).lines@ == if old(self).lines@.len() == TAIL {
                old(self).lines@.skip(1).push(line)
            } else {
                old(self).lines@.push(line)
            },
    {
        if self.lines.len() == TAIL {
            let gone: String = self.lines.remove(0);
            assert(self.lines@ =~= old(self).lines@.skip(1));
        }
        self.lines.push(line);
    }

    /// These lines on one, apart.
    pub open spec fn joined(lines: Seq<String>) -> Seq<char>
        decreases lines.len(),
    {
        if lines.len() == 0 {
            Seq::empty()
        } else if lines.len() == 1 {
            lines[0]@
        } else {
            Self::joined(lines.drop_last()) + " / "@ + lines.last()@
        }
    }

    /// A failure's text. A failed ssh usually explains itself on stderr; a
    /// bare "connection closed" does not.
    pub fn explain(&self, error: &str) -> (text: String)
        ensures
            text@ == if self.lines@.len() == 0 {
                error@
            } else {
                error@ + ": "@ + Self::joined(self.lines@)
            },
    {
        let mut text: String = error.to_string();
        let n: usize = self.lines.len();
        if n == 0 {
            return text;
        }
        text.append(": ");
        let ghost head = text@;
        text.append(self.lines[0].as_str());
        proof {
            assert(self.lines@.take(1).len() == 1);
            assert(text@ =~= head + Self::joined(self.lines@.take(1)));
        }
        for i in 1..n
            invariant
                n == self.lines@.len(),
                n > 0,
                text@ == head + Self::joined(self.lines@.take(i as int)),
        {
            text.append(" / ");
            text.append(self.lines[i].as_str());
            proof {
                assert(self.lines@.take(i + 1).drop_last() =~= self.lines@.take(i as int));
                assert(text@ =~= head + Self::joined(self.lines@.take(i + 1)));
            }
        }
        proof {
            assert(self.lines@.take(n as int) =~= self.lines@);
        }
        text
    }
}

/// A client answers a server as it should: a ping with the same number, an
/// error with its text, a frame by decoding it, a new configuration by taking
/// its size, scale and chroma, a cursor with its size and hot spot, and text
/// that is text.
pub proof fn law_messages_are_answered(s: Session, msg: ServerMsg, payload: Seq<u8>, a: Action)
    requires
        answers(s, msg, payload, a),
    ensures
        msg matches ServerMsg::Ping { t } ==> a == Action::Send(ClientMsg::Pong { t }),
        a matches Action::Send(m) ==> msg is Ping,
        msg matches ServerMsg::VideoFrame { frame_id, .. } ==> (a matches Action::Decode { frame_id: f, configured
            } && f
            == frame_id && configured == s.configured),
        msg matches ServerMsg::StreamConfig { width, height, chroma, scale_milli, .. } ==> (a matches
            Action::Configure {
            width: w,
            height: h,
            scale_milli: m,
            chroma: c,
        } && w == width && h == height && m == scale_milli && c == chroma),
        msg matches ServerMsg::CursorShape { width, height, hot_x, hot_y, .. } ==> (a matches Action::Cursor {
            width: w,
            height: h,
            hot_x: x,
            hot_y: y,
        } && w == width && h == height && x == hot_x && y == hot_y),
        msg is ClipboardData && valid_utf8(payload) ==> (a matches Action::Clipboard(text) && text@ == decode_utf8(
            payload,
        )),
        msg is ClipboardData && !valid_utf8(payload) ==> a is Nothing,
        msg matches ServerMsg::Error { code, message, .. } ==> (a matches Action::Fail(text) && text@ == "server error "@
            + decimal(code as nat) + ": "@ + message@),
        a is Fail ==> msg is Error,
        msg is HelloAck || msg is Pong || msg is CursorPos ==> a is Nothing,
{
}

} // verus!
