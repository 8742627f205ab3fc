//! What a client's messages ask of a session.

use crate::cbor::item::{F32, F64};
use crate::clipboard::flow::CHUNK;
use crate::clipboard::msg::ClipboardMsg;
use crate::msg::client::ClientMsg;
use crate::msg::types::Axis;
use vstd::prelude::*;

verus! {

/// An input event for the compositor.
#[derive(Debug, Clone, PartialEq)]
pub enum InputCmd {
    Key { code: u32, pressed: bool },
    Motion { x: F64, y: F64 },
    Button { button: u32, pressed: bool },
    Axis { axis: Axis, value: F64, discrete: Option<i32>, stop: bool },
    SetKeymap(String),
}

/// What a session does with a message.
#[derive(Debug, Clone, PartialEq)]
pub enum ClientAction {
    /// The client is leaving.
    End,
    /// A frame was decoded.
    Acked { frame_id: u64 },
    /// The next frame is to be a keyframe.
    Keyframe,
    Input(InputCmd),
    Resize { width: u32, height: u32, scale: F32 },
    /// Answer with a pong.
    Pong { t: u64 },
    /// Seed the round trip with the answer to our ping.
    Seed { t: u64 },
    Nothing,
    /// A second `Hello`: the session fails.
    Refuse,
}

/// The input injection a client message asks for, if it is one.
pub open spec fn input_of(msg: ClientMsg) -> Option<InputCmd> {
    match msg {
        ClientMsg::Key { keycode, pressed } => Some(InputCmd::Key { code: keycode, pressed }),
        ClientMsg::PointerMotion { x, y } => Some(InputCmd::Motion { x, y }),
        ClientMsg::PointerButton { button, pressed } => Some(InputCmd::Button { button, pressed }),
        ClientMsg::PointerAxis { axis, value, discrete, stop } => Some(InputCmd::Axis { axis, value, discrete, stop }),
        _ => None,
    }
}

pub fn input_cmd(msg: &ClientMsg) -> (cmd: Option<InputCmd>)
    ensures
        cmd == input_of(*msg),
        *msg matches ClientMsg::PointerMotion { x, y } ==> (cmd matches Some(InputCmd::Motion { x: a, y: b }) && a == x
            && b == y),
        *msg matches ClientMsg::Key { keycode, pressed } ==> (cmd matches Some(InputCmd::Key { code, pressed: p })
            && code == keycode && p == pressed),
        *msg matches ClientMsg::PointerButton { button, pressed } ==> (cmd matches Some(
            InputCmd::Button { button: b, pressed: p },
        ) && b == button && p == pressed),
        *msg matches ClientMsg::PointerAxis { axis, value, discrete, stop } ==> (cmd matches Some(
            InputCmd::Axis { axis: a, value: v, discrete: d, stop: s },
        ) && a == axis && v == value && d == discrete && s == stop),
{
    match msg {
        ClientMsg::Key { keycode, pressed } => Some(InputCmd::Key { code: *keycode, pressed: *pressed }),
        ClientMsg::PointerMotion { x, y } => Some(InputCmd::Motion { x: *x, y: *y }),
        ClientMsg::PointerButton { button, pressed } => Some(
            InputCmd::Button { button: *button, pressed: *pressed },
        ),
        ClientMsg::PointerAxis { axis, value, discrete, stop } => Some(
            InputCmd::Axis { axis: *axis, value: *value, discrete: *discrete, stop: *stop },
        ),
        _ => None,
    }
}

/// What a message asks for. Clipboard messages go to the bridge instead; an
/// empty keymap keeps the one in use.
pub open spec fn action_of(msg: ClientMsg) -> ClientAction {
    match msg {
        ClientMsg::Bye => ClientAction::End,
        ClientMsg::FrameAck { frame_id, .. } => ClientAction::Acked { frame_id },
        ClientMsg::RequestKeyframe => ClientAction::Keyframe,
        ClientMsg::Resize { width, height, scale } => ClientAction::Resize { width, height, scale },
        ClientMsg::Ping { t } => ClientAction::Pong { t },
        ClientMsg::Pong { t } => ClientAction::Seed { t },
        ClientMsg::Keymap { keymap } => if keymap@.len() > 0 {
            ClientAction::Input(InputCmd::SetKeymap(keymap))
        } else {
            ClientAction::Nothing
        },
        ClientMsg::Hello { .. } => ClientAction::Refuse,
        _ => match input_of(msg) {
            Some(cmd) => ClientAction::Input(cmd),
            None => ClientAction::Nothing,
        },
    }
}

pub fn client_action(msg: ClientMsg) -> (a: ClientAction)
    ensures
        a == action_of(msg),
{
    match msg {
        ClientMsg::Bye => ClientAction::End,
        ClientMsg::FrameAck { frame_id, .. } => ClientAction::Acked { frame_id },
        ClientMsg::RequestKeyframe => ClientAction::Keyframe,
        ClientMsg::Resize { width, height, scale } => ClientAction::Resize { width, height, scale },
        ClientMsg::Ping { t } => ClientAction::Pong { t },
        ClientMsg::Pong { t } => ClientAction::Seed { t },
        ClientMsg::Keymap { keymap } => if !keymap.as_str().is_empty() {
            ClientAction::Input(InputCmd::SetKeymap(keymap))
        } else {
            ClientAction::Nothing
        },
        ClientMsg::Hello { .. } => ClientAction::Refuse,
        other => match input_cmd(&other) {
            Some(cmd) => ClientAction::Input(cmd),
            None => ClientAction::Nothing,
        },
    }
}

/// How many payload bytes follow a clipboard message; none where it declares
/// more than a chunk, and the connection is given up.
pub fn clipboard_payload(msg: &ClipboardMsg) -> (len: Option<u32>)
    ensures
        len == match msg {
            ClipboardMsg::Data { data_len, .. } => if *data_len <= CHUNK {
                Some(*data_len)
            } else {
                None
            },
            _ => Some(0u32),
        },
{
    match msg {
        ClipboardMsg::Data { data_len, .. } => if *data_len as usize <= CHUNK {
            Some(*data_len)
        } else {
            None
        },
        _ => Some(0),
    }
}

/// Input reaches the compositor as the client gave it: whatever the numbers,
/// each part of a message is the same part of the command.
pub proof fn law_input_is_forwarded_unchanged(
    code: u32,
    pressed: bool,
    x: F64,
    y: F64,
    axis: Axis,
    discrete: Option<i32>,
)
    ensures
        input_of(ClientMsg::PointerMotion { x, y }) matches Some(InputCmd::Motion { x: a, y: b }) && a == x && b == y,
        input_of(ClientMsg::Key { keycode: code, pressed }) matches Some(InputCmd::Key { code: c, pressed: p }) && c
            == code && p == pressed,
        input_of(ClientMsg::PointerButton { button: code, pressed }) matches Some(
            InputCmd::Button { button: b, pressed: p },
        ) && b == code && p == pressed,
        input_of(ClientMsg::PointerAxis { axis, value: x, discrete, stop: pressed }) matches Some(
            InputCmd::Axis { axis: a, value: v, discrete: d, stop: s },
        ) && a == axis && v == x && d == discrete && s == pressed,
{
}

/// What is injected tells the message that asked for it: two messages that
/// inject the same are the same.
pub proof fn law_no_two_messages_inject_the_same(a: ClientMsg, b: ClientMsg)
    requires
        input_of(a) is Some,
        input_of(a) == input_of(b),
    ensures
        a == b,
{
}

/// A session acts on each message as it is meant: input is injected, a keymap
/// is set unless it is empty, acks, pings, pongs and resizes carry their own
/// numbers, and only a second greeting ends the session with an error.
pub proof fn law_messages_lead_to_their_action(msg: ClientMsg)
    ensures
        action_of(msg) is End <==> msg is Bye,
        action_of(msg) is Refuse <==> msg is Hello,
        action_of(msg) is Keyframe <==> msg is RequestKeyframe,
        action_of(msg) matches ClientAction::Acked { frame_id } ==> (msg matches ClientMsg::FrameAck { frame_id: f, .. }
            && f == frame_id),
        msg is FrameAck ==> action_of(msg) is Acked,
        action_of(msg) matches ClientAction::Pong { t } ==> msg == (ClientMsg::Ping { t }),
        msg is Ping ==> action_of(msg) is Pong,
        action_of(msg) matches ClientAction::Seed { t } ==> msg == (ClientMsg::Pong { t }),
        msg is Pong ==> action_of(msg) is Seed,
        action_of(msg) matches ClientAction::Resize { width, height, scale } ==> msg == (ClientMsg::Resize {
            width,
            height,
            scale,
        }),
        msg is Resize ==> action_of(msg) is Resize,
        msg matches ClientMsg::Keymap { keymap } ==> if keymap@.len() == 0 {
            action_of(msg) is Nothing
        } else {
            action_of(msg) == ClientAction::Input(InputCmd::SetKeymap(keymap))
        },
        msg is Key || msg is PointerMotion || msg is PointerButton || msg is PointerAxis ==> (action_of(
            msg,
        ) matches ClientAction::Input(cmd) && input_of(msg) == Some(cmd)),
{
}

} // verus!
