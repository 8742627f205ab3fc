//! The payloads that a server's message declares.

use vstd::prelude::*;
use crate::msg::server::ServerMsg;

verus! {

/// How many payload bytes follow a message: a video frame's streams, a
/// cursor image, or clipboard bytes in `main`.
#[derive(Debug, Clone, Copy, PartialEq, Eq, Structural)]
pub struct Payloads {
    pub main: u32,
    pub aux: u32,
}

/// What a message declares, or none where it declares more clipboard bytes
/// than `clipboard_max`: then the connection is given up.
pub open spec fn declared(msg: ServerMsg, clipboard_max: u64) -> Option<Payloads> {
    match msg {
        ServerMsg::VideoFrame { data_len, aux_len, .. } => Some(Payloads { main: data_len, aux: aux_len }),
        ServerMsg::CursorShape { argb_len, .. } => Some(Payloads { main: argb_len, aux: 0 }),
        ServerMsg::ClipboardData { data_len, .. } => if data_len > clipboard_max {
            None
        } else {
            Some(Payloads { main: data_len, aux: 0 })
        },
        _ => Some(Payloads { main: 0, aux: 0 }),
    }
}

pub fn payloads_of(msg: &ServerMsg, clipboard_max: u64) -> (p: Option<Payloads>)
    ensures
        p == declared(*msg, clipboard_max),
{
    match msg {
        ServerMsg::VideoFrame { data_len, aux_len, .. } => Some(Payloads { main: *data_len, aux: *aux_len }),
        ServerMsg::CursorShape { argb_len, .. } => Some(Payloads { main: *argb_len, aux: 0 }),
        ServerMsg::ClipboardData { data_len, .. } => if *data_len as u64 > clipboard_max {
            None
        } else {
            Some(Payloads { main: *data_len, aux: 0 })
        },
        _ => Some(Payloads { main: 0, aux: 0 }),
    }
}

/// What follows a message is what it says: two streams behind a frame, one
/// run of bytes behind a cursor's shape or a clipboard's chunk, and nothing
/// behind any other. Only a chunk can be too large.
pub proof fn law_messages_tell_what_follows(msg: ServerMsg, clipboard_max: u64)
    ensures
        match (msg, declared(msg, clipboard_max)) {
            (ServerMsg::VideoFrame { data_len, aux_len, .. }, Some(p)) => p.main == data_len && p.aux == aux_len,
            (ServerMsg::CursorShape { argb_len, .. }, Some(p)) => p.main == argb_len && p.aux == 0,
            (ServerMsg::ClipboardData { data_len, .. }, Some(p)) => p.main == data_len && p.aux == 0 && data_len
                <= clipboard_max,
            (ServerMsg::ClipboardData { data_len, .. }, None) => data_len > clipboard_max,
            (_, Some(p)) => p.main == 0 && p.aux == 0,
            (_, None) => false,
        },
{
}

} // verus!
