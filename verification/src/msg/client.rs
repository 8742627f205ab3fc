//! What a client says to a server.

use vstd::prelude::*;
use crate::cbor::item::{list_head, put_list, skip_at, skip_item, DecodeError, Found, F32, F64};
use crate::cbor::row::{
    fields_at, fields_bytes, get_fields, get_variant, lemma_variant_alone, lemma_variant_and_fields,
    put_fields, put_variant, variant_at, variant_bytes, Row,
};
use crate::cbor::wire::{read, Get, Put, Wire};
use crate::clipboard::msg::{ClipboardFile, ClipboardItem};
use crate::msg::types::{Axis, ClientCaps, ClientCapsView, ClipboardFileView, ClipboardItemView};

verus! {

#[derive(Debug, Clone, PartialEq)]
pub enum ClientMsg {
    Hello {
        version: u16,
        /// XKB keymap text, or empty for the server's default. A client that
        /// cannot produce XKB text leaves it empty; a later optional field can
        /// carry layout names, which older servers ignore.
        keymap: String,
        caps: ClientCaps,
    },
    Resize {
        width: u32,
        height: u32,
        scale: F32,
    },
    Key {
        keycode: u32,
        pressed: bool,
    },
    PointerMotion {
        x: F64,
        y: F64,
    },
    PointerButton {
        button: u32,
        pressed: bool,
    },
    PointerAxis {
        axis: Axis,
        value: F64,
        discrete: Option<i32>,
        stop: bool,
    },
    FrameAck {
        frame_id: u64,
        decoded_at_ms: u64,
    },
    RequestKeyframe,
    /// The local selection changed; see `ClipboardMsg::Offer`.
    ClipboardOffer {
        serial: u32,
        mime_types: Vec<String>,
        files: Vec<ClipboardFile>,
    },
    ClipboardRequest {
        id: u32,
        serial: u32,
        item: ClipboardItem,
    },
    /// `data_len` payload bytes follow the header.
    ClipboardData {
        id: u32,
        offset: u64,
        data_len: u32,
        done: bool,
    },
    Ping {
        t: u64,
    },
    Bye,
    ClipboardAck {
        id: u32,
        received: u64,
    },
    ClipboardAbort {
        id: u32,
    },
    /// The local keymap changed since `Hello`; XKB text as in its `keymap`.
    Keymap {
        keymap: String,
    },
    /// Answer to `ServerMsg::Ping`, sent before anything else so the server
    /// can seed its round-trip estimate ahead of the first frame ack.
    Pong {
        t: u64,
    },
}

/// The contents of a [`ClientMsg`].
pub enum ClientMsgView {
    Hello { version: u16, keymap: Seq<char>, caps: ClientCapsView },
    Resize { width: u32, height: u32, scale: F32 },
    Key { keycode: u32, pressed: bool },
    PointerMotion { x: F64, y: F64 },
    PointerButton { button: u32, pressed: bool },
    PointerAxis { axis: Axis, value: F64, discrete: Option<i32>, stop: bool },
    FrameAck { frame_id: u64, decoded_at_ms: u64 },
    RequestKeyframe,
    ClipboardOffer { serial: u32, mime_types: Seq<Seq<char>>, files: Seq<ClipboardFileView> },
    ClipboardRequest { id: u32, serial: u32, item: ClipboardItemView },
    ClipboardData { id: u32, offset: u64, data_len: u32, done: bool },
    Ping { t: u64 },
    Bye,
    ClipboardAck { id: u32, received: u64 },
    ClipboardAbort { id: u32 },
    Keymap { keymap: Seq<char> },
    Pong { t: u64 },
}

pub type ClientHelloRow = (u16, (String, (ClientCaps, ())));

pub type ClientResizeRow = (u32, (u32, (F32, ())));

pub type ClientKeyRow = (u32, (bool, ()));

pub type ClientPointerMotionRow = (F64, (F64, ()));

pub type ClientPointerButtonRow = (u32, (bool, ()));

pub type ClientPointerAxisRow = (Axis, (F64, (Option<i32>, (bool, ()))));

pub type ClientFrameAckRow = (u64, (u64, ()));

pub type ClientClipboardOfferRow = (u32, (Vec<String>, (Vec<ClipboardFile>, ())));

pub type ClientClipboardRequestRow = (u32, (u32, (ClipboardItem, ())));

pub type ClientClipboardDataRow = (u32, (u64, (u32, (bool, ()))));

pub type ClientPingRow = (u64, ());

pub type ClientClipboardAckRow = (u32, (u64, ()));

pub type ClientClipboardAbortRow = (u32, ());

pub type ClientKeymapRow = (String, ());

pub type ClientPongRow = (u64, ());

impl Wire for ClientMsg {
    type Model = ClientMsgView;

    open spec fn model(&self) -> Self::Model {
        match self {
            ClientMsg::Hello { version, keymap, caps } => ClientMsgView::Hello {
                version: *version,
                keymap: keymap@,
                caps: caps.model(),
            },
            ClientMsg::Resize { width, height, scale } => ClientMsgView::Resize {
                width: *width,
                height: *height,
                scale: *scale,
            },
            ClientMsg::Key { keycode, pressed } => ClientMsgView::Key { keycode: *keycode, pressed: *pressed },
            ClientMsg::PointerMotion { x, y } => ClientMsgView::PointerMotion { x: *x, y: *y },
            ClientMsg::PointerButton { button, pressed } => ClientMsgView::PointerButton {
                button: *button,
                pressed: *pressed,
            },
            ClientMsg::PointerAxis { axis, value, discrete, stop } => ClientMsgView::PointerAxis {
                axis: *axis,
                value: *value,
                discrete: *discrete,
                stop: *stop,
            },
            ClientMsg::FrameAck { frame_id, decoded_at_ms } => ClientMsgView::FrameAck {
                frame_id: *frame_id,
                decoded_at_ms: *decoded_at_ms,
            },
            ClientMsg::RequestKeyframe => ClientMsgView::RequestKeyframe,
            ClientMsg::ClipboardOffer { serial, mime_types, files } => ClientMsgView::ClipboardOffer {
                serial: *serial,
                mime_types: mime_types.model(),
                files: files.model(),
            },
            ClientMsg::ClipboardRequest { id, serial, item } => ClientMsgView::ClipboardRequest {
                id: *id,
                serial: *serial,
                item: item.model(),
            },
            ClientMsg::ClipboardData { id, offset, data_len, done } => ClientMsgView::ClipboardData {
                id: *id,
                offset: *offset,
                data_len: *data_len,
                done: *done,
            },
            ClientMsg::Ping { t } => ClientMsgView::Ping { t: *t },
            ClientMsg::Bye => ClientMsgView::Bye,
            ClientMsg::ClipboardAck { id, received } => ClientMsgView::ClipboardAck { id: *id, received: *received },
            ClientMsg::ClipboardAbort { id } => ClientMsgView::ClipboardAbort { id: *id },
            ClientMsg::Keymap { keymap } => ClientMsgView::Keymap { keymap: keymap@ },
            ClientMsg::Pong { t } => ClientMsgView::Pong { t: *t },
        }
    }

    open spec fn bytes_of(m: Self::Model) -> Seq<u8> {
        match m {
            ClientMsgView::Hello { version, keymap, caps } => variant_bytes(0) + fields_bytes::<ClientHelloRow>(
                (version, (keymap, (caps, ()))),
            ),
            ClientMsgView::Resize { width, height, scale } => variant_bytes(1) + fields_bytes::<ClientResizeRow>(
                (width, (height, (scale, ()))),
            ),
            ClientMsgView::Key { keycode, pressed } => variant_bytes(2)
                + fields_bytes::<ClientKeyRow>((keycode, (pressed, ()))),
            ClientMsgView::PointerMotion { x, y } => variant_bytes(3)
                + fields_bytes::<ClientPointerMotionRow>((x, (y, ()))),
            ClientMsgView::PointerButton { button, pressed } => variant_bytes(4)
                + fields_bytes::<ClientPointerButtonRow>((button, (pressed, ()))),
            ClientMsgView::PointerAxis { axis, value, discrete, stop } => variant_bytes(5)
                + fields_bytes::<ClientPointerAxisRow>(
                (axis, (value, (discrete, (stop, ())))),
            ),
            ClientMsgView::FrameAck { frame_id, decoded_at_ms } => variant_bytes(6) + fields_bytes::<ClientFrameAckRow>(
                (frame_id, (decoded_at_ms, ())),
            ),
            ClientMsgView::RequestKeyframe => variant_bytes(7) + list_head(0),
            ClientMsgView::ClipboardOffer { serial, mime_types, files } => variant_bytes(8)
                + fields_bytes::<ClientClipboardOfferRow>(
                (serial, (mime_types, (files, ()))),
            ),
            ClientMsgView::ClipboardRequest { id, serial, item } => variant_bytes(9)
                + fields_bytes::<ClientClipboardRequestRow>(
                (id, (serial, (item, ()))),
            ),
            ClientMsgView::ClipboardData { id, offset, data_len, done } => variant_bytes(10)
                + fields_bytes::<ClientClipboardDataRow>(
                (id, (offset, (data_len, (done, ())))),
            ),
            ClientMsgView::Ping { t } => variant_bytes(11) + fields_bytes::<ClientPingRow>((t, ())),
            ClientMsgView::Bye => variant_bytes(12) + list_head(0),
            ClientMsgView::ClipboardAck { id, received } => variant_bytes(13)
                + fields_bytes::<ClientClipboardAckRow>((id, (received, ()))),
            ClientMsgView::ClipboardAbort { id } => variant_bytes(14)
                + fields_bytes::<ClientClipboardAbortRow>((id, ())),
            ClientMsgView::Keymap { keymap } => variant_bytes(15) + fields_bytes::<ClientKeymapRow>((keymap, ())),
            ClientMsgView::Pong { t } => variant_bytes(16) + fields_bytes::<ClientPongRow>((t, ())),
        }
    }

    open spec fn fits(m: Self::Model) -> bool {
        match m {
            ClientMsgView::Hello { version, keymap, caps } => <ClientHelloRow as Row>::row_fits(
                (version, (keymap, (caps, ()))),
            ),
            ClientMsgView::Resize { width, height, scale } => <ClientResizeRow as Row>::row_fits(
                (width, (height, (scale, ()))),
            ),
            ClientMsgView::Key { keycode, pressed } => <ClientKeyRow as Row>::row_fits((keycode, (pressed, ()))),
            ClientMsgView::PointerMotion { x, y } => <ClientPointerMotionRow as Row>::row_fits((x, (y, ()))),
            ClientMsgView::PointerButton { button, pressed } => <ClientPointerButtonRow as Row>::row_fits(
                (button, (pressed, ())),
            ),
            ClientMsgView::PointerAxis { axis, value, discrete, stop } => <ClientPointerAxisRow as Row>::row_fits(
                (axis, (value, (discrete, (stop, ())))),
            ),
            ClientMsgView::FrameAck { frame_id, decoded_at_ms } => <ClientFrameAckRow as Row>::row_fits(
                (frame_id, (decoded_at_ms, ())),
            ),
            ClientMsgView::RequestKeyframe => true,
            ClientMsgView::ClipboardOffer { serial, mime_types, files } => <ClientClipboardOfferRow as Row>::row_fits(
                (serial, (mime_types, (files, ()))),
            ),
            ClientMsgView::ClipboardRequest { id, serial, item } => <ClientClipboardRequestRow as Row>::row_fits(
                (id, (serial, (item, ()))),
            ),
            ClientMsgView::ClipboardData { id, offset, data_len, done } => <ClientClipboardDataRow as Row>::row_fits(
                (id, (offset, (data_len, (done, ())))),
            ),
            ClientMsgView::Ping { t } => <ClientPingRow as Row>::row_fits((t, ())),
            ClientMsgView::Bye => true,
            ClientMsgView::ClipboardAck { id, received } => <ClientClipboardAckRow as Row>::row_fits(
                (id, (received, ())),
            ),
            ClientMsgView::ClipboardAbort { id } => <ClientClipboardAbortRow as Row>::row_fits((id, ())),
            ClientMsgView::Keymap { keymap } => <ClientKeymapRow as Row>::row_fits((keymap, ())),
            ClientMsgView::Pong { t } => <ClientPongRow as Row>::row_fits((t, ())),
        }
    }

    open spec fn found_at(s: Seq<u8>, p: int) -> Found<Self::Model> {
        match variant_at(s, p) {
            Ok((v, at, q)) => client_body_at(s, v, at, q),
            Err(e) => Err(e),
        }
    }

    open spec fn nil() -> Option<Self::Model> {
        None
    }

    proof fn round_trip(m: Self::Model, s: Seq<u8>, p: int, tail: Seq<u8>) {
        match m {
            ClientMsgView::Hello { version, keymap, caps } => {
                lemma_variant_and_fields::<ClientHelloRow>(0, (version, (keymap, (caps, ()))), s, p, tail);
            },
            ClientMsgView::Resize { width, height, scale } => {
                lemma_variant_and_fields::<ClientResizeRow>(1, (width, (height, (scale, ()))), s, p, tail);
            },
            ClientMsgView::Key { keycode, pressed } => {
                lemma_variant_and_fields::<ClientKeyRow>(2, (keycode, (pressed, ())), s, p, tail);
            },
            ClientMsgView::PointerMotion { x, y } => {
                lemma_variant_and_fields::<ClientPointerMotionRow>(3, (x, (y, ())), s, p, tail);
            },
            ClientMsgView::PointerButton { button, pressed } => {
                lemma_variant_and_fields::<ClientPointerButtonRow>(4, (button, (pressed, ())), s, p, tail);
            },
            ClientMsgView::PointerAxis { axis, value, discrete, stop } => {
                lemma_variant_and_fields::<ClientPointerAxisRow>(
                    5,
                    (axis, (value, (discrete, (stop, ())))),
                    s,
                    p,
                    tail,
                );
            },
            ClientMsgView::FrameAck { frame_id, decoded_at_ms } => {
                lemma_variant_and_fields::<ClientFrameAckRow>(6, (frame_id, (decoded_at_ms, ())), s, p, tail);
            },
            ClientMsgView::RequestKeyframe => lemma_variant_alone(7, s, p, tail),
            ClientMsgView::ClipboardOffer { serial, mime_types, files } => {
                lemma_variant_and_fields::<ClientClipboardOfferRow>(8, (serial, (mime_types, (files, ()))), s, p, tail);
            },
            ClientMsgView::ClipboardRequest { id, serial, item } => {
                lemma_variant_and_fields::<ClientClipboardRequestRow>(9, (id, (serial, (item, ()))), s, p, tail);
            },
            ClientMsgView::ClipboardData { id, offset, data_len, done } => {
                lemma_variant_and_fields::<ClientClipboardDataRow>(
                    10,
                    (id, (offset, (data_len, (done, ())))),
                    s,
                    p,
                    tail,
                );
            },
            ClientMsgView::Ping { t } => {
                lemma_variant_and_fields::<ClientPingRow>(11, (t, ()), s, p, tail);
            },
            ClientMsgView::Bye => lemma_variant_alone(12, s, p, tail),
            ClientMsgView::ClipboardAck { id, received } => {
                lemma_variant_and_fields::<ClientClipboardAckRow>(13, (id, (received, ())), s, p, tail);
            },
            ClientMsgView::ClipboardAbort { id } => {
                lemma_variant_and_fields::<ClientClipboardAbortRow>(14, (id, ()), s, p, tail);
            },
            ClientMsgView::Keymap { keymap } => {
                lemma_variant_and_fields::<ClientKeymapRow>(15, (keymap, ()), s, p, tail);
            },
            ClientMsgView::Pong { t } => {
                lemma_variant_and_fields::<ClientPongRow>(16, (t, ()), s, p, tail);
            },
        }
    }
}

/// The variant numbered `v`, whose number stands at `at` and whose fields
/// stand at `q`.
pub open spec fn client_body_at(s: Seq<u8>, v: i64, at: int, q: int) -> Found<ClientMsgView> {
    if v == 0 {
        match fields_at::<ClientHelloRow>(s, q) {
            Ok(((version, (keymap, (caps, ()))), end)) => Ok((ClientMsgView::Hello { version, keymap, caps }, end)),
            Err(e) => Err(e),
        }
    } else if v == 1 {
        match fields_at::<ClientResizeRow>(s, q) {
            Ok(((width, (height, (scale, ()))), end)) => Ok((ClientMsgView::Resize { width, height, scale }, end)),
            Err(e) => Err(e),
        }
    } else if v == 2 {
        match fields_at::<ClientKeyRow>(s, q) {
            Ok(((keycode, (pressed, ())), end)) => Ok((ClientMsgView::Key { keycode, pressed }, end)),
            Err(e) => Err(e),
        }
    } else if v == 3 {
        match fields_at::<ClientPointerMotionRow>(s, q) {
            Ok(((x, (y, ())), end)) => Ok((ClientMsgView::PointerMotion { x, y }, end)),
            Err(e) => Err(e),
        }
    } else if v == 4 {
        match fields_at::<ClientPointerButtonRow>(s, q) {
            Ok(((button, (pressed, ())), end)) => Ok((ClientMsgView::PointerButton { button, pressed }, end)),
            Err(e) => Err(e),
        }
    } else if v == 5 {
        match fields_at::<ClientPointerAxisRow>(s, q) {
            Ok(((axis, (value, (discrete, (stop, ())))), end)) => Ok(
                (ClientMsgView::PointerAxis { axis, value, discrete, stop }, end),
            ),
            Err(e) => Err(e),
        }
    } else if v == 6 {
        match fields_at::<ClientFrameAckRow>(s, q) {
            Ok(((frame_id, (decoded_at_ms, ())), end)) => Ok(
                (ClientMsgView::FrameAck { frame_id, decoded_at_ms }, end),
            ),
            Err(e) => Err(e),
        }
    } else if v == 7 {
        match skip_at(s, q) {
            Ok(end) => Ok((ClientMsgView::RequestKeyframe, end)),
            Err(e) => Err(e),
        }
    } else if v == 8 {
        match fields_at::<ClientClipboardOfferRow>(s, q) {
            Ok(((serial, (mime_types, (files, ()))), end)) => Ok(
                (ClientMsgView::ClipboardOffer { serial, mime_types, files }, end),
            ),
            Err(e) => Err(e),
        }
    } else if v == 9 {
        match fields_at::<ClientClipboardRequestRow>(s, q) {
            Ok(((id, (serial, (item, ()))), end)) => Ok((ClientMsgView::ClipboardRequest { id, serial, item }, end)),
            Err(e) => Err(e),
        }
    } else if v == 10 {
        match fields_at::<ClientClipboardDataRow>(s, q) {
            Ok(((id, (offset, (data_len, (done, ())))), end)) => Ok(
                (ClientMsgView::ClipboardData { id, offset, data_len, done }, end),
            ),
            Err(e) => Err(e),
        }
    } else if v == 11 {
        match fields_at::<ClientPingRow>(s, q) {
            Ok(((t, ()), end)) => Ok((ClientMsgView::Ping { t }, end)),
            Err(e) => Err(e),
        }
    } else if v == 12 {
        match skip_at(s, q) {
            Ok(end) => Ok((ClientMsgView::Bye, end)),
            Err(e) => Err(e),
        }
    } else if v == 13 {
        match fields_at::<ClientClipboardAckRow>(s, q) {
            Ok(((id, (received, ())), end)) => Ok((ClientMsgView::ClipboardAck { id, received }, end)),
            Err(e) => Err(e),
        }
    } else if v == 14 {
        match fields_at::<ClientClipboardAbortRow>(s, q) {
            Ok(((id, ()), end)) => Ok((ClientMsgView::ClipboardAbort { id }, end)),
            Err(e) => Err(e),
        }
    } else if v == 15 {
        match fields_at::<ClientKeymapRow>(s, q) {
            Ok(((keymap, ()), end)) => Ok((ClientMsgView::Keymap { keymap }, end)),
            Err(e) => Err(e),
        }
    } else if v == 16 {
        match fields_at::<ClientPongRow>(s, q) {
            Ok(((t, ()), end)) => Ok((ClientMsgView::Pong { t }, end)),
            Err(e) => Err(e),
        }
    } else {
        Err(DecodeError::UnknownVariant { at: at as usize })
    }
}

fn get_client_body(s: &[u8], v: i64, at: usize, q: usize) -> (res: Result<(ClientMsg, usize), DecodeError>)
    ensures
        read(res, q as int, s@.len(), client_body_at(s@, v, at as int, q as int)),
{
    if v == 0 {
        match get_fields::<ClientHelloRow>(s, q) {
            Ok(((version, (keymap, (caps, ()))), end)) => Ok((ClientMsg::Hello { version, keymap, caps }, end)),
            Err(e) => Err(e),
        }
    } else if v == 1 {
        match get_fields::<ClientResizeRow>(s, q) {
            Ok(((width, (height, (scale, ()))), end)) => Ok((ClientMsg::Resize { width, height, scale }, end)),
            Err(e) => Err(e),
        }
    } else if v == 2 {
        match get_fields::<ClientKeyRow>(s, q) {
            Ok(((keycode, (pressed, ())), end)) => Ok((ClientMsg::Key { keycode, pressed }, end)),
            Err(e) => Err(e),
        }
    } else if v == 3 {
        match get_fields::<ClientPointerMotionRow>(s, q) {
            Ok(((x, (y, ())), end)) => Ok((ClientMsg::PointerMotion { x, y }, end)),
            Err(e) => Err(e),
        }
    } else if v == 4 {
        match get_fields::<ClientPointerButtonRow>(s, q) {
            Ok(((button, (pressed, ())), end)) => Ok((ClientMsg::PointerButton { button, pressed }, end)),
            Err(e) => Err(e),
        }
    } else if v == 5 {
        match get_fields::<ClientPointerAxisRow>(s, q) {
            Ok(((axis, (value, (discrete, (stop, ())))), end)) => Ok(
                (ClientMsg::PointerAxis { axis, value, discrete, stop }, end),
            ),
            Err(e) => Err(e),
        }
    } else if v == 6 {
        match get_fields::<ClientFrameAckRow>(s, q) {
            Ok(((frame_id, (decoded_at_ms, ())), end)) => Ok((ClientMsg::FrameAck { frame_id, decoded_at_ms }, end)),
            Err(e) => Err(e),
        }
    } else if v == 7 {
        match skip_item(s, q) {
            Ok(end) => Ok((ClientMsg::RequestKeyframe, end)),
            Err(e) => Err(e),
        }
    } else if v == 8 {
        match get_fields::<ClientClipboardOfferRow>(s, q) {
            Ok(((serial, (mime_types, (files, ()))), end)) => Ok(
                (ClientMsg::ClipboardOffer { serial, mime_types, files }, end),
            ),
            Err(e) => Err(e),
        }
    } else if v == 9 {
        match get_fields::<ClientClipboardRequestRow>(s, q) {
            Ok(((id, (serial, (item, ()))), end)) => Ok((ClientMsg::ClipboardRequest { id, serial, item }, end)),
            Err(e) => Err(e),
        }
    } else if v == 10 {
        match get_fields::<ClientClipboardDataRow>(s, q) {
            Ok(((id, (offset, (data_len, (done, ())))), end)) => Ok(
                (ClientMsg::ClipboardData { id, offset, data_len, done }, end),
            ),
            Err(e) => Err(e),
        }
    } else if v == 11 {
        match get_fields::<ClientPingRow>(s, q) {
            Ok(((t, ()), end)) => Ok((ClientMsg::Ping { t }, end)),
            Err(e) => Err(e),
        }
    } else if v == 12 {
        match skip_item(s, q) {
            Ok(end) => Ok((ClientMsg::Bye, end)),
            Err(e) => Err(e),
        }
    } else if v == 13 {
        match get_fields::<ClientClipboardAckRow>(s, q) {
            Ok(((id, (received, ())), end)) => Ok((ClientMsg::ClipboardAck { id, received }, end)),
            Err(e) => Err(e),
        }
    } else if v == 14 {
        match get_fields::<ClientClipboardAbortRow>(s, q) {
            Ok(((id, ()), end)) => Ok((ClientMsg::ClipboardAbort { id }, end)),
            Err(e) => Err(e),
        }
    } else if v == 15 {
        match get_fields::<ClientKeymapRow>(s, q) {
            Ok(((keymap, ()), end)) => Ok((ClientMsg::Keymap { keymap }, end)),
            Err(e) => Err(e),
        }
    } else if v == 16 {
        match get_fields::<ClientPongRow>(s, q) {
            Ok(((t, ()), end)) => Ok((ClientMsg::Pong { t }, end)),
            Err(e) => Err(e),
        }
    } else {
        Err(DecodeError::UnknownVariant { at })
    }
}

impl Put for ClientMsg {
    fn put(&self, out: &mut Vec<u8>) {
        proof {
            reveal(fields_bytes);
        }
        match self {
            ClientMsg::Hello { version, keymap, caps } => {
                put_variant(out, 0);
                put_fields(&(version, (keymap, (caps, ()))), out);
            },
            ClientMsg::Resize { width, height, scale } => {
                put_variant(out, 1);
                put_fields(&(width, (height, (scale, ()))), out);
            },
            ClientMsg::Key { keycode, pressed } => {
                put_variant(out, 2);
                put_fields(&(keycode, (pressed, ())), out);
            },
            ClientMsg::PointerMotion { x, y } => {
                put_variant(out, 3);
                put_fields(&(x, (y, ())), out);
            },
            ClientMsg::PointerButton { button, pressed } => {
                put_variant(out, 4);
                put_fields(&(button, (pressed, ())), out);
            },
            ClientMsg::PointerAxis { axis, value, discrete, stop } => {
                put_variant(out, 5);
                put_fields(&(axis, (value, (discrete, (stop, ())))), out);
            },
            ClientMsg::FrameAck { frame_id, decoded_at_ms } => {
                put_variant(out, 6);
                put_fields(&(frame_id, (decoded_at_ms, ())), out);
            },
            ClientMsg::RequestKeyframe => {
                put_variant(out, 7);
                put_list(out, 0);
            },
            ClientMsg::ClipboardOffer { serial, mime_types, files } => {
                put_variant(out, 8);
                put_fields(&(serial, (mime_types, (files, ()))), out);
            },
            ClientMsg::ClipboardRequest { id, serial, item } => {
                put_variant(out, 9);
                put_fields(&(id, (serial, (item, ()))), out);
            },
            ClientMsg::ClipboardData { id, offset, data_len, done } => {
                put_variant(out, 10);
                put_fields(&(id, (offset, (data_len, (done, ())))), out);
            },
            ClientMsg::Ping { t } => {
                put_variant(out, 11);
                put_fields(&(t, ()), out);
            },
            ClientMsg::Bye => {
                put_variant(out, 12);
                put_list(out, 0);
            },
            ClientMsg::ClipboardAck { id, received } => {
                put_variant(out, 13);
                put_fields(&(id, (received, ())), out);
            },
            ClientMsg::ClipboardAbort { id } => {
                put_variant(out, 14);
                put_fields(&(id, ()), out);
            },
            ClientMsg::Keymap { keymap } => {
                put_variant(out, 15);
                put_fields(&(keymap, ()), out);
            },
            ClientMsg::Pong { t } => {
                put_variant(out, 16);
                put_fields(&(t, ()), out);
            },
        }
        assert(out@ =~= old(out)@ + Self::bytes_of(self.model()));
    }

    fn is_nil(&self) -> (yes: bool) {
        false
    }
}

impl Get for ClientMsg {
    fn get(s: &[u8], p: usize) -> (res: Result<(Self, usize), DecodeError>) {
        match get_variant(s, p) {
            Ok((v, at, q)) => get_client_body(s, v, at, q),
            Err(e) => Err(e),
        }
    }

    fn absent() -> (v: Option<Self>) {
        None
    }
}

} // verus!
