//! How messages stand on the wire.

use vstd::prelude::*;
use crate::cbor::item::{blob_bytes, bool_bytes, f32_bytes, f64_bytes, int_bytes, list_head, text_bytes, uint_bytes};
use crate::cbor::row::{fields_bytes, variant_bytes, Row};
use crate::cbor::wire::{option_bytes, Blob, Wire};
use crate::clipboard::msg::{ClipboardFile, ClipboardItem};
use crate::msg::client::{
    ClientMsg, ClientMsgView, ClientHelloRow, ClientResizeRow, ClientKeyRow, ClientPointerMotionRow,
    ClientPointerButtonRow, ClientPointerAxisRow, ClientFrameAckRow, ClientClipboardOfferRow, ClientClipboardRequestRow,
    ClientClipboardDataRow, ClientPingRow, ClientClipboardAckRow, ClientClipboardAbortRow, ClientKeymapRow,
    ClientPongRow,
};
use crate::msg::server::{
    ServerMsg, ServerMsgView, ServerHelloAckRow, ServerStreamConfigRow, ServerVideoFrameRow, ServerCursorShapeRow,
    ServerCursorPosRow, ServerClipboardOfferRow, ServerClipboardRequestRow, ServerClipboardDataRow, ServerPongRow,
    ServerErrorRow, ServerClipboardAckRow, ServerClipboardAbortRow, ServerPingRow,
};
use crate::msg::types::{
    Axis, ChromaMode, ClientCaps, ClientCapsView, ClipboardFileView, ClipboardItemFileRow, ClipboardItemMimeRow,
    ClipboardItemView, Codec, OutputInfo, OutputInfoView, Rect, SessionInfo, SessionInfoView, VideoPipeline,
};

verus! {

/// The head of a message: a list of two, the number of its kind, and a list of
/// so many fields.
pub open spec fn opening(kind: u8, fields: u8) -> Seq<u8> {
    seq![0x82u8, kind, (0x80 + fields) as u8]
}

/// The values of each kind by their numbers.
pub proof fn law_values_are_numbered(codec: Codec, chroma: ChromaMode, pipeline: VideoPipeline, axis: Axis)
    ensures
        Codec::bytes_of(codec) == seq![
            match codec {
                Codec::RawBgra => 0u8,
                Codec::H264 => 1,
                Codec::H265 => 2,
                Codec::Av1 => 3,
            },
        ],
        ChromaMode::bytes_of(chroma) == seq![
            match chroma {
                ChromaMode::Native444 => 0u8,
                ChromaMode::Dual420 => 1,
                ChromaMode::Single420 => 2,
            },
        ],
        VideoPipeline::bytes_of(pipeline) == seq![
            match pipeline {
                VideoPipeline::Gpu => 0u8,
                VideoPipeline::Cpu => 1,
            },
        ],
        Axis::bytes_of(axis) == seq![
            match axis {
                Axis::Vertical => 0u8,
                Axis::Horizontal => 1,
            },
        ],
{
}

proof fn lemma_end(last: Seq<u8>)
    ensures
        last + Seq::<u8>::empty() == last,
{
    assert(last + Seq::<u8>::empty() =~= last);
}

proof fn lemma_opening(kind: nat, n: nat, rest: Seq<u8>)
    requires
        kind < 24,
        n < 24,
    ensures
        variant_bytes(kind) + (list_head(n) + rest) == opening(kind as u8, n as u8) + rest,
        list_head(n) == seq![(0x80 + n) as u8],
{
    assert(variant_bytes(kind) + (list_head(n) + rest) =~= opening(kind as u8, n as u8) + rest);
}

proof fn lemma_message<R: Row>(kind: nat, m: R::Model)
    requires
        kind < 24,
        R::used(m) < 24,
    ensures
        variant_bytes(kind) + fields_bytes::<R>(m) == opening(kind as u8, R::used(m) as u8) + R::row_bytes(
            m,
            R::used(m),
        ),
{
    reveal(fields_bytes);
    lemma_opening(kind, R::used(m), R::row_bytes(m, R::used(m)));
}

/// What messages are made of: a list of the fields, in their order.
pub proof fn law_parts_on_the_wire(
    r: Rect,
    caps: ClientCapsView,
    output: OutputInfoView,
    session: SessionInfoView,
    file: ClipboardFileView,
    item: ClipboardItemView,
)
    ensures
        Rect::bytes_of(r) == seq![0x84u8] + (int_bytes(r.x as int) + (int_bytes(r.y as int) + (int_bytes(
            r.width as int,
        ) + int_bytes(r.height as int)))),
        ClientCaps::bytes_of(caps) == seq![0x85u8] + (Vec::<Codec>::bytes_of(caps.codecs) + (uint_bytes(
            caps.max_width as nat,
        ) + (uint_bytes(caps.max_height as nat) + (Vec::<ChromaMode>::bytes_of(caps.chroma) + Vec::<String>::bytes_of(
            caps.features,
        ))))),
        OutputInfo::bytes_of(output) == seq![0x84u8] + (text_bytes(output.name) + (uint_bytes(output.width as nat) + (
        uint_bytes(output.height as nat) + uint_bytes(output.scale_milli as nat)))),
        SessionInfo::bytes_of(session) == seq![0x82u8] + (bool_bytes(session.headless) + text_bytes(session.output)),
        ClipboardFile::bytes_of(file) == seq![0x83u8] + (text_bytes(file.path) + (uint_bytes(file.size as nat)
            + bool_bytes(file.dir))),
        ClipboardItem::bytes_of(item) == match item {
            ClipboardItemView::Mime(mime) => opening(0, 1) + text_bytes(mime),
            ClipboardItemView::File(index) => opening(1, 1) + uint_bytes(index as nat),
        },
{
    reveal(fields_bytes);
    lemma_end(int_bytes(r.height as int));
    lemma_end(Vec::<String>::bytes_of(caps.features));
    lemma_end(uint_bytes(output.scale_milli as nat));
    lemma_end(text_bytes(session.output));
    lemma_end(bool_bytes(file.dir));
    lemma_opening(0, 4, Seq::empty());
    lemma_opening(0, 5, Seq::empty());
    lemma_opening(0, 2, Seq::empty());
    lemma_opening(0, 3, Seq::empty());
    match item {
        ClipboardItemView::Mime(mime) => {
            lemma_message::<ClipboardItemMimeRow>(0, (mime, ()));
            lemma_end(text_bytes(mime));
        },
        ClipboardItemView::File(index) => {
            lemma_message::<ClipboardItemFileRow>(1, (index, ()));
            lemma_end(uint_bytes(index as nat));
        },
    }
}

/// What a client says: the number of each message and its fields, in their
/// order.
pub proof fn law_client_messages_on_the_wire(m: ClientMsgView)
    ensures
        ClientMsg::bytes_of(m) == match m {
            ClientMsgView::Hello { version, keymap, caps } => opening(0, 3) + (uint_bytes(version as nat) +
                (text_bytes(keymap) + (ClientCaps::bytes_of(caps)))),
            ClientMsgView::Resize { width, height, scale } => opening(1, 3) + (uint_bytes(width as nat) +
                (uint_bytes(height as nat) + (f32_bytes(scale)))),
            ClientMsgView::Key { keycode, pressed } => opening(2, 2) + (uint_bytes(keycode as nat) +
                (bool_bytes(pressed))),
            ClientMsgView::PointerMotion { x, y } => opening(3, 2) + (f64_bytes(x) + (f64_bytes(y))),
            ClientMsgView::PointerButton { button, pressed } => opening(4, 2) + (uint_bytes(button as nat) +
                (bool_bytes(pressed))),
            ClientMsgView::PointerAxis { axis, value, discrete, stop } => opening(5, 4) + (Axis::bytes_of(axis) +
                (f64_bytes(value) + (option_bytes::<i32>(discrete) + (bool_bytes(stop))))),
            ClientMsgView::FrameAck { frame_id, decoded_at_ms } => opening(6, 2) + (uint_bytes(frame_id as nat) +
                (uint_bytes(decoded_at_ms as nat))),
            ClientMsgView::RequestKeyframe => opening(7, 0),
            ClientMsgView::ClipboardOffer { serial, mime_types, files } => opening(8, 3) + (uint_bytes(serial as
                nat) + (Vec::<String>::bytes_of(mime_types) + (Vec::<ClipboardFile>::bytes_of(files)))),
            ClientMsgView::ClipboardRequest { id, serial, item } => opening(9, 3) + (uint_bytes(id as nat) +
                (uint_bytes(serial as nat) + (ClipboardItem::bytes_of(item)))),
            ClientMsgView::ClipboardData { id, offset, data_len, done } => opening(10, 4) + (uint_bytes(id as nat)
                + (uint_bytes(offset as nat) + (uint_bytes(data_len as nat) + (bool_bytes(done))))),
            ClientMsgView::Ping { t } => opening(11, 1) + (uint_bytes(t as nat)),
            ClientMsgView::Bye => opening(12, 0),
            ClientMsgView::ClipboardAck { id, received } => opening(13, 2) + (uint_bytes(id as nat) +
                (uint_bytes(received as nat))),
            ClientMsgView::ClipboardAbort { id } => opening(14, 1) + (uint_bytes(id as nat)),
            ClientMsgView::Keymap { keymap } => opening(15, 1) + (text_bytes(keymap)),
            ClientMsgView::Pong { t } => opening(16, 1) + (uint_bytes(t as nat)),
        },
{
    match m {
        ClientMsgView::Hello { version, keymap, caps } => {
            lemma_message::<ClientHelloRow>(0, (version, (keymap, (caps, ()))));
            lemma_end(ClientCaps::bytes_of(caps));
        },
        ClientMsgView::Resize { width, height, scale } => {
            lemma_message::<ClientResizeRow>(1, (width, (height, (scale, ()))));
            lemma_end(f32_bytes(scale));
        },
        ClientMsgView::Key { keycode, pressed } => {
            lemma_message::<ClientKeyRow>(2, (keycode, (pressed, ())));
            lemma_end(bool_bytes(pressed));
        },
        ClientMsgView::PointerMotion { x, y } => {
            lemma_message::<ClientPointerMotionRow>(3, (x, (y, ())));
            lemma_end(f64_bytes(y));
        },
        ClientMsgView::PointerButton { button, pressed } => {
            lemma_message::<ClientPointerButtonRow>(4, (button, (pressed, ())));
            lemma_end(bool_bytes(pressed));
        },
        ClientMsgView::PointerAxis { axis, value, discrete, stop } => {
            lemma_message::<ClientPointerAxisRow>(5, (axis, (value, (discrete, (stop, ())))));
            lemma_end(bool_bytes(stop));
        },
        ClientMsgView::FrameAck { frame_id, decoded_at_ms } => {
            lemma_message::<ClientFrameAckRow>(6, (frame_id, (decoded_at_ms, ())));
            lemma_end(uint_bytes(decoded_at_ms as nat));
        },
        ClientMsgView::RequestKeyframe => {
            lemma_opening(7, 0, Seq::empty());
            assert(opening(7, 0) + Seq::<u8>::empty() =~= opening(7, 0));
            assert(variant_bytes(7) + list_head(0) =~= opening(7, 0));
        },
        ClientMsgView::ClipboardOffer { serial, mime_types, files } => {
            lemma_message::<ClientClipboardOfferRow>(8, (serial, (mime_types, (files, ()))));
            lemma_end(Vec::<ClipboardFile>::bytes_of(files));
        },
        ClientMsgView::ClipboardRequest { id, serial, item } => {
            lemma_message::<ClientClipboardRequestRow>(9, (id, (serial, (item, ()))));
            lemma_end(ClipboardItem::bytes_of(item));
        },
        ClientMsgView::ClipboardData { id, offset, data_len, done } => {
            lemma_message::<ClientClipboardDataRow>(10, (id, (offset, (data_len, (done, ())))));
            lemma_end(bool_bytes(done));
        },
        ClientMsgView::Ping { t } => {
            lemma_message::<ClientPingRow>(11, (t, ()));
            lemma_end(uint_bytes(t as nat));
        },
        ClientMsgView::Bye => {
            lemma_opening(12, 0, Seq::empty());
            assert(opening(12, 0) + Seq::<u8>::empty() =~= opening(12, 0));
            assert(variant_bytes(12) + list_head(0) =~= opening(12, 0));
        },
        ClientMsgView::ClipboardAck { id, received } => {
            lemma_message::<ClientClipboardAckRow>(13, (id, (received, ())));
            lemma_end(uint_bytes(received as nat));
        },
        ClientMsgView::ClipboardAbort { id } => {
            lemma_message::<ClientClipboardAbortRow>(14, (id, ()));
            lemma_end(uint_bytes(id as nat));
        },
        ClientMsgView::Keymap { keymap } => {
            lemma_message::<ClientKeymapRow>(15, (keymap, ()));
            lemma_end(text_bytes(keymap));
        },
        ClientMsgView::Pong { t } => {
            lemma_message::<ClientPongRow>(16, (t, ()));
            lemma_end(uint_bytes(t as nat));
        },
    }
}

/// What a server says: the number of each message and its fields, in their
/// order. An error that tells no version ends before it.
pub proof fn law_server_messages_on_the_wire(m: ServerMsgView)
    ensures
        ServerMsg::bytes_of(m) == match m {
            ServerMsgView::HelloAck { version, session, outputs, features } => opening(0, 4) + (uint_bytes(version
                as nat) + (SessionInfo::bytes_of(session) + (Vec::<OutputInfo>::bytes_of(outputs) +
                (Vec::<String>::bytes_of(features))))),
            ServerMsgView::StreamConfig { codec, chroma, pipeline, width, height, scale_milli, extradata,
                aux_extradata, view_width, view_height, fps_cap } => opening(1, 11) + (Codec::bytes_of(codec) +
                (ChromaMode::bytes_of(chroma) + (option_bytes::<VideoPipeline>(pipeline) + (uint_bytes(width as
                nat) + (uint_bytes(height as nat) + (uint_bytes(scale_milli as nat) + (blob_bytes(extradata) +
                (option_bytes::<Blob>(aux_extradata) + (uint_bytes(view_width as nat) + (uint_bytes(view_height as
                nat) + (uint_bytes(fps_cap as nat)))))))))))),
            ServerMsgView::VideoFrame { frame_id, pts_us, keyframe, damage, data_len, aux_len } => opening(2, 6) +
                (uint_bytes(frame_id as nat) + (uint_bytes(pts_us as nat) + (bool_bytes(keyframe) +
                (Vec::<Rect>::bytes_of(damage) + (uint_bytes(data_len as nat) + (uint_bytes(aux_len as nat))))))),
            ServerMsgView::CursorShape { id, width, height, hot_x, hot_y, argb_len } => opening(3, 6) +
                (uint_bytes(id as nat) + (uint_bytes(width as nat) + (uint_bytes(height as nat) + (int_bytes(hot_x
                as int) + (int_bytes(hot_y as int) + (uint_bytes(argb_len as nat))))))),
            ServerMsgView::CursorPos { x, y, shape_id, visible } => opening(4, 4) + (f64_bytes(x) + (f64_bytes(y)
                + (uint_bytes(shape_id as nat) + (bool_bytes(visible))))),
            ServerMsgView::ClipboardOffer { serial, mime_types, files } => opening(5, 3) + (uint_bytes(serial as
                nat) + (Vec::<String>::bytes_of(mime_types) + (Vec::<ClipboardFile>::bytes_of(files)))),
            ServerMsgView::ClipboardRequest { id, serial, item } => opening(6, 3) + (uint_bytes(id as nat) +
                (uint_bytes(serial as nat) + (ClipboardItem::bytes_of(item)))),
            ServerMsgView::ClipboardData { id, offset, data_len, done } => opening(7, 4) + (uint_bytes(id as nat)
                + (uint_bytes(offset as nat) + (uint_bytes(data_len as nat) + (bool_bytes(done))))),
            ServerMsgView::Pong { t, server_now_ms } => opening(8, 2) + (uint_bytes(t as nat) +
                (uint_bytes(server_now_ms as nat))),
            ServerMsgView::Error { code, message, version } => match version {
                Some(v) => opening(9, 3) + (uint_bytes(code as nat) + (text_bytes(message) + uint_bytes(v as nat))),
                None => opening(9, 2) + (uint_bytes(code as nat) + text_bytes(message)),
            },
            ServerMsgView::ClipboardAck { id, received } => opening(10, 2) + (uint_bytes(id as nat) +
                (uint_bytes(received as nat))),
            ServerMsgView::ClipboardAbort { id } => opening(11, 1) + (uint_bytes(id as nat)),
            ServerMsgView::Ping { t } => opening(12, 1) + (uint_bytes(t as nat)),
        },
{
    match m {
        ServerMsgView::HelloAck { version, session, outputs, features } => {
            lemma_message::<ServerHelloAckRow>(0, (version, (session, (outputs, (features, ())))));
            lemma_end(Vec::<String>::bytes_of(features));
        },
        ServerMsgView::StreamConfig { codec, chroma, pipeline, width, height, scale_milli, extradata,
            aux_extradata, view_width, view_height, fps_cap } => {
            lemma_message::<ServerStreamConfigRow>(1, (codec, (chroma, (pipeline, (width, (height, (scale_milli,
                (extradata, (aux_extradata, (view_width, (view_height, (fps_cap, ()))))))))))));
            lemma_end(uint_bytes(fps_cap as nat));
        },
        ServerMsgView::VideoFrame { frame_id, pts_us, keyframe, damage, data_len, aux_len } => {
            lemma_message::<ServerVideoFrameRow>(2, (frame_id, (pts_us, (keyframe, (damage, (data_len, (aux_len,
                ())))))));
            lemma_end(uint_bytes(aux_len as nat));
        },
        ServerMsgView::CursorShape { id, width, height, hot_x, hot_y, argb_len } => {
            lemma_message::<ServerCursorShapeRow>(3, (id, (width, (height, (hot_x, (hot_y, (argb_len, ())))))));
            lemma_end(uint_bytes(argb_len as nat));
        },
        ServerMsgView::CursorPos { x, y, shape_id, visible } => {
            lemma_message::<ServerCursorPosRow>(4, (x, (y, (shape_id, (visible, ())))));
            lemma_end(bool_bytes(visible));
        },
        ServerMsgView::ClipboardOffer { serial, mime_types, files } => {
            lemma_message::<ServerClipboardOfferRow>(5, (serial, (mime_types, (files, ()))));
            lemma_end(Vec::<ClipboardFile>::bytes_of(files));
        },
        ServerMsgView::ClipboardRequest { id, serial, item } => {
            lemma_message::<ServerClipboardRequestRow>(6, (id, (serial, (item, ()))));
            lemma_end(ClipboardItem::bytes_of(item));
        },
        ServerMsgView::ClipboardData { id, offset, data_len, done } => {
            lemma_message::<ServerClipboardDataRow>(7, (id, (offset, (data_len, (done, ())))));
            lemma_end(bool_bytes(done));
        },
        ServerMsgView::Pong { t, server_now_ms } => {
            lemma_message::<ServerPongRow>(8, (t, (server_now_ms, ())));
            lemma_end(uint_bytes(server_now_ms as nat));
        },
        ServerMsgView::Error { code, message, version } => {
            lemma_message::<ServerErrorRow>(9, (code, (message, (version, ()))));
            lemma_end(text_bytes(message));
            if let Some(v) = version {
                lemma_end(uint_bytes(v as nat));
            }
        },
        ServerMsgView::ClipboardAck { id, received } => {
            lemma_message::<ServerClipboardAckRow>(10, (id, (received, ())));
            lemma_end(uint_bytes(received as nat));
        },
        ServerMsgView::ClipboardAbort { id } => {
            lemma_message::<ServerClipboardAbortRow>(11, (id, ()));
            lemma_end(uint_bytes(id as nat));
        },
        ServerMsgView::Ping { t } => {
            lemma_message::<ServerPingRow>(12, (t, ()));
            lemma_end(uint_bytes(t as nat));
        },
    }
}

/// The texts of strings.
pub open spec fn texts(list: Seq<String>) -> Seq<Seq<char>> {
    list.map_values(|s: String| s@)
}

pub open spec fn file_views(list: Seq<ClipboardFile>) -> Seq<ClipboardFileView> {
    list.map_values(|f: ClipboardFile| ClipboardFileView { path: f.path@, size: f.size, dir: f.dir })
}

pub open spec fn output_views(list: Seq<OutputInfo>) -> Seq<OutputInfoView> {
    list.map_values(
        |o: OutputInfo|
            OutputInfoView { name: o.name@, width: o.width, height: o.height, scale_milli: o.scale_milli },
    )
}

pub open spec fn item_view(item: ClipboardItem) -> ClipboardItemView {
    match item {
        ClipboardItem::Mime(mime) => ClipboardItemView::Mime(mime@),
        ClipboardItem::File(index) => ClipboardItemView::File(index),
    }
}

proof fn lemma_texts(v: Vec<String>)
    ensures
        v.model() == texts(v@),
{
    assert(v.model() =~= texts(v@));
}

proof fn lemma_files(v: Vec<ClipboardFile>)
    ensures
        v.model() == file_views(v@),
{
    assert(v.model() =~= file_views(v@));
}

proof fn lemma_outputs(v: Vec<OutputInfo>)
    ensures
        v.model() == output_views(v@),
{
    assert(v.model() =~= output_views(v@));
}

/// What stands on the wire for a client's message is what it holds, field by
/// field.
pub proof fn law_client_messages_travel_as_they_are(m: ClientMsg)
    ensures
        m.model() == match m {
            ClientMsg::Hello { version, keymap, caps } => ClientMsgView::Hello { version, keymap: keymap@, caps:
                ClientCapsView { codecs: caps.codecs@, max_width: caps.max_width, max_height: caps.max_height,
                chroma: caps.chroma@, features: texts(caps.features@) } },
            ClientMsg::Resize { width, height, scale } => ClientMsgView::Resize { width, height, scale },
            ClientMsg::Key { keycode, pressed } => ClientMsgView::Key { keycode, pressed },
            ClientMsg::PointerMotion { x, y } => ClientMsgView::PointerMotion { x, y },
            ClientMsg::PointerButton { button, pressed } => ClientMsgView::PointerButton { button, pressed },
            ClientMsg::PointerAxis { axis, value, discrete, stop } => ClientMsgView::PointerAxis { axis, value,
                discrete, stop },
            ClientMsg::FrameAck { frame_id, decoded_at_ms } => ClientMsgView::FrameAck { frame_id, decoded_at_ms },
            ClientMsg::RequestKeyframe => ClientMsgView::RequestKeyframe,
            ClientMsg::ClipboardOffer { serial, mime_types, files } => ClientMsgView::ClipboardOffer { serial,
                mime_types: texts(mime_types@), files: file_views(files@) },
            ClientMsg::ClipboardRequest { id, serial, item } => ClientMsgView::ClipboardRequest { id, serial,
                item: item_view(item) },
            ClientMsg::ClipboardData { id, offset, data_len, done } => ClientMsgView::ClipboardData { id, offset,
                data_len, done },
            ClientMsg::Ping { t } => ClientMsgView::Ping { t },
            ClientMsg::Bye => ClientMsgView::Bye,
            ClientMsg::ClipboardAck { id, received } => ClientMsgView::ClipboardAck { id, received },
            ClientMsg::ClipboardAbort { id } => ClientMsgView::ClipboardAbort { id },
            ClientMsg::Keymap { keymap } => ClientMsgView::Keymap { keymap: keymap@ },
            ClientMsg::Pong { t } => ClientMsgView::Pong { t },
        },
{
    match m {
        ClientMsg::Hello { caps, .. } => {
            lemma_texts(caps.features);
            assert(caps.codecs.model() =~= caps.codecs@);
            assert(caps.chroma.model() =~= caps.chroma@);
        },
        ClientMsg::ClipboardOffer { mime_types, files, .. } => {
            lemma_texts(mime_types);
            lemma_files(files);
        },
        _ => {},
    }
}

/// What stands on the wire for a server's message is what it holds, field by
/// field.
pub proof fn law_server_messages_travel_as_they_are(m: ServerMsg)
    ensures
        m.model() == match m {
            ServerMsg::HelloAck { version, session, outputs, features } => ServerMsgView::HelloAck { version,
                session: SessionInfoView { headless: session.headless, output: session.output@ }, outputs:
                output_views(outputs@), features: texts(features@) },
            ServerMsg::StreamConfig { codec, chroma, pipeline, width, height, scale_milli, extradata,
                aux_extradata, view_width, view_height, fps_cap } => ServerMsgView::StreamConfig { codec, chroma,
                pipeline, width, height, scale_milli, extradata: extradata@, aux_extradata: match aux_extradata {
                Some(b) => Some(b@), None => None }, view_width, view_height, fps_cap },
            ServerMsg::VideoFrame { frame_id, pts_us, keyframe, damage, data_len, aux_len } =>
                ServerMsgView::VideoFrame { frame_id, pts_us, keyframe, damage: damage@, data_len, aux_len },
            ServerMsg::CursorShape { id, width, height, hot_x, hot_y, argb_len } => ServerMsgView::CursorShape {
                id, width, height, hot_x, hot_y, argb_len },
            ServerMsg::CursorPos { x, y, shape_id, visible } => ServerMsgView::CursorPos { x, y, shape_id, visible },
            ServerMsg::ClipboardOffer { serial, mime_types, files } => ServerMsgView::ClipboardOffer { serial,
                mime_types: texts(mime_types@), files: file_views(files@) },
            ServerMsg::ClipboardRequest { id, serial, item } => ServerMsgView::ClipboardRequest { id, serial,
                item: item_view(item) },
            ServerMsg::ClipboardData { id, offset, data_len, done } => ServerMsgView::ClipboardData { id, offset,
                data_len, done },
            ServerMsg::Pong { t, server_now_ms } => ServerMsgView::Pong { t, server_now_ms },
            ServerMsg::Error { code, message, version } => ServerMsgView::Error { code, message: message@, version },
            ServerMsg::ClipboardAck { id, received } => ServerMsgView::ClipboardAck { id, received },
            ServerMsg::ClipboardAbort { id } => ServerMsgView::ClipboardAbort { id },
            ServerMsg::Ping { t } => ServerMsgView::Ping { t },
        },
{
    match m {
        ServerMsg::HelloAck { outputs, features, .. } => {
            lemma_outputs(outputs);
            lemma_texts(features);
        },
        ServerMsg::VideoFrame { damage, .. } => {
            assert(damage.model() =~= damage@);
        },
        ServerMsg::ClipboardOffer { mime_types, files, .. } => {
            lemma_texts(mime_types);
            lemma_files(files);
        },
        _ => {},
    }
}

} // verus!
