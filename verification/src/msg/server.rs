//! What a server says to a client.

use vstd::prelude::*;
use crate::cbor::item::{DecodeError, Found, F64};
use crate::cbor::list::Maybe;
use crate::cbor::row::{
    fields_at, fields_bytes, get_fields, get_variant, lemma_variant_and_fields, put_fields, put_variant,
    variant_at, variant_bytes, Row,
};
use crate::cbor::wire::{blob_bytes_of, blob_ref, opt_bytes, read, Blob, BlobRef, Get, Put, Wire};
use crate::clipboard::msg::{ClipboardFile, ClipboardItem};
use crate::msg::types::{
    ChromaMode, ClipboardFileView, ClipboardItemView, Codec, OutputInfo, OutputInfoView, Rect, SessionInfo,
    SessionInfoView, VideoPipeline,
};

verus! {

#[derive(Debug, Clone, PartialEq)]
pub enum ServerMsg {
    HelloAck {
        version: u16,
        session: SessionInfo,
        outputs: Vec<OutputInfo>,
        /// The server's `features`.
        features: Vec<String>,
    },
    StreamConfig {
        codec: Codec,
        chroma: ChromaMode,
        /// Which pipeline encodes on the server, for the client's stats.
        pipeline: Option<VideoPipeline>,
        /// Stream size in physical pixels.
        width: u32,
        height: u32,
        /// Effective stream scale x1000: the remote's logical size is
        /// `width / scale`, and pointer coordinates are sent in that logical
        /// space. It folds in any downscale of the stream, so it stays the
        /// number stream pixels are divided by.
        scale_milli: u32,
        extradata: Vec<u8>,
        aux_extradata: Option<Vec<u8>>,
        /// The full-quality fit size in physical pixels: the area the client
        /// should draw the stream into. Equal to the stream size unless the
        /// server sends a reduced-resolution stream.
        view_width: u32,
        view_height: u32,
        /// The frame-rate ceiling in force, for the client's stats display.
        fps_cap: u32,
    },
    VideoFrame {
        frame_id: u64,
        pts_us: u64,
        keyframe: bool,
        damage: Vec<Rect>,
        data_len: u32,
        /// `aux_len > 0` iff `chroma == Dual420`; bytes follow the header.
        aux_len: u32,
    },
    CursorShape {
        id: u32,
        width: u32,
        height: u32,
        hot_x: i32,
        hot_y: i32,
        argb_len: u32,
    },
    CursorPos {
        x: F64,
        y: F64,
        shape_id: u32,
        visible: bool,
    },
    ClipboardOffer {
        serial: u32,
        mime_types: Vec<String>,
        files: Vec<ClipboardFile>,
    },
    ClipboardRequest {
        id: u32,
        serial: u32,
        item: ClipboardItem,
    },
    ClipboardData {
        id: u32,
        offset: u64,
        data_len: u32,
        done: bool,
    },
    Pong {
        t: u64,
        server_now_ms: u64,
    },
    Error {
        code: u16,
        message: String,
        /// The server's protocol version.
        version: Option<u16>,
    },
    ClipboardAck {
        id: u32,
        received: u64,
    },
    ClipboardAbort {
        id: u32,
    },
    /// Sent right after HelloAck; the client answers with `ClientMsg::Pong`
    /// ahead of anything else, seeding the server's round-trip estimate
    /// before the first frame is acked.
    Ping {
        t: u64,
    },
}

/// The contents of a [`ServerMsg`].
pub enum ServerMsgView {
    HelloAck { version: u16, session: SessionInfoView, outputs: Seq<OutputInfoView>, features: Seq<Seq<char>> },
    StreamConfig {
        codec: Codec,
        chroma: ChromaMode,
        pipeline: Option<VideoPipeline>,
        width: u32,
        height: u32,
        scale_milli: u32,
        extradata: Seq<u8>,
        aux_extradata: Option<Seq<u8>>,
        view_width: u32,
        view_height: u32,
        fps_cap: u32,
    },
    VideoFrame { frame_id: u64, pts_us: u64, keyframe: bool, damage: Seq<Rect>, data_len: u32, aux_len: u32 },
    CursorShape { id: u32, width: u32, height: u32, hot_x: i32, hot_y: i32, argb_len: u32 },
    CursorPos { x: F64, y: F64, shape_id: u32, visible: bool },
    ClipboardOffer { serial: u32, mime_types: Seq<Seq<char>>, files: Seq<ClipboardFileView> },
    ClipboardRequest { id: u32, serial: u32, item: ClipboardItemView },
    ClipboardData { id: u32, offset: u64, data_len: u32, done: bool },
    Pong { t: u64, server_now_ms: u64 },
    Error { code: u16, message: Seq<char>, version: Option<u16> },
    ClipboardAck { id: u32, received: u64 },
    ClipboardAbort { id: u32 },
    Ping { t: u64 },
}

pub type ServerHelloAckRow = (u16, (SessionInfo, (Vec<OutputInfo>, (Vec<String>, ()))));

pub type ServerStreamConfigRow = (
    Codec,
    (ChromaMode, (Maybe<VideoPipeline>, (u32, (u32, (u32, (Blob, (Option<Blob>, (u32, (u32, (u32, ())))))))))),
);

pub type ServerVideoFrameRow = (u64, (u64, (bool, (Vec<Rect>, (u32, (u32, ()))))));

pub type ServerCursorShapeRow = (u32, (u32, (u32, (i32, (i32, (u32, ()))))));

pub type ServerCursorPosRow = (F64, (F64, (u32, (bool, ()))));

pub type ServerClipboardOfferRow = (u32, (Vec<String>, (Vec<ClipboardFile>, ())));

pub type ServerClipboardRequestRow = (u32, (u32, (ClipboardItem, ())));

pub type ServerClipboardDataRow = (u32, (u64, (u32, (bool, ()))));

pub type ServerPongRow = (u64, (u64, ()));

pub type ServerErrorRow = (u16, (String, (Option<u16>, ())));

pub type ServerClipboardAckRow = (u32, (u64, ()));

pub type ServerClipboardAbortRow = (u32, ());

pub type ServerPingRow = (u64, ());

impl Wire for ServerMsg {
    type Model = ServerMsgView;

    open spec fn model(&self) -> Self::Model {
        match self {
            ServerMsg::HelloAck { version, session, outputs, features } => ServerMsgView::HelloAck {
                version: *version,
                session: session.model(),
                outputs: outputs.model(),
                features: features.model(),
            },
            ServerMsg::StreamConfig {
                codec,
                chroma,
                pipeline,
                width,
                height,
                scale_milli,
                extradata,
                aux_extradata,
                view_width,
                view_height,
                fps_cap,
            } => ServerMsgView::StreamConfig {
                codec: *codec,
                chroma: *chroma,
                pipeline: *pipeline,
                width: *width,
                height: *height,
                scale_milli: *scale_milli,
                extradata: extradata@,
                aux_extradata: opt_bytes(*aux_extradata),
                view_width: *view_width,
                view_height: *view_height,
                fps_cap: *fps_cap,
            },
            ServerMsg::VideoFrame { frame_id, pts_us, keyframe, damage, data_len, aux_len } =>
                ServerMsgView::VideoFrame {
                frame_id: *frame_id,
                pts_us: *pts_us,
                keyframe: *keyframe,
                damage: damage.model(),
                data_len: *data_len,
                aux_len: *aux_len,
            },
            ServerMsg::CursorShape { id, width, height, hot_x, hot_y, argb_len } => ServerMsgView::CursorShape {
                id: *id,
                width: *width,
                height: *height,
                hot_x: *hot_x,
                hot_y: *hot_y,
                argb_len: *argb_len,
            },
            ServerMsg::CursorPos { x, y, shape_id, visible } => ServerMsgView::CursorPos {
                x: *x,
                y: *y,
                shape_id: *shape_id,
                visible: *visible,
            },
            ServerMsg::ClipboardOffer { serial, mime_types, files } => ServerMsgView::ClipboardOffer {
                serial: *serial,
                mime_types: mime_types.model(),
                files: files.model(),
            },
            ServerMsg::ClipboardRequest { id, serial, item } => ServerMsgView::ClipboardRequest {
                id: *id,
                serial: *serial,
                item: item.model(),
            },
            ServerMsg::ClipboardData { id, offset, data_len, done } => ServerMsgView::ClipboardData {
                id: *id,
                offset: *offset,
                data_len: *data_len,
                done: *done,
            },
            ServerMsg::Pong { t, server_now_ms } => ServerMsgView::Pong { t: *t, server_now_ms: *server_now_ms },
            ServerMsg::Error { code, message, version } => ServerMsgView::Error {
                code: *code,
                message: message@,
                version: *version,
            },
            ServerMsg::ClipboardAck { id, received } => ServerMsgView::ClipboardAck { id: *id, received: *received },
            ServerMsg::ClipboardAbort { id } => ServerMsgView::ClipboardAbort { id: *id },
            ServerMsg::Ping { t } => ServerMsgView::Ping { t: *t },
        }
    }

    open spec fn bytes_of(m: Self::Model) -> Seq<u8> {
        match m {
            ServerMsgView::HelloAck { version, session, outputs, features } => variant_bytes(0)
                + fields_bytes::<ServerHelloAckRow>(
                (version, (session, (outputs, (features, ())))),
            ),
            ServerMsgView::StreamConfig {
                codec,
                chroma,
                pipeline,
                width,
                height,
                scale_milli,
                extradata,
                aux_extradata,
                view_width,
                view_height,
                fps_cap,
            } => variant_bytes(1) + fields_bytes::<ServerStreamConfigRow>(
                (
                    codec,
                    (
                        chroma,
                        (
                            pipeline,
                            (
                                width,
                                (
                                    height,
                                    (
                                        scale_milli,
                                        (extradata, (aux_extradata, (view_width, (view_height, (fps_cap, ()))))),
                                    ),
                                ),
                            ),
                        ),
                    ),
                ),
            ),
            ServerMsgView::VideoFrame { frame_id, pts_us, keyframe, damage, data_len, aux_len } => variant_bytes(2)
                + fields_bytes::<ServerVideoFrameRow>(
                (frame_id, (pts_us, (keyframe, (damage, (data_len, (aux_len, ())))))),
            ),
            ServerMsgView::CursorShape { id, width, height, hot_x, hot_y, argb_len } => variant_bytes(3)
                + fields_bytes::<ServerCursorShapeRow>(
                (id, (width, (height, (hot_x, (hot_y, (argb_len, ())))))),
            ),
            ServerMsgView::CursorPos { x, y, shape_id, visible } => variant_bytes(4)
                + fields_bytes::<ServerCursorPosRow>(
                (x, (y, (shape_id, (visible, ())))),
            ),
            ServerMsgView::ClipboardOffer { serial, mime_types, files } => variant_bytes(5)
                + fields_bytes::<ServerClipboardOfferRow>(
                (serial, (mime_types, (files, ()))),
            ),
            ServerMsgView::ClipboardRequest { id, serial, item } => variant_bytes(6)
                + fields_bytes::<ServerClipboardRequestRow>(
                (id, (serial, (item, ()))),
            ),
            ServerMsgView::ClipboardData { id, offset, data_len, done } => variant_bytes(7)
                + fields_bytes::<ServerClipboardDataRow>(
                (id, (offset, (data_len, (done, ())))),
            ),
            ServerMsgView::Pong { t, server_now_ms } => variant_bytes(8)
                + fields_bytes::<ServerPongRow>((t, (server_now_ms, ()))),
            ServerMsgView::Error { code, message, version } => variant_bytes(9) + fields_bytes::<ServerErrorRow>(
                (code, (message, (version, ()))),
            ),
            ServerMsgView::ClipboardAck { id, received } => variant_bytes(10)
                + fields_bytes::<ServerClipboardAckRow>((id, (received, ()))),
            ServerMsgView::ClipboardAbort { id } => variant_bytes(11)
                + fields_bytes::<ServerClipboardAbortRow>((id, ())),
            ServerMsgView::Ping { t } => variant_bytes(12) + fields_bytes::<ServerPingRow>((t, ())),
        }
    }

    open spec fn fits(m: Self::Model) -> bool {
        match m {
            ServerMsgView::HelloAck { version, session, outputs, features } => <ServerHelloAckRow as Row>::row_fits(
                (version, (session, (outputs, (features, ())))),
            ),
            ServerMsgView::StreamConfig {
                codec,
                chroma,
                pipeline,
                width,
                height,
                scale_milli,
                extradata,
                aux_extradata,
                view_width,
                view_height,
                fps_cap,
            } => <ServerStreamConfigRow as Row>::row_fits(
                (
                    codec,
                    (
                        chroma,
                        (
                            pipeline,
                            (
                                width,
                                (
                                    height,
                                    (
                                        scale_milli,
                                        (extradata, (aux_extradata, (view_width, (view_height, (fps_cap, ()))))),
                                    ),
                                ),
                            ),
                        ),
                    ),
                ),
            ),
            ServerMsgView::VideoFrame { frame_id, pts_us, keyframe, damage, data_len, aux_len } => <ServerVideoFrameRow as Row>::row_fits(
                (frame_id, (pts_us, (keyframe, (damage, (data_len, (aux_len, ())))))),
            ),
            ServerMsgView::CursorShape { id, width, height, hot_x, hot_y, argb_len } => <ServerCursorShapeRow as Row>::row_fits(
                (id, (width, (height, (hot_x, (hot_y, (argb_len, ())))))),
            ),
            ServerMsgView::CursorPos { x, y, shape_id, visible } => <ServerCursorPosRow as Row>::row_fits(
                (x, (y, (shape_id, (visible, ())))),
            ),
            ServerMsgView::ClipboardOffer { serial, mime_types, files } => <ServerClipboardOfferRow as Row>::row_fits(
                (serial, (mime_types, (files, ()))),
            ),
            ServerMsgView::ClipboardRequest { id, serial, item } => <ServerClipboardRequestRow as Row>::row_fits(
                (id, (serial, (item, ()))),
            ),
            ServerMsgView::ClipboardData { id, offset, data_len, done } => <ServerClipboardDataRow as Row>::row_fits(
                (id, (offset, (data_len, (done, ())))),
            ),
            ServerMsgView::Pong { t, server_now_ms } => <ServerPongRow as Row>::row_fits((t, (server_now_ms, ()))),
            ServerMsgView::Error { code, message, version } => <ServerErrorRow as Row>::row_fits(
                (code, (message, (version, ()))),
            ),
            ServerMsgView::ClipboardAck { id, received } => <ServerClipboardAckRow as Row>::row_fits(
                (id, (received, ())),
            ),
            ServerMsgView::ClipboardAbort { id } => <ServerClipboardAbortRow as Row>::row_fits((id, ())),
            ServerMsgView::Ping { t } => <ServerPingRow as Row>::row_fits((t, ())),
        }
    }

    open spec fn found_at(s: Seq<u8>, p: int) -> Found<Self::Model> {
        match variant_at(s, p) {
            Ok((v, at, q)) => server_body_at(s, v, at, q),
            Err(e) => Err(e),
        }
    }

    open spec fn nil() -> Option<Self::Model> {
        None
    }

    proof fn round_trip(m: Self::Model, s: Seq<u8>, p: int, tail: Seq<u8>) {
        match m {
            ServerMsgView::HelloAck { version, session, outputs, features } => {
                lemma_variant_and_fields::<ServerHelloAckRow>(
                    0,
                    (version, (session, (outputs, (features, ())))),
                    s,
                    p,
                    tail,
                );
            },
            ServerMsgView::StreamConfig {
                codec,
                chroma,
                pipeline,
                width,
                height,
                scale_milli,
                extradata,
                aux_extradata,
                view_width,
                view_height,
                fps_cap,
            } => {
                lemma_variant_and_fields::<ServerStreamConfigRow>(
                    1,
                    (
                        codec,
                        (
                            chroma,
                            (
                                pipeline,
                                (
                                    width,
                                    (
                                        height,
                                        (
                                            scale_milli,
                                            (extradata, (aux_extradata, (view_width, (view_height, (fps_cap, ()))))),
                                        ),
                                    ),
                                ),
                            ),
                        ),
                    ),
                    s,
                    p,
                    tail,
                );
            },
            ServerMsgView::VideoFrame { frame_id, pts_us, keyframe, damage, data_len, aux_len } => {
                lemma_variant_and_fields::<ServerVideoFrameRow>(
                    2,
                    (frame_id, (pts_us, (keyframe, (damage, (data_len, (aux_len, ())))))),
                    s,
                    p,
                    tail,
                );
            },
            ServerMsgView::CursorShape { id, width, height, hot_x, hot_y, argb_len } => {
                lemma_variant_and_fields::<ServerCursorShapeRow>(
                    3,
                    (id, (width, (height, (hot_x, (hot_y, (argb_len, ())))))),
                    s,
                    p,
                    tail,
                );
            },
            ServerMsgView::CursorPos { x, y, shape_id, visible } => {
                lemma_variant_and_fields::<ServerCursorPosRow>(4, (x, (y, (shape_id, (visible, ())))), s, p, tail);
            },
            ServerMsgView::ClipboardOffer { serial, mime_types, files } => {
                lemma_variant_and_fields::<ServerClipboardOfferRow>(5, (serial, (mime_types, (files, ()))), s, p, tail);
            },
            ServerMsgView::ClipboardRequest { id, serial, item } => {
                lemma_variant_and_fields::<ServerClipboardRequestRow>(6, (id, (serial, (item, ()))), s, p, tail);
            },
            ServerMsgView::ClipboardData { id, offset, data_len, done } => {
                lemma_variant_and_fields::<ServerClipboardDataRow>(
                    7,
                    (id, (offset, (data_len, (done, ())))),
                    s,
                    p,
                    tail,
                );
            },
            ServerMsgView::Pong { t, server_now_ms } => {
                lemma_variant_and_fields::<ServerPongRow>(8, (t, (server_now_ms, ())), s, p, tail);
            },
            ServerMsgView::Error { code, message, version } => {
                lemma_variant_and_fields::<ServerErrorRow>(9, (code, (message, (version, ()))), s, p, tail);
            },
            ServerMsgView::ClipboardAck { id, received } => {
                lemma_variant_and_fields::<ServerClipboardAckRow>(10, (id, (received, ())), s, p, tail);
            },
            ServerMsgView::ClipboardAbort { id } => {
                lemma_variant_and_fields::<ServerClipboardAbortRow>(11, (id, ()), s, p, tail);
            },
            ServerMsgView::Ping { t } => {
                lemma_variant_and_fields::<ServerPingRow>(12, (t, ()), s, p, tail);
            },
        }
    }
}

/// The variant numbered `v`, whose number stands at `at` and whose fields
/// stand at `q`.
pub open spec fn server_body_at(s: Seq<u8>, v: i64, at: int, q: int) -> Found<ServerMsgView> {
    if v == 0 {
        match fields_at::<ServerHelloAckRow>(s, q) {
            Ok(((version, (session, (outputs, (features, ())))), end)) => Ok(
                (ServerMsgView::HelloAck { version, session, outputs, features }, end),
            ),
            Err(e) => Err(e),
        }
    } else if v == 1 {
        match fields_at::<ServerStreamConfigRow>(s, q) {
            Ok(
                (
                    (codec, (chroma, (pipeline, (width, (height, (scale_milli, (extradata, (aux_extradata, (view_width, (view_height, (fps_cap, ()))))))))))),
                    end,
                ),
            ) => Ok(
                (
                    ServerMsgView::StreamConfig {
                        codec,
                        chroma,
                        pipeline,
                        width,
                        height,
                        scale_milli,
                        extradata,
                        aux_extradata,
                        view_width,
                        view_height,
                        fps_cap,
                    },
                    end,
                ),
            ),
            Err(e) => Err(e),
        }
    } else if v == 2 {
        match fields_at::<ServerVideoFrameRow>(s, q) {
            Ok(((frame_id, (pts_us, (keyframe, (damage, (data_len, (aux_len, ())))))), end)) => Ok(
                (ServerMsgView::VideoFrame { frame_id, pts_us, keyframe, damage, data_len, aux_len }, end),
            ),
            Err(e) => Err(e),
        }
    } else if v == 3 {
        match fields_at::<ServerCursorShapeRow>(s, q) {
            Ok(((id, (width, (height, (hot_x, (hot_y, (argb_len, ())))))), end)) => Ok(
                (ServerMsgView::CursorShape { id, width, height, hot_x, hot_y, argb_len }, end),
            ),
            Err(e) => Err(e),
        }
    } else if v == 4 {
        match fields_at::<ServerCursorPosRow>(s, q) {
            Ok(((x, (y, (shape_id, (visible, ())))), end)) => Ok(
                (ServerMsgView::CursorPos { x, y, shape_id, visible }, end),
            ),
            Err(e) => Err(e),
        }
    } else if v == 5 {
        match fields_at::<ServerClipboardOfferRow>(s, q) {
            Ok(((serial, (mime_types, (files, ()))), end)) => Ok(
                (ServerMsgView::ClipboardOffer { serial, mime_types, files }, end),
            ),
            Err(e) => Err(e),
        }
    } else if v == 6 {
        match fields_at::<ServerClipboardRequestRow>(s, q) {
            Ok(((id, (serial, (item, ()))), end)) => Ok((ServerMsgView::ClipboardRequest { id, serial, item }, end)),
            Err(e) => Err(e),
        }
    } else if v == 7 {
        match fields_at::<ServerClipboardDataRow>(s, q) {
            Ok(((id, (offset, (data_len, (done, ())))), end)) => Ok(
                (ServerMsgView::ClipboardData { id, offset, data_len, done }, end),
            ),
            Err(e) => Err(e),
        }
    } else if v == 8 {
        match fields_at::<ServerPongRow>(s, q) {
            Ok(((t, (server_now_ms, ())), end)) => Ok((ServerMsgView::Pong { t, server_now_ms }, end)),
            Err(e) => Err(e),
        }
    } else if v == 9 {
        match fields_at::<ServerErrorRow>(s, q) {
            Ok(((code, (message, (version, ()))), end)) => Ok((ServerMsgView::Error { code, message, version }, end)),
            Err(e) => Err(e),
        }
    } else if v == 10 {
        match fields_at::<ServerClipboardAckRow>(s, q) {
            Ok(((id, (received, ())), end)) => Ok((ServerMsgView::ClipboardAck { id, received }, end)),
            Err(e) => Err(e),
        }
    } else if v == 11 {
        match fields_at::<ServerClipboardAbortRow>(s, q) {
            Ok(((id, ()), end)) => Ok((ServerMsgView::ClipboardAbort { id }, end)),
            Err(e) => Err(e),
        }
    } else if v == 12 {
        match fields_at::<ServerPingRow>(s, q) {
            Ok(((t, ()), end)) => Ok((ServerMsgView::Ping { t }, end)),
            Err(e) => Err(e),
        }
    } else {
        Err(DecodeError::UnknownVariant { at: at as usize })
    }
}

fn get_server_body(s: &[u8], v: i64, at: usize, q: usize) -> (res: Result<(ServerMsg, usize), DecodeError>)
    ensures
        read(res, q as int, s@.len(), server_body_at(s@, v, at as int, q as int)),
{
    if v == 0 {
        match get_fields::<ServerHelloAckRow>(s, q) {
            Ok(((version, (session, (outputs, (features, ())))), end)) => Ok(
                (ServerMsg::HelloAck { version, session, outputs, features }, end),
            ),
            Err(e) => Err(e),
        }
    } else if v == 1 {
        match get_fields::<ServerStreamConfigRow>(s, q) {
            Ok(
                (
                    (codec, (chroma, (pipeline, (width, (height, (scale_milli, (extradata, (aux_extradata, (view_width, (view_height, (fps_cap, ()))))))))))),
                    end,
                ),
            ) => Ok(
                (
                    ServerMsg::StreamConfig {
                        codec,
                        chroma,
                        pipeline: pipeline.value,
                        width,
                        height,
                        scale_milli,
                        extradata: extradata.bytes,
                        aux_extradata: blob_bytes_of(aux_extradata),
                        view_width,
                        view_height,
                        fps_cap,
                    },
                    end,
                ),
            ),
            Err(e) => Err(e),
        }
    } else if v == 2 {
        match get_fields::<ServerVideoFrameRow>(s, q) {
            Ok(((frame_id, (pts_us, (keyframe, (damage, (data_len, (aux_len, ())))))), end)) => Ok(
                (ServerMsg::VideoFrame { frame_id, pts_us, keyframe, damage, data_len, aux_len }, end),
            ),
            Err(e) => Err(e),
        }
    } else if v == 3 {
        match get_fields::<ServerCursorShapeRow>(s, q) {
            Ok(((id, (width, (height, (hot_x, (hot_y, (argb_len, ())))))), end)) => Ok(
                (ServerMsg::CursorShape { id, width, height, hot_x, hot_y, argb_len }, end),
            ),
            Err(e) => Err(e),
        }
    } else if v == 4 {
        match get_fields::<ServerCursorPosRow>(s, q) {
            Ok(((x, (y, (shape_id, (visible, ())))), end)) => Ok(
                (ServerMsg::CursorPos { x, y, shape_id, visible }, end),
            ),
            Err(e) => Err(e),
        }
    } else if v == 5 {
        match get_fields::<ServerClipboardOfferRow>(s, q) {
            Ok(((serial, (mime_types, (files, ()))), end)) => Ok(
                (ServerMsg::ClipboardOffer { serial, mime_types, files }, end),
            ),
            Err(e) => Err(e),
        }
    } else if v == 6 {
        match get_fields::<ServerClipboardRequestRow>(s, q) {
            Ok(((id, (serial, (item, ()))), end)) => Ok((ServerMsg::ClipboardRequest { id, serial, item }, end)),
            Err(e) => Err(e),
        }
    } else if v == 7 {
        match get_fields::<ServerClipboardDataRow>(s, q) {
            Ok(((id, (offset, (data_len, (done, ())))), end)) => Ok(
                (ServerMsg::ClipboardData { id, offset, data_len, done }, end),
            ),
            Err(e) => Err(e),
        }
    } else if v == 8 {
        match get_fields::<ServerPongRow>(s, q) {
            Ok(((t, (server_now_ms, ())), end)) => Ok((ServerMsg::Pong { t, server_now_ms }, end)),
            Err(e) => Err(e),
        }
    } else if v == 9 {
        match get_fields::<ServerErrorRow>(s, q) {
            Ok(((code, (message, (version, ()))), end)) => Ok((ServerMsg::Error { code, message, version }, end)),
            Err(e) => Err(e),
        }
    } else if v == 10 {
        match get_fields::<ServerClipboardAckRow>(s, q) {
            Ok(((id, (received, ())), end)) => Ok((ServerMsg::ClipboardAck { id, received }, end)),
            Err(e) => Err(e),
        }
    } else if v == 11 {
        match get_fields::<ServerClipboardAbortRow>(s, q) {
            Ok(((id, ()), end)) => Ok((ServerMsg::ClipboardAbort { id }, end)),
            Err(e) => Err(e),
        }
    } else if v == 12 {
        match get_fields::<ServerPingRow>(s, q) {
            Ok(((t, ()), end)) => Ok((ServerMsg::Ping { t }, end)),
            Err(e) => Err(e),
        }
    } else {
        Err(DecodeError::UnknownVariant { at })
    }
}

impl Put for ServerMsg {
    fn put(&self, out: &mut Vec<u8>) {
        proof {
            reveal(fields_bytes);
        }
        match self {
            ServerMsg::HelloAck { version, session, outputs, features } => {
                put_variant(out, 0);
                put_fields(&(version, (session, (outputs, (features, ())))), out);
            },
            ServerMsg::StreamConfig {
                codec,
                chroma,
                pipeline,
                width,
                height,
                scale_milli,
                extradata,
                aux_extradata,
                view_width,
                view_height,
                fps_cap,
            } => {
                put_variant(out, 1);
                put_fields(
                    &(
                        codec,
                        (
                            chroma,
                            (
                                pipeline,
                                (
                                    width,
                                    (
                                        height,
                                        (
                                            scale_milli,
                                            (
                                                BlobRef { bytes: extradata.as_slice() },
                                                (blob_ref(aux_extradata), (view_width, (view_height, (fps_cap, ())))),
                                            ),
                                        ),
                                    ),
                                ),
                            ),
                        ),
                    ),
                    out,
                );
            },
            ServerMsg::VideoFrame { frame_id, pts_us, keyframe, damage, data_len, aux_len } => {
                put_variant(out, 2);
                put_fields(&(frame_id, (pts_us, (keyframe, (damage, (data_len, (aux_len, ())))))), out);
            },
            ServerMsg::CursorShape { id, width, height, hot_x, hot_y, argb_len } => {
                put_variant(out, 3);
                put_fields(&(id, (width, (height, (hot_x, (hot_y, (argb_len, ())))))), out);
            },
            ServerMsg::CursorPos { x, y, shape_id, visible } => {
                put_variant(out, 4);
                put_fields(&(x, (y, (shape_id, (visible, ())))), out);
            },
            ServerMsg::ClipboardOffer { serial, mime_types, files } => {
                put_variant(out, 5);
                put_fields(&(serial, (mime_types, (files, ()))), out);
            },
            ServerMsg::ClipboardRequest { id, serial, item } => {
                put_variant(out, 6);
                put_fields(&(id, (serial, (item, ()))), out);
            },
            ServerMsg::ClipboardData { id, offset, data_len, done } => {
                put_variant(out, 7);
                put_fields(&(id, (offset, (data_len, (done, ())))), out);
            },
            ServerMsg::Pong { t, server_now_ms } => {
                put_variant(out, 8);
                put_fields(&(t, (server_now_ms, ())), out);
            },
            ServerMsg::Error { code, message, version } => {
                put_variant(out, 9);
                put_fields(&(code, (message, (version, ()))), out);
            },
            ServerMsg::ClipboardAck { id, received } => {
                put_variant(out, 10);
                put_fields(&(id, (received, ())), out);
            },
            ServerMsg::ClipboardAbort { id } => {
                put_variant(out, 11);
                put_fields(&(id, ()), out);
            },
            ServerMsg::Ping { t } => {
                put_variant(out, 12);
                put_fields(&(t, ()), out);
            },
        }
        assert(out@ =~= old(out)@ + Self::bytes_of(self.model()));
    }

    fn is_nil(&self) -> (yes: bool) {
        false
    }
}

impl Get for ServerMsg {
    fn get(s: &[u8], p: usize) -> (res: Result<(Self, usize), DecodeError>) {
        match get_variant(s, p) {
            Ok((v, at, q)) => get_server_body(s, v, at, q),
            Err(e) => Err(e),
        }
    }

    fn absent() -> (v: Option<Self>) {
        None
    }
}

} // verus!
