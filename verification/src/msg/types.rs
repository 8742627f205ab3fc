//! The values that messages are made of.

use vstd::prelude::*;
use crate::cbor::item::{
    get_i64, i64_at, lemma_uint_round_trip, put_int, uint_bytes, DecodeError, Found,
};
use crate::cbor::list::Known;
use crate::cbor::row::{
    fields_at, fields_bytes, get_fields, get_variant, lemma_fields_round_trip, lemma_variant_and_fields,
    put_fields, put_variant, variant_at, variant_bytes, Row,
};
use crate::cbor::wire::{read, Get, Put, Wire};
use crate::clipboard::msg::{ClipboardFile, ClipboardItem};

verus! {

#[derive(Debug, Clone, Copy, PartialEq, Eq, Structural)]
pub enum Codec {
    /// Uncompressed BGRA, localhost only.
    RawBgra,
    H264,
    H265,
    Av1,
}

impl Codec {
    /// Its number on the wire.
    pub open spec fn number(self) -> nat {
        match self {
            Codec::RawBgra => 0,
            Codec::H264 => 1,
            Codec::H265 => 2,
            Codec::Av1 => 3,
        }
    }
}

impl Wire for Codec {
    type Model = Codec;

    open spec fn model(&self) -> Self::Model {
        *self
    }

    open spec fn bytes_of(m: Self::Model) -> Seq<u8> {
        uint_bytes(m.number())
    }

    open spec fn fits(m: Self::Model) -> bool {
        true
    }

    open spec fn found_at(s: Seq<u8>, p: int) -> Found<Self::Model> {
        match i64_at(s, p) {
            Ok((v, end)) => if v == 0 {
                Ok((Codec::RawBgra, end))
            } else if v == 1 {
                Ok((Codec::H264, end))
            } else if v == 2 {
                Ok((Codec::H265, end))
            } else if v == 3 {
                Ok((Codec::Av1, end))
            } else {
                Err(DecodeError::UnknownVariant { at: p as usize })
            },
            Err(e) => Err(e),
        }
    }

    open spec fn nil() -> Option<Self::Model> {
        None
    }

    proof fn round_trip(m: Self::Model, s: Seq<u8>, p: int, tail: Seq<u8>) {
        lemma_uint_round_trip(s, p, m.number() as u64, tail);
    }
}

impl Put for Codec {
    fn put(&self, out: &mut Vec<u8>) {
        match self {
            Codec::RawBgra => put_int(out, 0),
            Codec::H264 => put_int(out, 1),
            Codec::H265 => put_int(out, 2),
            Codec::Av1 => put_int(out, 3),
        }
    }

    fn is_nil(&self) -> (yes: bool) {
        false
    }
}

impl Get for Codec {
    fn get(s: &[u8], p: usize) -> (res: Result<(Self, usize), DecodeError>) {
        match get_i64(s, p) {
            Ok((v, end)) => if v == 0 {
                Ok((Codec::RawBgra, end))
            } else if v == 1 {
                Ok((Codec::H264, end))
            } else if v == 2 {
                Ok((Codec::H265, end))
            } else if v == 3 {
                Ok((Codec::Av1, end))
            } else {
                Err(DecodeError::UnknownVariant { at: p })
            },
            Err(e) => Err(e),
        }
    }

    fn absent() -> (v: Option<Self>) {
        None
    }
}

/// Which pipeline encodes or decodes on one end, reported for the stats
/// display.
#[derive(Debug, Clone, Copy, PartialEq, Eq, Structural)]
pub enum VideoPipeline {
    Gpu,
    Cpu,
}

impl VideoPipeline {
    pub fn label(self) -> (s: &'static str)
        ensures
            s == (match self {
                VideoPipeline::Gpu => "gpu",
                VideoPipeline::Cpu => "cpu",
            }),
    {
        match self {
            VideoPipeline::Gpu => "gpu",
            VideoPipeline::Cpu => "cpu",
        }
    }
}

impl VideoPipeline {
    /// Its number on the wire.
    pub open spec fn number(self) -> nat {
        match self {
            VideoPipeline::Gpu => 0,
            VideoPipeline::Cpu => 1,
        }
    }
}

impl Wire for VideoPipeline {
    type Model = VideoPipeline;

    open spec fn model(&self) -> Self::Model {
        *self
    }

    open spec fn bytes_of(m: Self::Model) -> Seq<u8> {
        uint_bytes(m.number())
    }

    open spec fn fits(m: Self::Model) -> bool {
        true
    }

    open spec fn found_at(s: Seq<u8>, p: int) -> Found<Self::Model> {
        match i64_at(s, p) {
            Ok((v, end)) => if v == 0 {
                Ok((VideoPipeline::Gpu, end))
            } else if v == 1 {
                Ok((VideoPipeline::Cpu, end))
            } else {
                Err(DecodeError::UnknownVariant { at: p as usize })
            },
            Err(e) => Err(e),
        }
    }

    open spec fn nil() -> Option<Self::Model> {
        None
    }

    proof fn round_trip(m: Self::Model, s: Seq<u8>, p: int, tail: Seq<u8>) {
        lemma_uint_round_trip(s, p, m.number() as u64, tail);
    }
}

impl Put for VideoPipeline {
    fn put(&self, out: &mut Vec<u8>) {
        match self {
            VideoPipeline::Gpu => put_int(out, 0),
            VideoPipeline::Cpu => put_int(out, 1),
        }
    }

    fn is_nil(&self) -> (yes: bool) {
        false
    }
}

impl Get for VideoPipeline {
    fn get(s: &[u8], p: usize) -> (res: Result<(Self, usize), DecodeError>) {
        match get_i64(s, p) {
            Ok((v, end)) => if v == 0 {
                Ok((VideoPipeline::Gpu, end))
            } else if v == 1 {
                Ok((VideoPipeline::Cpu, end))
            } else {
                Err(DecodeError::UnknownVariant { at: p })
            },
            Err(e) => Err(e),
        }
    }

    fn absent() -> (v: Option<Self>) {
        None
    }
}

#[derive(Debug, Clone, Copy, PartialEq, Eq, Structural)]
pub enum ChromaMode {
    /// Single stream, encoder produced 4:4:4.
    Native444,
    /// Main 4:2:0 stream plus an auxiliary 4:2:0 stream carrying the chroma
    /// the main stream dropped.
    Dual420,
    /// Low-bandwidth fallback only.
    Single420,
}

impl ChromaMode {
    /// Its number on the wire.
    pub open spec fn number(self) -> nat {
        match self {
            ChromaMode::Native444 => 0,
            ChromaMode::Dual420 => 1,
            ChromaMode::Single420 => 2,
        }
    }
}

impl Wire for ChromaMode {
    type Model = ChromaMode;

    open spec fn model(&self) -> Self::Model {
        *self
    }

    open spec fn bytes_of(m: Self::Model) -> Seq<u8> {
        uint_bytes(m.number())
    }

    open spec fn fits(m: Self::Model) -> bool {
        true
    }

    open spec fn found_at(s: Seq<u8>, p: int) -> Found<Self::Model> {
        match i64_at(s, p) {
            Ok((v, end)) => if v == 0 {
                Ok((ChromaMode::Native444, end))
            } else if v == 1 {
                Ok((ChromaMode::Dual420, end))
            } else if v == 2 {
                Ok((ChromaMode::Single420, end))
            } else {
                Err(DecodeError::UnknownVariant { at: p as usize })
            },
            Err(e) => Err(e),
        }
    }

    open spec fn nil() -> Option<Self::Model> {
        None
    }

    proof fn round_trip(m: Self::Model, s: Seq<u8>, p: int, tail: Seq<u8>) {
        lemma_uint_round_trip(s, p, m.number() as u64, tail);
    }
}

impl Put for ChromaMode {
    fn put(&self, out: &mut Vec<u8>) {
        match self {
            ChromaMode::Native444 => put_int(out, 0),
            ChromaMode::Dual420 => put_int(out, 1),
            ChromaMode::Single420 => put_int(out, 2),
        }
    }

    fn is_nil(&self) -> (yes: bool) {
        false
    }
}

impl Get for ChromaMode {
    fn get(s: &[u8], p: usize) -> (res: Result<(Self, usize), DecodeError>) {
        match get_i64(s, p) {
            Ok((v, end)) => if v == 0 {
                Ok((ChromaMode::Native444, end))
            } else if v == 1 {
                Ok((ChromaMode::Dual420, end))
            } else if v == 2 {
                Ok((ChromaMode::Single420, end))
            } else {
                Err(DecodeError::UnknownVariant { at: p })
            },
            Err(e) => Err(e),
        }
    }

    fn absent() -> (v: Option<Self>) {
        None
    }
}

#[derive(Debug, Clone, Copy, PartialEq, Eq, Structural)]
pub enum Axis {
    Vertical,
    Horizontal,
}

impl Axis {
    /// Its number on the wire.
    pub open spec fn number(self) -> nat {
        match self {
            Axis::Vertical => 0,
            Axis::Horizontal => 1,
        }
    }
}

impl Wire for Axis {
    type Model = Axis;

    open spec fn model(&self) -> Self::Model {
        *self
    }

    open spec fn bytes_of(m: Self::Model) -> Seq<u8> {
        uint_bytes(m.number())
    }

    open spec fn fits(m: Self::Model) -> bool {
        true
    }

    open spec fn found_at(s: Seq<u8>, p: int) -> Found<Self::Model> {
        match i64_at(s, p) {
            Ok((v, end)) => if v == 0 {
                Ok((Axis::Vertical, end))
            } else if v == 1 {
                Ok((Axis::Horizontal, end))
            } else {
                Err(DecodeError::UnknownVariant { at: p as usize })
            },
            Err(e) => Err(e),
        }
    }

    open spec fn nil() -> Option<Self::Model> {
        None
    }

    proof fn round_trip(m: Self::Model, s: Seq<u8>, p: int, tail: Seq<u8>) {
        lemma_uint_round_trip(s, p, m.number() as u64, tail);
    }
}

impl Put for Axis {
    fn put(&self, out: &mut Vec<u8>) {
        match self {
            Axis::Vertical => put_int(out, 0),
            Axis::Horizontal => put_int(out, 1),
        }
    }

    fn is_nil(&self) -> (yes: bool) {
        false
    }
}

impl Get for Axis {
    fn get(s: &[u8], p: usize) -> (res: Result<(Self, usize), DecodeError>) {
        match get_i64(s, p) {
            Ok((v, end)) => if v == 0 {
                Ok((Axis::Vertical, end))
            } else if v == 1 {
                Ok((Axis::Horizontal, end))
            } else {
                Err(DecodeError::UnknownVariant { at: p })
            },
            Err(e) => Err(e),
        }
    }

    fn absent() -> (v: Option<Self>) {
        None
    }
}

#[derive(Debug, Clone, Copy, PartialEq, Eq, Structural)]
pub struct Rect {
    pub x: i32,
    pub y: i32,
    pub width: i32,
    pub height: i32,
}

pub type RectRow = (i32, (i32, (i32, (i32, ()))));

impl Wire for Rect {
    type Model = Rect;

    open spec fn model(&self) -> Self::Model {
        *self
    }

    open spec fn bytes_of(m: Self::Model) -> Seq<u8> {
        fields_bytes::<RectRow>((m.x, (m.y, (m.width, (m.height, ())))))
    }

    open spec fn fits(m: Self::Model) -> bool {
        <RectRow as Row>::row_fits((m.x, (m.y, (m.width, (m.height, ())))))
    }

    open spec fn found_at(s: Seq<u8>, p: int) -> Found<Self::Model> {
        match fields_at::<RectRow>(s, p) {
            Ok(((x, (y, (width, (height, ())))), end)) => Ok((Rect { x, y, width, height }, end)),
            Err(e) => Err(e),
        }
    }

    open spec fn nil() -> Option<Self::Model> {
        None
    }

    proof fn round_trip(m: Self::Model, s: Seq<u8>, p: int, tail: Seq<u8>) {
        lemma_fields_round_trip::<RectRow>((m.x, (m.y, (m.width, (m.height, ())))), s, p, tail);
    }
}

impl Put for Rect {
    fn put(&self, out: &mut Vec<u8>) {
        proof {
            reveal(fields_bytes);
        }
        put_fields(&(&self.x, (&self.y, (&self.width, (&self.height, ())))), out);
    }

    fn is_nil(&self) -> (yes: bool) {
        false
    }
}

impl Get for Rect {
    fn get(s: &[u8], p: usize) -> (res: Result<(Self, usize), DecodeError>) {
        match get_fields::<RectRow>(s, p) {
            Ok(((x, (y, (width, (height, ())))), end)) => Ok((Rect { x, y, width, height }, end)),
            Err(e) => Err(e),
        }
    }

    fn absent() -> (v: Option<Self>) {
        None
    }
}

#[derive(Debug, Clone, PartialEq, Eq)]
pub struct ClientCaps {
    pub codecs: Vec<Codec>,
    pub max_width: u32,
    pub max_height: u32,
    /// Chroma modes the client can decode, preferred first.
    pub chroma: Vec<ChromaMode>,
    /// What the client lists as `features`.
    pub features: Vec<String>,
}

/// The contents of a [`ClientCaps`].
pub struct ClientCapsView {
    pub codecs: Seq<Codec>,
    pub max_width: u32,
    pub max_height: u32,
    pub chroma: Seq<ChromaMode>,
    pub features: Seq<Seq<char>>,
}

pub type ClientCapsRow = (Known<Codec>, (u32, (u32, (Known<ChromaMode>, (Vec<String>, ())))));

impl Wire for ClientCaps {
    type Model = ClientCapsView;

    open spec fn model(&self) -> Self::Model {
        ClientCapsView {
            codecs: self.codecs.model(),
            max_width: self.max_width,
            max_height: self.max_height,
            chroma: self.chroma.model(),
            features: self.features.model(),
        }
    }

    open spec fn bytes_of(m: Self::Model) -> Seq<u8> {
        fields_bytes::<ClientCapsRow>((m.codecs, (m.max_width, (m.max_height, (m.chroma, (m.features, ()))))))
    }

    open spec fn fits(m: Self::Model) -> bool {
        <ClientCapsRow as Row>::row_fits((m.codecs, (m.max_width, (m.max_height, (m.chroma, (m.features, ()))))))
    }

    open spec fn found_at(s: Seq<u8>, p: int) -> Found<Self::Model> {
        match fields_at::<ClientCapsRow>(s, p) {
            Ok(((codecs, (max_width, (max_height, (chroma, (features, ()))))), end)) => Ok(
                (ClientCapsView { codecs, max_width, max_height, chroma, features }, end),
            ),
            Err(e) => Err(e),
        }
    }

    open spec fn nil() -> Option<Self::Model> {
        None
    }

    proof fn round_trip(m: Self::Model, s: Seq<u8>, p: int, tail: Seq<u8>) {
        lemma_fields_round_trip::<ClientCapsRow>(
            (m.codecs, (m.max_width, (m.max_height, (m.chroma, (m.features, ()))))),
            s,
            p,
            tail,
        );
    }
}

impl Put for ClientCaps {
    fn put(&self, out: &mut Vec<u8>) {
        proof {
            reveal(fields_bytes);
        }
        put_fields(&(&self.codecs, (&self.max_width, (&self.max_height, (&self.chroma, (&self.features, ()))))), out);
    }

    fn is_nil(&self) -> (yes: bool) {
        false
    }
}

impl Get for ClientCaps {
    fn get(s: &[u8], p: usize) -> (res: Result<(Self, usize), DecodeError>) {
        match get_fields::<ClientCapsRow>(s, p) {
            Ok(((codecs, (max_width, (max_height, (chroma, (features, ()))))), end)) => Ok(
                (ClientCaps { codecs: codecs.items, max_width, max_height, chroma: chroma.items, features }, end),
            ),
            Err(e) => Err(e),
        }
    }

    fn absent() -> (v: Option<Self>) {
        None
    }
}

#[derive(Debug, Clone, PartialEq, Eq)]
pub struct OutputInfo {
    pub name: String,
    pub width: u32,
    pub height: u32,
    pub scale_milli: u32,
}

/// The contents of a [`OutputInfo`].
pub struct OutputInfoView {
    pub name: Seq<char>,
    pub width: u32,
    pub height: u32,
    pub scale_milli: u32,
}

pub type OutputInfoRow = (String, (u32, (u32, (u32, ()))));

impl Wire for OutputInfo {
    type Model = OutputInfoView;

    open spec fn model(&self) -> Self::Model {
        OutputInfoView { name: self.name@, width: self.width, height: self.height, scale_milli: self.scale_milli }
    }

    open spec fn bytes_of(m: Self::Model) -> Seq<u8> {
        fields_bytes::<OutputInfoRow>((m.name, (m.width, (m.height, (m.scale_milli, ())))))
    }

    open spec fn fits(m: Self::Model) -> bool {
        <OutputInfoRow as Row>::row_fits((m.name, (m.width, (m.height, (m.scale_milli, ())))))
    }

    open spec fn found_at(s: Seq<u8>, p: int) -> Found<Self::Model> {
        match fields_at::<OutputInfoRow>(s, p) {
            Ok(((name, (width, (height, (scale_milli, ())))), end)) => Ok(
                (OutputInfoView { name, width, height, scale_milli }, end),
            ),
            Err(e) => Err(e),
        }
    }

    open spec fn nil() -> Option<Self::Model> {
        None
    }

    proof fn round_trip(m: Self::Model, s: Seq<u8>, p: int, tail: Seq<u8>) {
        lemma_fields_round_trip::<OutputInfoRow>((m.name, (m.width, (m.height, (m.scale_milli, ())))), s, p, tail);
    }
}

impl Put for OutputInfo {
    fn put(&self, out: &mut Vec<u8>) {
        proof {
            reveal(fields_bytes);
        }
        put_fields(&(&self.name, (&self.width, (&self.height, (&self.scale_milli, ())))), out);
    }

    fn is_nil(&self) -> (yes: bool) {
        false
    }
}

impl Get for OutputInfo {
    fn get(s: &[u8], p: usize) -> (res: Result<(Self, usize), DecodeError>) {
        match get_fields::<OutputInfoRow>(s, p) {
            Ok(((name, (width, (height, (scale_milli, ())))), end)) => Ok(
                (OutputInfo { name, width, height, scale_milli }, end),
            ),
            Err(e) => Err(e),
        }
    }

    fn absent() -> (v: Option<Self>) {
        None
    }
}

#[derive(Debug, Clone, PartialEq, Eq)]
pub struct SessionInfo {
    pub headless: bool,
    pub output: String,
}

/// The contents of a [`SessionInfo`].
pub struct SessionInfoView {
    pub headless: bool,
    pub output: Seq<char>,
}

pub type SessionInfoRow = (bool, (String, ()));

impl Wire for SessionInfo {
    type Model = SessionInfoView;

    open spec fn model(&self) -> Self::Model {
        SessionInfoView { headless: self.headless, output: self.output@ }
    }

    open spec fn bytes_of(m: Self::Model) -> Seq<u8> {
        fields_bytes::<SessionInfoRow>((m.headless, (m.output, ())))
    }

    open spec fn fits(m: Self::Model) -> bool {
        <SessionInfoRow as Row>::row_fits((m.headless, (m.output, ())))
    }

    open spec fn found_at(s: Seq<u8>, p: int) -> Found<Self::Model> {
        match fields_at::<SessionInfoRow>(s, p) {
            Ok(((headless, (output, ())), end)) => Ok((SessionInfoView { headless, output }, end)),
            Err(e) => Err(e),
        }
    }

    open spec fn nil() -> Option<Self::Model> {
        None
    }

    proof fn round_trip(m: Self::Model, s: Seq<u8>, p: int, tail: Seq<u8>) {
        lemma_fields_round_trip::<SessionInfoRow>((m.headless, (m.output, ())), s, p, tail);
    }
}

impl Put for SessionInfo {
    fn put(&self, out: &mut Vec<u8>) {
        proof {
            reveal(fields_bytes);
        }
        put_fields(&(&self.headless, (&self.output, ())), out);
    }

    fn is_nil(&self) -> (yes: bool) {
        false
    }
}

impl Get for SessionInfo {
    fn get(s: &[u8], p: usize) -> (res: Result<(Self, usize), DecodeError>) {
        match get_fields::<SessionInfoRow>(s, p) {
            Ok(((headless, (output, ())), end)) => Ok((SessionInfo { headless, output }, end)),
            Err(e) => Err(e),
        }
    }

    fn absent() -> (v: Option<Self>) {
        None
    }
}

/// The contents of a [`ClipboardFile`].
pub struct ClipboardFileView {
    pub path: Seq<char>,
    pub size: u64,
    pub dir: bool,
}

pub type ClipboardFileRow = (String, (u64, (bool, ())));

impl Wire for ClipboardFile {
    type Model = ClipboardFileView;

    open spec fn model(&self) -> Self::Model {
        ClipboardFileView { path: self.path@, size: self.size, dir: self.dir }
    }

    open spec fn bytes_of(m: Self::Model) -> Seq<u8> {
        fields_bytes::<ClipboardFileRow>((m.path, (m.size, (m.dir, ()))))
    }

    open spec fn fits(m: Self::Model) -> bool {
        <ClipboardFileRow as Row>::row_fits((m.path, (m.size, (m.dir, ()))))
    }

    open spec fn found_at(s: Seq<u8>, p: int) -> Found<Self::Model> {
        match fields_at::<ClipboardFileRow>(s, p) {
            Ok(((path, (size, (dir, ()))), end)) => Ok((ClipboardFileView { path, size, dir }, end)),
            Err(e) => Err(e),
        }
    }

    open spec fn nil() -> Option<Self::Model> {
        None
    }

    proof fn round_trip(m: Self::Model, s: Seq<u8>, p: int, tail: Seq<u8>) {
        lemma_fields_round_trip::<ClipboardFileRow>((m.path, (m.size, (m.dir, ()))), s, p, tail);
    }
}

impl Put for ClipboardFile {
    fn put(&self, out: &mut Vec<u8>) {
        proof {
            reveal(fields_bytes);
        }
        put_fields(&(&self.path, (&self.size, (&self.dir, ()))), out);
    }

    fn is_nil(&self) -> (yes: bool) {
        false
    }
}

impl Get for ClipboardFile {
    fn get(s: &[u8], p: usize) -> (res: Result<(Self, usize), DecodeError>) {
        match get_fields::<ClipboardFileRow>(s, p) {
            Ok(((path, (size, (dir, ()))), end)) => Ok((ClipboardFile { path, size, dir }, end)),
            Err(e) => Err(e),
        }
    }

    fn absent() -> (v: Option<Self>) {
        None
    }
}

/// The contents of a [`ClipboardItem`].
pub enum ClipboardItemView {
    Mime(Seq<char>),
    File(u32),
}

pub type ClipboardItemMimeRow = (String, ());

pub type ClipboardItemFileRow = (u32, ());

impl Wire for ClipboardItem {
    type Model = ClipboardItemView;

    open spec fn model(&self) -> Self::Model {
        match self {
            ClipboardItem::Mime(mime) => ClipboardItemView::Mime(mime@),
            ClipboardItem::File(index) => ClipboardItemView::File(*index),
        }
    }

    open spec fn bytes_of(m: Self::Model) -> Seq<u8> {
        match m {
            ClipboardItemView::Mime(mime) => variant_bytes(0) + fields_bytes::<ClipboardItemMimeRow>((mime, ())),
            ClipboardItemView::File(index) => variant_bytes(1) + fields_bytes::<ClipboardItemFileRow>((index, ())),
        }
    }

    open spec fn fits(m: Self::Model) -> bool {
        match m {
            ClipboardItemView::Mime(mime) => <ClipboardItemMimeRow as Row>::row_fits((mime, ())),
            ClipboardItemView::File(index) => <ClipboardItemFileRow as Row>::row_fits((index, ())),
        }
    }

    open spec fn found_at(s: Seq<u8>, p: int) -> Found<Self::Model> {
        match variant_at(s, p) {
            Ok((v, at, q)) => clipboard_item_body_at(s, v, at, q),
            Err(e) => Err(e),
        }
    }

    open spec fn nil() -> Option<Self::Model> {
        None
    }

    proof fn round_trip(m: Self::Model, s: Seq<u8>, p: int, tail: Seq<u8>) {
        match m {
            ClipboardItemView::Mime(mime) => {
                lemma_variant_and_fields::<ClipboardItemMimeRow>(0, (mime, ()), s, p, tail);
            },
            ClipboardItemView::File(index) => {
                lemma_variant_and_fields::<ClipboardItemFileRow>(1, (index, ()), s, p, tail);
            },
        }
    }
}

/// The variant numbered `v`, whose number stands at `at` and whose fields
/// stand at `q`.
pub open spec fn clipboard_item_body_at(s: Seq<u8>, v: i64, at: int, q: int) -> Found<ClipboardItemView> {
    if v == 0 {
        match fields_at::<ClipboardItemMimeRow>(s, q) {
            Ok(((mime, ()), end)) => Ok((ClipboardItemView::Mime(mime), end)),
            Err(e) => Err(e),
        }
    } else if v == 1 {
        match fields_at::<ClipboardItemFileRow>(s, q) {
            Ok(((index, ()), end)) => Ok((ClipboardItemView::File(index), end)),
            Err(e) => Err(e),
        }
    } else {
        Err(DecodeError::UnknownVariant { at: at as usize })
    }
}

fn get_clipboard_item_body(s: &[u8], v: i64, at: usize, q: usize) -> (res: Result<(ClipboardItem, usize), DecodeError>)
    ensures
        read(res, q as int, s@.len(), clipboard_item_body_at(s@, v, at as int, q as int)),
{
    if v == 0 {
        match get_fields::<ClipboardItemMimeRow>(s, q) {
            Ok(((mime, ()), end)) => Ok((ClipboardItem::Mime(mime), end)),
            Err(e) => Err(e),
        }
    } else if v == 1 {
        match get_fields::<ClipboardItemFileRow>(s, q) {
            Ok(((index, ()), end)) => Ok((ClipboardItem::File(index), end)),
            Err(e) => Err(e),
        }
    } else {
        Err(DecodeError::UnknownVariant { at })
    }
}

impl Put for ClipboardItem {
    fn put(&self, out: &mut Vec<u8>) {
        proof {
            reveal(fields_bytes);
        }
        match self {
            ClipboardItem::Mime(mime) => {
                put_variant(out, 0);
                put_fields(&(mime, ()), out);
            },
            ClipboardItem::File(index) => {
                put_variant(out, 1);
                put_fields(&(index, ()), out);
            },
        }
        assert(out@ =~= old(out)@ + Self::bytes_of(self.model()));
    }

    fn is_nil(&self) -> (yes: bool) {
        false
    }
}

impl Get for ClipboardItem {
    fn get(s: &[u8], p: usize) -> (res: Result<(Self, usize), DecodeError>) {
        match get_variant(s, p) {
            Ok((v, at, q)) => get_clipboard_item_body(s, v, at, q),
            Err(e) => Err(e),
        }
    }

    fn absent() -> (v: Option<Self>) {
        None
    }
}

} // verus!
