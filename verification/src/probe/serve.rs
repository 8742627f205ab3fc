//! A client that connects to a running server, decodes a few frames and moves
//! clipboard items both ways.

use crate::cbor::item::F32;
use crate::cbor::list::models;
use crate::cbor::wire::Wire;
use crate::clipboard::files::{safe_path, safe_relative_path};
use crate::clipboard::flow::{CHUNK, WINDOW};
use crate::clipboard::mime::{is_text_mime, names_of, text_mime, texts, TEXT_MIME, TEXT_MIMES};
use crate::clipboard::msg::{ClipboardFile, ClipboardItem};
use crate::clipboard::spool::LocalFiles;
use crate::msg::client::{ClientMsg, ClientMsgView};
use crate::msg::types::{ChromaMode, ClipboardItemView};
use crate::server::bridge::copied;
use crate::text::text_eq;
use vstd::prelude::*;
use vstd::utf8::encode_utf8;

verus! {

/// The type of a single file that is offered or kept.
pub const OCTET: &'static str = "application/octet-stream";

/// Tapped behind a new keymap, so that the compositor makes it the active one.
pub const KEY_LEFTSHIFT: u32 = 42;

/// The single-precision bits of two.
pub const TWO: u32 = 0x4000_0000;

/// What this client offers, and what it keeps of what the server offers.
#[derive(Debug, Clone)]
pub struct Options {
    pub text: Option<String>,
    pub file: Option<Vec<u8>>,
    pub files: LocalFiles,
    /// Keep a single file.
    pub keep_file: bool,
    /// Keep copied files.
    pub keep_dir: bool,
}

/// What is being received.
#[derive(Debug, Clone, Copy, PartialEq, Eq, Structural)]
pub enum Kind {
    Nothing,
    Text,
    Octets,
}

/// An item that the server pastes.
#[derive(Debug, Clone)]
pub struct Serving {
    pub id: u32,
    pub bytes: Vec<u8>,
    pub offset: usize,
    pub unacked: u32,
}

/// The contents of a [`Serving`].
pub struct ServingView {
    pub id: u32,
    pub bytes: Seq<u8>,
    pub offset: int,
    pub unacked: u32,
}

impl View for Serving {
    type V = ServingView;

    open spec fn view(&self) -> ServingView {
        ServingView { id: self.id, bytes: self.bytes@, offset: self.offset as int, unacked: self.unacked }
    }
}

/// A chunk on its way to the server: the message, and its payload.
#[derive(Debug, Clone)]
pub struct Chunk {
    pub id: u32,
    pub offset: u64,
    pub bytes: Vec<u8>,
    pub done: bool,
}

/// The contents of a [`Chunk`].
pub struct ChunkView {
    pub id: u32,
    pub offset: int,
    pub bytes: Seq<u8>,
    pub done: bool,
}

impl View for Chunk {
    type V = ChunkView;

    open spec fn view(&self) -> ChunkView {
        ChunkView { id: self.id, offset: self.offset as int, bytes: self.bytes@, done: self.done }
    }
}

impl Chunk {
    /// The message that announces it.
    pub fn msg(&self) -> (m: ClientMsg)
        requires
            self.bytes@.len() <= CHUNK,
        ensures
            m == (ClientMsg::ClipboardData {
                id: self.id,
                offset: self.offset,
                data_len: self.bytes@.len() as u32,
                done: self.done,
            }),
    {
        ClientMsg::ClipboardData {
            id: self.id,
            offset: self.offset,
            data_len: self.bytes.len() as u32,
            done: self.done,
        }
    }
}

/// What follows received bytes.
#[derive(Debug)]
pub enum Received {
    /// More comes: tell the server how much was consumed.
    Ack(ClientMsg),
    /// The file with this index is complete: store it, then go on behind it.
    File { index: usize, data: Vec<u8> },
    /// The single file is complete.
    Octets(Vec<u8>),
    Text(Vec<u8>),
}

/// Where the fetch of a list of files stands.
#[derive(Debug)]
pub enum NextFile {
    /// Fetch this one to this path.
    Fetch { index: usize, path: String, msg: ClientMsg },
    /// An entry's path leaves the directory.
    Unsafe,
    /// All are stored.
    Done,
}

/// What follows an offer.
#[derive(Debug)]
pub enum Wanted {
    Nothing,
    /// Fetch the files, from the first on.
    Files,
    Item(ClientMsg),
}

/// What the server is sent for a request.
#[derive(Debug)]
pub enum Served {
    /// Nothing like that is offered.
    Abort(ClientMsg),
    /// Read the file with this index, then serve it.
    Read(u32),
    /// The item is being served: push its chunks.
    Bytes,
}

/// A run against a server.
#[derive(Debug, Clone)]
pub struct ServeTest {
    pub options: Options,
    pub frames: usize,
    pub headless: bool,
    pub got: usize,
    pub keyframes: usize,
    /// The server scaled as asked.
    pub scaled: bool,
    pub keymap: Option<String>,
    pub received: Vec<u8>,
    pub kind: Kind,
    pub incoming: Vec<ClipboardFile>,
    pub fetching: Option<usize>,
    pub serial: u32,
    pub serving: Option<Serving>,
}

/// What is sent behind the second frame: a keymap, and a tap of Shift.
pub open spec fn keymap_msgs(keymap: Option<String>) -> Seq<ClientMsgView> {
    match keymap {
        Some(k) => seq![
            ClientMsgView::Keymap { keymap: k@ },
            ClientMsgView::Key { keycode: KEY_LEFTSHIFT, pressed: true },
            ClientMsgView::Key { keycode: KEY_LEFTSHIFT, pressed: false },
        ],
        None => Seq::empty(),
    }
}

/// Whether there is anything to offer.
pub open spec fn offers(o: Options) -> bool {
    o.text is Some || o.file is Some || o.files.entries@.len() > 0
}

/// The types that are offered: every text flavour for a text, and a type for
/// a single file.
pub open spec fn offered_types(o: Options) -> Seq<Seq<char>> {
    (if o.text is Some {
        names_of(TEXT_MIMES@)
    } else {
        Seq::empty()
    }) + (if o.file is Some {
        seq![OCTET@]
    } else {
        Seq::empty()
    })
}

/// What a paste of the single file brings.
pub open spec fn file_bytes(o: Options) -> Seq<u8> {
    match o.file {
        Some(b) => b@,
        None => Seq::empty(),
    }
}

/// What a paste of the text brings.
pub open spec fn text_bytes(o: Options) -> Seq<u8> {
    match o.text {
        Some(t) => encode_utf8(t@),
        None => Seq::empty(),
    }
}

/// What is sent behind a frame, `got` frames having been decoded.
pub open spec fn frame_msgs(t: ServeTest, frame_id: u64, got: int) -> Seq<ClientMsgView> {
    seq![ClientMsgView::FrameAck { frame_id, decoded_at_ms: 0 }] + (if got == 2 {
        keymap_msgs(t.keymap)
    } else {
        Seq::empty()
    }) + (if got == 3 {
        seq![ClientMsgView::Resize { width: 800, height: 600, scale: F32 { bits: TWO } }]
    } else {
        Seq::empty()
    }) + (if got == 4 && offers(t.options) {
        seq![
            ClientMsgView::ClipboardOffer {
                serial: 1,
                mime_types: offered_types(t.options),
                files: models(t.options.files.entries@),
            },
        ]
    } else {
        Seq::empty()
    })
}

/// The chunks that the window lets go, and what stays of the item.
pub open spec fn pushed(s: ServingView) -> (Seq<ChunkView>, Option<ServingView>)
    decreases WINDOW - s.unacked,
{
    if s.unacked >= WINDOW {
        (Seq::empty(), Some(s))
    } else {
        let end = if s.offset + CHUNK < s.bytes.len() {
            s.offset + CHUNK
        } else {
            s.bytes.len() as int
        };
        let done = end == s.bytes.len();
        let c = ChunkView { id: s.id, offset: s.offset, bytes: s.bytes.subrange(s.offset, end), done };
        if done {
            (seq![c], None)
        } else {
            let rest = pushed(ServingView { offset: end, unacked: (s.unacked + 1) as u32, ..s });
            (seq![c] + rest.0, rest.1)
        }
    }
}

/// The bytes of chunks, one behind the other.
pub open spec fn joined(cs: Seq<ChunkView>) -> Seq<u8>
    decreases cs.len(),
{
    if cs.len() == 0 {
        Seq::empty()
    } else {
        cs[0].bytes + joined(cs.skip(1))
    }
}

/// The chunks that go are the item's bytes from where it stood, and what
/// stays of it stands right behind them; nothing stays where they reach its
/// end, and no more go than the window has room for.
pub proof fn law_pushed_chunks_carry_the_item(s: ServingView)
    requires
        0 <= s.offset <= s.bytes.len(),
    ensures
        ({
            let (cs, rest) = pushed(s);
            let end = s.offset + joined(cs).len();
            &&& end <= s.bytes.len()
            &&& joined(cs) == s.bytes.subrange(s.offset, end)
            &&& cs.len() + s.unacked <= WINDOW || cs.len() == 0
            &&& match rest {
                Some(r) => r.offset == end && r.bytes == s.bytes && r.id == s.id && r.unacked == s.unacked + cs.len(),
                None => end == s.bytes.len() && cs.len() > 0 && cs.last().done,
            }
        }),
    decreases WINDOW - s.unacked,
{
    let (cs, rest) = pushed(s);
    if s.unacked >= WINDOW {
        assert(joined(cs) =~= s.bytes.subrange(s.offset, s.offset));
    } else {
        let end = if s.offset + CHUNK < s.bytes.len() {
            s.offset + CHUNK
        } else {
            s.bytes.len() as int
        };
        if end < s.bytes.len() {
            let next = ServingView { offset: end, unacked: (s.unacked + 1) as u32, ..s };
            law_pushed_chunks_carry_the_item(next);
            let tail = pushed(next).0;
            assert(cs.skip(1) =~= tail);
            assert(joined(cs) =~= s.bytes.subrange(s.offset, end + joined(tail).len()));
        } else {
            assert(cs.skip(1) =~= Seq::empty());
            assert(joined(cs.skip(1)) =~= Seq::empty());
            assert(joined(cs) =~= s.bytes.subrange(s.offset, end));
        }
    }
}

/// The place of the first entry from `from` on that is a file or has a path
/// that is not safe.
pub open spec fn stops_at(files: Seq<ClipboardFile>, from: int) -> int
    decreases files.len() - from,
{
    if !(0 <= from < files.len()) {
        files.len() as int
    } else if !files[from].dir || safe_path(files[from].path@) is None {
        from
    } else {
        stops_at(files, from + 1)
    }
}

/// The directories from `from` up to `to`.
pub open spec fn dirs_in(files: Seq<ClipboardFile>, from: int, to: int) -> Seq<Seq<char>> {
    Seq::new((to - from) as nat, |k: int| safe_path(files[from + k].path@)->0)
}

/// The request for the file with this index.
pub open spec fn file_request(serial: u32, index: int) -> ClientMsgView {
    ClientMsgView::ClipboardRequest {
        id: (3 + 2 * index) as u32,
        serial,
        item: ClipboardItemView::File(index as u32),
    }
}

/// Whether a type is offered that is wanted, and which.
pub open spec fn wanted_type(keep_file: bool, offered: Seq<Seq<char>>) -> Option<Seq<char>> {
    if keep_file && offered.contains(OCTET@) {
        Some(OCTET@)
    } else if exists|k: int| 0 <= k < offered.len() && text_mime(#[trigger] offered[k]) {
        Some(TEXT_MIME@)
    } else {
        None
    }
}

proof fn lemma_stops(files: Seq<ClipboardFile>, from: int)
    requires
        0 <= from,
    ensures
        from <= files.len() ==> from <= stops_at(files, from) <= files.len(),
        from > files.len() ==> stops_at(files, from) == files.len(),
        forall|k: int|
            from <= k < stops_at(files, from) ==> (#[trigger] files[k]).dir && safe_path(files[k].path@) is Some,
    decreases files.len() - from,
{
    if from < files.len() && files[from].dir && safe_path(files[from].path@) is Some {
        lemma_stops(files, from + 1);
    }
}

/// The first entry that is a file or unsafe, and the directories before it.
fn scan(files: &Vec<ClipboardFile>, from: usize) -> (res: (Vec<String>, usize))
    requires
        from <= files@.len(),
    ensures
        res.1 == stops_at(files@, from as int),
        texts(res.0@) == dirs_in(files@, from as int, res.1 as int),
{
    let mut dirs: Vec<String> = Vec::new();
    let n: usize = files.len();
    let mut i: usize = from;
    while i < n
        invariant
            n == files@.len(),
            from <= i <= n,
            stops_at(files@, from as int) == stops_at(files@, i as int),
            dirs@.len() == i - from,
            forall|k: int|
                0 <= k < dirs@.len() ==> safe_path(files@[from + k].path@) == Some((#[trigger] dirs@[k])@),
        ensures
            i == stops_at(files@, from as int),
            dirs@.len() == i - from,
            forall|k: int|
                0 <= k < dirs@.len() ==> safe_path(files@[from + k].path@) == Some((#[trigger] dirs@[k])@),
        decreases n - i,
    {
        if !files[i].dir {
            break;
        }
        match safe_relative_path(files[i].path.as_str()) {
            Some(path) => dirs.push(path),
            None => break,
        }
        i = i + 1;
    }
    proof {
        assert(texts(dirs@) =~= dirs_in(files@, from as int, i as int));
    }
    (dirs, i)
}

fn offered_list(o: &Options) -> (out: Vec<String>)
    ensures
        texts(out@) == offered_types(*o),
{
    let mut out: Vec<String> = Vec::new();
    if o.text.is_some() {
        for i in 0..5usize
            invariant
                out@.len() == i,
                forall|k: int| 0 <= k < i ==> (#[trigger] out@[k])@ == TEXT_MIMES@[k]@,
        {
            out.push(TEXT_MIMES[i].to_string());
        }
        proof {
            assert(texts(out@) =~= names_of(TEXT_MIMES@));
        }
    }
    if o.file.is_some() {
        out.push(OCTET.to_string());
    }
    proof {
        assert(texts(out@) =~= offered_types(*o));
    }
    out
}

impl ServeTest {
    /// A served item stands inside itself.
    pub open spec fn wf(&self) -> bool {
        self.serving matches Some(s) ==> s.offset <= s.bytes@.len()
    }

    /// A run for this many frames, against a session that has its own
    /// output or mirrors one.
    pub fn new(options: Options, frames: usize, headless: bool, keymap: Option<String>) -> (t: ServeTest)
        ensures
            t.wf(),
            t.options == options,
            t.frames == frames,
            t.headless == headless,
            t.keymap == keymap,
            t.got == 0 && t.keyframes == 0 && !t.scaled && t.serial == 0,
            t.received@.len() == 0 && t.kind is Nothing && t.incoming@.len() == 0,
            t.fetching is None && t.serving is None,
    {
        ServeTest {
            options,
            frames,
            headless,
            got: 0,
            keyframes: 0,
            scaled: false,
            keymap,
            received: Vec::new(),
            kind: Kind::Nothing,
            incoming: Vec::new(),
            fetching: None,
            serial: 0,
            serving: None,
        }
    }

    /// A frame came, and decoded to a picture or none. What to send.
    pub fn on_frame(&mut self, frame_id: u64, keyframe: bool, shown: bool) -> (msgs: Vec<ClientMsg>)
        requires
            old(self).wf(),
            old(self).got < old(self).frames,
            old(self).keyframes < usize::MAX,
        ensures
            final(self).wf(),
            ({
                let got = old(self).got + if shown {
                    1int
                } else {
                    0
                };
                &&& models(msgs@) == frame_msgs(*old(self), frame_id, got)
                &&& *final(self) == (ServeTest {
                    got: got as usize,
                    keyframes: (old(self).keyframes + if keyframe {
                        1int
                    } else {
                        0
                    }) as usize,
                    keymap: if got == 2 {
                        None
                    } else {
                        old(self).keymap
                    },
                    ..*old(self)
                })
            }),
    {
        if keyframe {
            self.keyframes = self.keyframes + 1;
        }
        if shown {
            self.got = self.got + 1;
        }
        let mut msgs: Vec<ClientMsg> = Vec::new();
        msgs.push(ClientMsg::FrameAck { frame_id, decoded_at_ms: 0 });
        if self.got == 2 {
            let keymap: Option<String> = self.keymap.take();
            if let Some(keymap) = keymap {
                msgs.push(ClientMsg::Keymap { keymap });
                msgs.push(ClientMsg::Key { keycode: KEY_LEFTSHIFT, pressed: true });
                msgs.push(ClientMsg::Key { keycode: KEY_LEFTSHIFT, pressed: false });
            }
        }
        if self.got == 3 {
            msgs.push(ClientMsg::Resize { width: 800, height: 600, scale: F32 { bits: TWO } });
        }
        let offers: bool = self.options.text.is_some() || self.options.file.is_some() || self.options.files.entries.len()
            > 0;
        if self.got == 4 && offers {
            let mime_types: Vec<String> = offered_list(&self.options);
            let files: Vec<ClipboardFile> = copied(&self.options.files.entries);
            proof {
                assert(models(mime_types@) =~= offered_types(self.options)) by {
                    assert forall|k: int| 0 <= k < mime_types@.len() implies models(mime_types@)[k]
                        == offered_types(self.options)[k] by {
                        assert(texts(mime_types@)[k] == mime_types@[k]@);
                    }
                }
                assert(models(files@) =~= models(self.options.files.entries@));
            }
            msgs.push(ClientMsg::ClipboardOffer { serial: 1, mime_types, files });
        }
        proof {
            assert(models(msgs@) =~= frame_msgs(*old(self), frame_id, self.got as int));
        }
        msgs
    }

    /// The stream was configured anew; whether its decoder has two streams.
    pub fn on_config(&mut self, width: u32, height: u32, chroma: ChromaMode, scale_milli: u32) -> (dual: bool)
        requires
            old(self).wf(),
        ensures
            final(self).wf(),
            dual == !(chroma is Single420),
            *final(self) == (ServeTest {
                scaled: if old(self).headless {
                    scale_milli == 2000
                } else {
                    width <= 800 && height <= 600 && scale_milli < 1000
                },
                ..*old(self)
            }),
    {
        self.scaled = if self.headless {
            scale_milli == 2000
        } else {
            width <= 800 && height <= 600 && scale_milli < 1000
        };
        match chroma {
            ChromaMode::Single420 => false,
            _ => true,
        }
    }

    /// The server offers its selection: ask for one item, or for the files.
    pub fn on_offer(&mut self, serial: u32, mime_types: &[String], files: Vec<ClipboardFile>) -> (w: Wanted)
        requires
            old(self).wf(),
        ensures
            final(self).wf(),
            ({
                let by_file = old(self).options.keep_dir && files@.len() > 0;
                let want = wanted_type(old(self).options.keep_file, texts(mime_types@));
                let kept = ServeTest {
                    serial,
                    received: final(self).received,
                    kind: final(self).kind,
                    incoming: final(self).incoming,
                    ..*old(self)
                };
                &&& *final(self) == kept
                &&& if by_file {
                    &&& w is Files
                    &&& final(self).received@.len() == 0
                    &&& final(self).incoming == files
                    &&& final(self).kind == old(self).kind
                } else {
                    &&& final(self).incoming == old(self).incoming
                    &&& match want {
                        Some(mime) => {
                            &&& final(self).received@.len() == 0
                            &&& final(self).kind == if mime == OCTET@ {
                                Kind::Octets
                            } else {
                                Kind::Text
                            }
                            &&& w matches Wanted::Item(msg)
                            &&& msg.model() == (ClientMsgView::ClipboardRequest {
                                id: 1,
                                serial,
                                item: ClipboardItemView::Mime(mime),
                            })
                        },
                        None => {
                            &&& w is Nothing
                            &&& final(self).received == old(self).received
                            &&& final(self).kind == old(self).kind
                        },
                    }
                }
            }),
    {
        self.serial = serial;
        let n: usize = mime_types.len();
        let mut octets: bool = false;
        let mut text: bool = false;
        for i in 0..n
            invariant
                n == mime_types@.len(),
                octets == exists|k: int| 0 <= k < i && (#[trigger] mime_types@[k])@ == OCTET@,
                text == exists|k: int| 0 <= k < i && text_mime((#[trigger] mime_types@[k])@),
        {
            if text_eq(mime_types[i].as_str(), OCTET) {
                octets = true;
            }
            if is_text_mime(mime_types[i].as_str()) {
                text = true;
            }
        }
        proof {
            let all = texts(mime_types@);
            assert(octets == all.contains(OCTET@)) by {
                if octets {
                    let k = choose|k: int| 0 <= k < n && (#[trigger] mime_types@[k])@ == OCTET@;
                    assert(all[k] == OCTET@);
                }
                if all.contains(OCTET@) {
                    let k = choose|k: int| 0 <= k < all.len() && all[k] == OCTET@;
                    assert(mime_types@[k]@ == OCTET@);
                }
            }
            assert(text == exists|k: int| 0 <= k < all.len() && text_mime(#[trigger] all[k])) by {
                if text {
                    let k = choose|k: int| 0 <= k < n && text_mime((#[trigger] mime_types@[k])@);
                    assert(text_mime(all[k]));
                }
                if exists|k: int| 0 <= k < all.len() && text_mime(#[trigger] all[k]) {
                    let k = choose|k: int| 0 <= k < all.len() && text_mime(#[trigger] all[k]);
                    assert(text_mime(mime_types@[k]@));
                }
            }
            reveal_strlit("application/octet-stream");
            reveal_strlit("text/plain;charset=utf-8");
            assert(OCTET@[0] != TEXT_MIME@[0]);
        }
        if self.options.keep_dir && files.len() > 0 {
            self.received = Vec::new();
            self.incoming = files;
            return Wanted::Files;
        }
        if self.options.keep_file && octets {
            self.received = Vec::new();
            self.kind = Kind::Octets;
            return Wanted::Item(
                ClientMsg::ClipboardRequest { id: 1, serial, item: ClipboardItem::Mime(OCTET.to_string()) },
            );
        }
        if text {
            self.received = Vec::new();
            self.kind = Kind::Text;
            return Wanted::Item(
                ClientMsg::ClipboardRequest { id: 1, serial, item: ClipboardItem::Mime(TEXT_MIME.to_string()) },
            );
        }
        Wanted::Nothing
    }

    /// The directories to make from entry `from` on, and then the file to
    /// fetch.
    pub fn next_file(&mut self, from: usize) -> (res: (Vec<String>, NextFile))
        requires
            old(self).wf(),
            from <= old(self).incoming@.len(),
            3 + 2 * old(self).incoming@.len() <= u32::MAX,
        ensures
            final(self).wf(),
            ({
                let files = old(self).incoming@;
                let at = stops_at(files, from as int);
                &&& texts(res.0@) == dirs_in(files, from as int, at)
                &&& *final(self) == (ServeTest {
                    fetching: if at < files.len() && safe_path(files[at].path@) is Some {
                        Some(at as usize)
                    } else if at < files.len() {
                        old(self).fetching
                    } else {
                        None
                    },
                    ..*old(self)
                })
                &&& match res.1 {
                    NextFile::Done => at == files.len(),
                    NextFile::Unsafe => at < files.len() && safe_path(files[at].path@) is None,
                    NextFile::Fetch { index, path, msg } => {
                        &&& at < files.len()
                        &&& index == at
                        &&& safe_path(files[at].path@) == Some(path@)
                        &&& msg.model() == file_request(old(self).serial, at)
                    },
                }
            }),
    {
        let (dirs, at): (Vec<String>, usize) = scan(&self.incoming, from);
        if at >= self.incoming.len() {
            proof {
                lemma_stops(self.incoming@, from as int);
            }
            self.fetching = None;
            return (dirs, NextFile::Done);
        }
        match safe_relative_path(self.incoming[at].path.as_str()) {
            None => (dirs, NextFile::Unsafe),
            Some(path) => {
                self.fetching = Some(at);
                let msg: ClientMsg = ClientMsg::ClipboardRequest {
                    id: 3 + 2 * at as u32,
                    serial: self.serial,
                    item: ClipboardItem::File(at as u32),
                };
                (dirs, NextFile::Fetch { index: at, path, msg })
            },
        }
    }

    /// A chunk of what was asked for.
    pub fn on_data(&mut self, id: u32, done: bool, bytes: &[u8]) -> (r: Received)
        requires
            old(self).wf(),
            old(self).received@.len() + bytes@.len() <= usize::MAX,
        ensures
            final(self).wf(),
            ({
                let all = old(self).received@ + bytes@;
                &&& *final(self) == (ServeTest { received: final(self).received, ..*old(self) })
                &&& if done {
                    &&& final(self).received@.len() == 0
                    &&& match r {
                        Received::Ack(_) => false,
                        Received::File { index, data } => data@ == all && old(self).options.keep_dir && old(
                            self,
                        ).fetching == Some(index),
                        Received::Octets(data) => data@ == all && !(old(self).options.keep_dir && old(
                            self,
                        ).fetching is Some) && old(self).kind is Octets,
                        Received::Text(data) => data@ == all && !(old(self).options.keep_dir && old(
                            self,
                        ).fetching is Some) && !(old(self).kind is Octets),
                    }
                } else {
                    &&& final(self).received@ == all
                    &&& r == Received::Ack(ClientMsg::ClipboardAck { id, received: all.len() as u64 })
                }
            }),
    {
        self.received.extend_from_slice(bytes);
        proof {
            assert(self.received@ =~= old(self).received@ + bytes@);
        }
        if !done {
            return Received::Ack(ClientMsg::ClipboardAck { id, received: self.received.len() as u64 });
        }
        let mut data: Vec<u8> = Vec::new();
        std::mem::swap(&mut data, &mut self.received);
        match self.fetching {
            Some(index) if self.options.keep_dir => Received::File { index, data },
            _ => match self.kind {
                Kind::Octets => Received::Octets(data),
                _ => Received::Text(data),
            },
        }
    }

    /// The server pastes something that was offered. An item of a type that
    /// has nothing behind it is served empty.
    pub fn on_request(&mut self, id: u32, item: &ClipboardItem) -> (s: Served)
        requires
            old(self).wf(),
        ensures
            final(self).wf(),
            ({
                let octets = item matches ClipboardItem::Mime(m) && m@ == OCTET@;
                let text = item matches ClipboardItem::Mime(m) && m@ != OCTET@ && text_mime(m@);
                &&& *final(self) == (ServeTest { serving: final(self).serving, ..*old(self) })
                &&& if octets || text {
                    &&& s is Bytes
                    &&& final(self).serving matches Some(v)
                    &&& v@ == (ServingView {
                        id,
                        bytes: if octets {
                            file_bytes(old(self).options)
                        } else {
                            text_bytes(old(self).options)
                        },
                        offset: 0,
                        unacked: 0,
                    })
                } else {
                    &&& final(self).serving == old(self).serving
                    &&& match item {
                        ClipboardItem::File(i) if *i < old(self).options.files.paths@.len() => s == Served::Read(*i),
                        _ => s == Served::Abort(ClientMsg::ClipboardAbort { id }),
                    }
                }
            }),
    {
        match item {
            ClipboardItem::Mime(m) => {
                if text_eq(m.as_str(), OCTET) {
                    let bytes: Vec<u8> = match &self.options.file {
                        Some(b) => part_of(b, 0, b.len()),
                        None => Vec::new(),
                    };
                    proof {
                        assert(bytes@ =~= file_bytes(self.options));
                    }
                    self.serve(id, bytes);
                    Served::Bytes
                } else if is_text_mime(m.as_str()) {
                    let mut bytes: Vec<u8> = Vec::new();
                    if let Some(t) = &self.options.text {
                        bytes.extend_from_slice(t.as_str().as_bytes());
                    }
                    proof {
                        assert(bytes@ =~= text_bytes(self.options));
                    }
                    self.serve(id, bytes);
                    Served::Bytes
                } else {
                    Served::Abort(ClientMsg::ClipboardAbort { id })
                }
            },
            ClipboardItem::File(i) => match self.options.files.path_for(item) {
                Some(_) => Served::Read(*i),
                None => Served::Abort(ClientMsg::ClipboardAbort { id }),
            },
        }
    }

    /// Serve these bytes from now on.
    pub fn serve(&mut self, id: u32, bytes: Vec<u8>)
        requires
            old(self).wf(),
        ensures
            final(self).wf(),
            *final(self) == (ServeTest { serving: final(self).serving, ..*old(self) }),
            final(self).serving matches Some(v) && v@ == (ServingView {
                id,
                bytes: bytes@,
                offset: 0,
                unacked: 0,
            }),
    {
        self.serving = Some(Serving { id, bytes, offset: 0, unacked: 0 });
    }

    /// The server took a chunk.
    pub fn on_ack(&mut self)
        requires
            old(self).wf(),
        ensures
            final(self).wf(),
            *final(self) == (ServeTest { serving: final(self).serving, ..*old(self) }),
            match old(self).serving {
                Some(o) => final(self).serving matches Some(v) && v@ == (ServingView {
                    unacked: if o.unacked > 0 {
                        (o.unacked - 1) as u32
                    } else {
                        0
                    },
                    ..o@
                }),
                None => final(self).serving is None,
            },
    {
        let serving: Option<Serving> = self.serving.take();
        if let Some(mut s) = serving {
            if s.unacked > 0 {
                s.unacked = s.unacked - 1;
            }
            self.serving = Some(s);
        }
    }

    /// The chunks to send now: the rest of the item, as far as the window
    /// goes.
    pub fn push_chunks(&mut self) -> (chunks: Vec<Chunk>)
        requires
            old(self).wf(),
        ensures
            final(self).wf(),
            *final(self) == (ServeTest { serving: final(self).serving, ..*old(self) }),
            match old(self).serving {
                Some(s) => {
                    let (cs, rest) = pushed(s@);
                    &&& chunks@.map_values(|c: Chunk| c@) == cs
                    &&& match rest {
                        Some(r) => final(self).serving matches Some(v) && v@ == r,
                        None => final(self).serving is None,
                    }
                },
                None => chunks@.len() == 0 && final(self).serving is None,
            },
            forall|k: int| 0 <= k < chunks@.len() ==> (#[trigger] chunks@[k]).bytes@.len() <= CHUNK,
    {
        let mut chunks: Vec<Chunk> = Vec::new();
        let serving: Option<Serving> = self.serving.take();
        let mut s: Serving = match serving {
            Some(s) => s,
            None => return chunks,
        };
        let ghost first = s@;
        proof {
            assert(chunks@.map_values(|c: Chunk| c@) + pushed(s@).0 =~= pushed(first).0);
        }
        while s.unacked < WINDOW
            invariant
                s.offset <= s.bytes@.len(),
                pushed(first).0 == chunks@.map_values(|c: Chunk| c@) + pushed(s@).0,
                pushed(first).1 == pushed(s@).1,
                *self == (ServeTest { serving: None, ..*old(self) }),
                old(self).serving matches Some(o) && o@ == first,
                forall|k: int| 0 <= k < chunks@.len() ==> (#[trigger] chunks@[k]).bytes@.len() <= CHUNK,
            decreases WINDOW - s.unacked,
        {
            let len: usize = s.bytes.len();
            let end: usize = if len - s.offset > CHUNK {
                s.offset + CHUNK
            } else {
                len
            };
            let done: bool = end == len;
            let ghost was = s@;
            let ghost before = chunks@.map_values(|c: Chunk| c@);
            let part: Vec<u8> = part_of(&s.bytes, s.offset, end);
            let c: Chunk = Chunk { id: s.id, offset: s.offset as u64, bytes: part, done };
            let ghost cv = c@;
            chunks.push(c);
            proof {
                assert(chunks@.map_values(|c: Chunk| c@) =~= before.push(cv));
            }
            if done {
                proof {
                    assert(before + seq![cv] =~= before.push(cv));
                }
                return chunks;
            }
            s.offset = end;
            s.unacked = s.unacked + 1;
            proof {
                assert(pushed(was).0 == seq![cv] + pushed(s@).0);
                assert(before + (seq![cv] + pushed(s@).0) =~= before.push(cv) + pushed(s@).0);
            }
        }
        proof {
            assert(chunks@.map_values(|c: Chunk| c@) + pushed(s@).0 =~= chunks@.map_values(|c: Chunk| c@));
        }
        self.serving = Some(s);
        chunks
    }

    /// Whether frames are still due.
    pub fn waits(&self) -> (yes: bool)
        ensures
            yes == (self.got < self.frames),
    {
        self.got < self.frames
    }

    /// Whether the frames came, a keyframe among them.
    pub fn passes(&self) -> (yes: bool)
        ensures
            yes == (self.got >= self.frames && self.keyframes >= 1),
    {
        self.got >= self.frames && self.keyframes >= 1
    }

    /// Whether the scale was asked for, and then whether it was applied.
    pub fn scale_verdict(&self) -> (v: Option<bool>)
        ensures
            v == if self.frames > 3 {
                Some(self.scaled)
            } else {
                None
            },
    {
        if self.frames > 3 {
            Some(self.scaled)
        } else {
            None
        }
    }
}

fn part_of(bytes: &Vec<u8>, from: usize, to: usize) -> (part: Vec<u8>)
    requires
        from <= to <= bytes@.len(),
    ensures
        part@ == bytes@.subrange(from as int, to as int),
{
    let mut part: Vec<u8> = Vec::new();
    for i in from..to
        invariant
            from <= to <= bytes@.len(),
            part@ == bytes@.subrange(from as int, i as int),
    {
        part.push(bytes[i]);
        proof {
            assert(bytes@.subrange(from as int, i + 1) =~= bytes@.subrange(from as int, i as int).push(
                bytes@[i as int],
            ));
        }
    }
    part
}

/// Directories are made until a file is met, or an entry whose path is not
/// safe.
pub proof fn law_directories_come_before_the_file(files: Seq<ClipboardFile>, from: int)
    requires
        0 <= from <= files.len(),
    ensures
        from <= stops_at(files, from) <= files.len(),
        forall|k: int|
            from <= k < stops_at(files, from) ==> (#[trigger] files[k]).dir && safe_path(files[k].path@) is Some,
        stops_at(files, from) < files.len() ==> !files[stops_at(files, from)].dir || safe_path(
            files[stops_at(files, from)].path@,
        ) is None,
    decreases files.len() - from,
{
    if from < files.len() && files[from].dir && safe_path(files[from].path@) is Some {
        law_directories_come_before_the_file(files, from + 1);
    }
}

/// Raw bytes are wanted where a file is kept and they are offered, else text
/// where any flavour of it is.
pub proof fn law_what_is_wanted_of_an_offer(keep_file: bool, offered: Seq<Seq<char>>)
    ensures
        ({
            let octets = keep_file && offered.contains("application/octet-stream"@);
            let text = exists|k: int| 0 <= k < offered.len() && text_mime(#[trigger] offered[k]);
            &&& octets ==> wanted_type(keep_file, offered) == Some("application/octet-stream"@)
            &&& !octets && text ==> wanted_type(keep_file, offered) == Some("text/plain;charset=utf-8"@)
            &&& !octets && !text ==> wanted_type(keep_file, offered) is None
        }),
{
}

/// Every frame is acked first of all; a keymap and its key, a new size and an
/// offer go out behind the second, third and fourth.
pub proof fn law_what_follows_a_frame(t: ServeTest, frame_id: u64, got: int)
    ensures
        ({
            let msgs = frame_msgs(t, frame_id, got);
            &&& msgs.len() > 0 && msgs[0] == (ClientMsgView::FrameAck { frame_id, decoded_at_ms: 0 })
            &&& got < 2 || got > 4 ==> msgs.len() == 1
            &&& got == 2 ==> msgs.len() == if t.keymap is Some {
                4int
            } else {
                1
            }
            &&& got == 2 && t.keymap is Some ==> msgs[1] == (ClientMsgView::Keymap { keymap: t.keymap->0@ }) && msgs[2]
                == (ClientMsgView::Key { keycode: 42, pressed: true }) && msgs[3] == (ClientMsgView::Key {
                keycode: 42,
                pressed: false,
            })
            &&& got == 3 ==> msgs.len() == 2 && (msgs[1] matches ClientMsgView::Resize { width, height, .. } && width
                == 800 && height == 600)
            &&& got == 4 ==> msgs.len() == if t.options.text is Some || t.options.file is Some
                || t.options.files.entries@.len() > 0 {
                2int
            } else {
                1
            }
            &&& got == 4 && msgs.len() == 2 ==> msgs[1] is ClipboardOffer
        }),
{
}

/// A request for a file has an odd number of its own.
pub proof fn law_file_requests_are_numbered(serial: u32, index: u32)
    requires
        3 + 2 * index <= u32::MAX,
    ensures
        file_request(serial, index as int) == (ClientMsgView::ClipboardRequest {
            id: (2 * index + 3) as u32,
            serial,
            item: ClipboardItemView::File(index),
        }),
{
}

} // verus!
