//! Joins the compositor's clipboard to the peer.
//!
//! Compositor to client: a new selection becomes an offer of its mime types
//! (a `text/uri-list` is read and turned into a file list); when the client
//! asks for an item, the compositor's pipe for it is streamed out.
//!
//! Client to compositor: the client's offer is advertised as our selection;
//! when an application pastes, the item is fetched from the client straight
//! into the application's pipe. A file paste first spools every file, once
//! per offer, then hands the application a URI list pointing at the spool.

use crate::clipboard::flow::MAX_ITEM;
use crate::clipboard::mime::{
    advertised, file_mime, forwardable_mimes, forwarded, is_file_mime, local_mimes_for_offer, offers_files,
    resolve_mime, resolved, texts,
};
use crate::clipboard::msg::{ClipboardFile, ClipboardItem, ClipboardMsg};
use crate::clipboard::spool::LocalFiles;
use vstd::prelude::*;

verus! {

/// Longest `text/uri-list` that is read to build an offer.
pub const URI_LIST_MAX: usize = 0x10_0000;

/// How a peer's request is answered.
#[derive(Debug, Clone, PartialEq, Eq)]
pub enum Answer {
    Refuse,
    /// Stream the compositor's pipe for this mime type.
    Receive(String),
    /// Stream this local file.
    Open(String),
}

/// What a new selection asks for.
#[derive(Debug, Clone)]
pub struct Selection {
    /// Tells a later selection apart.
    pub generation: u64,
    /// The mime types to offer.
    pub offered: Vec<String>,
    /// Whether the compositor's file list is to be read first.
    pub wants_files: bool,
}

/// What a paste asks for.
#[derive(Debug, Clone, PartialEq, Eq)]
pub enum Paste {
    /// There is nothing to paste.
    Nothing,
    /// The offer's files, which are spooled already or are to be, into a new
    /// spool or the one that was begun.
    Files { spooled: bool, new_spool: bool },
    /// One item, of at most so many bytes.
    Item { item: ClipboardItem, cap: u64 },
}

/// The two offers: of the compositor's selection, and of the peer's.
#[derive(Debug)]
pub struct Bridge {
    /// Mime types the compositor's current selection advertises.
    pub local_mimes: Vec<String>,
    pub local_files: LocalFiles,
    pub remote_serial: u32,
    pub remote_files: Vec<ClipboardFile>,
    /// A spool was made for the peer's offer.
    pub has_spool: bool,
    /// Its files are all there.
    pub spooled: bool,
    /// Bumped per selection so a slow offer build for a stale one is dropped.
    pub generation: u64,
}

impl Bridge {
    pub open spec fn wf(&self) -> bool {
        self.local_files.wf() && (self.spooled ==> self.has_spool)
    }

    pub fn new() -> (b: Bridge)
        ensures
            b.wf(),
            b.local_mimes@.len() == 0,
            b.local_files.entries@.len() == 0,
            b.remote_files@.len() == 0,
            b.remote_serial == 0,
            !b.has_spool,
            b.generation == 0,
    {
        Bridge {
            local_mimes: Vec::new(),
            local_files: LocalFiles::default(),
            remote_serial: 0,
            remote_files: Vec::new(),
            has_spool: false,
            spooled: false,
            generation: 0,
        }
    }

    /// The peer's selection changed: what to advertise as ours. The spool of
    /// the offer before, if there was one, is to be retired.
    pub fn on_remote_offer(&mut self, serial: u32, mime_types: Vec<String>, files: Vec<ClipboardFile>) -> (advertise:
        Vec<String>)
        requires
            old(self).wf(),
        ensures
            final(self).wf(),
            texts(advertise@) == advertised(texts(mime_types@), files@.len() > 0),
            *final(self) == (Bridge {
                remote_serial: serial,
                remote_files: files,
                has_spool: false,
                spooled: false,
                ..*old(self)
            }),
    {
        let advertise: Vec<String> = local_mimes_for_offer(mime_types.as_slice(), files.len() > 0);
        self.remote_serial = serial;
        self.remote_files = files;
        self.has_spool = false;
        self.spooled = false;
        advertise
    }

    /// The peer asks for an item of our offer. Without a compositor there is
    /// none.
    pub fn on_request(&self, item: &ClipboardItem, has_compositor: bool) -> (a: Answer)
        ensures
            !has_compositor ==> a is Refuse,
            has_compositor ==> match item {
                ClipboardItem::Mime(requested) => match resolved(requested@, texts(self.local_mimes@)) {
                    Some(actual) => a matches Answer::Receive(m) && m@ == actual,
                    None => a is Refuse,
                },
                ClipboardItem::File(i) => if *i < self.local_files.paths@.len() {
                    a matches Answer::Open(p) && p@ == self.local_files.paths@[*i as int]@
                } else {
                    a is Refuse
                },
            },
    {
        if !has_compositor {
            return Answer::Refuse;
        }
        match item {
            ClipboardItem::Mime(requested) => match resolve_mime(requested.as_str(), self.local_mimes.as_slice()) {
                Some(actual) => Answer::Receive(actual.to_string()),
                None => Answer::Refuse,
            },
            ClipboardItem::File(_) => match self.local_files.path_for(item) {
                Some(path) => Answer::Open(path.clone()),
                None => Answer::Refuse,
            },
        }
    }

    /// The compositor's selection changed.
    pub fn on_selection(&mut self, mime_types: Vec<String>) -> (s: Selection)
        requires
            old(self).wf(),
            old(self).generation < u64::MAX,
        ensures
            final(self).wf(),
            s.generation == old(self).generation + 1,
            texts(s.offered@) == forwarded(texts(mime_types@)),
            s.wants_files == exists|i: int| 0 <= i < mime_types@.len() && file_mime((#[trigger] mime_types@[i])@),
            final(self).local_files.entries@.len() == 0,
            *final(self) == (Bridge {
                local_mimes: mime_types,
                local_files: final(self).local_files,
                generation: s.generation,
                ..*old(self)
            }),
    {
        self.generation = self.generation + 1;
        let offered: Vec<String> = forwardable_mimes(mime_types.as_slice());
        let wants_files: bool = offers_files(mime_types.as_slice());
        self.local_mimes = mime_types;
        self.local_files = LocalFiles::default();
        Selection { generation: self.generation, offered, wants_files }
    }

    /// The files of a selection are listed: the offer to send, unless a later
    /// selection has come meanwhile.
    pub fn on_listed(&mut self, s: Selection, files: LocalFiles) -> (offer: Option<ClipboardMsg>)
        requires
            old(self).wf(),
            files.wf(),
        ensures
            final(self).wf(),
            s.generation != old(self).generation ==> offer is None && *final(self) == *old(self),
            s.generation == old(self).generation ==> {
                &&& *final(self) == (Bridge { local_files: files, ..*old(self) })
                &&& offer matches Some(ClipboardMsg::Offer { serial, mime_types, files: entries })
                &&& serial == s.generation as u32
                &&& mime_types == s.offered
                &&& listed_like(entries@, files.entries@)
            },
    {
        if s.generation != self.generation {
            return None;
        }
        let entries: Vec<ClipboardFile> = copied(&files.entries);
        self.local_files = files;
        Some(ClipboardMsg::Offer { serial: s.generation as u32, mime_types: s.offered, files: entries })
    }

    /// An application pastes.
    pub fn on_paste(&self, mime_type: &str) -> (p: Paste)
        requires
            self.wf(),
        ensures
            file_mime(mime_type@) ==> p == if self.remote_files@.len() == 0 {
                Paste::Nothing
            } else {
                Paste::Files { spooled: self.spooled, new_spool: !self.has_spool }
            },
            !file_mime(mime_type@) ==> (p matches Paste::Item { item, cap } && cap == MAX_ITEM && (
            item matches ClipboardItem::Mime(m) && m@ == mime_type@)),
    {
        if is_file_mime(mime_type) {
            if self.remote_files.len() == 0 {
                Paste::Nothing
            } else {
                Paste::Files { spooled: self.spooled, new_spool: !self.has_spool }
            }
        } else {
            Paste::Item { item: ClipboardItem::Mime(mime_type.to_string()), cap: MAX_ITEM }
        }
    }

    /// A spool was made for the peer's offer.
    pub fn spool_made(&mut self)
        requires
            old(self).wf(),
        ensures
            final(self).wf(),
            *final(self) == (Bridge { has_spool: true, ..*old(self) }),
    {
        self.has_spool = true;
    }

    /// All files of the peer's offer are in its spool.
    pub fn files_spooled(&mut self)
        requires
            old(self).wf(),
            old(self).has_spool,
        ensures
            final(self).wf(),
            *final(self) == (Bridge { spooled: true, ..*old(self) }),
    {
        self.spooled = true;
    }
}

/// The same entries, by what they say.
pub open spec fn listed_like(a: Seq<ClipboardFile>, b: Seq<ClipboardFile>) -> bool {
    a.len() == b.len() && forall|i: int|
        0 <= i < a.len() ==> (#[trigger] a[i]).path@ == b[i].path@ && a[i].size == b[i].size && a[i].dir == b[i].dir
}

pub(crate) fn copied(entries: &Vec<ClipboardFile>) -> (out: Vec<ClipboardFile>)
    ensures
        listed_like(out@, entries@),
{
    let mut out: Vec<ClipboardFile> = Vec::new();
    let n: usize = entries.len();
    for i in 0..n
        invariant
            n == entries@.len(),
            out@.len() == i,
            forall|k: int|
                0 <= k < i ==> (#[trigger] out@[k]).path@ == entries@[k].path@ && out@[k].size == entries@[k].size
                    && out@[k].dir == entries@[k].dir,
    {
        out.push(ClipboardFile { path: entries[i].path.clone(), size: entries[i].size, dir: entries[i].dir });
    }
    out
}

/// Whether the compositor's file list can be used: read in time, and not
/// longer than is read.
pub fn uri_list_usable(read: bool, len: usize) -> (yes: bool)
    ensures
        yes == (read && len <= URI_LIST_MAX),
{
    read && len <= URI_LIST_MAX
}

} // verus!
