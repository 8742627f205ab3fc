//! A client's first message.

use vstd::prelude::*;
use crate::cbor::item::{
    get_list, get_u16, get_u32, lemma_behind, lemma_list_round_trip, lemma_pair, lemma_uint_round_trip, list_at,
    list_head, stands, u16_at, u32_at, uint_bytes, DecodeError, Found,
};
use crate::cbor::row::{fields_bytes, Row};
use crate::cbor::wire::{decode, decoded, law_decode_inverts_to_vec, Get, Wire};
use crate::msg::client::{ClientHelloRow, ClientMsg, ClientMsgView};
use crate::msg::protocol::PROTOCOL_VERSION;
use crate::msg::types::{ClientCaps, ClientCapsView};

verus! {

/// The client's first message as the server reads it. The version is read
/// before anything else, so a `Hello` from another protocol version is
/// recognised even when the rest of it has changed shape.
#[derive(Debug, Clone, PartialEq)]
pub enum Greeting {
    Hello { keymap: String, caps: ClientCaps },
    OtherVersion(u16),
}

/// The contents of a [`Greeting`].
pub enum GreetingView {
    Hello { keymap: Seq<char>, caps: ClientCapsView },
    OtherVersion(u16),
}

impl View for Greeting {
    type V = GreetingView;

    open spec fn view(&self) -> GreetingView {
        match self {
            Greeting::Hello { keymap, caps } => GreetingView::Hello { keymap: keymap@, caps: caps.model() },
            Greeting::OtherVersion(v) => GreetingView::OtherVersion(*v),
        }
    }
}

/// The version in the head of a `Hello` at `p`, `[0, [version, ...]]`.
pub open spec fn hello_version_at(s: Seq<u8>, p: int) -> Found<u16> {
    match list_at(s, p) {
        Err(e) => Err(e),
        Ok((_, a)) => match u32_at(s, a) {
            Err(e) => Err(e),
            Ok((variant, b)) => if variant != 0 {
                Err(DecodeError::Malformed)
            } else {
                match list_at(s, b) {
                    Err(e) => Err(e),
                    Ok((_, c)) => u16_at(s, c),
                }
            },
        },
    }
}

/// The version at the head of a `Hello`.
pub open spec fn hello_version(s: Seq<u8>) -> Result<u16, DecodeError> {
    match hello_version_at(s, 0) {
        Ok((version, _)) => Ok(version),
        Err(e) => Err(e),
    }
}

/// What the first message at `p` says.
pub open spec fn greeting_at(s: Seq<u8>, p: int) -> Found<GreetingView> {
    match hello_version_at(s, p) {
        Err(e) => Err(e),
        Ok((version, end)) => if version != PROTOCOL_VERSION {
            Ok((GreetingView::OtherVersion(version), end))
        } else {
            match ClientMsg::found_at(s, p) {
                Ok((ClientMsgView::Hello { keymap, caps, .. }, end)) => Ok((GreetingView::Hello { keymap, caps }, end)),
                Ok(_) => Err(DecodeError::Malformed),
                Err(e) => Err(e),
            }
        },
    }
}

/// What the first message says.
pub open spec fn greeting_of(s: Seq<u8>) -> Result<GreetingView, DecodeError> {
    decoded::<Greeting>(s)
}

impl Wire for Greeting {
    type Model = GreetingView;

    open spec fn model(&self) -> Self::Model {
        self@
    }

    /// The shortest message that says so.
    open spec fn bytes_of(m: Self::Model) -> Seq<u8> {
        match m {
            GreetingView::Hello { keymap, caps } => ClientMsg::bytes_of(
                ClientMsgView::Hello { version: PROTOCOL_VERSION, keymap, caps },
            ),
            GreetingView::OtherVersion(version) => hello_head(1, version),
        }
    }

    open spec fn fits(m: Self::Model) -> bool {
        match m {
            GreetingView::Hello { keymap, caps } => ClientMsg::fits(
                ClientMsgView::Hello { version: PROTOCOL_VERSION, keymap, caps },
            ),
            GreetingView::OtherVersion(version) => version != PROTOCOL_VERSION,
        }
    }

    open spec fn found_at(s: Seq<u8>, p: int) -> Found<Self::Model> {
        greeting_at(s, p)
    }

    open spec fn nil() -> Option<Self::Model> {
        None
    }

    proof fn round_trip(m: Self::Model, s: Seq<u8>, p: int, tail: Seq<u8>) {
        match m {
            GreetingView::Hello { keymap, caps } => {
                let hello = ClientMsgView::Hello { version: PROTOCOL_VERSION, keymap, caps };
                let behind = <(String, (ClientCaps, ())) as Row>::row_bytes((keymap, (caps, ())), 2);
                lemma_hello_bytes(keymap, caps);
                assert(s.skip(p) =~= hello_head(3, PROTOCOL_VERSION) + (behind + tail));
                lemma_hello_version(s, p, 3, PROTOCOL_VERSION, behind + tail);
                ClientMsg::round_trip(hello, s, p, tail);
            },
            GreetingView::OtherVersion(version) => {
                lemma_hello_version(s, p, 1, version, tail);
            },
        }
    }
}

impl Get for Greeting {
    fn get(s: &[u8], p: usize) -> (res: Result<(Self, usize), DecodeError>) {
        let a: usize = match get_list(s, p) {
            Ok((_, a)) => a,
            Err(e) => return Err(e),
        };
        let b: usize = match get_u32(s, a) {
            Ok((variant, b)) => {
                if variant != 0 {
                    return Err(DecodeError::Malformed);
                }
                b
            },
            Err(e) => return Err(e),
        };
        let c: usize = match get_list(s, b) {
            Ok((_, c)) => c,
            Err(e) => return Err(e),
        };
        let (version, end): (u16, usize) = match get_u16(s, c) {
            Ok(found) => found,
            Err(e) => return Err(e),
        };
        if version != PROTOCOL_VERSION {
            return Ok((Greeting::OtherVersion(version), end));
        }
        match ClientMsg::get(s, p) {
            Ok((ClientMsg::Hello { keymap, caps, .. }, end)) => Ok((Greeting::Hello { keymap, caps }, end)),
            Ok(_) => Err(DecodeError::Malformed),
            Err(e) => Err(e),
        }
    }

    fn absent() -> (v: Option<Self>) {
        None
    }
}

impl Greeting {
    pub fn decode(s: &[u8]) -> (res: Result<Greeting, DecodeError>)
        ensures
            match (res, greeting_of(s@)) {
                (Ok(g), Ok(v)) => g@ == v,
                (Err(a), Err(b)) => a == b,
                _ => false,
            },
    {
        decode(s)
    }
}

/// The head of a `Hello` with `fields` fields.
pub open spec fn hello_head(fields: nat, version: u16) -> Seq<u8> {
    list_head(2) + (uint_bytes(0) + (list_head(fields) + uint_bytes(version as nat)))
}

/// The version of any `Hello` is read, whatever follows it: one of another
/// protocol version is told as such even when the rest has changed shape.
pub proof fn law_any_hello_tells_its_version(fields: u64, version: u16, rest: Seq<u8>)
    ensures
        hello_version(hello_head(fields as nat, version) + rest) == Ok::<u16, DecodeError>(version),
        version != PROTOCOL_VERSION ==> greeting_of(hello_head(fields as nat, version) + rest) == Ok::<
            GreetingView,
            DecodeError,
        >(GreetingView::OtherVersion(version)),
{
    let s = hello_head(fields as nat, version) + rest;
    assert(s.skip(0) =~= s);
    lemma_hello_version(s, 0, fields, version, rest);
}

/// The version in a head that stands at `p` is read.
proof fn lemma_hello_version(s: Seq<u8>, p: int, fields: u64, version: u16, rest: Seq<u8>)
    requires
        stands(s, p, hello_head(fields as nat, version), rest),
    ensures
        hello_version_at(s, p) == Ok::<(u16, int), DecodeError>(
            (version, p + hello_head(fields as nat, version).len()),
        ),
        stands(s, p + hello_head(fields as nat, version).len(), Seq::empty(), rest),
        hello_head(fields as nat, version).len() > 0,
        hello_head(fields as nat, version)[0] != 0xff,
        hello_head(fields as nat, version)[0] != 0xf6,
{
    let a = list_head(2);
    let b = uint_bytes(0);
    let c = list_head(fields as nat);
    let d = uint_bytes(version as nat);
    lemma_pair(s, p, a, b + (c + d), rest);
    lemma_list_round_trip(s, p, 2, (b + (c + d)) + rest);
    lemma_behind(s, p, a, (b + (c + d)) + rest);
    let q = p + a.len();
    lemma_pair(s, q, b, c + d, rest);
    lemma_uint_round_trip(s, q, 0, (c + d) + rest);
    lemma_behind(s, q, b, (c + d) + rest);
    let r = q + b.len();
    lemma_pair(s, r, c, d, rest);
    lemma_list_round_trip(s, r, fields, d + rest);
    lemma_behind(s, r, c, d + rest);
    lemma_uint_round_trip(s, r + c.len(), version as u64, rest);
    lemma_behind(s, p, hello_head(fields as nat, version), rest);
}

/// A `Hello` of this version begins with the head of three fields.
proof fn lemma_hello_bytes(keymap: Seq<char>, caps: ClientCapsView)
    ensures
        ClientMsg::bytes_of(ClientMsgView::Hello { version: PROTOCOL_VERSION, keymap, caps }) == hello_head(
            3,
            PROTOCOL_VERSION,
        ) + <(String, (ClientCaps, ())) as Row>::row_bytes((keymap, (caps, ())), 2),
{
    reveal(fields_bytes);
    let m = ClientMsgView::Hello { version: PROTOCOL_VERSION, keymap, caps };
    let behind = <(String, (ClientCaps, ())) as Row>::row_bytes((keymap, (caps, ())), 2);
    let row = (PROTOCOL_VERSION, (keymap, (caps, ())));
    assert(fields_bytes::<ClientHelloRow>(row) == list_head(3) + (uint_bytes(PROTOCOL_VERSION as nat) + behind));
    assert(ClientMsg::bytes_of(m) =~= hello_head(3, PROTOCOL_VERSION) + behind);
}

/// A `Hello` of this protocol version is greeted with what it carries.
pub proof fn law_this_version_is_greeted(keymap: Seq<char>, caps: ClientCapsView, rest: Seq<u8>)
    requires
        ClientMsg::fits(ClientMsgView::Hello { version: PROTOCOL_VERSION, keymap, caps }),
    ensures
        greeting_of(
            ClientMsg::bytes_of(ClientMsgView::Hello { version: PROTOCOL_VERSION, keymap, caps }) + rest,
        ) == Ok::<GreetingView, DecodeError>(GreetingView::Hello { keymap, caps }),
{
    law_decode_inverts_to_vec::<Greeting>(GreetingView::Hello { keymap, caps }, rest);
}

} // verus!
