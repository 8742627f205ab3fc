//! How the server is reached, and what this client can do.

use crate::msg::protocol::features;
use crate::msg::types::{ChromaMode, ClientCaps, Codec};
use vstd::prelude::*;

verus! {

/// A server behind ssh.
#[derive(Debug, Clone, PartialEq, Eq)]
pub struct SshTarget {
    /// `user@host` or an ssh config alias.
    pub host: String,
    /// The server to run there, or none for the one on its path.
    pub server_bin: Option<String>,
    pub server_args: Vec<String>,
    pub ssh_args: Vec<String>,
}

/// How to reach the server.
#[derive(Debug, Clone, PartialEq, Eq)]
pub enum Endpoint {
    /// Dev only: an address a server listens on.
    Tcp(String),
    Ssh(SshTarget),
}

/// A text that is there and not empty.
pub open spec fn given(s: Option<String>) -> bool {
    s matches Some(t) && t@.len() > 0
}

fn is_given(s: &Option<String>) -> (yes: bool)
    ensures
        yes == given(*s),
{
    match s {
        Some(t) => !t.as_str().is_empty(),
        None => false,
    }
}

/// The endpoint a configuration names: an address where there is one, else
/// a host behind ssh. With neither there is none.
pub fn pick_endpoint(
    tcp: Option<String>,
    host: Option<String>,
    server_bin: Option<String>,
    server_args: Vec<String>,
    ssh_args: Vec<String>,
) -> (e: Option<Endpoint>)
    ensures
        given(tcp) ==> e == Some(Endpoint::Tcp(tcp->0)),
        !given(tcp) && given(host) ==> e == Some(
            Endpoint::Ssh(
                SshTarget {
                    host: host->0,
                    server_bin: if given(server_bin) {
                        server_bin
                    } else {
                        None
                    },
                    server_args,
                    ssh_args,
                },
            ),
        ),
        !given(tcp) && !given(host) ==> e is None,
{
    let has_tcp: bool = is_given(&tcp);
    let has_host: bool = is_given(&host);
    let has_bin: bool = is_given(&server_bin);
    match (tcp, host) {
        (Some(addr), _) if has_tcp => Some(Endpoint::Tcp(addr)),
        (_, Some(host)) if has_host => {
            let server_bin: Option<String> = if has_bin {
                server_bin
            } else {
                None
            };
            Some(Endpoint::Ssh(SshTarget { host, server_bin, server_args, ssh_args }))
        },
        _ => None,
    }
}

/// What a client of this build can do, for a stream of at most this size.
pub fn client_caps(max_width: u32, max_height: u32) -> (caps: ClientCaps)
    ensures
        caps.codecs@ == seq![Codec::H264],
        caps.max_width == if max_width < 640 {
            640
        } else {
            max_width
        },
        caps.max_height == if max_height < 480 {
            480
        } else {
            max_height
        },
        caps.chroma@ == seq![ChromaMode::Dual420, ChromaMode::Single420],
        caps.features@.len() == 0,
{
    let codecs: Vec<Codec> = vec![Codec::H264];
    let chroma: Vec<ChromaMode> = vec![ChromaMode::Dual420, ChromaMode::Single420];
    assert(codecs@ =~= seq![Codec::H264]);
    assert(chroma@ =~= seq![ChromaMode::Dual420, ChromaMode::Single420]);
    ClientCaps {
        codecs,
        max_width: if max_width < 640 {
            640
        } else {
            max_width
        },
        max_height: if max_height < 480 {
            480
        } else {
            max_height
        },
        chroma,
        features: features(),
    }
}

/// An option counts as given where something was written for it.
pub proof fn law_empty_options_are_not_given(s: Option<String>)
    ensures
        s is None ==> !given(s),
        s matches Some(t) ==> (given(s) <==> t@ != Seq::<char>::empty()),
{
    if let Some(t) = s {
        if t@.len() == 0 {
            assert(t@ =~= Seq::<char>::empty());
        }
    }
}

} // verus!
