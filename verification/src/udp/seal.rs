//! Sealing and opening datagrams.

use super::packet::{
    law_packet_round_trip,
    packet_at_start,
    packet_bytes,
    packet_to_vec,
    take_packet,
    Packet,
    PacketView,
};
use super::replay::{law_marked_is_not_fresh, marked, ReplayWindow};
use chacha20poly1305::aead::{Aead, KeyInit, Payload};
use chacha20poly1305::{ChaCha20Poly1305, Nonce};
use vstd::bytes::{
    lemma_auto_spec_u64_to_from_le_bytes, spec_u64_from_le_bytes, spec_u64_to_le_bytes, u64_from_le_bytes,
    u64_to_le_bytes,
};
use vstd::prelude::*;
use vstd::slice::{slice_subrange, slice_to_vec};

verus! {

pub const KEY_LEN: usize = 32;

/// The largest datagram sent: fits an IPv6 packet on a 1280-byte MTU
/// (a Tailscale tunnel, for one) without fragmentation.
pub const MAX_DATAGRAM: usize = 1200;

pub const SEQ_LEN: usize = 8;

pub const TAG_LEN: usize = 16;

pub const DIR_CLIENT: u8 = 0;

pub const DIR_SERVER: u8 = 1;

/// What ChaCha20-Poly1305 makes of `msg` under `key` and `nonce`, with `aad`
/// authenticated beside it: the ciphertext, then the tag.
pub uninterp spec fn aead_sealed(key: Seq<u8>, nonce: Seq<u8>, aad: Seq<u8>, msg: Seq<u8>) -> Seq<u8>;

/// The nonce of a datagram: the direction, three zero bytes, the sequence.
pub open spec fn nonce_of(dir: u8, seq: u64) -> Seq<u8> {
    seq![dir, 0u8, 0u8, 0u8] + spec_u64_to_le_bytes(seq)
}

/// The datagram that carries `plaintext` under a sequence number.
pub open spec fn sealed_datagram(key: Seq<u8>, dir: u8, seq: u64, plaintext: Seq<u8>) -> Seq<u8> {
    spec_u64_to_le_bytes(seq) + aead_sealed(key, nonce_of(dir, seq), spec_u64_to_le_bytes(seq), plaintext)
}

/// Whether one nonce can encrypt so many bytes: the cipher's block counter has
/// 32 bits, its blocks have 64 bytes, the first makes the authentication key,
/// and the last is never reached.
pub open spec fn can_encrypt(len: nat) -> bool {
    len <= 64 * (u32::MAX - 1)
}

/// What a plaintext holds: a packet, and the bytes behind it.
pub open spec fn plaintext_content(plain: Seq<u8>) -> Option<(PacketView, Seq<u8>)> {
    match packet_at_start(plain) {
        None => None,
        Some((p, n)) => Some((p, plain.skip(n))),
    }
}

/// Calls `chacha20poly1305`'s `Aead::encrypt`: the ciphertext and the 16-byte
/// tag behind it, a function of the key, the nonce, the associated data and
/// the message. It fails only for a message beyond the block counter.
#[verifier::external_body]
fn aead_encrypt(key: &[u8; 32], nonce: &[u8; 12], aad: &[u8], msg: &[u8]) -> (out: Vec<u8>)
    requires
        can_encrypt(msg@.len()),
    ensures
        out@ == aead_sealed(key@, nonce@, aad@, msg@),
        out@.len() == msg@.len() + 16,
{
    ChaCha20Poly1305::new(key.into()).encrypt(&Nonce::from(*nonce), Payload { msg, aad }).expect(
        "ChaCha20-Poly1305 encrypt cannot fail",
    )
}

/// Calls `chacha20poly1305`'s `Aead::decrypt`: the message that encrypts to
/// `sealed`, which is unique since the cipher is a keystream added to the
/// message; `None` when no message does, so that the tag does not match.
#[verifier::external_body]
fn aead_decrypt(key: &[u8; 32], nonce: &[u8; 12], aad: &[u8], sealed: &[u8]) -> (res: Option<Vec<u8>>)
    requires
        can_encrypt(sealed@.len()),
    ensures
        match res {
            Some(msg) => {
                &&& sealed@ == aead_sealed(key@, nonce@, aad@, msg@)
                &&& forall|m: Seq<u8>| #[trigger] aead_sealed(key@, nonce@, aad@, m) == sealed@ ==> m == msg@
            },
            None => forall|m: Seq<u8>| #[trigger] aead_sealed(key@, nonce@, aad@, m) != sealed@,
        },
{
    ChaCha20Poly1305::new(key.into()).decrypt(&Nonce::from(*nonce), Payload { msg: sealed, aad }).ok()
}

fn nonce(dir: u8, seq: u64) -> (n: [u8; 12])
    ensures
        n@ == nonce_of(dir, seq),
{
    let le: Vec<u8> = u64_to_le_bytes(seq);
    let mut n: [u8; 12] = [0u8; 12];
    n[0] = dir;
    for i in 0..8usize
        invariant
            le@ == spec_u64_to_le_bytes(seq),
            le@.len() == 8,
            n@[0] == dir,
            forall|k: int| 1 <= k < 4 ==> n@[k] == 0,
            forall|k: int| 0 <= k < i ==> n@[k + 4] == le@[k],
    {
        n[i + 4] = le[i];
    }
    proof {
        assert forall|k: int| 0 <= k < 12 implies n@[k] == nonce_of(dir, seq)[k] by {
            if k >= 4 {
                assert(n@[(k - 4) + 4] == le@[k - 4]);
            }
        }
        assert(n@ =~= nonce_of(dir, seq));
    }
    n
}

/// Seals outgoing datagrams with a fresh sequence number each.
pub struct Sealer {
    key: [u8; 32],
    dir: u8,
    next: u64,
}

impl Sealer {
    pub closed spec fn key(&self) -> Seq<u8> {
        self.key@
    }

    pub closed spec fn dir(&self) -> u8 {
        self.dir
    }

    /// The sequence number of the next datagram.
    pub closed spec fn next(&self) -> u64 {
        self.next
    }

    pub fn new(key: &[u8; KEY_LEN], dir: u8) -> (s: Self)
        ensures
            s.key() == key@,
            s.dir() == dir,
            s.next() == 1,
    {
        Self { key: *key, dir, next: 1 }
    }

    pub fn seal(&mut self, plaintext: &[u8]) -> (out: Vec<u8>)
        requires
            old(self).next() < u64::MAX,
            can_encrypt(plaintext@.len()),
        ensures
            final(self).key() == old(self).key(),
            final(self).dir() == old(self).dir(),
            final(self).next() == old(self).next() + 1,
            out@ == sealed_datagram(old(self).key(), old(self).dir(), old(self).next(), plaintext@),
            out@.len() == SEQ_LEN + plaintext@.len() + TAG_LEN,
    {
        let seq: u64 = self.next;
        self.next = self.next + 1;
        let mut out: Vec<u8> = u64_to_le_bytes(seq);
        let mut sealed: Vec<u8> = aead_encrypt(&self.key, &nonce(self.dir, seq), out.as_slice(), plaintext);
        out.append(&mut sealed);
        out
    }

    pub fn seal_packet(&mut self, packet: &Packet) -> (out: Vec<u8>)
        requires
            old(self).next() < u64::MAX,
            can_encrypt(packet_bytes(packet@).len()),
        ensures
            final(self).key() == old(self).key(),
            final(self).dir() == old(self).dir(),
            final(self).next() == old(self).next() + 1,
            out@ == sealed_datagram(old(self).key(), old(self).dir(), old(self).next(), packet_bytes(packet@)),
            out@.len() == SEQ_LEN + packet_bytes(packet@).len() + TAG_LEN,
    {
        self.seal(packet_to_vec(packet).as_slice())
    }
}

/// Opens incoming datagrams from one direction and rejects any sequence
/// seen before, or older than the window.
pub struct Opener {
    key: [u8; 32],
    dir: u8,
    window: ReplayWindow,
}

impl Opener {
    pub closed spec fn key(&self) -> Seq<u8> {
        self.key@
    }

    pub closed spec fn dir(&self) -> u8 {
        self.dir
    }

    pub closed spec fn window(&self) -> ReplayWindow {
        self.window
    }

    pub fn new(key: &[u8; KEY_LEN], dir: u8) -> (o: Self)
        ensures
            o.key() == key@,
            o.dir() == dir,
            o.window().highest() == 0,
            forall|s: u64| !#[trigger] o.window().seen(s),
    {
        Self { key: *key, dir, window: ReplayWindow::default() }
    }

    /// The packet and, for a `Part`, its bytes. `None` for anything that
    /// does not authenticate, replays, or does not parse.
    pub fn open(&mut self, datagram: &[u8]) -> (res: Option<(Packet, Vec<u8>)>)
        requires
            can_encrypt(datagram@.len()),
        ensures
            final(self).key() == old(self).key(),
            final(self).dir() == old(self).dir(),
            // A datagram that carries `plain` under a new sequence number is
            // opened, and the number is spent.
            forall|seq: u64, plain: Seq<u8>|
                old(self).window().fresh(seq) && datagram@.len() >= SEQ_LEN + TAG_LEN && #[trigger] sealed_datagram(
                    old(self).key(),
                    old(self).dir(),
                    seq,
                    plain,
                ) == datagram@ ==> {
                    &&& marked(old(self).window(), seq, final(self).window())
                    &&& match (res, plaintext_content(plain)) {
                        (Some((p, rest)), Some((q, tail))) => p@ == q && rest@ == tail,
                        (None, None) => true,
                        _ => false,
                    }
                },
            // One that is too short is dropped and leaves no trace,
            datagram@.len() < SEQ_LEN + TAG_LEN ==> res is None && *final(self) == *old(self),
            // and so is any other that was not sealed so.
            !(exists|seq: u64, plain: Seq<u8>|
                old(self).window().fresh(seq) && datagram@.len() >= SEQ_LEN + TAG_LEN && #[trigger] sealed_datagram(
                    old(self).key(),
                    old(self).dir(),
                    seq,
                    plain,
                ) == datagram@) ==> res is None && *final(self) == *old(self),
    {
        proof {
            lemma_auto_spec_u64_to_from_le_bytes();
        }
        if datagram.len() < SEQ_LEN + TAG_LEN {
            return None;
        }
        let head = slice_subrange(datagram, 0, SEQ_LEN);
        let body = slice_subrange(datagram, SEQ_LEN, datagram.len());
        let seq: u64 = u64_from_le_bytes(head);
        let ghost whole = datagram@;
        proof {
            assert(head@ == spec_u64_to_le_bytes(seq));
            assert(whole =~= head@ + body@);
            assert forall|s: u64, plain: Seq<u8>| #[trigger]
                sealed_datagram(self.key(), self.dir(), s, plain) == whole implies s == seq && aead_sealed(
                self.key(),
                nonce_of(self.dir(), seq),
                head@,
                plain,
            ) == body@ by {
                lemma_datagram_split(self.key(), self.dir(), s, plain, head@, body@);
            }
        }
        if !self.window.is_fresh(seq) {
            return None;
        }
        let plain: Vec<u8> = match aead_decrypt(&self.key, &nonce(self.dir, seq), head, body) {
            Some(m) => m,
            None => {
                return None;
            },
        };
        assert(sealed_datagram(self.key(), self.dir(), seq, plain@) =~= whole);
        self.window.mark(seq);
        match take_packet(plain.as_slice()) {
            Some((packet, n)) => {
                let rest: Vec<u8> = slice_to_vec(slice_subrange(plain.as_slice(), n, plain.len()));
                assert(rest@ =~= plain@.skip(n as int));
                Some((packet, rest))
            },
            None => None,
        }
    }
}

/// A datagram's head is its sequence number, its body the sealed plaintext.
proof fn lemma_datagram_split(key: Seq<u8>, dir: u8, s: u64, plain: Seq<u8>, head: Seq<u8>, body: Seq<u8>)
    requires
        head.len() == 8,
        sealed_datagram(key, dir, s, plain) == head + body,
    ensures
        head == spec_u64_to_le_bytes(s),
        s == spec_u64_from_le_bytes(head),
        body == aead_sealed(key, nonce_of(dir, s), head, plain),
{
    lemma_auto_spec_u64_to_from_le_bytes();
    let le = spec_u64_to_le_bytes(s);
    let sealed = aead_sealed(key, nonce_of(dir, s), le, plain);
    assert(le.len() == 8);
    assert(le + sealed == head + body);
    assert((le + sealed).take(8) =~= le);
    assert((head + body).take(8) =~= head);
    assert((le + sealed).skip(8) =~= sealed);
    assert((head + body).skip(8) =~= body);
}

/// What a packet and bytes behind it are sealed as is opened as that packet
/// and those bytes.
pub proof fn law_plaintext_round_trip(p: PacketView, bytes: Seq<u8>)
    requires
        p matches PacketView::Nack { missing, .. } ==> missing.len() <= usize::MAX,
    ensures
        plaintext_content(packet_bytes(p) + bytes) == Some((p, bytes)),
{
    law_packet_round_trip(p, bytes);
    assert((packet_bytes(p) + bytes).skip(packet_bytes(p).len() as int) =~= bytes);
}

/// A packet that was sealed is opened as that packet, with nothing behind it,
/// where its sequence number is new; and the datagram is opened once: then no
/// new sequence number carries it.
pub proof fn law_sealed_packets_open_once(
    key: Seq<u8>,
    dir: u8,
    seq: u64,
    p: PacketView,
    before: ReplayWindow,
    after: ReplayWindow,
)
    requires
        p matches PacketView::Nack { missing, .. } ==> missing.len() <= usize::MAX,
        marked(before, seq, after),
    ensures
        plaintext_content(packet_bytes(p)) == Some((p, Seq::<u8>::empty())),
        forall|s: u64, plain: Seq<u8>| #[trigger]
            sealed_datagram(key, dir, s, plain) == sealed_datagram(key, dir, seq, packet_bytes(p)) ==> !after.fresh(s),
{
    law_plaintext_round_trip(p, Seq::empty());
    assert(packet_bytes(p) + Seq::<u8>::empty() =~= packet_bytes(p));
    law_marked_is_not_fresh(before, seq, after);
    lemma_auto_spec_u64_to_from_le_bytes();
    let head = spec_u64_to_le_bytes(seq);
    let body = aead_sealed(key, nonce_of(dir, seq), head, packet_bytes(p));
    assert forall|s: u64, plain: Seq<u8>| #[trigger]
        sealed_datagram(key, dir, s, plain) == sealed_datagram(key, dir, seq, packet_bytes(p)) implies !after.fresh(s) by {
        lemma_datagram_split(key, dir, s, plain, head, body);
        lemma_datagram_split(key, dir, seq, packet_bytes(p), head, body);
    }
}

/// No two datagrams share a nonce: it tells the direction and the number of
/// its datagram.
pub proof fn law_nonces_differ(a: u8, b: u8, s: u64, t: u64)
    requires
        nonce_of(a, s) == nonce_of(b, t),
    ensures
        a == b,
        s == t,
        nonce_of(a, s).len() == 12,
{
    lemma_auto_spec_u64_to_from_le_bytes();
    assert(nonce_of(a, s)[0] == a && nonce_of(b, t)[0] == b);
    assert(nonce_of(a, s).skip(4) =~= spec_u64_to_le_bytes(s));
    assert(nonce_of(b, t).skip(4) =~= spec_u64_to_le_bytes(t));
}

/// A datagram begins with its number, lowest byte first.
pub proof fn law_datagrams_begin_with_their_number(key: Seq<u8>, dir: u8, seq: u64, plain: Seq<u8>)
    ensures
        sealed_datagram(key, dir, seq, plain).len() >= 8,
        sealed_datagram(key, dir, seq, plain).take(8) == spec_u64_to_le_bytes(seq),
{
    lemma_auto_spec_u64_to_from_le_bytes();
    assert(sealed_datagram(key, dir, seq, plain).take(8) =~= spec_u64_to_le_bytes(seq));
}

/// One nonce encrypts less than two to the power of 32 blocks of 64 bytes, the
/// first of which is not for the text.
pub proof fn law_how_much_one_nonce_encrypts(len: nat)
    ensures
        can_encrypt(len) <==> len + 64 + 64 <= 274_877_906_944,
{
}

} // verus!
