//! The signaling host: it assigns ids from a monotone counter, welcomes each
//! client under the session key, relays client-to-client messages by their
//! `to` byte without reading them, answers announces with accepts, keeps an
//! audio link per client, and broadcasts a peer-lost message to every
//! remaining stream when one closes.

use vstd::prelude::*;

use crate::aes::AES;
use crate::aes::decrypt_spec;
use crate::errors::ErrorKind;
use crate::msg::MsgModel;
use crate::msg::SignalMessage;
use crate::msg::encode_message;
use crate::msg::msg_bytes;
use crate::msg::parse_message;
use crate::aes::seal_limit;
use crate::msg::spec_parse;
use crate::peer::AudioPeer;
use vstd::pervasive::unreached;

verus! {

/// What the host does with one decrypted client message.
pub enum HostRouting {
    /// The message is addressed to another client: forward the original
    /// envelope, untouched, to this stream.
    Relay { to: u8 },
    /// A client announced its UDP candidate and username to the host:
    /// obtain a local candidate, then call `complete_announce`.
    Announce { from: u8, addr: Vec<u8>, username: Vec<u8> },
    /// Malformed, reserved, or unexpected: drop it.
    Reject,
}

/// A peer table after an upsert: the entry under `id` is a fresh link keyed
/// by `key`, and every other entry stands where it stood.
pub open spec fn table_upserted(
    pre: Seq<(u8, AudioPeer)>,
    post: Seq<(u8, AudioPeer)>,
    id: u8,
    key: Seq<u8>,
) -> bool {
    if exists|k: int| 0 <= k < pre.len() && (#[trigger] pre[k]).0 == id {
        &&& post.len() == pre.len()
        &&& forall|i: int| 0 <= i < pre.len() && (#[trigger] pre[i]).0 != id ==> post[i] == pre[i]
        &&& forall|i: int|
            0 <= i < pre.len() && (#[trigger] pre[i]).0 == id ==> post[i].0 == id
                && post[i].1.is_fresh(key)
    } else {
        &&& post.len() == pre.len() + 1
        &&& forall|i: int| 0 <= i < pre.len() ==> #[trigger] post[i] == pre[i]
        &&& post[pre.len() as int].0 == id
        &&& post[pre.len() as int].1.is_fresh(key)
    }
}

fn contains_id(ids: &Vec<u8>, id: u8) -> (r: bool)
    ensures
        r == ids@.contains(id),
{
    let mut i: usize = 0;
    while i < ids.len()
        invariant
            i <= ids@.len(),
            forall|j: int| 0 <= j < i ==> ids@[j] != id,
        decreases ids@.len() - i,
    {
        if ids[i] == id {
            return true;
        }
        i = i + 1;
    }
    proof {
        assert(!ids@.contains(id));
    }
    false
}

/// The signaling host's session state.
pub struct SignalingServer {
    username: Vec<u8>,
    cipher: AES,
    next_id: u8,
    streams: Vec<u8>,
    peers: Vec<(u8, AudioPeer)>,
    issued: Ghost<Seq<u8>>,
}

impl SignalingServer {
    /// The session key.
    pub closed spec fn key(&self) -> Seq<u8> {
        self.cipher@
    }

    /// The session key's base64 text.
    pub closed spec fn spec_key_b64(&self) -> Seq<char> {
        self.cipher.spec_key_b64()
    }

    /// The host's own username.
    pub closed spec fn spec_username(&self) -> Seq<u8> {
        self.username@
    }

    /// The id the next accepted client will get.
    pub closed spec fn spec_next_id(&self) -> u8 {
        self.next_id
    }

    /// The ids with an open signaling stream, in accept order.
    pub closed spec fn spec_streams(&self) -> Seq<u8> {
        self.streams@
    }

    /// The audio links, keyed by client id.
    pub closed spec fn spec_peers(&self) -> Seq<(u8, AudioPeer)> {
        self.peers@
    }

    /// Every id ever issued, in issue order.
    pub closed spec fn spec_issued(&self) -> Seq<u8> {
        self.issued@
    }

    /// A sound host: a usable cipher; ids issued in order `1, 2, ...` up to
    /// the counter; stream ids unique, nonzero and already issued; peer ids
    /// unique and nonzero, each link sound and keyed by the session key.
    pub closed spec fn wf(&self) -> bool {
        &&& self.cipher.wf()
        &&& self.next_id >= 1
        &&& self.issued@.len() == self.next_id - 1
        &&& forall|i: int| 0 <= i < self.issued@.len() ==> #[trigger] self.issued@[i] == i + 1
        &&& forall|i: int, j: int|
            0 <= i < j < self.streams@.len() ==> self.streams@[i] != self.streams@[j]
        &&& forall|i: int|
            0 <= i < self.streams@.len() ==> #[trigger] self.streams@[i] != 0 && self.streams@[i]
                < self.next_id
        &&& forall|i: int, j: int|
            0 <= i < j < self.peers@.len() ==> self.peers@[i].0 != self.peers@[j].0
        &&& forall|i: int|
            0 <= i < self.peers@.len() ==> (#[trigger] self.peers@[i]).0 != 0
                && self.peers@[i].1.wf() && self.peers@[i].1.key() == self.cipher@
    }

    /// A fresh host with no clients, counting ids from 1.
    pub fn new(username: Vec<u8>, cipher: AES) -> (r: SignalingServer)
        requires
            cipher.wf(),
        ensures
            r.wf(),
            r.key() == cipher@,
            r.spec_key_b64() == cipher.spec_key_b64(),
            r.spec_username() == username@,
            r.spec_next_id() == 1,
            r.spec_streams() == Seq::<u8>::empty(),
            r.spec_peers() == Seq::<(u8, AudioPeer)>::empty(),
            r.spec_issued() == Seq::<u8>::empty(),
    {
        let r = SignalingServer {
            username,
            cipher,
            next_id: 1,
            streams: Vec::new(),
            peers: Vec::new(),
            issued: Ghost(Seq::empty()),
        };
        proof {
            assert(r.spec_streams() =~= Seq::<u8>::empty());
            assert(r.spec_peers() =~= Seq::<(u8, AudioPeer)>::empty());
        }
        r
    }

    /// The base64 text of the session key, for the operator to hand out.
    pub fn get_cipher_key(&self) -> (r: String)
        ensures
            r@ == self.spec_key_b64(),
    {
        self.cipher.get_key()
    }

    /// Decrypt one inbound signaling envelope.
    pub fn open_message(&self, data: &Vec<u8>) -> (r: Result<Vec<u8>, ErrorKind>)
        requires
            self.wf(),
        ensures
            match r {
                Ok(p) => decrypt_spec(self.key(), data@) == Some(p@),
                Err(e) => e == ErrorKind::DecryptAuth && decrypt_spec(self.key(), data@) is None,
            },
    {
        self.cipher.decrypt(data)
    }

    /// Whether the id counter is spent: 8-bit ids are never reused, so at
    /// most 254 clients can ever be accepted.
    pub fn at_capacity(&self) -> (r: bool)
        ensures
            r == (self.spec_next_id() == 255),
    {
        self.next_id == 255
    }

    /// Accept one client: issue the next id, open its stream, and seal the
    /// welcome message carrying the id. The welcome is always produced: its
    /// plaintext is two bytes, far under the cipher's cap.
    pub fn accept_client(&mut self) -> (r: (u8, Vec<u8>))
        requires
            old(self).wf(),
            old(self).spec_next_id() < 255,
        ensures
            final(self).wf(),
            final(self).key() == old(self).key(),
            final(self).spec_username() == old(self).spec_username(),
            final(self).spec_peers() == old(self).spec_peers(),
            r.0 == old(self).spec_next_id(),
            final(self).spec_next_id() == old(self).spec_next_id() + 1,
            final(self).spec_streams() == old(self).spec_streams().push(r.0),
            final(self).spec_issued() == old(self).spec_issued().push(r.0),
            decrypt_spec(old(self).key(), r.1@) == Some(msg_bytes(MsgModel::Welcome { id: r.0 })),
    {
        let id = self.next_id;
        let m = SignalMessage::Welcome { id };
        let plain = encode_message(&m);
        let envelope = match self.cipher.encrypt(&plain) {
            Ok(c) => c,
            Err(_) => {
                proof {
                    assert(plain@.len() <= seal_limit());
                }
                unreached()
            },
        };
        self.next_id = self.next_id + 1;
        self.streams.push(id);
        proof {
            self.issued@ = self.issued@.push(id);
            assert forall|i: int| 0 <= i < self.issued@.len() implies #[trigger] self.issued@[i]
                == i + 1 by {
                if i < old(self).issued@.len() {
                    assert(self.issued@[i] == old(self).issued@[i]);
                }
            }
            assert forall|i: int, j: int|
                0 <= i < j < self.streams@.len() implies self.streams@[i] != self.streams@[j] by {
                if j < old(self).streams@.len() {
                    assert(self.streams@[i] == old(self).streams@[i]);
                    assert(self.streams@[j] == old(self).streams@[j]);
                } else {
                    assert(self.streams@[j] == id);
                    assert(self.streams@[i] == old(self).streams@[i]);
                    assert(old(self).streams@[i] < old(self).next_id);
                }
            }
            assert forall|i: int|
                0 <= i < self.streams@.len() implies #[trigger] self.streams@[i] != 0
                    && self.streams@[i] < self.next_id by {
                if i < old(self).streams@.len() {
                    assert(self.streams@[i] == old(self).streams@[i]);
                } else {
                    assert(self.streams@[i] == id);
                }
            }
            assert(self.wf());
        }
        (id, envelope)
    }

    /// Route one decrypted client message: too short is rejected; a nonzero
    /// `to` byte is relayed when that stream exists; a well-formed announce
    /// addressed to the host is handed on; everything else - accepts the
    /// host never expects, the reserved op, unknown ops - is rejected.
    pub fn route(&self, plain: &Vec<u8>) -> (r: HostRouting)
        ensures
            plain@.len() < 3 ==> r is Reject,
            plain@.len() >= 3 && plain@[2] != 0 ==> if self.spec_streams().contains(plain@[2]) {
                r matches HostRouting::Relay { to } && to == plain@[2]
            } else {
                r is Reject
            },
            plain@.len() >= 3 && plain@[2] == 0 ==> match spec_parse(plain@) {
                Ok(m) => match m {
                    MsgModel::Announce { from, to, addr, username } => r
                        matches HostRouting::Announce { from: f, addr: a, username: u } && f == from
                        && a@ == addr && u@ == username,
                    _ => r is Reject,
                },
                Err(_) => r is Reject,
            },
    {
        if plain.len() < 3 {
            return HostRouting::Reject;
        }
        let to = plain[2];
        if to != 0 {
            if contains_id(&self.streams, to) {
                return HostRouting::Relay { to };
            }
            return HostRouting::Reject;
        }
        match parse_message(plain) {
            Ok(SignalMessage::Announce { from, to: _, addr, username }) => HostRouting::Announce {
                from,
                addr,
                username,
            },
            _ => HostRouting::Reject,
        }
    }

    fn find_peer_index(&self, id: u8) -> (r: Option<usize>)
        ensures
            match r {
                Some(k) => k < self.spec_peers().len() && self.spec_peers()[k as int].0 == id,
                None => forall|i: int|
                    0 <= i < self.spec_peers().len() ==> (#[trigger] self.spec_peers()[i]).0 != id,
            },
    {
        let mut i: usize = 0;
        while i < self.peers.len()
            invariant
                i <= self.peers@.len(),
                forall|j: int| 0 <= j < i ==> (#[trigger] self.peers@[j]).0 != id,
            decreases self.peers@.len() - i,
        {
            if self.peers[i].0 == id {
                return Some(i);
            }
            i = i + 1;
        }
        None
    }

    fn find_stream_index(&self, id: u8) -> (r: Option<usize>)
        ensures
            match r {
                Some(k) => k < self.spec_streams().len() && self.spec_streams()[k as int] == id,
                None => forall|i: int|
                    0 <= i < self.spec_streams().len() ==> self.spec_streams()[i] != id,
            },
    {
        let mut i: usize = 0;
        while i < self.streams.len()
            invariant
                i <= self.streams@.len(),
                forall|j: int| 0 <= j < i ==> self.streams@[j] != id,
            decreases self.streams@.len() - i,
        {
            if self.streams[i] == id {
                return Some(i);
            }
            i = i + 1;
        }
        None
    }

    /// Answer a client's announce: put a fresh audio link in the table under
    /// the client's id (replacing any earlier one), and seal the accept that
    /// carries the host's candidate and username back.
    pub fn complete_announce(&mut self, client_id: u8, my_addr: Vec<u8>) -> (r: Result<
        Vec<u8>,
        ErrorKind,
    >)
        requires
            old(self).wf(),
            client_id != 0,
            my_addr@.len() <= 255,
        ensures
            final(self).wf(),
            final(self).key() == old(self).key(),
            final(self).spec_username() == old(self).spec_username(),
            final(self).spec_next_id() == old(self).spec_next_id(),
            final(self).spec_streams() == old(self).spec_streams(),
            final(self).spec_issued() == old(self).spec_issued(),
            table_upserted(
                old(self).spec_peers(),
                final(self).spec_peers(),
                client_id,
                old(self).key(),
            ),
            match r {
                Ok(c) => decrypt_spec(old(self).key(), c@) == Some(
                    msg_bytes(
                        MsgModel::Accept {
                            from: 0,
                            to: client_id,
                            addr: my_addr@,
                            username: old(self).spec_username(),
                        },
                    ),
                ),
                Err(e) => e == ErrorKind::CipherFail,
            },
            4 + my_addr@.len() + old(self).spec_username().len() <= seal_limit() ==> r is Ok,
    {
        let fresh = AudioPeer::new(self.cipher.duplicate());
        match self.find_peer_index(client_id) {
            Some(k) => {
                self.peers.remove(k);
                self.peers.insert(k, (client_id, fresh));
            },
            None => {
                self.peers.push((client_id, fresh));
            },
        }
        let username = self.username.clone();
        proof {
            assert(username@ =~= self.username@);
        }
        let reply = SignalMessage::Accept { from: 0, to: client_id, addr: my_addr, username };
        let plain = encode_message(&reply);
        match self.cipher.encrypt(&plain) {
            Ok(c) => Ok(c),
            Err(_) => Err(ErrorKind::CipherFail),
        }
    }

    /// A stream closed: forget its stream and its audio link, and seal one
    /// peer-lost message for every stream that remains - each remaining
    /// client is told, none is skipped, and the broadcast is always
    /// produced: its plaintexts are four bytes each.
    #[verifier::loop_isolation(false)]
    pub fn handle_disconnect(&mut self, id: u8) -> (r: Vec<(u8, Vec<u8>)>)
        requires
            old(self).wf(),
        ensures
            final(self).wf(),
            final(self).key() == old(self).key(),
            final(self).spec_username() == old(self).spec_username(),
            final(self).spec_next_id() == old(self).spec_next_id(),
            final(self).spec_issued() == old(self).spec_issued(),
            !final(self).spec_streams().contains(id),
            old(self).spec_streams().contains(id) ==> exists|p: int|
                0 <= p < old(self).spec_streams().len() && old(self).spec_streams()[p] == id
                    && final(self).spec_streams() == old(self).spec_streams().remove(p),
            !old(self).spec_streams().contains(id) ==> final(self).spec_streams() == old(self).spec_streams(),
            (exists|k: int|
                0 <= k < old(self).spec_peers().len() && (#[trigger] old(self).spec_peers()[k]).0
                    == id) ==> exists|k: int|
                0 <= k < old(self).spec_peers().len() && (#[trigger] old(self).spec_peers()[k]).0
                    == id && final(self).spec_peers() == old(self).spec_peers().remove(k),
            (forall|k: int|
                0 <= k < old(self).spec_peers().len() ==> (#[trigger] old(self).spec_peers()[k]).0
                    != id) ==> final(self).spec_peers() == old(self).spec_peers(),
            r@.len() == final(self).spec_streams().len(),
            forall|i: int|
                0 <= i < r@.len() ==> (#[trigger] r@[i]).0 == final(self).spec_streams()[i]
                    && decrypt_spec(old(self).key(), r@[i].1@) == Some(
                    msg_bytes(MsgModel::PeerLost { to: final(self).spec_streams()[i], lost: id }),
                ),
    {
        let ghost pre_streams = self.streams@;
        match self.find_stream_index(id) {
            Some(p) => {
                self.streams.remove(p);
                proof {
                    assert forall|a: int|
                        0 <= a < self.streams@.len() implies #[trigger] self.streams@[a] != id
                            && self.streams@[a] != 0 && self.streams@[a] < self.next_id by {
                        if a < p {
                            assert(self.streams@[a] == pre_streams[a]);
                        } else {
                            assert(self.streams@[a] == pre_streams[a + 1]);
                        }
                    }
                    assert(!self.streams@.contains(id));
                    assert forall|a: int, b: int|
                        0 <= a < b < self.streams@.len() implies self.streams@[a]
                            != self.streams@[b] by {
                        if b < p {
                            assert(self.streams@[a] == pre_streams[a]);
                            assert(self.streams@[b] == pre_streams[b]);
                        } else if a < p {
                            assert(self.streams@[a] == pre_streams[a]);
                            assert(self.streams@[b] == pre_streams[b + 1]);
                        } else {
                            assert(self.streams@[a] == pre_streams[a + 1]);
                            assert(self.streams@[b] == pre_streams[b + 1]);
                        }
                    }
                }
            },
            None => {
                proof {
                    assert forall|a: int|
                        0 <= a < self.streams@.len() implies self.streams@[a] != id by {
                        assert(self.spec_streams()[a] != id);
                    }
                    assert(!self.streams@.contains(id));
                }
            },
        }
        let ghost pre_peers = self.peers@;
        match self.find_peer_index(id) {
            Some(j) => {
                self.peers.remove(j);
                proof {
                    assert(self.peers@ == pre_peers.remove(j as int));
                    assert forall|a: int|
                        0 <= a < self.peers@.len() implies (#[trigger] self.peers@[a]).0 != 0
                            && self.peers@[a].1.wf() && self.peers@[a].1.key() == self.cipher@ by {
                        if a < j {
                            assert(self.peers@[a] == pre_peers[a]);
                        } else {
                            assert(self.peers@[a] == pre_peers[a + 1]);
                        }
                    }
                    assert forall|a: int, b: int|
                        0 <= a < b < self.peers@.len() implies self.peers@[a].0
                            != self.peers@[b].0 by {
                        if b < j {
                            assert(self.peers@[a] == pre_peers[a]);
                            assert(self.peers@[b] == pre_peers[b]);
                        } else if a < j {
                            assert(self.peers@[a] == pre_peers[a]);
                            assert(self.peers@[b] == pre_peers[b + 1]);
                        } else {
                            assert(self.peers@[a] == pre_peers[a + 1]);
                            assert(self.peers@[b] == pre_peers[b + 1]);
                        }
                    }
                }
            },
            None => {},
        }
        proof {
            assert(self.wf());
        }
        let mut out: Vec<(u8, Vec<u8>)> = Vec::new();
        let mut i: usize = 0;
        while i < self.streams.len()
            invariant
                i <= self.streams@.len(),
                out@.len() == i,
                forall|j: int|
                    0 <= j < i ==> (#[trigger] out@[j]).0 == self.streams@[j] && decrypt_spec(
                        self.cipher@,
                        out@[j].1@,
                    ) == Some(msg_bytes(MsgModel::PeerLost { to: self.streams@[j], lost: id })),
            decreases self.streams@.len() - i,
        {
            let sid = self.streams[i];
            let m = SignalMessage::PeerLost { to: sid, lost: id };
            let plain = encode_message(&m);
            let envelope = match self.cipher.encrypt(&plain) {
                Ok(c) => c,
                Err(_) => {
                    proof {
                        assert(plain@.len() <= seal_limit());
                    }
                    unreached()
                },
            };
            out.push((sid, envelope));
            i = i + 1;
        }
        out
    }

    /// Fan one captured Opus frame out to every audio link: each ready link
    /// seals it under its own counter; links still waiting for their
    /// handshake are skipped untouched.
    pub fn send_opus(&mut self, opus: &Vec<u8>) -> (r: Vec<(u8, Option<Vec<u8>>)>)
        requires
            old(self).wf(),
            opus@.len() + 36 <= usize::MAX,
            forall|i: int|
                0 <= i < old(self).spec_peers().len() ==> (#[trigger] old(self).spec_peers()[i])
                    .1.spec_next_seq() < u64::MAX,
        ensures
            final(self).wf(),
            final(self).key() == old(self).key(),
            final(self).spec_username() == old(self).spec_username(),
            final(self).spec_next_id() == old(self).spec_next_id(),
            final(self).spec_streams() == old(self).spec_streams(),
            final(self).spec_issued() == old(self).spec_issued(),
            final(self).spec_peers().len() == old(self).spec_peers().len(),
            r@.len() == old(self).spec_peers().len(),
            forall|i: int|
                0 <= i < r@.len() ==> (#[trigger] r@[i]).0 == old(self).spec_peers()[i].0 && final(self).spec_peers()[i].0 == old(self).spec_peers()[i].0 && AudioPeer::fanout_step(
                    old(self).spec_peers()[i].1,
                    final(self).spec_peers()[i].1,
                    opus@,
                    r@[i].1,
                ),
    {
        proof {
            assert forall|j: int|
                0 <= j < self.peers@.len() implies (#[trigger] self.peers@[j]).1.spec_next_seq()
                    < u64::MAX && self.peers@[j].1.wf() by {
                assert(old(self).spec_peers()[j] == self.peers@[j]);
            }
        }
        let mut r: Vec<(u8, Option<Vec<u8>>)> = Vec::new();
        let mut i: usize = 0;
        while i < self.peers.len()
            invariant
                i <= self.peers@.len(),
                self.peers@.len() == old(self).peers@.len(),
                r@.len() == i,
                self.cipher == old(self).cipher,
                self.username == old(self).username,
                self.next_id == old(self).next_id,
                self.streams == old(self).streams,
                self.issued == old(self).issued,
                opus@.len() + 36 <= usize::MAX,
                forall|j: int|
                    i <= j < self.peers@.len() ==> #[trigger] self.peers@[j] == old(self).peers@[j],
                forall|j: int|
                    0 <= j < i ==> (#[trigger] r@[j]).0 == old(self).peers@[j].0 && self.peers@[j].0
                        == old(self).peers@[j].0 && AudioPeer::fanout_step(
                        old(self).peers@[j].1,
                        self.peers@[j].1,
                        opus@,
                        r@[j].1,
                    ),
                forall|j: int|
                    0 <= j < old(self).peers@.len() ==> (#[trigger] old(self).peers@[j])
                        .1.spec_next_seq() < u64::MAX && old(self).peers@[j].1.wf(),
            decreases self.peers@.len() - i,
        {
            let ghost prev = self.peers@;
            let entry = self.peers.remove(i);
            let id = entry.0;
            let mut p = entry.1;
            let out = match p.send(opus) {
                Ok(dg) => Some(dg),
                Err(_) => None,
            };
            let ghost p_after = p;
            self.peers.insert(i, (id, p));
            proof {
                assert(self.peers@ =~= prev.update(i as int, (id, p_after)));
                assert(prev[i as int] == old(self).peers@[i as int]);
                assert(AudioPeer::fanout_step(old(self).peers@[i as int].1, p_after, opus@, out));
            }
            r.push((id, out));
            i = i + 1;
        }
        proof {
            assert forall|a: int|
                0 <= a < self.peers@.len() implies (#[trigger] self.peers@[a]).0 != 0
                    && self.peers@[a].1.wf() && self.peers@[a].1.key() == self.cipher@ by {
                assert(AudioPeer::fanout_step(
                    old(self).peers@[a].1,
                    self.peers@[a].1,
                    opus@,
                    r@[a].1,
                ));
                assert(old(self).peers@[a].0 != 0);
            }
            assert forall|a: int, b: int|
                0 <= a < b < self.peers@.len() implies self.peers@[a].0 != self.peers@[b].0 by {
                assert((r@[a]).0 == old(self).peers@[a].0 && self.peers@[a].0 == old(
                    self,
                ).peers@[a].0);
                assert((r@[b]).0 == old(self).peers@[b].0 && self.peers@[b].0 == old(
                    self,
                ).peers@[b].0);
            }
            assert(self.wf());
        }
        r
    }

    /// Set the playback volume of the link under `peer_id`; an unknown id
    /// changes nothing, as when the operator races a disconnect.
    pub fn change_peer_volume(&mut self, peer_id: u8, volume: u8)
        requires
            old(self).wf(),
            volume <= 100,
        ensures
            final(self).wf(),
            final(self).key() == old(self).key(),
            final(self).spec_username() == old(self).spec_username(),
            final(self).spec_next_id() == old(self).spec_next_id(),
            final(self).spec_streams() == old(self).spec_streams(),
            final(self).spec_issued() == old(self).spec_issued(),
            final(self).spec_peers().len() == old(self).spec_peers().len(),
            forall|i: int|
                0 <= i < old(self).spec_peers().len() && (#[trigger] old(self).spec_peers()[i]).0
                    != peer_id ==> final(self).spec_peers()[i] == old(self).spec_peers()[i],
            forall|i: int|
                0 <= i < old(self).spec_peers().len() && (#[trigger] old(self).spec_peers()[i]).0
                    == peer_id ==> {
                    let pre = old(self).spec_peers()[i].1;
                    let post = final(self).spec_peers()[i].1;
                    &&& final(self).spec_peers()[i].0 == peer_id
                    &&& post.spec_volume() == volume
                    &&& post.spec_ready() == pre.spec_ready()
                    &&& post.spec_next_seq() == pre.spec_next_seq()
                    &&& post.key() == pre.key()
                    &&& post.buffered() == pre.buffered()
                    &&& post.spec_sent() == pre.spec_sent()
                },
    {
        match self.find_peer_index(peer_id) {
            Some(k) => {
                let ghost prev = self.peers@;
                let entry = self.peers.remove(k);
                let id = entry.0;
                let mut p = entry.1;
                p.change_volume(volume);
                let ghost p_after = p;
                self.peers.insert(k, (id, p));
                proof {
                    assert(self.peers@ =~= prev.update(k as int, (id, p_after)));
                    assert forall|a: int, b: int|
                        0 <= a < b < self.peers@.len() implies self.peers@[a].0
                            != self.peers@[b].0 by {
                        assert(self.peers@[a].0 == prev[a].0);
                        assert(self.peers@[b].0 == prev[b].0);
                    }
                    assert(self.wf());
                }
            },
            None => {},
        }
    }

    /// Hand one received UDP datagram to the link under `peer_id`. Returns
    /// the link's outcome, or nothing when no such link exists.
    pub fn handle_peer_datagram(&mut self, peer_id: u8, data: &Vec<u8>) -> (r: Option<
        crate::peer::DatagramOutcome,
    >)
        requires
            old(self).wf(),
            forall|i: int|
                0 <= i < old(self).spec_peers().len() ==> (#[trigger] old(self).spec_peers()[i])
                    .1.buffered().len() + 1 < usize::MAX,
        ensures
            final(self).wf(),
            final(self).key() == old(self).key(),
            final(self).spec_username() == old(self).spec_username(),
            final(self).spec_next_id() == old(self).spec_next_id(),
            final(self).spec_streams() == old(self).spec_streams(),
            final(self).spec_issued() == old(self).spec_issued(),
            final(self).spec_peers().len() == old(self).spec_peers().len(),
            forall|i: int|
                0 <= i < old(self).spec_peers().len() && (#[trigger] old(self).spec_peers()[i]).0
                    != peer_id ==> final(self).spec_peers()[i] == old(self).spec_peers()[i],
            (forall|i: int|
                0 <= i < old(self).spec_peers().len() ==> (#[trigger] old(self).spec_peers()[i]).0
                    != peer_id) ==> r is None && final(self).spec_peers() == old(self).spec_peers(),
            forall|i: int|
                0 <= i < old(self).spec_peers().len() && (#[trigger] old(self).spec_peers()[i]).0
                    == peer_id ==> final(self).spec_peers()[i].0 == peer_id && (r matches Some(
                    outcome,
                ) && AudioPeer::datagram_step(
                    old(self).spec_peers()[i].1,
                    final(self).spec_peers()[i].1,
                    data@,
                    outcome,
                )),
    {
        match self.find_peer_index(peer_id) {
            Some(k) => {
                let ghost prev = self.peers@;
                let entry = self.peers.remove(k);
                let id = entry.0;
                let mut p = entry.1;
                proof {
                    assert(prev[k as int].1.buffered().len() + 1 < usize::MAX);
                }
                let outcome = p.handle_datagram(data);
                let ghost p_after = p;
                self.peers.insert(k, (id, p));
                proof {
                    assert(self.peers@ =~= prev.update(k as int, (id, p_after)));
                    assert forall|a: int, b: int|
                        0 <= a < b < self.peers@.len() implies self.peers@[a].0
                            != self.peers@[b].0 by {
                        assert(self.peers@[a].0 == prev[a].0);
                        assert(self.peers@[b].0 == prev[b].0);
                    }
                    assert(self.wf());
                }
                Some(outcome)
            },
            None => None,
        }
    }
}

/// The key text a host hands out is the base64 of its own 32-byte session
/// key: a cipher built from that text is keyed like the host's.
pub proof fn lemma_key_text_matches_key(h: SignalingServer)
    requires
        h.wf(),
    ensures
        h.key().len() == 32,
        h.spec_key_b64() == crate::aes::b64_of(h.key()),
{
}

/// Id uniqueness: the host never issues the same id twice in a session.
pub proof fn lemma_id_uniqueness(h: SignalingServer)
    requires
        h.wf(),
    ensures
        forall|i: int, j: int|
            0 <= i < j < h.spec_issued().len() ==> h.spec_issued()[i] != h.spec_issued()[j],
{
    assert forall|i: int, j: int|
        0 <= i < j < h.spec_issued().len() implies h.spec_issued()[i] != h.spec_issued()[j] by {
        assert(h.spec_issued()[i] == i + 1);
        assert(h.spec_issued()[j] == j + 1);
    }
}

/// Liveness broadcast: after a disconnect, every id that still holds a
/// stream is sent a peer-lost message naming the departed id.
pub proof fn lemma_liveness_broadcast(
    host: SignalingServer,
    lost: u8,
    out: Seq<(u8, Vec<u8>)>,
    sid: u8,
)
    requires
        host.wf(),
        out.len() == host.spec_streams().len(),
        forall|i: int|
            0 <= i < out.len() ==> (#[trigger] out[i]).0 == host.spec_streams()[i] && decrypt_spec(
                host.key(),
                out[i].1@,
            ) == Some(msg_bytes(MsgModel::PeerLost { to: host.spec_streams()[i], lost })),
        host.spec_streams().contains(sid),
    ensures
        exists|k: int|
            0 <= k < out.len() && (#[trigger] out[k]).0 == sid && decrypt_spec(
                host.key(),
                out[k].1@,
            ) == Some(msg_bytes(MsgModel::PeerLost { to: sid, lost })),
{
    let p = choose|p: int| 0 <= p < host.spec_streams().len() && host.spec_streams()[p] == sid;
    assert((out[p]).0 == sid);
}

} // verus!
