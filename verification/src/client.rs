//! A signaling client: it learns its id from the host's welcome, announces
//! its UDP candidate to every lower id, answers announces from newer clients
//! with accepts, keeps an audio link and a username per neighbour, and
//! forgets a neighbour when the host broadcasts its loss.

use vstd::prelude::*;

use crate::aes::AES;
use crate::aes::decrypt_spec;
use crate::aes::seal_limit;
use crate::errors::ErrorKind;
use crate::msg::MsgModel;
use crate::msg::SignalMessage;
use crate::msg::encode_message;
use crate::msg::msg_bytes;
use crate::msg::parse_message;
use crate::msg::spec_parse;
use crate::peer::AudioPeer;

verus! {

/// What the client does with one decrypted signaling message.
pub enum ClientAction {
    /// Addressed elsewhere, malformed, reserved, or about an unknown peer:
    /// dropped.
    Ignored,
    /// A newer client announced itself: a link was put in the table under
    /// its id; connect to `addr`, obtain a candidate, and reply with
    /// `make_accept`.
    Announced { from: u8, addr: Vec<u8>, username: Vec<u8> },
    /// The reply to an earlier announce: the placeholder username was
    /// replaced; connect the link to `addr`.
    Accepted { from: u8, addr: Vec<u8> },
    /// The host reports a peer's stream closed: its entry is gone.
    Lost { lost: u8 },
}

/// The username a client records for a neighbour it announced to, before
/// the accept brings the real one.
pub open spec fn placeholder_username() -> Seq<u8> {
    seq![116u8, 98u8, 100u8]
}

/// A client's peer table after an upsert: the entry under `id` carries
/// `uname` and a fresh link keyed by `key`; every other entry is untouched.
pub open spec fn table_upserted(
    pre: Seq<(u8, Vec<u8>, AudioPeer)>,
    post: Seq<(u8, Vec<u8>, AudioPeer)>,
    id: u8,
    uname: Seq<u8>,
    key: Seq<u8>,
) -> bool {
    if exists|k: int| 0 <= k < pre.len() && (#[trigger] pre[k]).0 == id {
        &&& post.len() == pre.len()
        &&& forall|i: int| 0 <= i < pre.len() && (#[trigger] pre[i]).0 != id ==> post[i] == pre[i]
        &&& forall|i: int|
            0 <= i < pre.len() && (#[trigger] pre[i]).0 == id ==> post[i].0 == id && post[i].1@
                == uname && post[i].2.is_fresh(key)
    } else {
        &&& post.len() == pre.len() + 1
        &&& forall|i: int| 0 <= i < pre.len() ==> #[trigger] post[i] == pre[i]
        &&& post[pre.len() as int].0 == id
        &&& post[pre.len() as int].1@ == uname
        &&& post[pre.len() as int].2.is_fresh(key)
    }
}

/// One signaling client's session state.
pub struct SignalingClient {
    id: u8,
    username: Vec<u8>,
    cipher: AES,
    peers: Vec<(u8, Vec<u8>, AudioPeer)>,
}

impl SignalingClient {
    /// The id the host assigned to this client.
    pub closed spec fn spec_id(&self) -> u8 {
        self.id
    }

    /// This client's username.
    pub closed spec fn spec_username(&self) -> Seq<u8> {
        self.username@
    }

    /// The session key.
    pub closed spec fn key(&self) -> Seq<u8> {
        self.cipher@
    }

    /// The peer table: id, username, audio link.
    pub closed spec fn spec_peers(&self) -> Seq<(u8, Vec<u8>, AudioPeer)> {
        self.peers@
    }

    /// A sound client: a usable cipher; peer ids unique and never this
    /// client's own; each link sound and keyed by the session key.
    pub closed spec fn wf(&self) -> bool {
        &&& self.cipher.wf()
        &&& forall|i: int, j: int|
            0 <= i < j < self.peers@.len() ==> self.peers@[i].0 != self.peers@[j].0
        &&& forall|i: int|
            0 <= i < self.peers@.len() ==> (#[trigger] self.peers@[i]).0 != self.id
                && self.peers@[i].2.wf() && self.peers@[i].2.key() == self.cipher@
    }

    /// Read the host's welcome: exactly a two-byte `[0, id]` plaintext is
    /// accepted, and the id is returned.
    pub fn parse_welcome(plain: &Vec<u8>) -> (r: Result<u8, ErrorKind>)
        ensures
            match spec_parse(plain@) {
                Ok(m) => match m {
                    MsgModel::Welcome { id } => r == Ok::<u8, ErrorKind>(id),
                    _ => r == Err::<u8, ErrorKind>(ErrorKind::Protocol),
                },
                Err(_) => r == Err::<u8, ErrorKind>(ErrorKind::Protocol),
            },
    {
        match parse_message(plain) {
            Ok(SignalMessage::Welcome { id }) => Ok(id),
            _ => Err(ErrorKind::Protocol),
        }
    }

    /// A fresh client with no neighbours yet.
    pub fn new(id: u8, username: Vec<u8>, cipher: AES) -> (r: SignalingClient)
        requires
            cipher.wf(),
        ensures
            r.wf(),
            r.spec_id() == id,
            r.spec_username() == username@,
            r.key() == cipher@,
            r.spec_peers() == Seq::<(u8, Vec<u8>, AudioPeer)>::empty(),
    {
        let r = SignalingClient { id, username, cipher, peers: Vec::new() };
        proof {
            assert(r.spec_peers() =~= Seq::<(u8, Vec<u8>, AudioPeer)>::empty());
        }
        r
    }

    /// Decrypt one inbound signaling envelope.
    pub fn open_message(&self, data: &Vec<u8>) -> (r: Result<Vec<u8>, ErrorKind>)
        requires
            self.wf(),
        ensures
            match r {
                Ok(p) => decrypt_spec(self.key(), data@) == Some(p@),
                Err(e) => e == ErrorKind::DecryptAuth && decrypt_spec(self.key(), data@) is None,
            },
    {
        self.cipher.decrypt(data)
    }

    fn find_peer_index(&self, id: u8) -> (r: Option<usize>)
        ensures
            match r {
                Some(k) => k < self.spec_peers().len() && self.spec_peers()[k as int].0 == id,
                None => forall|i: int|
                    0 <= i < self.spec_peers().len() ==> (#[trigger] self.spec_peers()[i]).0 != id,
            },
    {
        let mut i: usize = 0;
        while i < self.peers.len()
            invariant
                i <= self.peers@.len(),
                forall|j: int| 0 <= j < i ==> (#[trigger] self.peers@[j]).0 != id,
            decreases self.peers@.len() - i,
        {
            if self.peers[i].0 == id {
                return Some(i);
            }
            i = i + 1;
        }
        None
    }

    fn upsert_peer(&mut self, id: u8, uname: Vec<u8>)
        requires
            old(self).wf(),
            id != old(self).spec_id(),
        ensures
            final(self).wf(),
            final(self).spec_id() == old(self).spec_id(),
            final(self).spec_username() == old(self).spec_username(),
            final(self).key() == old(self).key(),
            table_upserted(
                old(self).spec_peers(),
                final(self).spec_peers(),
                id,
                uname@,
                old(self).key(),
            ),
    {
        let fresh = AudioPeer::new(self.cipher.duplicate());
        match self.find_peer_index(id) {
            Some(k) => {
                let ghost prev = self.peers@;
                self.peers.remove(k);
                self.peers.insert(k, (id, uname, fresh));
                proof {
                    assert(self.peers@ =~= prev.update(k as int, (id, uname, fresh)));
                    assert forall|a: int, b: int|
                        0 <= a < b < self.peers@.len() implies self.peers@[a].0
                            != self.peers@[b].0 by {
                        assert(self.peers@[a].0 == prev[a].0);
                        assert(self.peers@[b].0 == prev[b].0);
                    }
                    assert(self.wf());
                }
            },
            None => {
                self.peers.push((id, uname, fresh));
                proof {
                    assert forall|a: int, b: int|
                        0 <= a < b < self.peers@.len() implies self.peers@[a].0
                            != self.peers@[b].0 by {
                        if b < old(self).peers@.len() {
                            assert(self.peers@[a] == old(self).peers@[a]);
                            assert(self.peers@[b] == old(self).peers@[b]);
                        } else {
                            assert(self.peers@[a] == old(self).peers@[a]);
                            assert((old(self).spec_peers()[a]).0 != id);
                        }
                    }
                    assert(self.wf());
                }
            },
        }
    }

    /// Announce this client to one lower id: record a placeholder entry for
    /// that neighbour and seal the announce carrying this client's candidate
    /// and username.
    pub fn prepare_announce(&mut self, to: u8, my_addr: Vec<u8>) -> (r: Result<Vec<u8>, ErrorKind>)
        requires
            old(self).wf(),
            to < old(self).spec_id(),
            my_addr@.len() <= 255,
        ensures
            final(self).wf(),
            final(self).spec_id() == old(self).spec_id(),
            final(self).spec_username() == old(self).spec_username(),
            final(self).key() == old(self).key(),
            table_upserted(
                old(self).spec_peers(),
                final(self).spec_peers(),
                to,
                placeholder_username(),
                old(self).key(),
            ),
            match r {
                Ok(c) => decrypt_spec(old(self).key(), c@) == Some(
                    msg_bytes(
                        MsgModel::Announce {
                            from: old(self).spec_id(),
                            to,
                            addr: my_addr@,
                            username: old(self).spec_username(),
                        },
                    ),
                ),
                Err(e) => e == ErrorKind::CipherFail,
            },
            4 + my_addr@.len() + old(self).spec_username().len() <= seal_limit() ==> r is Ok,
    {
        let placeholder: Vec<u8> = vec![116u8, 98u8, 100u8];
        proof {
            assert(placeholder@ =~= placeholder_username());
        }
        self.upsert_peer(to, placeholder);
        let username = self.username.clone();
        proof {
            assert(username@ =~= self.username@);
        }
        let m = SignalMessage::Announce { from: self.id, to, addr: my_addr, username };
        let plain = encode_message(&m);
        match self.cipher.encrypt(&plain) {
            Ok(c) => Ok(c),
            Err(_) => Err(ErrorKind::CipherFail),
        }
    }

    /// Seal the accept that answers a newer client's announce, carrying this
    /// client's candidate and username.
    pub fn make_accept(&self, to: u8, my_addr: Vec<u8>) -> (r: Result<Vec<u8>, ErrorKind>)
        requires
            self.wf(),
            my_addr@.len() <= 255,
        ensures
            match r {
                Ok(c) => decrypt_spec(self.key(), c@) == Some(
                    msg_bytes(
                        MsgModel::Accept {
                            from: self.spec_id(),
                            to,
                            addr: my_addr@,
                            username: self.spec_username(),
                        },
                    ),
                ),
                Err(e) => e == ErrorKind::CipherFail,
            },
            4 + my_addr@.len() + self.spec_username().len() <= seal_limit() ==> r is Ok,
    {
        let username = self.username.clone();
        proof {
            assert(username@ =~= self.username@);
        }
        let m = SignalMessage::Accept { from: self.id, to, addr: my_addr, username };
        let plain = encode_message(&m);
        match self.cipher.encrypt(&plain) {
            Ok(c) => Ok(c),
            Err(_) => Err(ErrorKind::CipherFail),
        }
    }

    /// Take in one decrypted signaling message. Anything not addressed to
    /// this client, malformed, reserved, or about a peer it cannot act on is
    /// dropped; an announce records the newcomer, an accept fills in its
    /// username, a peer-lost removes the entry.
    pub fn handle_plain(&mut self, plain: &Vec<u8>) -> (r: ClientAction)
        requires
            old(self).wf(),
        ensures
            final(self).wf(),
            final(self).spec_id() == old(self).spec_id(),
            final(self).spec_username() == old(self).spec_username(),
            final(self).key() == old(self).key(),
            match spec_parse(plain@) {
                Ok(m) => match m {
                    MsgModel::Announce { from, to, addr, username } => if to == old(self).spec_id()
                        && from != old(self).spec_id() {
                        &&& r matches ClientAction::Announced { from: f, addr: a, username: u }
                            && f == from && a@ == addr && u@ == username
                        &&& table_upserted(
                            old(self).spec_peers(),
                            final(self).spec_peers(),
                            from,
                            username,
                            old(self).key(),
                        )
                    } else {
                        r is Ignored && final(self).spec_peers() == old(self).spec_peers()
                    },
                    MsgModel::Accept { from, to, addr, username } => if to == old(self).spec_id()
                        && (exists|k: int|
                        0 <= k < old(self).spec_peers().len() && (#[trigger] old(self).spec_peers()[k]).0 == from) {
                        &&& r matches ClientAction::Accepted { from: f, addr: a } && f == from
                            && a@ == addr
                        &&& final(self).spec_peers().len() == old(self).spec_peers().len()
                        &&& forall|i: int|
                            0 <= i < old(self).spec_peers().len() && (#[trigger] old(self).spec_peers()[i]).0 != from ==> final(self).spec_peers()[i] == old(self).spec_peers()[i]
                        &&& forall|i: int|
                            0 <= i < old(self).spec_peers().len() && (#[trigger] old(self).spec_peers()[i]).0 == from ==> final(self).spec_peers()[i].0 == from
                                && final(self).spec_peers()[i].1@ == username && final(self).spec_peers()[i].2 == old(self).spec_peers()[i].2
                    } else {
                        r is Ignored && final(self).spec_peers() == old(self).spec_peers()
                    },
                    MsgModel::PeerLost { to, lost } => if to == old(self).spec_id() {
                        &&& r matches ClientAction::Lost { lost: l } && l == lost
                        &&& (exists|k: int|
                            0 <= k < old(self).spec_peers().len() && (#[trigger] old(self).spec_peers()[k]).0 == lost) ==> exists|k: int|
                            0 <= k < old(self).spec_peers().len() && (#[trigger] old(self).spec_peers()[k]).0 == lost && final(self).spec_peers() == old(self).spec_peers().remove(k)
                        &&& (forall|k: int|
                            0 <= k < old(self).spec_peers().len() ==> (#[trigger] old(self).spec_peers()[k]).0 != lost) ==> final(self).spec_peers() == old(self).spec_peers()
                    } else {
                        r is Ignored && final(self).spec_peers() == old(self).spec_peers()
                    },
                    MsgModel::Welcome { .. } => r is Ignored && final(self).spec_peers() == old(self).spec_peers(),
                },
                Err(_) => r is Ignored && final(self).spec_peers() == old(self).spec_peers(),
            },
    {
        let m = match parse_message(plain) {
            Ok(m) => m,
            Err(_) => {
                return ClientAction::Ignored;
            },
        };
        match m {
            SignalMessage::Announce { from, to, addr, username } => {
                if to == self.id && from != self.id {
                    let uname = username.clone();
                    proof {
                        assert(uname@ =~= username@);
                    }
                    self.upsert_peer(from, uname);
                    ClientAction::Announced { from, addr, username }
                } else {
                    ClientAction::Ignored
                }
            },
            SignalMessage::Accept { from, to, addr, username } => {
                if to != self.id {
                    return ClientAction::Ignored;
                }
                match self.find_peer_index(from) {
                    Some(k) => {
                        let ghost prev = self.peers@;
                        let entry = self.peers.remove(k);
                        let link = entry.2;
                        self.peers.insert(k, (from, username, link));
                        proof {
                            assert(exists|k2: int|
                                0 <= k2 < prev.len() && (#[trigger] prev[k2]).0 == from);
                            assert forall|a: int, b: int|
                                0 <= a < b < self.peers@.len() implies self.peers@[a].0
                                    != self.peers@[b].0 by {
                                assert(self.peers@[a].0 == prev[a].0);
                                assert(self.peers@[b].0 == prev[b].0);
                            }
                            assert(self.wf());
                        }
                        ClientAction::Accepted { from, addr }
                    },
                    None => ClientAction::Ignored,
                }
            },
            SignalMessage::PeerLost { to, lost } => {
                if to != self.id {
                    return ClientAction::Ignored;
                }
                match self.find_peer_index(lost) {
                    Some(k) => {
                        let ghost prev = self.peers@;
                        self.peers.remove(k);
                        proof {
                            assert(self.peers@ == prev.remove(k as int));
                            assert forall|a: int|
                                0 <= a < self.peers@.len() implies (#[trigger] self.peers@[a]).0
                                    != self.id && self.peers@[a].2.wf() && self.peers@[a].2.key()
                                    == self.cipher@ by {
                                if a < k {
                                    assert(self.peers@[a] == prev[a]);
                                } else {
                                    assert(self.peers@[a] == prev[a + 1]);
                                }
                            }
                            assert forall|a: int, b: int|
                                0 <= a < b < self.peers@.len() implies self.peers@[a].0
                                    != self.peers@[b].0 by {
                                if b < k {
                                    assert(self.peers@[a] == prev[a]);
                                    assert(self.peers@[b] == prev[b]);
                                } else if a < k {
                                    assert(self.peers@[a] == prev[a]);
                                    assert(self.peers@[b] == prev[b + 1]);
                                } else {
                                    assert(self.peers@[a] == prev[a + 1]);
                                    assert(self.peers@[b] == prev[b + 1]);
                                }
                            }
                            assert(self.wf());
                        }
                        ClientAction::Lost { lost }
                    },
                    None => ClientAction::Lost { lost },
                }
            },
            SignalMessage::Welcome { .. } => ClientAction::Ignored,
        }
    }

    /// Fan one captured Opus frame out to every neighbour's link: ready
    /// links seal it under their own counters, the rest are skipped.
    pub fn send_opus(&mut self, opus: &Vec<u8>) -> (r: Vec<(u8, Option<Vec<u8>>)>)
        requires
            old(self).wf(),
            opus@.len() + 36 <= usize::MAX,
            forall|i: int|
                0 <= i < old(self).spec_peers().len() ==> (#[trigger] old(self).spec_peers()[i])
                    .2.spec_next_seq() < u64::MAX,
        ensures
            final(self).wf(),
            final(self).spec_id() == old(self).spec_id(),
            final(self).spec_username() == old(self).spec_username(),
            final(self).key() == old(self).key(),
            final(self).spec_peers().len() == old(self).spec_peers().len(),
            r@.len() == old(self).spec_peers().len(),
            forall|i: int|
                0 <= i < r@.len() ==> (#[trigger] r@[i]).0 == old(self).spec_peers()[i].0 && final(self).spec_peers()[i].0 == old(self).spec_peers()[i].0 && final(self).spec_peers()[i].1
                    == old(self).spec_peers()[i].1 && AudioPeer::fanout_step(
                    old(self).spec_peers()[i].2,
                    final(self).spec_peers()[i].2,
                    opus@,
                    r@[i].1,
                ),
    {
        proof {
            assert forall|j: int|
                0 <= j < self.peers@.len() implies (#[trigger] self.peers@[j]).2.spec_next_seq()
                    < u64::MAX && self.peers@[j].2.wf() by {
                assert(old(self).spec_peers()[j] == self.peers@[j]);
            }
        }
        let mut r: Vec<(u8, Option<Vec<u8>>)> = Vec::new();
        let mut i: usize = 0;
        while i < self.peers.len()
            invariant
                i <= self.peers@.len(),
                self.peers@.len() == old(self).peers@.len(),
                r@.len() == i,
                self.cipher == old(self).cipher,
                self.username == old(self).username,
                self.id == old(self).id,
                opus@.len() + 36 <= usize::MAX,
                forall|j: int|
                    i <= j < self.peers@.len() ==> #[trigger] self.peers@[j] == old(self).peers@[j],
                forall|j: int|
                    0 <= j < i ==> (#[trigger] r@[j]).0 == old(self).peers@[j].0 && self.peers@[j].0
                        == old(self).peers@[j].0 && self.peers@[j].1 == old(self).peers@[j].1
                        && AudioPeer::fanout_step(
                        old(self).peers@[j].2,
                        self.peers@[j].2,
                        opus@,
                        r@[j].1,
                    ),
                forall|j: int|
                    0 <= j < old(self).peers@.len() ==> (#[trigger] old(self).peers@[j])
                        .2.spec_next_seq() < u64::MAX && old(self).peers@[j].2.wf(),
            decreases self.peers@.len() - i,
        {
            let ghost prev = self.peers@;
            let entry = self.peers.remove(i);
            let id = entry.0;
            let uname = entry.1;
            let mut p = entry.2;
            let out = match p.send(opus) {
                Ok(dg) => Some(dg),
                Err(_) => None,
            };
            let ghost p_after = p;
            let ghost uname_snap = uname;
            self.peers.insert(i, (id, uname, p));
            proof {
                assert(self.peers@ =~= prev.update(i as int, (id, uname_snap, p_after)));
                assert(prev[i as int] == old(self).peers@[i as int]);
                assert(AudioPeer::fanout_step(old(self).peers@[i as int].2, p_after, opus@, out));
            }
            r.push((id, out));
            i = i + 1;
        }
        proof {
            assert forall|a: int|
                0 <= a < self.peers@.len() implies (#[trigger] self.peers@[a]).0 != self.id
                    && self.peers@[a].2.wf() && self.peers@[a].2.key() == self.cipher@ by {
                assert((r@[a]).0 == old(self).peers@[a].0 && self.peers@[a].0 == old(self).peers@[a].0 && AudioPeer::fanout_step(
                    old(self).peers@[a].2,
                    self.peers@[a].2,
                    opus@,
                    r@[a].1,
                ));
                assert((old(self).peers@[a]).0 != old(self).id);
            }
            assert forall|a: int, b: int|
                0 <= a < b < self.peers@.len() implies self.peers@[a].0 != self.peers@[b].0 by {
                assert((r@[a]).0 == old(self).peers@[a].0 && self.peers@[a].0 == old(self).peers@[a].0);
                assert((r@[b]).0 == old(self).peers@[b].0 && self.peers@[b].0 == old(self).peers@[b].0);
            }
            assert(self.wf());
        }
        r
    }

    /// The known neighbours: one (id, username) pair per table entry, in
    /// table order, the ids pairwise distinct.
    pub fn get_peers(&self) -> (r: Vec<(u8, Vec<u8>)>)
        requires
            self.wf(),
        ensures
            r@.len() == self.spec_peers().len(),
            forall|i: int|
                0 <= i < r@.len() ==> (#[trigger] r@[i]).0 == self.spec_peers()[i].0 && r@[i].1@
                    == self.spec_peers()[i].1@,
            forall|i: int, j: int| 0 <= i < j < r@.len() ==> r@[i].0 != r@[j].0,
    {
        let mut r: Vec<(u8, Vec<u8>)> = Vec::new();
        let mut i: usize = 0;
        while i < self.peers.len()
            invariant
                i <= self.peers@.len(),
                r@.len() == i,
                forall|j: int|
                    0 <= j < i ==> (#[trigger] r@[j]).0 == self.peers@[j].0 && r@[j].1@
                        == self.peers@[j].1@,
            decreases self.peers@.len() - i,
        {
            let id = self.peers[i].0;
            let uname = self.peers[i].1.clone();
            proof {
                assert(uname@ =~= self.peers@[i as int].1@);
            }
            r.push((id, uname));
            i = i + 1;
        }
        r
    }

    /// Set the playback volume of the link under `peer_id`; an unknown id
    /// changes nothing.
    pub fn change_peer_volume(&mut self, peer_id: u8, volume: u8)
        requires
            old(self).wf(),
            volume <= 100,
        ensures
            final(self).wf(),
            final(self).spec_id() == old(self).spec_id(),
            final(self).spec_username() == old(self).spec_username(),
            final(self).key() == old(self).key(),
            final(self).spec_peers().len() == old(self).spec_peers().len(),
            forall|i: int|
                0 <= i < old(self).spec_peers().len() && (#[trigger] old(self).spec_peers()[i]).0
                    != peer_id ==> final(self).spec_peers()[i] == old(self).spec_peers()[i],
            forall|i: int|
                0 <= i < old(self).spec_peers().len() && (#[trigger] old(self).spec_peers()[i]).0
                    == peer_id ==> {
                    let pre = old(self).spec_peers()[i].2;
                    let post = final(self).spec_peers()[i].2;
                    &&& final(self).spec_peers()[i].0 == peer_id
                    &&& final(self).spec_peers()[i].1 == old(self).spec_peers()[i].1
                    &&& post.spec_volume() == volume
                    &&& post.spec_ready() == pre.spec_ready()
                    &&& post.spec_next_seq() == pre.spec_next_seq()
                    &&& post.key() == pre.key()
                    &&& post.buffered() == pre.buffered()
                    &&& post.spec_sent() == pre.spec_sent()
                },
    {
        match self.find_peer_index(peer_id) {
            Some(k) => {
                let ghost prev = self.peers@;
                let entry = self.peers.remove(k);
                let id = entry.0;
                let uname = entry.1;
                let mut p = entry.2;
                p.change_volume(volume);
                let ghost p_after = p;
                let ghost uname_snap = uname;
                self.peers.insert(k, (id, uname, p));
                proof {
                    assert(self.peers@ =~= prev.update(k as int, (id, uname_snap, p_after)));
                    assert forall|a: int, b: int|
                        0 <= a < b < self.peers@.len() implies self.peers@[a].0
                            != self.peers@[b].0 by {
                        assert(self.peers@[a].0 == prev[a].0);
                        assert(self.peers@[b].0 == prev[b].0);
                    }
                    assert(self.wf());
                }
            },
            None => {},
        }
    }

    /// Hand one received UDP datagram to the link under `peer_id`. Returns
    /// the link's outcome, or nothing when no such link exists.
    pub fn handle_peer_datagram(&mut self, peer_id: u8, data: &Vec<u8>) -> (r: Option<
        crate::peer::DatagramOutcome,
    >)
        requires
            old(self).wf(),
            forall|i: int|
                0 <= i < old(self).spec_peers().len() ==> (#[trigger] old(self).spec_peers()[i])
                    .2.buffered().len() + 1 < usize::MAX,
        ensures
            final(self).wf(),
            final(self).spec_id() == old(self).spec_id(),
            final(self).spec_username() == old(self).spec_username(),
            final(self).key() == old(self).key(),
            final(self).spec_peers().len() == old(self).spec_peers().len(),
            forall|i: int|
                0 <= i < old(self).spec_peers().len() && (#[trigger] old(self).spec_peers()[i]).0
                    != peer_id ==> final(self).spec_peers()[i] == old(self).spec_peers()[i],
            (forall|i: int|
                0 <= i < old(self).spec_peers().len() ==> (#[trigger] old(self).spec_peers()[i]).0
                    != peer_id) ==> r is None && final(self).spec_peers() == old(self).spec_peers(),
            forall|i: int|
                0 <= i < old(self).spec_peers().len() && (#[trigger] old(self).spec_peers()[i]).0
                    == peer_id ==> final(self).spec_peers()[i].0 == peer_id && final(self).spec_peers()[i].1 == old(self).spec_peers()[i].1 && (r matches Some(outcome)
                    && AudioPeer::datagram_step(
                    old(self).spec_peers()[i].2,
                    final(self).spec_peers()[i].2,
                    data@,
                    outcome,
                )),
    {
        match self.find_peer_index(peer_id) {
            Some(k) => {
                let ghost prev = self.peers@;
                let entry = self.peers.remove(k);
                let id = entry.0;
                let uname = entry.1;
                let mut p = entry.2;
                proof {
                    assert(prev[k as int].2.buffered().len() + 1 < usize::MAX);
                }
                let outcome = p.handle_datagram(data);
                let ghost p_after = p;
                let ghost uname_snap = uname;
                self.peers.insert(k, (id, uname, p));
                proof {
                    assert(self.peers@ =~= prev.update(k as int, (id, uname_snap, p_after)));
                    assert forall|a: int, b: int|
                        0 <= a < b < self.peers@.len() implies self.peers@[a].0
                            != self.peers@[b].0 by {
                        assert(self.peers@[a].0 == prev[a].0);
                        assert(self.peers@[b].0 == prev[b].0);
                    }
                    assert(self.wf());
                }
                Some(outcome)
            },
            None => None,
        }
    }
}

} // verus!
