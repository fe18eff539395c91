//! One peer-to-peer audio link: the `[1]` handshake that arms it, the
//! monotonic outbound sequence counter, the sealed frame envelope, and the
//! inbound path that authenticates, sequences and reorders frames before
//! they reach playback.

use vstd::prelude::*;

use crate::aes::AES;
use crate::aes::decrypt_spec;
use crate::aes::seal_limit;
use crate::audio::with_volume;
use crate::errors::ErrorKind;
use crate::jitter::JitterBuffer;
use crate::jitter::insert_sorted;
use crate::wire::frame_bytes;
use crate::wire::frame_payload;
use crate::wire::frame_seq;
use crate::wire::make_frame;
use crate::wire::parse_frame;

verus! {

/// What became of one received datagram.
pub enum DatagramOutcome {
    /// A handshake ping arrived while the link was not ready: the link is
    /// armed now, and a `[1]` must be sent back once.
    Handshake,
    /// The datagram was dropped: too short, or its tag did not verify.
    Dropped,
    /// The frame was buffered; the reorder window is not full yet.
    Buffered,
    /// The reorder window filled: these payloads go to playback, in
    /// ascending sequence order.
    Flushed(Vec<Vec<u8>>),
}

/// The frame a datagram carries, if it authenticates and is long enough to
/// hold a sequence trailer: its sequence number, and its payload with the
/// receiver's volume byte appended.
pub open spec fn inbound_frame(key: Seq<u8>, volume: u8, data: Seq<u8>) -> Option<(u64, Seq<u8>)> {
    match decrypt_spec(key, data) {
        Some(p) => if p.len() >= 8 {
            Some((frame_seq(p), with_volume(frame_payload(p), volume)))
        } else {
            None
        },
        None => None,
    }
}

/// One encrypted, sequenced UDP audio link to a single peer.
pub struct AudioPeer {
    ready: bool,
    next_seq: u64,
    volume: u8,
    cipher: AES,
    buffer: JitterBuffer,
    sent: Ghost<Seq<u64>>,
}

impl AudioPeer {
    /// Whether the handshake completed and `send` is allowed.
    pub closed spec fn spec_ready(&self) -> bool {
        self.ready
    }

    /// The sequence number the next outbound frame will carry.
    pub closed spec fn spec_next_seq(&self) -> u64 {
        self.next_seq
    }

    /// The volume percentage attached to inbound frames.
    pub closed spec fn spec_volume(&self) -> u8 {
        self.volume
    }

    /// The session key this link seals and opens frames with.
    pub closed spec fn key(&self) -> Seq<u8> {
        self.cipher@
    }

    /// The pending inbound frames, in ascending sequence order.
    pub closed spec fn buffered(&self) -> Seq<(u64, Seq<u8>)> {
        self.buffer@
    }

    /// Every sequence number sent so far, in sending order.
    pub closed spec fn spec_sent(&self) -> Seq<u64> {
        self.sent@
    }

    /// A sound link: a usable cipher, a percentage volume, an ordered
    /// buffer, and a gapless sent history `0, 1, ..., next_seq - 1`.
    pub closed spec fn wf(&self) -> bool {
        &&& self.cipher.wf()
        &&& self.volume <= 100
        &&& self.buffer.wf()
        &&& self.sent@.len() == self.next_seq
        &&& forall|i: int| 0 <= i < self.sent@.len() ==> #[trigger] self.sent@[i] == i
    }

    /// A link as `new` hands it out: not yet ready, counter at zero, full
    /// volume, nothing buffered.
    pub open spec fn is_fresh(self, key: Seq<u8>) -> bool {
        &&& self.wf()
        &&& !self.spec_ready()
        &&& self.spec_next_seq() == 0
        &&& self.spec_volume() == 100
        &&& self.key() == key
        &&& self.buffered() == Seq::<(u64, Seq<u8>)>::empty()
        &&& self.spec_sent() == Seq::<u64>::empty()
    }

    /// A fresh link: not yet ready, counter at zero, full volume.
    pub fn new(cipher: AES) -> (r: AudioPeer)
        requires
            cipher.wf(),
        ensures
            r.is_fresh(cipher@),
    {
        AudioPeer {
            ready: false,
            next_seq: 0,
            volume: 100,
            cipher,
            buffer: JitterBuffer::new(),
            sent: Ghost(Seq::empty()),
        }
    }

    /// Whether the handshake completed.
    pub fn is_ready(&self) -> (r: bool)
        ensures
            r == self.spec_ready(),
    {
        self.ready
    }

    /// Set the volume attached to this peer's inbound frames.
    pub fn change_volume(&mut self, volume: u8)
        requires
            old(self).wf(),
            volume <= 100,
        ensures
            final(self).wf(),
            final(self).spec_volume() == volume,
            final(self).spec_ready() == old(self).spec_ready(),
            final(self).spec_next_seq() == old(self).spec_next_seq(),
            final(self).key() == old(self).key(),
            final(self).buffered() == old(self).buffered(),
            final(self).spec_sent() == old(self).spec_sent(),
    {
        self.volume = volume;
    }

    /// How a link and its result may relate across one `send` call.
    pub open spec fn send_step(pre: AudioPeer, post: AudioPeer, data: Seq<u8>, r: Result<
        Vec<u8>,
        ErrorKind,
    >) -> bool {
        &&& post.wf()
        &&& post.spec_ready() == pre.spec_ready()
        &&& post.spec_volume() == pre.spec_volume()
        &&& post.key() == pre.key()
        &&& post.buffered() == pre.buffered()
        &&& (!pre.spec_ready() ==> r == Err::<Vec<u8>, ErrorKind>(ErrorKind::NotReady)
            && post.spec_next_seq() == pre.spec_next_seq() && post.spec_sent()
            == pre.spec_sent())
        &&& (pre.spec_ready() ==> match r {
            Ok(dg) => {
                &&& dg@.len() == data.len() + 36
                &&& decrypt_spec(pre.key(), dg@) == Some(frame_bytes(data, pre.spec_next_seq()))
                &&& post.spec_next_seq() == pre.spec_next_seq() + 1
                &&& post.spec_sent() == pre.spec_sent().push(pre.spec_next_seq())
            },
            Err(e) => e == ErrorKind::CipherFail && post.spec_next_seq() == pre.spec_next_seq()
                && post.spec_sent() == pre.spec_sent(),
        })
        &&& (pre.spec_ready() && data.len() + 8 <= seal_limit() ==> r is Ok)
    }

    /// How a link and its slot in a fan-out result relate across one
    /// best-effort send: a datagram comes out exactly when the link was
    /// ready and the cipher cooperated, and a skipped link is untouched.
    pub open spec fn fanout_step(pre: AudioPeer, post: AudioPeer, data: Seq<u8>, out: Option<
        Vec<u8>,
    >) -> bool {
        &&& post.wf()
        &&& post.spec_ready() == pre.spec_ready()
        &&& post.spec_volume() == pre.spec_volume()
        &&& post.key() == pre.key()
        &&& post.buffered() == pre.buffered()
        &&& (!pre.spec_ready() ==> out is None)
        &&& match out {
            Some(dg) => {
                &&& pre.spec_ready()
                &&& dg@.len() == data.len() + 36
                &&& decrypt_spec(pre.key(), dg@) == Some(frame_bytes(data, pre.spec_next_seq()))
                &&& post.spec_next_seq() == pre.spec_next_seq() + 1
                &&& post.spec_sent() == pre.spec_sent().push(pre.spec_next_seq())
            },
            None => post.spec_next_seq() == pre.spec_next_seq() && post.spec_sent()
                == pre.spec_sent(),
        }
        &&& (pre.spec_ready() && data.len() + 8 <= seal_limit() ==> out is Some)
    }

    /// Seal one outbound frame: the Opus payload, the next sequence number
    /// as an eight-byte trailer, then the session envelope. Returns
    /// `NotReady` - and sends nothing - before the handshake; once ready,
    /// every frame within the cipher's plaintext cap is owed its datagram,
    /// the counter advances by exactly one, and the envelope opens back to
    /// the frame under the session key.
    pub fn send(&mut self, data: &Vec<u8>) -> (r: Result<Vec<u8>, ErrorKind>)
        requires
            old(self).wf(),
            old(self).spec_next_seq() < u64::MAX,
            data@.len() + 36 <= usize::MAX,
        ensures
            AudioPeer::send_step(*old(self), *final(self), data@, r),
    {
        if !self.ready {
            return Err(ErrorKind::NotReady);
        }
        let frame = make_frame(data, self.next_seq);
        match self.cipher.encrypt(&frame) {
            Ok(dg) => {
                proof {
                    self.sent@ = self.sent@.push(self.next_seq);
                }
                self.next_seq = self.next_seq + 1;
                Ok(dg)
            },
            Err(_) => Err(ErrorKind::CipherFail),
        }
    }

    /// Take in one received datagram. A one-byte ping arms the link; a
    /// datagram shorter than a sequence trailer, or one whose envelope does
    /// not authenticate, is dropped silently; a good frame is buffered at
    /// its place in sequence order with the local volume byte appended, and
    /// once more than one frame is pending the whole window flushes to
    /// playback in ascending order.
    /// How a link and the outcome may relate across one received datagram.
    pub open spec fn datagram_step(
        pre: AudioPeer,
        post: AudioPeer,
        data: Seq<u8>,
        r: DatagramOutcome,
    ) -> bool {
        &&& post.wf()
        &&& post.key() == pre.key()
        &&& post.spec_volume() == pre.spec_volume()
        &&& post.spec_next_seq() == pre.spec_next_seq()
        &&& post.spec_sent() == pre.spec_sent()
        &&& post.spec_ready() == (pre.spec_ready() || data.len() == 1)
        &&& (r is Handshake) == (data.len() == 1 && !pre.spec_ready())
        &&& (data.len() < 8 ==> (r is Handshake || r is Dropped) && post.buffered()
            == pre.buffered())
        &&& (data.len() >= 8 ==> match inbound_frame(pre.key(), pre.spec_volume(), data) {
            Some(entry) => {
                let pending = insert_sorted(pre.buffered(), entry.0, entry.1);
                if pending.len() > 1 {
                    &&& r matches DatagramOutcome::Flushed(list)
                    &&& list@.len() == pending.len()
                    &&& forall|i: int|
                        0 <= i < pending.len() ==> #[trigger] list@[i]@ == pending[i].1
                    &&& post.buffered() == Seq::<(u64, Seq<u8>)>::empty()
                } else {
                    r is Buffered && post.buffered() == pending
                }
            },
            None => r is Dropped && post.buffered() == pre.buffered(),
        })
    }

    pub fn handle_datagram(&mut self, data: &Vec<u8>) -> (r: DatagramOutcome)
        requires
            old(self).wf(),
            old(self).buffered().len() + 1 < usize::MAX,
        ensures
            AudioPeer::datagram_step(*old(self), *final(self), data@, r),
    {
        let n = data.len();
        if n == 1 && !self.ready {
            self.ready = true;
            return DatagramOutcome::Handshake;
        }
        if n < 8 {
            return DatagramOutcome::Dropped;
        }
        let plain = match self.cipher.decrypt(data) {
            Ok(p) => p,
            Err(_) => {
                return DatagramOutcome::Dropped;
            },
        };
        if plain.len() < 8 {
            return DatagramOutcome::Dropped;
        }
        let parsed = parse_frame(&plain);
        let mut payload = parsed.0;
        let seq_no = parsed.1;
        payload.push(self.volume);
        proof {
            assert(payload@ == with_volume(frame_payload(plain@), self.volume));
        }
        self.buffer.push(seq_no, payload);
        if self.buffer.len() > 1 {
            let list = self.buffer.drain();
            DatagramOutcome::Flushed(list)
        } else {
            DatagramOutcome::Buffered
        }
    }
}

/// Sequence monotonicity: a link's sent sequence numbers are exactly
/// `0, 1, 2, ...` - gapless and strictly increasing - while it lives.
pub proof fn lemma_sequence_monotonic(p: AudioPeer)
    requires
        p.wf(),
    ensures
        p.spec_sent().len() == p.spec_next_seq(),
        forall|i: int| 0 <= i < p.spec_sent().len() ==> #[trigger] p.spec_sent()[i] == i,
        forall|i: int, j: int|
            0 <= i < j < p.spec_sent().len() ==> p.spec_sent()[i] < p.spec_sent()[j],
{
    assert forall|i: int, j: int|
        0 <= i < j < p.spec_sent().len() implies p.spec_sent()[i] < p.spec_sent()[j] by {
        assert(p.spec_sent()[i] == i);
        assert(p.spec_sent()[j] == j);
    }
}

} // verus!
