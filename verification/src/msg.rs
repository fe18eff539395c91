//! The signaling wire format: `<op:u8><from:u8><to:u8><payload...>`.
//!
//! Op 0 is the welcome a host sends to a fresh client (`[0, id]`); ops 1 and
//! 2 announce and accept a UDP candidate (`<addr_len><addr><username>`
//! payload); op 4 broadcasts a lost peer (`[4, 0, to, lost_id]`). Op 3 is
//! reserved and rejected.

use vstd::prelude::*;

use crate::errors::ErrorKind;

verus! {

/// An exec signaling message, as built and consumed by the session core.
pub enum SignalMessage {
    /// Host to new client: the id it was assigned.
    Welcome { id: u8 },
    /// A client advertises its UDP candidate and username to a lower id.
    Announce { from: u8, to: u8, addr: Vec<u8>, username: Vec<u8> },
    /// The reply to an announce, carrying the responder's candidate.
    Accept { from: u8, to: u8, addr: Vec<u8>, username: Vec<u8> },
    /// Host broadcast: the stream of `lost` closed.
    PeerLost { to: u8, lost: u8 },
}

/// The mathematical model of a signaling message.
pub enum MsgModel {
    Welcome { id: u8 },
    Announce { from: u8, to: u8, addr: Seq<u8>, username: Seq<u8> },
    Accept { from: u8, to: u8, addr: Seq<u8>, username: Seq<u8> },
    PeerLost { to: u8, lost: u8 },
}

impl View for SignalMessage {
    type V = MsgModel;

    open spec fn view(&self) -> MsgModel {
        match self {
            SignalMessage::Welcome { id } => MsgModel::Welcome { id: *id },
            SignalMessage::Announce { from, to, addr, username } => MsgModel::Announce {
                from: *from,
                to: *to,
                addr: addr@,
                username: username@,
            },
            SignalMessage::Accept { from, to, addr, username } => MsgModel::Accept {
                from: *from,
                to: *to,
                addr: addr@,
                username: username@,
            },
            SignalMessage::PeerLost { to, lost } => MsgModel::PeerLost { to: *to, lost: *lost },
        }
    }
}

/// A message that fits the wire format: a candidate address is length-prefixed
/// by one byte, so it must be at most 255 bytes.
pub open spec fn msg_wf(m: MsgModel) -> bool {
    match m {
        MsgModel::Welcome { .. } => true,
        MsgModel::Announce { addr, .. } => addr.len() <= 255,
        MsgModel::Accept { addr, .. } => addr.len() <= 255,
        MsgModel::PeerLost { .. } => true,
    }
}

/// The bytes of a message on the wire (before encryption).
pub open spec fn msg_bytes(m: MsgModel) -> Seq<u8> {
    match m {
        MsgModel::Welcome { id } => seq![0u8, id],
        MsgModel::Announce { from, to, addr, username } => seq![
            1u8,
            from,
            to,
            addr.len() as u8,
        ] + addr + username,
        MsgModel::Accept { from, to, addr, username } => seq![
            2u8,
            from,
            to,
            addr.len() as u8,
        ] + addr + username,
        MsgModel::PeerLost { to, lost } => seq![4u8, 0u8, to, lost],
    }
}

/// The message read from a plaintext, or the error it is rejected with.
/// Unknown and reserved opcodes, and any layout the ops table does not
/// allow, are protocol errors.
pub open spec fn spec_parse(s: Seq<u8>) -> Result<MsgModel, ErrorKind> {
    if s.len() < 2 {
        Err(ErrorKind::Protocol)
    } else if s[0] == 0 {
        if s.len() == 2 {
            Ok(MsgModel::Welcome { id: s[1] })
        } else {
            Err(ErrorKind::Protocol)
        }
    } else if s[0] == 1 || s[0] == 2 {
        if s.len() >= 4 && 4 + s[3] <= s.len() {
            let addr = s.subrange(4, 4 + s[3] as int);
            let username = s.subrange(4 + s[3] as int, s.len() as int);
            if s[0] == 1 {
                Ok(MsgModel::Announce { from: s[1], to: s[2], addr, username })
            } else {
                Ok(MsgModel::Accept { from: s[1], to: s[2], addr, username })
            }
        } else {
            Err(ErrorKind::Protocol)
        }
    } else if s[0] == 4 {
        if s.len() == 4 && s[1] == 0 {
            Ok(MsgModel::PeerLost { to: s[2], lost: s[3] })
        } else {
            Err(ErrorKind::Protocol)
        }
    } else {
        Err(ErrorKind::Protocol)
    }
}

/// Serialize a signaling message.
pub fn encode_message(m: &SignalMessage) -> (r: Vec<u8>)
    requires
        msg_wf(m@),
    ensures
        r@ == msg_bytes(m@),
{
    let mut r: Vec<u8> = Vec::new();
    match m {
        SignalMessage::Welcome { id } => {
            r.push(0);
            r.push(*id);
        },
        SignalMessage::Announce { from, to, addr, username } => {
            r.push(1);
            r.push(*from);
            r.push(*to);
            r.push(addr.len() as u8);
            r.extend_from_slice(addr.as_slice());
            r.extend_from_slice(username.as_slice());
        },
        SignalMessage::Accept { from, to, addr, username } => {
            r.push(2);
            r.push(*from);
            r.push(*to);
            r.push(addr.len() as u8);
            r.extend_from_slice(addr.as_slice());
            r.extend_from_slice(username.as_slice());
        },
        SignalMessage::PeerLost { to, lost } => {
            r.push(4);
            r.push(0);
            r.push(*to);
            r.push(*lost);
        },
    }
    proof {
        assert(r@ =~= msg_bytes(m@));
    }
    r
}

/// Read a signaling message back from a plaintext.
pub fn parse_message(s: &Vec<u8>) -> (r: Result<SignalMessage, ErrorKind>)
    ensures
        match r {
            Ok(m) => spec_parse(s@) == Ok::<MsgModel, ErrorKind>(m@),
            Err(e) => spec_parse(s@) == Err::<MsgModel, ErrorKind>(e),
        },
{
    let n = s.len();
    if n < 2 {
        return Err(ErrorKind::Protocol);
    }
    let op = s[0];
    if op == 0 {
        if n == 2 {
            Ok(SignalMessage::Welcome { id: s[1] })
        } else {
            Err(ErrorKind::Protocol)
        }
    } else if op == 1 || op == 2 {
        if n >= 4 && (s[3] as usize) <= n - 4 {
            let addr_len = s[3] as usize;
            let mut addr: Vec<u8> = Vec::new();
            let mut i: usize = 4;
            while i < 4 + addr_len
                invariant
                    4 <= i <= 4 + addr_len,
                    4 + addr_len <= n == s@.len(),
                    addr@ == s@.subrange(4, i as int),
                decreases 4 + addr_len - i,
            {
                addr.push(s[i]);
                i = i + 1;
                proof {
                    assert(addr@ =~= s@.subrange(4, i as int));
                }
            }
            let mut username: Vec<u8> = Vec::new();
            while i < n
                invariant
                    4 + addr_len <= i <= n == s@.len(),
                    username@ == s@.subrange(4 + addr_len as int, i as int),
                decreases n - i,
            {
                username.push(s[i]);
                i = i + 1;
                proof {
                    assert(username@ =~= s@.subrange(4 + addr_len as int, i as int));
                }
            }
            if op == 1 {
                Ok(SignalMessage::Announce { from: s[1], to: s[2], addr, username })
            } else {
                Ok(SignalMessage::Accept { from: s[1], to: s[2], addr, username })
            }
        } else {
            Err(ErrorKind::Protocol)
        }
    } else if op == 4 {
        if n == 4 && s[1] == 0 {
            Ok(SignalMessage::PeerLost { to: s[2], lost: s[3] })
        } else {
            Err(ErrorKind::Protocol)
        }
    } else {
        Err(ErrorKind::Protocol)
    }
}

/// Parsing the bytes of a well-formed message yields the message back.
pub proof fn lemma_parse_round_trip(m: MsgModel)
    requires
        msg_wf(m),
    ensures
        spec_parse(msg_bytes(m)) == Ok::<MsgModel, ErrorKind>(m),
{
    let s = msg_bytes(m);
    match m {
        MsgModel::Welcome { id } => {},
        MsgModel::Announce { from, to, addr, username } => {
            assert(s[3] == addr.len() as u8);
            assert(s.subrange(4, 4 + s[3] as int) =~= addr);
            assert(s.subrange(4 + s[3] as int, s.len() as int) =~= username);
        },
        MsgModel::Accept { from, to, addr, username } => {
            assert(s[3] == addr.len() as u8);
            assert(s.subrange(4, 4 + s[3] as int) =~= addr);
            assert(s.subrange(4 + s[3] as int, s.len() as int) =~= username);
        },
        MsgModel::PeerLost { to, lost } => {},
    }
}

/// Any plaintext that parses re-serializes to exactly itself: the wire
/// format carries no slack.
pub proof fn lemma_encode_round_trip(s: Seq<u8>)
    requires
        spec_parse(s) is Ok,
    ensures
        msg_wf(spec_parse(s).unwrap()),
        msg_bytes(spec_parse(s).unwrap()) == s,
{
    let m = spec_parse(s).unwrap();
    match m {
        MsgModel::Welcome { id } => {
            assert(msg_bytes(m) =~= s);
        },
        MsgModel::Announce { from, to, addr, username } => {
            assert(msg_bytes(m) =~= s);
        },
        MsgModel::Accept { from, to, addr, username } => {
            assert(msg_bytes(m) =~= s);
        },
        MsgModel::PeerLost { to, lost } => {
            assert(msg_bytes(m) =~= s);
        },
    }
}

} // verus!
