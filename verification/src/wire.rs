//! Big-endian byte encoding of the per-frame sequence counter, and the
//! audio frame layout `<opus bytes><seq: u64 big-endian>`.

use vstd::prelude::*;

verus! {

/// The low byte of a machine word.
pub open spec fn low_byte(x: u64) -> u8 {
    (x & 0xff) as u8
}

/// The eight bytes of `x`, most significant first.
pub open spec fn u64_be_bytes(x: u64) -> Seq<u8> {
    seq![
        low_byte(x >> 56),
        low_byte(x >> 48),
        low_byte(x >> 40),
        low_byte(x >> 32),
        low_byte(x >> 24),
        low_byte(x >> 16),
        low_byte(x >> 8),
        low_byte(x),
    ]
}

/// The machine word read from eight bytes, most significant first.
pub open spec fn be_bytes_to_u64(s: Seq<u8>) -> u64
    recommends
        s.len() == 8,
{
    (((s[0] as u64) << 56) | ((s[1] as u64) << 48) | ((s[2] as u64) << 40)
        | ((s[3] as u64) << 32) | ((s[4] as u64) << 24) | ((s[5] as u64) << 16)
        | ((s[6] as u64) << 8) | (s[7] as u64)) as u64
}

fn low_byte_exec(x: u64) -> (r: u8)
    ensures
        r == low_byte(x),
{
    proof {
        assert(x & 0xff <= 0xff) by (bit_vector);
    }
    (x & 0xff) as u8
}

/// Serialize a sequence counter as eight big-endian bytes.
pub fn u64_to_be(x: u64) -> (r: Vec<u8>)
    ensures
        r@ == u64_be_bytes(x),
{
    let mut r: Vec<u8> = Vec::new();
    r.push(low_byte_exec(x >> 56));
    r.push(low_byte_exec(x >> 48));
    r.push(low_byte_exec(x >> 40));
    r.push(low_byte_exec(x >> 32));
    r.push(low_byte_exec(x >> 24));
    r.push(low_byte_exec(x >> 16));
    r.push(low_byte_exec(x >> 8));
    r.push(low_byte_exec(x));
    proof {
        assert(r@ =~= u64_be_bytes(x));
    }
    r
}

/// Read a sequence counter from the eight bytes starting at `start`.
pub fn be_to_u64(bytes: &Vec<u8>, start: usize) -> (r: u64)
    requires
        start + 8 <= bytes@.len(),
    ensures
        r == be_bytes_to_u64(bytes@.subrange(start as int, start + 8)),
{
    let n = bytes.len();
    let b0 = bytes[start];
    let b1 = bytes[start + 1];
    let b2 = bytes[start + 2];
    let b3 = bytes[start + 3];
    let b4 = bytes[start + 4];
    let b5 = bytes[start + 5];
    let b6 = bytes[start + 6];
    let b7 = bytes[start + 7];
    let r: u64 = ((b0 as u64) << 56) | ((b1 as u64) << 48) | ((b2 as u64) << 40)
        | ((b3 as u64) << 32) | ((b4 as u64) << 24) | ((b5 as u64) << 16)
        | ((b6 as u64) << 8) | (b7 as u64);
    proof {
        let s = bytes@.subrange(start as int, start + 8);
        assert(s[0] == b0 && s[1] == b1 && s[2] == b2 && s[3] == b3 && s[4] == b4
            && s[5] == b5 && s[6] == b6 && s[7] == b7);
    }
    r
}

/// Reading back the eight bytes of a word yields the word.
pub proof fn lemma_be_round_trip(x: u64)
    ensures
        be_bytes_to_u64(u64_be_bytes(x)) == x,
{
    assert((((((x >> 56) & 0xff) as u8) as u64) << 56
        | ((((x >> 48) & 0xff) as u8) as u64) << 48
        | ((((x >> 40) & 0xff) as u8) as u64) << 40
        | ((((x >> 32) & 0xff) as u8) as u64) << 32
        | ((((x >> 24) & 0xff) as u8) as u64) << 24
        | ((((x >> 16) & 0xff) as u8) as u64) << 16
        | ((((x >> 8) & 0xff) as u8) as u64) << 8
        | (((x & 0xff) as u8) as u64)) == x) by (bit_vector);
}

/// Re-serializing the word read from eight bytes yields the same bytes.
pub proof fn lemma_be_bytes_inverse(s: Seq<u8>)
    requires
        s.len() == 8,
    ensures
        u64_be_bytes(be_bytes_to_u64(s)) == s,
{
    let b0 = s[0];
    let b1 = s[1];
    let b2 = s[2];
    let b3 = s[3];
    let b4 = s[4];
    let b5 = s[5];
    let b6 = s[6];
    let b7 = s[7];
    let x = be_bytes_to_u64(s);
    let y: u64 = ((((((((b0 as u64) << 56) | ((b1 as u64) << 48)) | ((b2 as u64) << 40))
        | ((b3 as u64) << 32)) | ((b4 as u64) << 24)) | ((b5 as u64) << 16))
        | ((b6 as u64) << 8)) | (b7 as u64);
    assert(x == y);
    assert(((y >> 56) & 0xff) as u8 == b0 && ((y >> 48) & 0xff) as u8 == b1
        && ((y >> 40) & 0xff) as u8 == b2 && ((y >> 32) & 0xff) as u8 == b3
        && ((y >> 24) & 0xff) as u8 == b4 && ((y >> 16) & 0xff) as u8 == b5
        && ((y >> 8) & 0xff) as u8 == b6 && (y & 0xff) as u8 == b7) by (bit_vector)
        requires
            y == ((((((((b0 as u64) << 56) | ((b1 as u64) << 48)) | ((b2 as u64) << 40))
                | ((b3 as u64) << 32)) | ((b4 as u64) << 24)) | ((b5 as u64) << 16))
                | ((b6 as u64) << 8)) | (b7 as u64),
    ;
    assert(u64_be_bytes(x) =~= s);
}

/// The bytes of one outbound audio frame: the Opus payload followed by the
/// sequence counter as eight big-endian bytes.
pub open spec fn frame_bytes(opus: Seq<u8>, seq_no: u64) -> Seq<u8> {
    opus + u64_be_bytes(seq_no)
}

/// Build an outbound audio frame from an Opus payload and a sequence counter.
pub fn make_frame(opus: &Vec<u8>, seq_no: u64) -> (r: Vec<u8>)
    requires
        opus@.len() + 8 <= usize::MAX,
    ensures
        r@ == frame_bytes(opus@, seq_no),
{
    let mut r: Vec<u8> = Vec::new();
    r.extend_from_slice(opus.as_slice());
    let mut tail = u64_to_be(seq_no);
    r.append(&mut tail);
    proof {
        assert(r@ =~= frame_bytes(opus@, seq_no));
    }
    r
}

/// The Opus payload of a received frame: everything before the trailer.
pub open spec fn frame_payload(plain: Seq<u8>) -> Seq<u8>
    recommends
        plain.len() >= 8,
{
    plain.subrange(0, plain.len() - 8)
}

/// The sequence counter of a received frame: its last eight bytes.
pub open spec fn frame_seq(plain: Seq<u8>) -> u64
    recommends
        plain.len() >= 8,
{
    be_bytes_to_u64(plain.subrange(plain.len() - 8, plain.len() as int))
}

/// Split a received frame into its Opus payload and its sequence counter.
pub fn parse_frame(plain: &Vec<u8>) -> (r: (Vec<u8>, u64))
    requires
        plain@.len() >= 8,
    ensures
        r.0@ == frame_payload(plain@),
        r.1 == frame_seq(plain@),
{
    let cut = plain.len() - 8;
    let seq_no = be_to_u64(plain, cut);
    let mut payload: Vec<u8> = Vec::new();
    let mut i: usize = 0;
    while i < cut
        invariant
            i <= cut,
            cut + 8 == plain@.len(),
            payload@ == plain@.subrange(0, i as int),
        decreases cut - i,
    {
        payload.push(plain[i]);
        i = i + 1;
        proof {
            assert(payload@ =~= plain@.subrange(0, i as int));
        }
    }
    (payload, seq_no)
}

/// A frame built from a payload and counter parses back to exactly them.
pub proof fn lemma_frame_round_trip(opus: Seq<u8>, seq_no: u64)
    ensures
        frame_payload(frame_bytes(opus, seq_no)) == opus,
        frame_seq(frame_bytes(opus, seq_no)) == seq_no,
{
    let f = frame_bytes(opus, seq_no);
    assert(frame_payload(f) =~= opus);
    assert(f.subrange(f.len() - 8, f.len() as int) =~= u64_be_bytes(seq_no));
    lemma_be_round_trip(seq_no);
}

} // verus!
