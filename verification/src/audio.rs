//! Sample-level audio rules: the capture RMS gate, per-peer volume scaling,
//! and the volume byte a receiver appends to each buffered frame.
//!
//! Devices themselves (enumeration, callbacks, the Opus codec) live at the
//! unverified edge; this module holds every decision they delegate.

use vstd::prelude::*;

verus! {

/// Which half of the device table a lookup searches.
#[derive(Clone, Copy, Debug, PartialEq, Eq, Structural)]
pub enum DeviceKind {
    Capture,
    Playback,
}

/// Device-table lookups on plain values; the enumeration itself is done by
/// the audio runtime at the edge.
pub struct Audio {}

impl Audio {
    /// The position of the last device whose name matches, if any: when two
    /// devices share a name, the one enumerated later wins.
    pub fn find_device(names: &Vec<String>, wanted: &String) -> (r: Option<usize>)
        ensures
            match r {
                Some(i) => i < names@.len() && names@[i as int]@ == wanted@ && forall|j: int|
                    i < j < names@.len() ==> names@[j]@ != wanted@,
                None => forall|j: int| 0 <= j < names@.len() ==> names@[j]@ != wanted@,
            },
    {
        let mut found: Option<usize> = None;
        let mut i: usize = 0;
        while i < names.len()
            invariant
                i <= names@.len(),
                match found {
                    Some(k) => k < i && names@[k as int]@ == wanted@ && forall|j: int|
                        k < j < i ==> names@[j]@ != wanted@,
                    None => forall|j: int| 0 <= j < i ==> names@[j]@ != wanted@,
                },
            decreases names@.len() - i,
        {
            if names[i].eq(wanted) {
                found = Some(i);
            }
            i = i + 1;
        }
        found
    }
}

/// Whether a captured buffer passes the voice-activity gate: its scaled RMS
/// must be strictly above the threshold.
pub open spec fn gate_open(rms: i8, threshold: i8) -> bool {
    rms > threshold
}

/// Decide whether a captured buffer is encoded and forwarded.
pub fn capture_gate(rms: i8, threshold: i8) -> (r: bool)
    ensures
        r == gate_open(rms, threshold),
{
    rms > threshold
}

/// A threshold of 100 silences the sender entirely, since a buffer's
/// loudness value cannot exceed 100.
pub proof fn lemma_gate_shut_at_max(rms: i8)
    requires
        rms <= 100,
    ensures
        !gate_open(rms, 100),
{
}

/// One sample rescaled by a volume percentage, rounded to the nearest
/// integer (halves away from zero).
pub open spec fn scale_spec(s: i16, v: u8) -> i16
    recommends
        v <= 100,
{
    if s >= 0 {
        (((s * v) + 50) / 100) as i16
    } else {
        (-((((-(s as int)) * v) + 50) / 100)) as i16
    }
}

/// Scale one decoded sample by a volume percentage.
pub fn scale_sample(s: i16, v: u8) -> (r: i16)
    requires
        v <= 100,
    ensures
        r == scale_spec(s, v),
{
    let si: i32 = s as i32;
    let vi: u32 = v as u32;
    if si >= 0 {
        let mag: u32 = si as u32;
        proof {
            assert(mag * vi <= 32767 * 100) by (nonlinear_arith)
                requires
                    mag <= 32767 && vi <= 100,
            ;
        }
        let q: u32 = (mag * vi + 50) / 100;
        proof {
            assert(q <= 32767) by (nonlinear_arith)
                requires
                    q == ((mag * vi + 50) as u32) / 100 && mag * vi <= 32767 * 100,
            ;
        }
        q as i16
    } else {
        let mag: u32 = (-si) as u32;
        proof {
            assert(mag * vi <= 32768 * 100) by (nonlinear_arith)
                requires
                    mag <= 32768 && vi <= 100,
            ;
        }
        let q: u32 = (mag * vi + 50) / 100;
        proof {
            assert(q <= 32768) by (nonlinear_arith)
                requires
                    q == ((mag * vi + 50) as u32) / 100 && mag * vi <= 32768 * 100,
            ;
        }
        let qi: i32 = q as i32;
        (-qi) as i16
    }
}

/// Full volume is the identity: at `v == 100` a sample is returned as it is.
pub proof fn lemma_full_volume_identity(s: i16)
    ensures
        scale_spec(s, 100) == s,
{
    if s >= 0 {
        let m = s as int;
        assert((m * 100 + 50) / 100 == m) by (nonlinear_arith);
    } else {
        let m = -(s as int);
        assert((m * 100 + 50) / 100 == m) by (nonlinear_arith);
    }
}

/// Volume zero silences: every sample maps to 0.
pub proof fn lemma_zero_volume_silences(s: i16)
    ensures
        scale_spec(s, 0) == 0,
{
}

/// Rescale a decoded frame by a volume percentage and truncate it to the
/// device buffer size.
pub fn prepare_output(decoded: &Vec<i16>, v: u8, out_len: usize) -> (r: Vec<i16>)
    requires
        v <= 100,
        out_len <= decoded@.len(),
    ensures
        r@.len() == out_len,
        forall|i: int| 0 <= i < out_len ==> #[trigger] r@[i] == scale_spec(decoded@[i], v),
{
    let mut r: Vec<i16> = Vec::new();
    let mut i: usize = 0;
    while i < out_len
        invariant
            i <= out_len <= decoded@.len(),
            v <= 100,
            r@.len() == i,
            forall|j: int| 0 <= j < i ==> #[trigger] r@[j] == scale_spec(decoded@[j], v),
        decreases out_len - i,
    {
        r.push(scale_sample(decoded[i], v));
        i = i + 1;
    }
    r
}

/// A buffered inbound frame: the Opus payload with the receiver's volume
/// byte appended, so playback can rescale without extra synchronization.
pub open spec fn with_volume(payload: Seq<u8>, v: u8) -> Seq<u8> {
    payload.push(v)
}

/// Split a buffered frame back into its Opus payload and its volume byte.
pub fn split_volume(frame: &Vec<u8>) -> (r: (Vec<u8>, u8))
    requires
        frame@.len() >= 1,
    ensures
        r.0@ == frame@.subrange(0, frame@.len() - 1),
        r.1 == frame@.last(),
        frame@ == with_volume(r.0@, r.1),
{
    let n = frame.len();
    let v = frame[n - 1];
    let mut payload: Vec<u8> = Vec::new();
    let mut i: usize = 0;
    while i < n - 1
        invariant
            i <= n - 1,
            n == frame@.len(),
            payload@ == frame@.subrange(0, i as int),
        decreases n - 1 - i,
    {
        payload.push(frame[i]);
        i = i + 1;
        proof {
            assert(payload@ =~= frame@.subrange(0, i as int));
        }
    }
    proof {
        assert(frame@ =~= with_volume(frame@.subrange(0, frame@.len() - 1), frame@.last()));
    }
    (payload, v)
}

} // verus!
