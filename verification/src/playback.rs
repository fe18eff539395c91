//! The playback pending-frame queue. A feeder appends frames arriving from
//! a peer's link; the device callback removes at most one frame per
//! invocation - and removes it before decoding, so no frame is ever consumed
//! twice. A one-byte `[0]` sentinel on the ingress channel stops the feeder.

use vstd::prelude::*;

verus! {

/// The one-byte payload that tells the playback feeder to exit.
pub open spec fn is_sentinel(payload: Seq<u8>) -> bool {
    payload.len() == 1 && payload[0] == 0
}

/// Recognize the feeder's stop sentinel.
pub fn is_stop_sentinel(payload: &Vec<u8>) -> (r: bool)
    ensures
        r == is_sentinel(payload@),
{
    payload.len() == 1 && payload[0] == 0
}

/// A queued frame always carries at least its volume byte, and that byte is
/// a percentage.
pub open spec fn frame_ok(frame: Seq<u8>) -> bool {
    frame.len() >= 1 && frame.last() <= 100
}

/// The pending frames of one playback pipeline, oldest first.
pub struct PlaybackQueue {
    frames: Vec<Vec<u8>>,
}

impl View for PlaybackQueue {
    type V = Seq<Seq<u8>>;

    closed spec fn view(&self) -> Seq<Seq<u8>> {
        self.frames@.map_values(|f: Vec<u8>| f@)
    }
}

impl PlaybackQueue {
    /// Every queued frame carries a volume byte.
    pub open spec fn wf(&self) -> bool {
        forall|i: int| 0 <= i < self@.len() ==> frame_ok(#[trigger] self@[i])
    }

    /// An empty queue.
    pub fn new() -> (r: PlaybackQueue)
        ensures
            r@ == Seq::<Seq<u8>>::empty(),
            r.wf(),
    {
        let r = PlaybackQueue { frames: Vec::new() };
        proof {
            assert(r@ =~= Seq::<Seq<u8>>::empty());
        }
        r
    }

    /// How many frames are pending.
    pub fn len(&self) -> (r: usize)
        ensures
            r == self@.len(),
    {
        self.frames.len()
    }

    /// Append one frame behind the pending ones.
    pub fn push_frame(&mut self, frame: Vec<u8>)
        requires
            old(self).wf(),
            frame_ok(frame@),
            old(self)@.len() < usize::MAX,
        ensures
            final(self)@ == old(self)@.push(frame@),
            final(self).wf(),
    {
        self.frames.push(frame);
        proof {
            assert(self@ =~= old(self)@.push(frame@));
        }
    }

    /// Remove the oldest frame, but only while a second one is pending: the
    /// device callback leaves a lone frame in place, which bounds the work
    /// done per callback and keeps one frame of slack in the pipeline.
    pub fn take_next(&mut self) -> (r: Option<Vec<u8>>)
        requires
            old(self).wf(),
        ensures
            final(self).wf(),
            if old(self)@.len() > 1 {
                r matches Some(f) && f@ == old(self)@[0] && final(self)@ == old(self)@.drop_first()
                    && frame_ok(f@)
            } else {
                r is None && final(self)@ == old(self)@
            },
    {
        if self.frames.len() > 1 {
            let f = self.frames.remove(0);
            proof {
                assert(self@ =~= old(self)@.drop_first());
            }
            Some(f)
        } else {
            None
        }
    }
}

} // verus!
