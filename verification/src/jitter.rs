//! The per-peer reorder ("jitter") buffer: pending inbound frames keyed by
//! sequence number, drained in ascending order once more than one frame is
//! pending, so a single swapped pair of packets is put back in order.

use vstd::prelude::*;

verus! {

/// Keys appear in non-decreasing order.
pub open spec fn keys_sorted(s: Seq<(u64, Seq<u8>)>) -> bool {
    forall|i: int, j: int| 0 <= i < j < s.len() ==> #[trigger] s[i].0 <= #[trigger] s[j].0
}

/// The first index whose key is strictly greater than `key`: where a new
/// frame with that key lands.
pub open spec fn insert_pos(s: Seq<(u64, Seq<u8>)>, key: u64) -> int
    decreases s.len(),
{
    if s.len() == 0 {
        0
    } else if s[0].0 <= key {
        1 + insert_pos(s.drop_first(), key)
    } else {
        0
    }
}

/// A buffer after one more frame: the frame sits after every pending frame
/// with a key at most its own, and before every strictly greater key.
pub open spec fn insert_sorted(s: Seq<(u64, Seq<u8>)>, key: u64, payload: Seq<u8>) -> Seq<
    (u64, Seq<u8>),
> {
    s.insert(insert_pos(s, key), (key, payload))
}

/// `insert_pos` is a position in the sequence, everything before it has a
/// key at most `key`, and the entry at it (if any) a strictly greater key.
pub proof fn lemma_insert_pos(s: Seq<(u64, Seq<u8>)>, key: u64)
    ensures
        0 <= insert_pos(s, key) <= s.len(),
        forall|j: int| 0 <= j < insert_pos(s, key) ==> #[trigger] s[j].0 <= key,
        insert_pos(s, key) < s.len() ==> s[insert_pos(s, key)].0 > key,
    decreases s.len(),
{
    if s.len() == 0 {
    } else if s[0].0 <= key {
        lemma_insert_pos(s.drop_first(), key);
        assert forall|j: int| 0 <= j < insert_pos(s, key) implies #[trigger] s[j].0 <= key by {
            if j > 0 {
                assert(s.drop_first()[j - 1] == s[j]);
            }
        }
        if insert_pos(s, key) < s.len() {
            assert(s.drop_first()[insert_pos(s, key) - 1] == s[insert_pos(s, key)]);
        }
    } else {
    }
}

/// Inserting into a sorted buffer keeps it sorted.
pub proof fn lemma_insert_sorted_keeps_order(s: Seq<(u64, Seq<u8>)>, key: u64, payload: Seq<u8>)
    requires
        keys_sorted(s),
    ensures
        keys_sorted(insert_sorted(s, key, payload)),
{
    lemma_insert_pos(s, key);
    let pos = insert_pos(s, key);
    let t = insert_sorted(s, key, payload);
    assert forall|i: int, j: int| 0 <= i < j < t.len() implies #[trigger] t[i].0
        <= #[trigger] t[j].0 by {
        if i < pos {
            assert(t[i] == s[i]);
        } else if i > pos {
            assert(t[i] == s[i - 1]);
        }
        if j < pos {
            assert(t[j] == s[j]);
        } else if j > pos {
            assert(t[j] == s[j - 1]);
        }
        if i == pos && j > pos {
            assert(s[j - 1].0 > key || s[j - 1].0 >= s[pos].0);
        }
    }
}

/// The reorder buffer of one audio link.
pub struct JitterBuffer {
    entries: Vec<(u64, Vec<u8>)>,
}

impl View for JitterBuffer {
    type V = Seq<(u64, Seq<u8>)>;

    /// The pending frames, in stored (ascending-key) order.
    closed spec fn view(&self) -> Seq<(u64, Seq<u8>)> {
        self.entries@.map_values(|e: (u64, Vec<u8>)| (e.0, e.1@))
    }
}

impl JitterBuffer {
    /// The buffer's frames stand in ascending key order.
    pub open spec fn wf(&self) -> bool {
        keys_sorted(self@)
    }

    /// An empty buffer.
    pub fn new() -> (r: JitterBuffer)
        ensures
            r@ == Seq::<(u64, Seq<u8>)>::empty(),
            r.wf(),
    {
        let r = JitterBuffer { entries: Vec::new() };
        proof {
            assert(r@ =~= Seq::<(u64, Seq<u8>)>::empty());
        }
        r
    }

    /// How many frames are pending.
    pub fn len(&self) -> (r: usize)
        ensures
            r == self@.len(),
    {
        self.entries.len()
    }

    /// Buffer one frame at its place in key order.
    pub fn push(&mut self, seq_no: u64, payload: Vec<u8>)
        requires
            old(self).wf(),
            old(self)@.len() < usize::MAX,
        ensures
            final(self)@ == insert_sorted(old(self)@, seq_no, payload@),
            final(self).wf(),
    {
        proof {
            lemma_insert_pos(self@, seq_no);
        }
        let mut i: usize = 0;
        while i < self.entries.len() && self.entries[i].0 <= seq_no
            invariant
                0 <= i <= self.entries@.len() < usize::MAX,
                forall|j: int| 0 <= j < i ==> #[trigger] self.entries@[j].0 <= seq_no,
            decreases self.entries@.len() - i,
        {
            i = i + 1;
        }
        proof {
            let pos = insert_pos(self@, seq_no);
            if (i as int) < pos {
                assert(self@[i as int].0 <= seq_no);
                assert(self.entries@[i as int].0 <= seq_no);
                assert(false);
            }
            if (i as int) > pos {
                assert(self.entries@[pos].0 <= seq_no);
                assert(self@[pos].0 > seq_no);
                assert(false);
            }
            lemma_insert_sorted_keeps_order(self@, seq_no, payload@);
        }
        self.entries.insert(i, (seq_no, payload));
        proof {
            assert(self@ =~= insert_sorted(old(self)@, seq_no, payload@));
        }
    }

    /// Empty the buffer, handing the pending payloads out in ascending
    /// sequence order.
    pub fn drain(&mut self) -> (r: Vec<Vec<u8>>)
        ensures
            r@.len() == old(self)@.len(),
            forall|i: int| 0 <= i < r@.len() ==> #[trigger] r@[i]@ == old(self)@[i].1,
            final(self)@ == Seq::<(u64, Seq<u8>)>::empty(),
            final(self).wf(),
    {
        let mut r: Vec<Vec<u8>> = Vec::new();
        while self.entries.len() > 0
            invariant
                r@.len() + self.entries@.len() == old(self)@.len(),
                forall|i: int| 0 <= i < r@.len() ==> #[trigger] r@[i]@ == old(self)@[i].1,
                forall|i: int|
                    0 <= i < self.entries@.len() ==> #[trigger] self.entries@[i]
                        == old(self).entries@[r@.len() + i],
            decreases self.entries@.len(),
        {
            let entry = self.entries.remove(0);
            r.push(entry.1);
        }
        proof {
            assert(self@ =~= Seq::<(u64, Seq<u8>)>::empty());
        }
        r
    }
}

/// Reorder tolerance: frames with keys `a+1`, `a`, `a+2`, buffered in that
/// arrival order, stand in the buffer - and so drain - in sequence order
/// `a`, `a+1`, `a+2`.
pub proof fn lemma_reorder_tolerance(a: u64, p0: Seq<u8>, p1: Seq<u8>, p2: Seq<u8>)
    requires
        a + 2 <= u64::MAX,
    ensures
        insert_sorted(
            insert_sorted(insert_sorted(Seq::empty(), (a + 1) as u64, p1), a, p0),
            (a + 2) as u64,
            p2,
        ) == seq![(a, p0), ((a + 1) as u64, p1), ((a + 2) as u64, p2)],
{
    let e0 = (a, p0);
    let e1 = ((a + 1) as u64, p1);
    let e2 = ((a + 2) as u64, p2);
    let s0 = Seq::<(u64, Seq<u8>)>::empty();
    assert(insert_pos(s0, (a + 1) as u64) == 0);
    let s1 = insert_sorted(s0, (a + 1) as u64, p1);
    assert(s1 =~= seq![e1]);
    assert(insert_pos(s1, a) == 0);
    let s2 = insert_sorted(s1, a, p0);
    assert(s2 =~= seq![e0, e1]);
    assert(s2.drop_first() =~= seq![e1]);
    assert(seq![e1].drop_first() =~= s0);
    assert(insert_pos(s0, (a + 2) as u64) == 0);
    assert(seq![e1][0] == e1 && e1.0 <= (a + 2) as u64);
    assert(insert_pos(seq![e1], (a + 2) as u64) == 1 + insert_pos(
        seq![e1].drop_first(),
        (a + 2) as u64,
    ));
    assert(insert_pos(seq![e1], (a + 2) as u64) == 1);
    assert(insert_pos(s2, (a + 2) as u64) == 2);
    let s3 = insert_sorted(s2, (a + 2) as u64, p2);
    assert(s3 =~= seq![e0, e1, e2]);
}

} // verus!
