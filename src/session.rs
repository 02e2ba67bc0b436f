//! Per-peer session state for session-framed records: outgoing sequence
//! numbers, the sequence expected next from the peer, and a bounded buffer
//! of sent records for retransmission.
use std::collections::VecDeque;
use vstd::prelude::*;

verus! {

/// How many sent records are kept for retransmission.
pub const RETRANSMIT_CAP: usize = 256;

pub struct SessionV {
    pub session_id: u64,
    pub next_seq: u64,
    pub expected_id: u64,
    pub buf: Seq<(u64, Seq<u8>)>,
}

/// Per-peer session state.
pub struct SessionContext {
    pub session_id: u64,
    /// Next sequence number to stamp on an outgoing record.
    pub next_seq: u64,
    /// Next sequence number expected from the peer.
    pub expected_id: u64,
    retransmit_buf: VecDeque<(u64, Vec<u8>)>,
}

/// The buffer after `(seq, payload)` is added: the oldest entry leaves once
/// more than the cap are held.
pub open spec fn buffered(buf: Seq<(u64, Seq<u8>)>, seq: u64, payload: Seq<u8>) -> Seq<(u64, Seq<u8>)> {
    let b = buf.push((seq, payload));
    if b.len() > RETRANSMIT_CAP {
        b.drop_first()
    } else {
        b
    }
}

/// The state after one outgoing record is stamped.
pub open spec fn stamped(s: SessionV, payload: Seq<u8>) -> SessionV {
    SessionV {
        session_id: s.session_id,
        next_seq: (s.next_seq + 1) as u64,
        expected_id: s.expected_id,
        buf: buffered(s.buf, s.next_seq, payload),
    }
}

/// The payload buffered under `seq_id`: the first entry with that number.
pub open spec fn lookup(buf: Seq<(u64, Seq<u8>)>, seq_id: u64) -> Option<Seq<u8>>
    decreases buf.len(),
{
    if buf.len() == 0 {
        None
    } else if buf[0].0 == seq_id {
        Some(buf[0].1)
    } else {
        lookup(buf.drop_first(), seq_id)
    }
}

impl View for SessionContext {
    type V = SessionV;

    closed spec fn view(&self) -> SessionV {
        SessionV {
            session_id: self.session_id,
            next_seq: self.next_seq,
            expected_id: self.expected_id,
            buf: self.retransmit_buf@.map_values(|e: (u64, Vec<u8>)| (e.0, e.1@)),
        }
    }
}

impl SessionContext {
    /// The buffer holds at most the cap, in increasing sequence order, all
    /// below the next number to be stamped.
    pub open spec fn wf(&self) -> bool {
        session_wf(self@)
    }

    pub fn new(session_id: u64) -> (r: Self)
        ensures
            r@ == (SessionV { session_id, next_seq: 1, expected_id: 1, buf: Seq::empty() }),
            r.wf(),
    {
        let r = SessionContext { session_id, next_seq: 1, expected_id: 1, retransmit_buf: VecDeque::new() };
        assert(r@.buf =~= Seq::<(u64, Seq<u8>)>::empty());
        r
    }

    /// Stamps an outgoing record: returns the current sequence number,
    /// moves to the next, and buffers the payload under that number.
    pub fn next_sequence_id(&mut self, payload: Vec<u8>) -> (r: u64)
        requires
            old(self).wf(),
            old(self)@.next_seq < u64::MAX,
        ensures
            r == old(self)@.next_seq,
            final(self)@ == stamped(old(self)@, payload@),
            final(self).wf(),
    {
        let ghost p = payload@;
        let ghost before = self@.buf;
        let seq = self.next_seq;
        self.next_seq = self.next_seq + 1;
        self.retransmit_buf.push_back((seq, payload));
        assert(self@.buf =~= before.push((seq, p)));
        if self.retransmit_buf.len() > RETRANSMIT_CAP {
            let ghost full = self@.buf;
            let _ = self.retransmit_buf.pop_front();
            assert(self@.buf =~= full.drop_first());
        }
        proof {
            lemma_stamped_wf(old(self)@, p);
        }
        assert(self@ == stamped(old(self)@, p));
        seq
    }

    /// Records that the next expected record arrived in order.
    pub fn advance_expected(&mut self)
        requires
            old(self)@.expected_id < u64::MAX,
        ensures
            final(self)@ == (SessionV { expected_id: (old(self)@.expected_id + 1) as u64, ..old(self)@ }),
    {
        self.expected_id = self.expected_id + 1;
    }

    /// The buffered payload of the record stamped `seq_id`, if it is still held.
    pub fn retransmit(&self, seq_id: u64) -> (r: Option<&[u8]>)
        ensures
            match lookup(self@.buf, seq_id) {
                Some(p) => r matches Some(x) && x@ == p,
                None => r is None,
            },
    {
        let mut i: usize = 0;
        assert(self@.buf.skip(0) =~= self@.buf);
        while i < self.retransmit_buf.len()
            invariant
                i <= self@.buf.len(),
                lookup(self@.buf, seq_id) == lookup(self@.buf.skip(i as int), seq_id),
            decreases self@.buf.len() - i,
        {
            let e = &self.retransmit_buf[i];
            proof {
                assert(self@.buf.skip(i as int)[0] == (e.0, e.1@));
                assert(self@.buf.skip(i as int).drop_first() =~= self@.buf.skip(i + 1));
            }
            if e.0 == seq_id {
                return Some(e.1.as_slice());
            }
            i = i + 1;
        }
        None
    }
}

pub open spec fn session_wf(s: SessionV) -> bool {
    &&& s.buf.len() <= RETRANSMIT_CAP
    &&& forall|i: int, j: int| 0 <= i < j < s.buf.len() ==> s.buf[i].0 < s.buf[j].0
    &&& forall|i: int| 0 <= i < s.buf.len() ==> (#[trigger] s.buf[i]).0 < s.next_seq
}

/// Stamping keeps the session well formed.
pub proof fn lemma_stamped_wf(s: SessionV, payload: Seq<u8>)
    requires
        session_wf(s),
        s.next_seq < u64::MAX,
    ensures
        session_wf(stamped(s, payload)),
{
    let b = s.buf.push((s.next_seq, payload));
    assert forall|i: int, j: int| 0 <= i < j < b.len() implies b[i].0 < b[j].0 by {
        if j == b.len() - 1 {
            assert(b[i] == s.buf[i]);
        } else {
            assert(b[i] == s.buf[i] && b[j] == s.buf[j]);
        }
    }
    assert forall|i: int| 0 <= i < b.len() implies (#[trigger] b[i]).0 < s.next_seq + 1 by {
        if i < s.buf.len() {
            assert(b[i] == s.buf[i]);
        }
    }
    if b.len() > RETRANSMIT_CAP {
        let d = b.drop_first();
        assert forall|i: int, j: int| 0 <= i < j < d.len() implies d[i].0 < d[j].0 by {
            assert(d[i] == b[i + 1] && d[j] == b[j + 1]);
        }
        assert forall|i: int| 0 <= i < d.len() implies (#[trigger] d[i]).0 < s.next_seq + 1 by {
            assert(d[i] == b[i + 1]);
        }
    }
}

/// Stamping adds the new record at the end of the buffer and drops the
/// oldest only when the buffer was full: the buffer then holds
/// `min(old length + 1, cap)` entries, the newest last.
pub proof fn lemma_buffer_shape(s: SessionV, payload: Seq<u8>)
    requires
        session_wf(s),
    ensures
        stamped(s, payload).buf.len() as int == if s.buf.len() < RETRANSMIT_CAP {
            s.buf.len() + 1 as int
        } else {
            RETRANSMIT_CAP as int
        },
        stamped(s, payload).buf.last() == (s.next_seq, payload),
        s.buf.len() < RETRANSMIT_CAP ==> stamped(s, payload).buf == s.buf.push((s.next_seq, payload)),
        s.buf.len() == RETRANSMIT_CAP ==> stamped(s, payload).buf == s.buf.drop_first().push((s.next_seq, payload)),
{
    let b = s.buf.push((s.next_seq, payload));
    if s.buf.len() == RETRANSMIT_CAP {
        assert(b.drop_first() =~= s.buf.drop_first().push((s.next_seq, payload)));
    }
}

/// Of two records stamped in turn, the second gets the larger sequence
/// number, and the retransmission buffer stays within its cap (stamping
/// keeps the session well formed, so this holds at every step).
pub proof fn lemma_sequence_increasing(s: SessionV, first: Seq<u8>, second: Seq<u8>)
    requires
        session_wf(s),
        s.next_seq < u64::MAX - 1,
    ensures
        s.next_seq < stamped(s, first).next_seq,
        stamped(stamped(s, first), second).buf.len() <= RETRANSMIT_CAP,
        session_wf(stamped(stamped(s, first), second)),
{
    lemma_stamped_wf(s, first);
    lemma_stamped_wf(stamped(s, first), second);
}

} // verus!
