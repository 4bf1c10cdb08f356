//! Self-synchronizing framing for the serial byte stream.
//!
//! A frame is a message passed through a zero-free byte-stuffing transform and
//! closed with a 0x00 delimiter.  The transform replaces every zero byte with
//! a block structure: each block starts with a code byte giving the offset to
//! the next stuffed zero, so the payload can be recovered exactly and the only
//! zero on the wire is the delimiter.  A receiver that joins the stream in the
//! middle, or sees a corrupted frame, regains synchronization at the next
//! delimiter.
//!
//! [`FrameAccumulator`] gathers bytes from arbitrarily chunked reads, emits
//! one raw frame per delimiter, and silently discards a frame that outgrows
//! its bounded buffer, resynchronizing on the next delimiter.
use vstd::prelude::*;

use crate::codec::DecodeError;

verus! {

/// Most bytes a single frame may hold before the delimiter; what grows beyond
/// this is discarded.
pub const MAX_FRAME: usize = 255;

/// Longest message the stuffing transform accepts: every offset must fit in
/// one nonzero code byte.
pub const MAX_PAYLOAD: usize = 253;

// ---------------------------------------------------------------------------
// The byte-stuffing transform.
// ---------------------------------------------------------------------------

/// Index of the first zero byte, or the length if there is none.
pub open spec fn spec_find_zero(s: Seq<u8>) -> int
    decreases s.len(),
{
    if s.len() == 0 {
        0
    } else if s[0] == 0 {
        0
    } else {
        1 + spec_find_zero(s.skip(1))
    }
}

pub proof fn lemma_find_zero(s: Seq<u8>)
    ensures
        0 <= spec_find_zero(s) <= s.len(),
        forall|j: int| 0 <= j < spec_find_zero(s) ==> s[j] != 0,
        spec_find_zero(s) < s.len() ==> s[spec_find_zero(s)] == 0,
    decreases s.len(),
{
    if s.len() == 0 {
    } else if s[0] == 0 {
    } else {
        lemma_find_zero(s.skip(1));
        assert forall|j: int| 0 <= j < spec_find_zero(s) implies s[j] != 0 by {
            if j >= 1 {
                assert(s.skip(1)[j - 1] != 0);
            }
        }
        if spec_find_zero(s) < s.len() {
            assert(s.skip(1)[spec_find_zero(s) - 1] == 0);
        }
    }
}

/// The first zero is the only index with the scanned shape.
proof fn lemma_find_zero_unique(s: Seq<u8>, n: int)
    requires
        0 <= n <= s.len(),
        forall|k: int| 0 <= k < n ==> s[k] != 0,
        n < s.len() ==> s[n] == 0,
    ensures
        spec_find_zero(s) == n,
    decreases s.len(),
{
    if n == 0 {
    } else {
        assert(s[0] != 0);
        assert forall|k: int| 0 <= k < n - 1 implies s.skip(1)[k] != 0 by {
            assert(s[k + 1] != 0);
        }
        if n - 1 < s.len() - 1 {
            assert(s.skip(1)[n - 1] == s[n]);
        }
        lemma_find_zero_unique(s.skip(1), n - 1);
    }
}

#[via_fn]
proof fn spec_cobs_encode_dec(p: Seq<u8>) {
    lemma_find_zero(p);
}

/// The zero-free form of a message: each block is a code byte (offset to the
/// stuffed zero) followed by the zero-free bytes before it.  Defined for
/// messages short enough that every code fits one byte.
pub open spec fn spec_cobs_encode(p: Seq<u8>) -> Seq<u8>
    recommends
        p.len() <= MAX_PAYLOAD,
    decreases p.len(),
    via spec_cobs_encode_dec
{
    let i = spec_find_zero(p);
    if i == p.len() {
        seq![(p.len() + 1) as u8] + p
    } else {
        seq![(i + 1) as u8] + p.take(i) + spec_cobs_encode(p.skip(i + 1))
    }
}

/// Inverse of the stuffing transform, total over arbitrary received frames.
pub open spec fn spec_cobs_decode(s: Seq<u8>) -> Option<Seq<u8>>
    decreases s.len(),
{
    if s.len() == 0 {
        Some(Seq::empty())
    } else {
        let code = s[0] as int;
        if code == 0 {
            None
        } else if s.len() < code {
            None
        } else if s.len() == code {
            Some(s.subrange(1, code))
        } else {
            match spec_cobs_decode(s.skip(code)) {
                Some(rest) => Some(
                    s.subrange(1, code) + (if code == 255 {
                        rest
                    } else {
                        seq![0u8] + rest
                    }),
                ),
                None => None,
            }
        }
    }
}

/// Law: stuffing then unstuffing restores the message; the stuffed form has
/// exactly one extra byte and is zero-free, so the delimiter is unambiguous.
pub proof fn lemma_cobs_round_trip(p: Seq<u8>)
    requires
        p.len() <= MAX_PAYLOAD,
    ensures
        spec_cobs_encode(p).len() == p.len() + 1,
        forall|j: int| 0 <= j < spec_cobs_encode(p).len() ==> spec_cobs_encode(p)[j] != 0,
        spec_cobs_decode(spec_cobs_encode(p)) == Some(p),
    decreases p.len(),
{
    lemma_find_zero(p);
    let i = spec_find_zero(p);
    let e = spec_cobs_encode(p);
    if i == p.len() {
        assert(e.len() == p.len() + 1);
        assert forall|j: int| 0 <= j < e.len() implies e[j] != 0 by {
            if j >= 1 {
                assert(e[j] == p[j - 1]);
            }
        }
        assert(e[0] == p.len() + 1);
        assert(spec_cobs_decode(e) == Some(e.subrange(1, p.len() as int + 1)));
        assert(e.subrange(1, p.len() as int + 1) =~= p);
    } else {
        let rest = p.skip(i + 1);
        lemma_cobs_round_trip(rest);
        let er = spec_cobs_encode(rest);
        assert(e =~= seq![(i + 1) as u8] + p.take(i) + er);
        assert(e.len() == p.len() + 1);
        assert forall|j: int| 0 <= j < e.len() implies e[j] != 0 by {
            if j == 0 {
                assert(e[0] == i + 1);
            } else if j < 1 + i {
                assert(e[j] == p[j - 1]);
            } else {
                assert(e[j] == er[j - 1 - i]);
            }
        }
        let code = e[0] as int;
        assert(code == i + 1);
        assert(e.len() > code);
        assert(e.skip(code) =~= er);
        assert(spec_cobs_decode(e.skip(code)) == Some(rest));
        assert(code != 255);
        assert(e.subrange(1, code) =~= p.take(i));
        assert(spec_cobs_decode(e) == Some(p.take(i) + (seq![0u8] + rest)));
        assert(p.take(i) + (seq![0u8] + rest) =~= p);
    }
}

// ---------------------------------------------------------------------------
// Executable transform.
// ---------------------------------------------------------------------------

/// First index at or after `from` holding a zero byte, or the length.
#[verifier::loop_isolation(false)]
fn find_zero_from(s: &[u8], from: usize) -> (i: usize)
    requires
        from <= s@.len(),
    ensures
        from <= i <= s@.len(),
        i - from == spec_find_zero(s@.skip(from as int)),
    decreases s@.len() - from,
{
    let ghost t = s@.skip(from as int);
    let mut i = from;
    while i < s.len()
        invariant
            from <= i <= s@.len(),
            forall|k: int| from <= k < i ==> s@[k] != 0,
        decreases s@.len() - i,
    {
        if s[i] == 0 {
            proof {
                assert forall|k: int| 0 <= k < i - from implies t[k] != 0 by {
                    assert(t[k] == s@[k + from]);
                }
                assert(t[i - from] == s@[i as int]);
                lemma_find_zero_unique(t, i - from);
            }
            return i;
        }
        i += 1;
    }
    proof {
        assert forall|k: int| 0 <= k < i - from implies t[k] != 0 by {
            assert(t[k] == s@[k + from]);
        }
        lemma_find_zero_unique(t, i - from);
    }
    i
}

/// Stuff a message into its zero-free frame body.
#[verifier::loop_isolation(false)]
pub fn cobs_encode(p: &[u8]) -> (v: Vec<u8>)
    requires
        p@.len() <= MAX_PAYLOAD,
    ensures
        v@ == spec_cobs_encode(p@),
{
    let mut out: Vec<u8> = Vec::new();
    let mut start: usize = 0;
    proof {
        assert(p@.skip(0) =~= p@);
        assert(Seq::<u8>::empty() + spec_cobs_encode(p@) =~= spec_cobs_encode(p@));
    }
    loop
        invariant
            start <= p@.len() <= MAX_PAYLOAD,
            spec_cobs_encode(p@) == out@ + spec_cobs_encode(p@.skip(start as int)),
        decreases p@.len() - start,
    {
        let ghost pre = out@;
        let ghost t = p@.skip(start as int);
        let i = find_zero_from(p, start);
        proof {
            lemma_find_zero(t);
        }
        out.push((i - start + 1) as u8);
        let mut j = start;
        while j < i
            invariant
                start <= j <= i <= p@.len(),
                out@ == pre + seq![(i - start + 1) as u8] + p@.subrange(start as int, j as int),
            decreases i - j,
        {
            out.push(p[j]);
            j += 1;
            proof {
                assert(out@ =~= pre + seq![(i - start + 1) as u8] + p@.subrange(
                    start as int,
                    j as int,
                ));
            }
        }
        if i == p.len() {
            proof {
                assert(t.len() == p@.len() - start);
                assert(spec_find_zero(t) == t.len());
                assert(spec_cobs_encode(t) =~= seq![(t.len() + 1) as u8] + t);
                assert(t =~= p@.subrange(start as int, p@.len() as int));
                assert(out@ =~= pre + spec_cobs_encode(t));
            }
            return out;
        }
        proof {
            let fz = spec_find_zero(t);
            assert(fz == i - start);
            assert(fz < t.len());
            assert(spec_cobs_encode(t) == seq![(fz + 1) as u8] + t.take(fz) + spec_cobs_encode(
                t.skip(fz + 1),
            ));
            assert(t.take(fz) =~= p@.subrange(start as int, i as int));
            assert(t.skip(fz + 1) =~= p@.skip(i + 1));
            assert(out@ =~= pre + (seq![(fz + 1) as u8] + t.take(fz)));
            assert(out@ + spec_cobs_encode(p@.skip(i + 1)) =~= pre + spec_cobs_encode(t));
        }
        start = i + 1;
    }
}

/// Unstuff a received frame body back into the message bytes.
#[verifier::loop_isolation(false)]
pub fn cobs_decode(s: &[u8]) -> (r: Result<Vec<u8>, DecodeError>)
    ensures
        (match r {
            Ok(v) => spec_cobs_decode(s@) == Some(v@),
            Err(e) => spec_cobs_decode(s@) is None && e is Malformed,
        }),
    decreases s@.len(),
{
    if s.len() == 0 {
        return Ok(Vec::new());
    }
    let code = s[0];
    if code == 0 {
        return Err(DecodeError::Malformed);
    }
    let c = code as usize;
    if s.len() < c {
        return Err(DecodeError::Malformed);
    }
    let mut v: Vec<u8> = Vec::new();
    let mut j: usize = 1;
    while j < c
        invariant
            1 <= j <= c <= s@.len(),
            v@ == s@.subrange(1, j as int),
        decreases c - j,
    {
        v.push(s[j]);
        j += 1;
        proof {
            assert(v@ =~= s@.subrange(1, j as int));
        }
    }
    if s.len() == c {
        return Ok(v);
    }
    if code != 255 {
        v.push(0);
    }
    let rest = vstd::slice::slice_subrange(s, c, s.len());
    proof {
        assert(rest@ =~= s@.skip(c as int));
    }
    match cobs_decode(rest) {
        Ok(mut tail) => {
            v.append(&mut tail);
            proof {
                assert(v@ =~= s@.subrange(1, c as int) + (if c == 255 {
                    spec_cobs_decode(s@.skip(c as int)).unwrap()
                } else {
                    seq![0u8] + spec_cobs_decode(s@.skip(c as int)).unwrap()
                }));
            }
            Ok(v)
        },
        Err(e) => Err(e),
    }
}

// ---------------------------------------------------------------------------
// The accumulator and its byte-at-a-time model.
// ---------------------------------------------------------------------------

/// Abstract state of the accumulator: the bytes gathered since the last
/// delimiter, and whether an oversize frame is being thrown away.
#[verifier::ext_equal]
pub struct AccModel {
    pub pending: Seq<u8>,
    pub discarding: bool,
}

pub open spec fn acc_init() -> AccModel {
    AccModel { pending: Seq::empty(), discarding: false }
}

pub open spec fn acc_wf(m: AccModel) -> bool {
    m.pending.len() <= MAX_FRAME && (m.discarding ==> m.pending.len() == 0)
}

/// One byte of input: a delimiter closes the frame (or ends a discard) and
/// always returns to the initial state; other bytes gather, up to the bound.
pub open spec fn acc_step(m: AccModel, b: u8) -> AccModel {
    if b == 0 {
        acc_init()
    } else if m.discarding {
        m
    } else if m.pending.len() < MAX_FRAME {
        AccModel { pending: m.pending.push(b), discarding: false }
    } else {
        AccModel { pending: Seq::empty(), discarding: true }
    }
}

/// The raw frame a byte completes, if any.
pub open spec fn acc_step_frame(m: AccModel, b: u8) -> Option<Seq<u8>> {
    if b == 0 && !m.discarding {
        Some(m.pending)
    } else {
        None
    }
}

/// State after a whole chunk.
pub open spec fn acc_run(m: AccModel, s: Seq<u8>) -> AccModel
    decreases s.len(),
{
    if s.len() == 0 {
        m
    } else {
        acc_run(acc_step(m, s[0]), s.skip(1))
    }
}

/// Every raw frame completed while consuming a chunk, in order.
pub open spec fn acc_events(m: AccModel, s: Seq<u8>) -> Seq<Seq<u8>>
    decreases s.len(),
{
    if s.len() == 0 {
        Seq::empty()
    } else {
        let rest = acc_events(acc_step(m, s[0]), s.skip(1));
        match acc_step_frame(m, s[0]) {
            Some(f) => seq![f] + rest,
            None => rest,
        }
    }
}

/// Unfolding for a single byte of input.
proof fn lemma_acc_one(m: AccModel, b: u8)
    ensures
        acc_run(m, seq![b]) == acc_step(m, b),
        acc_events(m, seq![b]) == (match acc_step_frame(m, b) {
            Some(f) => seq![f],
            None => Seq::<Seq<u8>>::empty(),
        }),
{
    assert(seq![b].skip(1) =~= Seq::<u8>::empty());
    assert(seq![b][0] == b);
    let m2 = acc_step(m, b);
    assert(acc_run(m2, Seq::<u8>::empty()) == m2);
    assert(acc_run(m, seq![b]) == acc_run(m2, seq![b].skip(1)));
    assert(acc_events(m2, Seq::<u8>::empty()) == Seq::<Seq<u8>>::empty());
    match acc_step_frame(m, b) {
        Some(f) => {
            assert(acc_events(m, seq![b]) == seq![f] + acc_events(m2, seq![b].skip(1)));
            assert(seq![f] + Seq::<Seq<u8>>::empty() =~= seq![f]);
        },
        None => {
            assert(acc_events(m, seq![b]) =~= Seq::<Seq<u8>>::empty());
        },
    }
}

/// Law: how the input stream is chunked does not matter.  Consuming a stream
/// in two pieces yields exactly the frames of consuming it whole, and the same
/// state; by induction the same holds for any chunking.
pub proof fn lemma_acc_split(m: AccModel, a: Seq<u8>, b: Seq<u8>)
    ensures
        acc_run(m, a + b) == acc_run(acc_run(m, a), b),
        acc_events(m, a + b) == acc_events(m, a) + acc_events(acc_run(m, a), b),
    decreases a.len(),
{
    if a.len() == 0 {
        assert(a + b =~= b);
        assert(acc_events(m, a) + acc_events(acc_run(m, a), b) =~= acc_events(m, b));
    } else {
        assert((a + b)[0] == a[0]);
        assert((a + b).skip(1) =~= a.skip(1) + b);
        lemma_acc_split(acc_step(m, a[0]), a.skip(1), b);
        assert(acc_events(m, a + b) =~= acc_events(m, a) + acc_events(acc_run(m, a), b));
    }
}

/// A zero-free sequence that fits the buffer only gathers.
proof fn lemma_acc_gather(m: AccModel, f: Seq<u8>)
    requires
        !m.discarding,
        m.pending.len() + f.len() <= MAX_FRAME,
        forall|j: int| 0 <= j < f.len() ==> f[j] != 0,
    ensures
        acc_run(m, f) == (AccModel { pending: m.pending + f, discarding: false }),
        acc_events(m, f) == Seq::<Seq<u8>>::empty(),
    decreases f.len(),
{
    if f.len() == 0 {
        assert(m.pending + f =~= m.pending);
    } else {
        assert(f[0] != 0);
        let m2 = acc_step(m, f[0]);
        assert(m2 == AccModel { pending: m.pending.push(f[0]), discarding: false });
        lemma_acc_gather(m2, f.skip(1));
        assert(m.pending.push(f[0]) + f.skip(1) =~= m.pending + f);
    }
}

/// Law: from the initial state, one complete frame on the wire produces
/// exactly one raw frame, its zero-free body, and returns to the initial
/// state.
pub proof fn lemma_acc_single_frame(f: Seq<u8>)
    requires
        f.len() <= MAX_FRAME,
        forall|j: int| 0 <= j < f.len() ==> f[j] != 0,
    ensures
        acc_run(acc_init(), f + seq![0u8]) == acc_init(),
        acc_events(acc_init(), f + seq![0u8]) == seq![f],
{
    lemma_acc_gather(acc_init(), f);
    lemma_acc_split(acc_init(), f, seq![0u8]);
    let mid = acc_run(acc_init(), f);
    assert(Seq::<u8>::empty() + f =~= f);
    lemma_acc_one(mid, 0);
    assert(acc_events(mid, seq![0u8]) =~= seq![f]);
    assert(acc_events(acc_init(), f + seq![0u8]) =~= seq![f]);
}

/// Law: synchronization recovers after arbitrary leading garbage, provided it
/// ends at a delimiter: the frames of what follows are unaffected.
pub proof fn lemma_acc_resync(m: AccModel, junk: Seq<u8>, s: Seq<u8>)
    requires
        junk.len() > 0,
        junk[junk.len() - 1] == 0,
    ensures
        acc_run(m, junk) == acc_init(),
        acc_events(m, junk + s) == acc_events(m, junk) + acc_events(acc_init(), s),
{
    assert(junk =~= junk.take(junk.len() - 1) + seq![0u8]);
    lemma_acc_split(m, junk.take(junk.len() - 1), seq![0u8]);
    let mid = acc_run(m, junk.take(junk.len() - 1));
    lemma_acc_one(mid, 0);
    assert(acc_run(m, junk) == acc_init());
    lemma_acc_split(m, junk, s);
}

// ---------------------------------------------------------------------------
// Executable accumulator.
// ---------------------------------------------------------------------------

/// Gathers chunked serial bytes and emits one raw frame per delimiter.
pub struct FrameAccumulator {
    buf: Vec<u8>,
    discarding: bool,
}

impl View for FrameAccumulator {
    type V = AccModel;

    closed spec fn view(&self) -> AccModel {
        AccModel { pending: self.buf@, discarding: self.discarding }
    }
}

/// What one call to `feed` did with its chunk.
pub enum FeedOutcome {
    /// The whole chunk was consumed without completing a frame.
    Consumed,
    /// A delimiter was reached: `data` is the raw frame body, and `used`
    /// bytes of the chunk (delimiter included) were consumed.  The rest of
    /// the chunk awaits another call.
    Frame { data: Vec<u8>, used: usize },
}

impl FrameAccumulator {
    pub fn new() -> (r: FrameAccumulator)
        ensures
            r@ == acc_init(),
    {
        let r = FrameAccumulator { buf: Vec::new(), discarding: false };
        proof {
            assert(r@ =~= acc_init());
        }
        r
    }

    /// Consume bytes of `chunk` until a frame completes or the chunk ends.
    #[verifier::loop_isolation(false)]
    pub fn feed(&mut self, chunk: &[u8]) -> (r: FeedOutcome)
        requires
            acc_wf(old(self)@),
        ensures
            acc_wf(final(self)@),
            (match r {
                FeedOutcome::Consumed => {
                    &&& final(self)@ == acc_run(old(self)@, chunk@)
                    &&& acc_events(old(self)@, chunk@) == Seq::<Seq<u8>>::empty()
                },
                FeedOutcome::Frame { data, used } => {
                    &&& 1 <= used <= chunk@.len()
                    &&& acc_events(old(self)@, chunk@.take(used as int)) == seq![data@]
                    &&& final(self)@ == acc_run(old(self)@, chunk@.take(used as int))
                    &&& final(self)@ == acc_init()
                },
            }),
    {
        let ghost m0 = self@;
        let mut i: usize = 0;
        while i < chunk.len()
            invariant
                acc_wf(self@),
                i <= chunk@.len(),
                self@ == acc_run(m0, chunk@.take(i as int)),
                acc_events(m0, chunk@.take(i as int)) == Seq::<Seq<u8>>::empty(),
            decreases chunk@.len() - i,
        {
            let ghost mcur = self@;
            let b = chunk[i];
            proof {
                assert(chunk@.take(i + 1) =~= chunk@.take(i as int) + seq![b]);
                lemma_acc_split(m0, chunk@.take(i as int), seq![b]);
                lemma_acc_one(mcur, b);
            }
            if b == 0 {
                if self.discarding {
                    self.discarding = false;
                    proof {
                        assert(self@ =~= acc_step(mcur, b));
                        assert(acc_events(m0, chunk@.take(i + 1)) =~= Seq::<Seq<u8>>::empty());
                    }
                } else {
                    let data = self.buf.split_off(0);
                    proof {
                        assert(self@ =~= acc_init());
                        assert(data@ =~= mcur.pending);
                        assert(acc_events(m0, chunk@.take(i + 1)) =~= seq![data@]);
                    }
                    return FeedOutcome::Frame { data, used: i + 1 };
                }
            } else {
                if self.discarding {
                    proof {
                        assert(self@ =~= acc_step(mcur, b));
                        assert(acc_events(m0, chunk@.take(i + 1)) =~= Seq::<Seq<u8>>::empty());
                    }
                } else if self.buf.len() < MAX_FRAME {
                    self.buf.push(b);
                    proof {
                        assert(self@ =~= acc_step(mcur, b));
                        assert(acc_events(m0, chunk@.take(i + 1)) =~= Seq::<Seq<u8>>::empty());
                    }
                } else {
                    self.buf.clear();
                    self.discarding = true;
                    proof {
                        assert(self@ =~= acc_step(mcur, b));
                        assert(acc_events(m0, chunk@.take(i + 1)) =~= Seq::<Seq<u8>>::empty());
                    }
                }
            }
            i += 1;
        }
        proof {
            assert(chunk@.take(chunk@.len() as int) =~= chunk@);
        }
        FeedOutcome::Consumed
    }

    /// Consume a whole chunk and collect every raw frame it completes.
    #[verifier::loop_isolation(false)]
    pub fn drain_frames(&mut self, chunk: &[u8]) -> (frames: Vec<Vec<u8>>)
        requires
            acc_wf(old(self)@),
        ensures
            acc_wf(final(self)@),
            frames@.map_values(|d: Vec<u8>| d@) == acc_events(old(self)@, chunk@),
            final(self)@ == acc_run(old(self)@, chunk@),
    {
        let ghost m0 = self@;
        let mut out: Vec<Vec<u8>> = Vec::new();
        let mut off: usize = 0;
        while off < chunk.len()
            invariant
                acc_wf(self@),
                off <= chunk@.len(),
                out@.map_values(|d: Vec<u8>| d@) == acc_events(m0, chunk@.take(off as int)),
                self@ == acc_run(m0, chunk@.take(off as int)),
            decreases chunk@.len() - off,
        {
            let ghost mcur = self@;
            let sub = vstd::slice::slice_subrange(chunk, off, chunk.len());
            proof {
                assert(sub@ =~= chunk@.skip(off as int));
            }
            match self.feed(sub) {
                FeedOutcome::Consumed => {
                    proof {
                        assert(chunk@.take(off as int) + sub@ =~= chunk@);
                        lemma_acc_split(m0, chunk@.take(off as int), sub@);
                        assert(out@.map_values(|d: Vec<u8>| d@) =~= acc_events(m0, chunk@));
                    }
                    return out;
                },
                FeedOutcome::Frame { data, used } => {
                    proof {
                        assert(chunk@.take(off + used) =~= chunk@.take(off as int) + sub@.take(
                            used as int,
                        ));
                        lemma_acc_split(m0, chunk@.take(off as int), sub@.take(used as int));
                    }
                    out.push(data);
                    proof {
                        assert(out@.map_values(|d: Vec<u8>| d@) =~= acc_events(
                            m0,
                            chunk@.take(off + used),
                        ));
                    }
                    off = off + used;
                },
            }
        }
        proof {
            assert(chunk@.take(off as int) =~= chunk@);
        }
        out
    }
}

} // verus!
