//! The stream decoder: accumulates bytes that arrive in chunks and pulls the
//! replies out of them, sliding past noise one byte at a time.
use vstd::prelude::*;

use crate::error::DecodeError;
use crate::frame::{decode, decode_spec};
use crate::values::CommandReply;

verus! {

/// Bytes a decoder made by `new` or `default` can hold.
pub const DEFAULT_CAPACITY: usize = 512;

/// What a decoder holds: the bytes not yet consumed, where the next byte fed
/// will be written, and how many bytes fit.
pub ghost struct DecoderState {
    pub pending: Seq<u8>,
    pub wpos: nat,
    pub cap: nat,
}

impl DecoderState {
    /// The pending bytes end at the write position, which lies in the buffer.
    pub open spec fn wf(self) -> bool {
        self.pending.len() <= self.wpos <= self.cap
    }
}

/// Feeding `data`: the state after and the count of bytes taken. Where the
/// free tail is too short the pending bytes move to the front; where they
/// still fill the whole buffer they are dropped.
pub open spec fn feed_spec(st: DecoderState, data: Seq<u8>) -> (DecoderState, nat) {
    let w1 = if data.len() > st.cap - st.wpos {
        st.pending.len()
    } else {
        st.wpos
    };
    let dropped = w1 == st.cap;
    let p2 = if dropped {
        Seq::<u8>::empty()
    } else {
        st.pending
    };
    let w2: nat = if dropped {
        0
    } else {
        w1
    };
    let copied: nat = if data.len() <= st.cap - w2 {
        data.len()
    } else {
        (st.cap - w2) as nat
    };
    (DecoderState { pending: p2 + data.take(copied as int), wpos: w2 + copied, cap: st.cap }, copied)
}

/// Pulling one reply out of the pending bytes `p`, trying each offset in
/// turn: an offset where decoding fails outright is skipped; the first frame
/// found is consumed and its reply returned; the first offset that needs more
/// data stops the pull with nothing returned. Gives the pending bytes after
/// the pull and the reply, if any.
pub open spec fn next_spec(p: Seq<u8>) -> (Seq<u8>, Option<CommandReply>)
    decreases p.len(),
{
    if p.len() == 0 {
        (p, None)
    } else {
        match decode_spec(p) {
            Ok((n, r)) => (p.skip(n as int), Some(r)),
            Err(DecodeError::IncompleteData) => (p, None),
            Err(_) => next_spec(p.skip(1)),
        }
    }
}

/// Whether pulling from pending bytes `p` yields the replies `rs` in turn,
/// and, if so, the pending bytes after the last of them.
pub open spec fn yields(p: Seq<u8>, rs: Seq<CommandReply>) -> Option<Seq<u8>>
    decreases rs.len(),
{
    if rs.len() == 0 {
        Some(p)
    } else {
        let (p2, r) = next_spec(p);
        if r == Some(rs[0]) {
            yields(p2, rs.skip(1))
        } else {
            None
        }
    }
}

proof fn lemma_yields_snoc(p: Seq<u8>, rs: Seq<CommandReply>, r: CommandReply)
    requires
        yields(p, rs) is Some,
        next_spec(yields(p, rs)->Some_0).1 == Some(r),
    ensures
        yields(p, rs.push(r)) == Some(next_spec(yields(p, rs)->Some_0).0),
    decreases rs.len(),
{
    let p2 = next_spec(p).0;
    if rs.len() > 0 {
        assert(rs.push(r)[0] == rs[0]);
        assert(rs.push(r).skip(1) =~= rs.skip(1).push(r));
        lemma_yields_snoc(p2, rs.skip(1), r);
    } else {
        assert(rs.push(r)[0] == r);
        assert(rs.push(r).skip(1) =~= Seq::<CommandReply>::empty());
        assert(yields(p2, Seq::<CommandReply>::empty()) == Some(p2));
    }
}

/// A pull that yields a reply consumes bytes.
proof fn lemma_next_consumes(p: Seq<u8>)
    ensures
        next_spec(p).1 is Some ==> next_spec(p).0.len() < p.len(),
    decreases p.len(),
{
    if p.len() > 0 {
        crate::frame::lemma_decode_length(p);
        lemma_next_consumes(p.skip(1));
    }
}

/// A streaming decoder over a fixed-size buffer.
#[derive(Debug)]
pub struct Decoder {
    buf: Vec<u8>,
    wpos: usize,
    rpos: usize,
}

impl View for Decoder {
    type V = DecoderState;

    closed spec fn view(&self) -> DecoderState {
        DecoderState {
            pending: self.buf@.subrange(self.rpos as int, self.wpos as int),
            wpos: self.wpos as nat,
            cap: self.buf@.len(),
        }
    }
}

impl Decoder {
    /// The cursors lie within the buffer, the read cursor first.
    #[verifier::type_invariant]
    spec fn wf(&self) -> bool {
        self.rpos <= self.wpos <= self.buf@.len()
    }

    /// A decoder with an empty buffer of `DEFAULT_CAPACITY` bytes.
    pub fn new() -> (r: Self)
        ensures
            r@ == (DecoderState { pending: Seq::empty(), wpos: 0, cap: DEFAULT_CAPACITY as nat }),
    {
        Self::with_capacity(DEFAULT_CAPACITY)
    }

    /// A decoder with an empty buffer of `capacity` bytes.
    pub fn with_capacity(capacity: usize) -> (r: Self)
        ensures
            r@ == (DecoderState { pending: Seq::empty(), wpos: 0, cap: capacity as nat }),
    {
        let r = Decoder { buf: vec![0u8; capacity], wpos: 0, rpos: 0 };
        assert(r@.pending =~= Seq::<u8>::empty());
        r
    }

    /// Copies as much of `data` as fits into the buffer and returns how many
    /// bytes were taken; the caller feeds the rest again later.
    pub fn feed(&mut self, data: &[u8]) -> (r: Result<usize, DecodeError>)
        ensures
            r is Ok,
            (final(self)@, r->Ok_0 as nat) == feed_spec(old(self)@, data@),
            final(self)@.wf(),
    {
        proof {
            use_type_invariant(&*self);
        }
        let cap = self.buf.len();
        if data.len() > cap - self.wpos {
            self.compact();
        }
        if self.wpos == cap {
            self.rpos = 0;
            self.wpos = 0;
            assert(self@.pending =~= Seq::<u8>::empty());
        }
        let room = cap - self.wpos;
        let copied = if data.len() <= room {
            data.len()
        } else {
            room
        };
        let ghost pend = self@.pending;
        let start = self.wpos;
        let mut i: usize = 0;
        while i < copied
            invariant
                0 <= i <= copied,
                copied <= data@.len(),
                start + copied <= cap,
                cap == self.buf@.len(),
                self.wpos == start,
                self.rpos <= start,
                self.buf@.subrange(self.rpos as int, start as int) == pend,
                self.buf@.subrange(start as int, start + i) == data@.take(i as int),
            decreases copied - i,
        {
            self.buf[start + i] = data[i];
            i = i + 1;
            assert(self.buf@.subrange(self.rpos as int, start as int) == pend);
            assert(self.buf@.subrange(start as int, start + i) =~= data@.take(i as int));
        }
        self.wpos = start + copied;
        assert(self@.pending =~= pend + data@.take(copied as int));
        Ok(copied)
    }

    /// Moves the pending bytes to the front of the buffer.
    fn compact(&mut self)
        ensures
            final(self).rpos == 0,
            final(self)@.pending == old(self)@.pending,
            final(self)@.wpos == old(self)@.pending.len(),
            final(self)@.cap == old(self)@.cap,
    {
        proof {
            use_type_invariant(&*self);
        }
        let ghost old_buf = self.buf@;
        let rpos = self.rpos;
        let len = self.wpos - rpos;
        let mut i: usize = 0;
        while i < len
            invariant
                0 <= i <= len,
                rpos + len == self.wpos,
                self.rpos == rpos,
                self.wpos <= self.buf@.len(),
                self.buf@.len() == old_buf.len(),
                self.buf@.subrange(0, i as int) == old_buf.subrange(rpos as int, rpos + i),
                forall|j: int| rpos + i <= j < self.wpos ==> self.buf@[j] == old_buf[j],
            decreases len - i,
        {
            let b = self.buf[rpos + i];
            self.buf[i] = b;
            i = i + 1;
            assert(self.buf@.subrange(0, i as int) =~= old_buf.subrange(rpos as int, rpos + i));
        }
        self.rpos = 0;
        self.wpos = len;
        assert(self@.pending =~= old_buf.subrange(rpos as int, rpos + len));
    }

    /// The next reply that the buffered bytes hold, sliding one byte past each
    /// offset where no frame can begin; `None` where more bytes are needed.
    pub fn next(&mut self) -> (r: Option<CommandReply>)
        ensures
            (final(self)@.pending, r) == next_spec(old(self)@.pending),
            final(self)@.wpos == old(self)@.wpos,
            final(self)@.wf(),
            final(self)@.cap == old(self)@.cap,
    {
        proof {
            use_type_invariant(&*self);
        }
        while self.rpos < self.wpos
            invariant
                self.wf(),
                self@.wpos == old(self)@.wpos,
                self@.cap == old(self)@.cap,
                next_spec(self@.pending) == next_spec(old(self)@.pending),
            decreases self.wpos - self.rpos,
        {
            let ghost p = self@.pending;
            match decode(vstd::slice::slice_subrange(self.buf.as_slice(), self.rpos, self.wpos)) {
                Ok((consumed, reply)) => {
                    proof {
                        crate::frame::lemma_decode_length(p);
                    }
                    self.rpos = self.rpos + consumed;
                    assert(self@.pending =~= p.skip(consumed as int));
                    return Some(reply);
                },
                Err(DecodeError::IncompleteData) => {
                    return None;
                },
                Err(_) => {},
            }
            self.rpos = self.rpos + 1;
            assert(self@.pending =~= p.skip(1));
        }
        None
    }

    /// Pulls replies until none is available, in the order they arrived.
    pub fn collect_replies(&mut self) -> (r: Vec<CommandReply>)
        ensures
            yields(old(self)@.pending, r@) is Some,
            next_spec(yields(old(self)@.pending, r@)->Some_0) == (final(self)@.pending, None::<
                CommandReply,
            >),
            final(self)@.wpos == old(self)@.wpos,
            final(self)@.wf(),
            final(self)@.cap == old(self)@.cap,
    {
        let mut out: Vec<CommandReply> = Vec::new();
        loop
            invariant_except_break
                yields(old(self)@.pending, out@) == Some(self@.pending),
            invariant
                self@.wpos == old(self)@.wpos,
                self@.cap == old(self)@.cap,
            ensures
                yields(old(self)@.pending, out@) is Some,
                next_spec(yields(old(self)@.pending, out@)->Some_0) == (self@.pending, None::<
                    CommandReply,
                >),
                self@.wpos == old(self)@.wpos,
                self@.cap == old(self)@.cap,
            decreases self@.pending.len(),
        {
            let ghost before = self@.pending;
            match self.next() {
                Some(reply) => {
                    proof {
                        lemma_next_consumes(before);
                        lemma_yields_snoc(old(self)@.pending, out@, reply);
                    }
                    out.push(reply);
                },
                None => {
                    break;
                },
            }
        }
        proof {
            use_type_invariant(&*self);
        }
        out
    }
}

impl Default for Decoder {
    fn default() -> (r: Self)
        ensures
            r@ == (DecoderState { pending: Seq::empty(), wpos: 0, cap: DEFAULT_CAPACITY as nat }),
    {
        Self::new()
    }
}

/// Whether decoding `s` fails for a reason other than missing data, so that
/// a pull slides past its first byte.
pub open spec fn fails_outright(s: Seq<u8>) -> bool {
    decode_spec(s) matches Err(e) && e != DecodeError::IncompleteData
}

/// Whether no offset of `junk` starts a decodable frame, nor one that waits for
/// more data, when `rest` follows it.
pub open spec fn undecodable_before(junk: Seq<u8>, rest: Seq<u8>) -> bool {
    forall|i: int| 0 <= i < junk.len() ==> fails_outright(#[trigger] junk.skip(i) + rest)
}

proof fn lemma_skip_junk(junk: Seq<u8>, rest: Seq<u8>)
    requires
        undecodable_before(junk, rest),
    ensures
        next_spec(junk + rest) == next_spec(rest),
    decreases junk.len(),
{
    if junk.len() > 0 {
        assert(junk.skip(0) == junk);
        assert(fails_outright(junk.skip(0) + rest));
        assert((junk + rest).skip(1) == junk.skip(1) + rest);
        assert forall|i: int| 0 <= i < junk.skip(1).len() implies fails_outright(
            #[trigger] junk.skip(1).skip(i) + rest,
        ) by {
            assert(junk.skip(1).skip(i) == junk.skip(i + 1));
        }
        lemma_skip_junk(junk.skip(1), rest);
    } else {
        assert(junk + rest == rest);
    }
}

proof fn lemma_pull_frame(f: Seq<u8>, rest: Seq<u8>)
    requires
        decode_spec(f) matches Ok((n, _)) && n == f.len(),
    ensures
        next_spec(f + rest) == (rest, Some(decode_spec(f)->Ok_0.1)),
{
    crate::frame::lemma_decode_length(f);
    crate::frame::lemma_decode_extend(f, rest);
    assert((f + rest).skip(f.len() as int) == rest);
}

/// Two frames with junk between them are both pulled, in order, wherever no
/// offset of the junk starts a frame that decodes or waits for more data; the
/// junk may hold start markers.
pub proof fn lemma_junk_between_frames(f1: Seq<u8>, junk: Seq<u8>, f2: Seq<u8>)
    requires
        decode_spec(f1) matches Ok((n, _)) && n == f1.len(),
        decode_spec(f2) matches Ok((n, _)) && n == f2.len(),
        undecodable_before(junk, f2),
    ensures
        yields(f1 + junk + f2, seq![decode_spec(f1)->Ok_0.1, decode_spec(f2)->Ok_0.1]) == Some(
            Seq::<u8>::empty(),
        ),
{
    let rs = seq![decode_spec(f1)->Ok_0.1, decode_spec(f2)->Ok_0.1];
    assert(f1 + junk + f2 == f1 + (junk + f2));
    lemma_pull_frame(f1, junk + f2);
    lemma_skip_junk(junk, f2);
    lemma_pull_frame(f2, Seq::empty());
    assert(f2 + Seq::<u8>::empty() == f2);
    assert(rs.skip(1) == seq![decode_spec(f2)->Ok_0.1]);
    assert(rs.skip(1).skip(1) == Seq::<CommandReply>::empty());
    assert(yields(Seq::<u8>::empty(), rs.skip(1).skip(1)) == Some(Seq::<u8>::empty()));
    assert(next_spec(junk + f2) == (Seq::<u8>::empty(), Some(rs.skip(1)[0])));
    assert(yields(junk + f2, rs.skip(1)) == Some(Seq::<u8>::empty()));
    assert(next_spec(f1 + junk + f2) == (junk + f2, Some(rs[0])));
}

/// A frame with a wrong checksum between two frames is skipped, and both
/// frames are pulled in order, wherever no later offset of the bad frame
/// starts a frame that decodes or waits for more data.
pub proof fn lemma_corrupted_frame_skipped(f1: Seq<u8>, bad: Seq<u8>, f2: Seq<u8>)
    requires
        decode_spec(f1) matches Ok((n, _)) && n == f1.len(),
        decode_spec(f2) matches Ok((n, _)) && n == f2.len(),
        decode_spec(bad + f2) matches Err(DecodeError::ChecksumMismatch { .. }),
        undecodable_before(bad.skip(1), f2),
    ensures
        yields(f1 + bad + f2, seq![decode_spec(f1)->Ok_0.1, decode_spec(f2)->Ok_0.1]) == Some(
            Seq::<u8>::empty(),
        ),
{
    assert forall|i: int| 0 <= i < bad.len() implies fails_outright(#[trigger] bad.skip(i) + f2) by {
        if i == 0 {
            assert(bad.skip(0) == bad);
        } else {
            assert(bad.skip(1).skip(i - 1) == bad.skip(i));
        }
    }
    lemma_junk_between_frames(f1, bad, f2);
}

/// The bytes of `chunks`, one after the other.
pub open spec fn concat(chunks: Seq<Seq<u8>>) -> Seq<u8>
    decreases chunks.len(),
{
    if chunks.len() == 0 {
        Seq::empty()
    } else {
        chunks[0] + concat(chunks.skip(1))
    }
}

/// What each pull returns when every chunk is fed and then pulled from.
pub open spec fn pulls_after_feeds(st: DecoderState, chunks: Seq<Seq<u8>>) -> Seq<
    Option<CommandReply>,
>
    decreases chunks.len(),
{
    if chunks.len() == 0 {
        Seq::empty()
    } else {
        let fed = feed_spec(st, chunks[0]).0;
        let (p, r) = next_spec(fed.pending);
        seq![r] + pulls_after_feeds(DecoderState { pending: p, ..fed }, chunks.skip(1))
    }
}

/// Feeding a non-empty chunk that fits beside the pending bytes takes all of
/// it and keeps every pending byte: they and the chunk are pending after.
pub proof fn lemma_feed_appends(st: DecoderState, data: Seq<u8>)
    requires
        st.wf(),
        data.len() > 0,
        st.pending.len() + data.len() <= st.cap,
    ensures
        feed_spec(st, data).1 == data.len(),
        feed_spec(st, data).0.pending == st.pending + data,
        feed_spec(st, data).0.cap == st.cap,
        feed_spec(st, data).0.wf(),
{
    assert(data.take(data.len() as int) == data);
}

/// Pulling from the bytes of a frame fed so far: nothing, and nothing
/// consumed, while a proper prefix is pending; the frame's reply, and nothing
/// left, once all of it is; and then nothing.
pub proof fn lemma_pull_frame_prefix(f: Seq<u8>, k: int)
    requires
        decode_spec(f) matches Ok((n, _)) && n == f.len(),
        0 <= k <= f.len(),
    ensures
        k < f.len() ==> next_spec(f.take(k)) == (f.take(k), None::<CommandReply>),
        k == f.len() ==> next_spec(f.take(k)) == (Seq::<u8>::empty(), Some(
            decode_spec(f)->Ok_0.1,
        )),
        next_spec(Seq::<u8>::empty()) == (Seq::<u8>::empty(), None::<CommandReply>),
{
    if k < f.len() {
        crate::frame::lemma_truncated_frame_incomplete(f, k);
    } else {
        assert(f.take(k) == f);
        lemma_pull_frame(f, Seq::empty());
        assert(f + Seq::<u8>::empty() == f);
    }
}

/// `k` pulls of which only the last yields `r`.
pub open spec fn last_only(k: nat, r: CommandReply) -> Seq<Option<CommandReply>> {
    Seq::new(k, |i: int| if i + 1 < k { None } else { Some(r) })
}

proof fn lemma_chunks_from(st: DecoderState, chunks: Seq<Seq<u8>>, f: Seq<u8>)
    requires
        st.wf(),
        st.pending + concat(chunks) == f,
        chunks.len() > 0,
        forall|i: int| 0 <= i < chunks.len() ==> (#[trigger] chunks[i]).len() > 0,
        decode_spec(f) matches Ok((n, _)) && n == f.len(),
        f.len() <= st.cap,
    ensures
        pulls_after_feeds(st, chunks) == last_only(chunks.len(), decode_spec(f)->Ok_0.1),
    decreases chunks.len(),
{
    let c = chunks[0];
    let done = st.pending;
    let r = decode_spec(f)->Ok_0.1;
    assert(chunks.skip(1).len() + 1 == chunks.len());
    assert(c.len() > 0);
    let fed = feed_spec(st, c).0;
    assert(c.take(c.len() as int) == c);
    assert(fed.pending == done + c);
    assert(fed.wf());
    let p = done + c;
    assert(f == p + concat(chunks.skip(1)));
    let st2 = DecoderState { pending: next_spec(p).0, ..fed };
    if chunks.len() == 1 {
        assert(concat(chunks.skip(1)) == Seq::<u8>::empty());
        assert(p == f);
        lemma_pull_frame(f, Seq::empty());
        assert(f + Seq::<u8>::empty() == f);
        assert(pulls_after_feeds(st2, chunks.skip(1)) == Seq::<Option<CommandReply>>::empty());
        assert(pulls_after_feeds(st, chunks) =~= last_only(1, r));
    } else {
        assert(chunks[1].len() > 0);
        assert(concat(chunks.skip(1)).len() > 0);
        assert(p == f.take(p.len() as int));
        crate::frame::lemma_truncated_frame_incomplete(f, p.len() as int);
        assert(next_spec(p) == (p, None::<CommandReply>));
        assert forall|i: int| 0 <= i < chunks.skip(1).len() implies (
        #[trigger] chunks.skip(1)[i]).len() > 0 by {
            assert(chunks.skip(1)[i] == chunks[i + 1]);
        }
        lemma_chunks_from(st2, chunks.skip(1), f);
        assert(pulls_after_feeds(st, chunks) =~= last_only(chunks.len(), r));
    }
}

/// A frame fed in non-empty chunks into a decoder with nothing pending and
/// room for the frame: a pull after each chunk finds nothing until the last
/// chunk, and then the frame's reply.
pub proof fn lemma_chunked_frame(st: DecoderState, chunks: Seq<Seq<u8>>)
    requires
        st.wf(),
        st.pending.len() == 0,
        chunks.len() > 0,
        forall|i: int| 0 <= i < chunks.len() ==> (#[trigger] chunks[i]).len() > 0,
        decode_spec(concat(chunks)) matches Ok((n, _)) && n == concat(chunks).len(),
        concat(chunks).len() <= st.cap,
    ensures
        pulls_after_feeds(st, chunks) == last_only(
            chunks.len(),
            decode_spec(concat(chunks))->Ok_0.1,
        ),
{
    assert(st.pending + concat(chunks) == concat(chunks));
    lemma_chunks_from(st, chunks, concat(chunks));
}

} // verus!
