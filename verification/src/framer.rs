//! Wire framing: each encoded message is followed by the four-byte
//! terminator `----`. The splitter turns an arbitrarily fragmented byte
//! stream into the sequence of complete message payloads, holding back
//! any trailing incomplete remainder for the next read.

use vstd::prelude::*;

verus! {

broadcast use vstd::std_specs::vec::group_vec_axioms;

/// The fixed byte sequence that terminates each encoded message:
/// four ASCII hyphens.
pub open spec fn terminator() -> Seq<u8> {
    seq![45u8, 45u8, 45u8, 45u8]
}

/// Whether `s` ends with the terminator.
pub open spec fn ends_with_term(s: Seq<u8>) -> bool {
    s.len() >= 4 && s.subrange(s.len() - 4, s.len() as int) == terminator()
}

/// Feeding one byte to the splitter completes a segment exactly when the
/// grown partial buffer now ends with the terminator.
pub open spec fn step_emits(buf: Seq<u8>, b: u8) -> bool {
    ends_with_term(buf.push(b))
}

/// The partial buffer after feeding one byte: cleared if a segment came
/// out, grown by the byte otherwise.
pub open spec fn step_buf(buf: Seq<u8>, b: u8) -> Seq<u8> {
    if step_emits(buf, b) {
        Seq::empty()
    } else {
        buf.push(b)
    }
}

/// The segment completed by feeding one byte: everything in the grown
/// buffer before the terminator. Meaningful only when `step_emits` holds.
pub open spec fn step_seg(buf: Seq<u8>, b: u8) -> Seq<u8> {
    buf.push(b).take(buf.len() + 1 - 4)
}

/// The partial buffer left after feeding the whole chunk `s` onto `buf`.
pub open spec fn feed_buf(buf: Seq<u8>, s: Seq<u8>) -> Seq<u8>
    decreases s.len(),
{
    if s.len() == 0 {
        buf
    } else {
        feed_buf(step_buf(buf, s[0]), s.skip(1))
    }
}

/// The complete segments emitted while feeding the chunk `s` onto `buf`,
/// in order.
pub open spec fn feed_out(buf: Seq<u8>, s: Seq<u8>) -> Seq<Seq<u8>>
    decreases s.len(),
{
    if s.len() == 0 {
        Seq::empty()
    } else if step_emits(buf, s[0]) {
        seq![step_seg(buf, s[0])] + feed_out(Seq::empty(), s.skip(1))
    } else {
        feed_out(buf.push(s[0]), s.skip(1))
    }
}

/// Splitting a stream anywhere changes nothing: feeding `a` and then `b`
/// leaves the same buffer and emits the same segments, in the same order,
/// as feeding `a + b` at once. Fragmented reads and multi-message reads
/// both come down to this law.
pub proof fn lemma_feed_append(buf: Seq<u8>, a: Seq<u8>, b: Seq<u8>)
    ensures
        feed_buf(buf, a + b) == feed_buf(feed_buf(buf, a), b),
        feed_out(buf, a + b) == feed_out(buf, a) + feed_out(feed_buf(buf, a), b),
    decreases a.len(),
{
    if a.len() == 0 {
        assert(a + b =~= b);
        assert(feed_out(buf, a) + feed_out(feed_buf(buf, a), b) =~= feed_out(buf, b));
    } else {
        assert((a + b)[0] == a[0]);
        assert((a + b).skip(1) =~= a.skip(1) + b);
        lemma_feed_append(step_buf(buf, a[0]), a.skip(1), b);
        if step_emits(buf, a[0]) {
            assert(seq![step_seg(buf, a[0])] + (feed_out(Seq::empty(), a.skip(1)) + feed_out(
                feed_buf(buf, a),
                b,
            )) =~= feed_out(buf, a) + feed_out(feed_buf(buf, a), b));
        }
    }
}

/// Feeding one more byte after a chunk is one `step` on the buffer the
/// chunk left behind.
pub proof fn lemma_feed_snoc(buf: Seq<u8>, s: Seq<u8>, x: u8)
    ensures
        feed_buf(buf, s.push(x)) == step_buf(feed_buf(buf, s), x),
        step_emits(feed_buf(buf, s), x) ==> feed_out(buf, s.push(x)) == feed_out(buf, s).push(
            step_seg(feed_buf(buf, s), x),
        ),
        !step_emits(feed_buf(buf, s), x) ==> feed_out(buf, s.push(x)) == feed_out(buf, s),
{
    assert(s.push(x) =~= s + seq![x]);
    lemma_feed_append(buf, s, seq![x]);
    let fb = feed_buf(buf, s);
    assert(seq![x][0] == x);
    assert(seq![x].skip(1) =~= Seq::<u8>::empty());
    assert(feed_buf(step_buf(fb, x), Seq::<u8>::empty()) == step_buf(fb, x));
    assert(feed_buf(fb, seq![x]) == feed_buf(step_buf(fb, seq![x][0]), seq![x].skip(1)));
    assert(feed_buf(fb, seq![x]) == step_buf(fb, x));
    assert(feed_out(step_buf(fb, x), Seq::<u8>::empty()) == Seq::<Seq<u8>>::empty());
    assert(feed_out(Seq::<u8>::empty(), Seq::<u8>::empty()) == Seq::<Seq<u8>>::empty());
    if step_emits(fb, x) {
        assert(feed_out(fb, seq![x]) == seq![step_seg(fb, seq![x][0])] + feed_out(
            Seq::<u8>::empty(),
            seq![x].skip(1),
        ));
        assert(feed_out(fb, seq![x]) =~= seq![step_seg(fb, x)]);
        assert(feed_out(buf, s) + seq![step_seg(fb, x)] =~= feed_out(buf, s).push(
            step_seg(fb, x),
        ));
    } else {
        assert(feed_out(fb.push(x), Seq::<u8>::empty()) == Seq::<Seq<u8>>::empty());
        assert(feed_out(fb, seq![x]) == feed_out(fb.push(seq![x][0]), seq![x].skip(1)));
        assert(feed_out(fb, seq![x]) =~= Seq::<Seq<u8>>::empty());
        assert(feed_out(buf, s) + Seq::<Seq<u8>>::empty() =~= feed_out(buf, s));
    }
}

/// A payload that the framing carries faithfully: it contains no
/// occurrence of the terminator and does not end with a hyphen, so the
/// terminator appended after it is the first one the splitter sees.
pub open spec fn clean_payload(s: Seq<u8>) -> bool {
    &&& forall|i: int| 0 <= i && i + 4 <= s.len() ==> #[trigger] s.subrange(i, i + 4) != terminator()
    &&& s.len() > 0 ==> s[s.len() - 1] != 45u8
}

/// One encoded message on the wire: the payload, then the terminator.
pub open spec fn framed(payload: Seq<u8>) -> Seq<u8> {
    payload + terminator()
}

/// Feeding bytes that never complete the terminator just accumulates them.
proof fn lemma_feed_quiet(buf: Seq<u8>, s: Seq<u8>)
    requires
        forall|k: int| 1 <= k <= s.len() ==> !ends_with_term(#[trigger] (buf + s.take(k))),
    ensures
        feed_buf(buf, s) == buf + s,
        feed_out(buf, s) == Seq::<Seq<u8>>::empty(),
    decreases s.len(),
{
    if s.len() == 0 {
        assert(buf + s =~= buf);
    } else {
        assert(buf.push(s[0]) =~= buf + s.take(1));
        assert(!step_emits(buf, s[0]));
        assert forall|k: int| 1 <= k <= s.skip(1).len() implies !ends_with_term(
            #[trigger] (buf.push(s[0]) + s.skip(1).take(k)),
        ) by {
            assert(buf.push(s[0]) + s.skip(1).take(k) =~= buf + s.take(k + 1));
        }
        lemma_feed_quiet(buf.push(s[0]), s.skip(1));
        assert(buf.push(s[0]) + s.skip(1) =~= buf + s);
    }
}

/// No prefix of a clean payload followed by up to three terminator bytes
/// ever ends with the terminator.
proof fn lemma_clean_prefix_quiet(m: Seq<u8>, k: int)
    requires
        clean_payload(m),
        1 <= k <= m.len() + 3,
    ensures
        !ends_with_term(framed(m).take(k)),
{
    let f = framed(m);
    assert(terminator()[0] == 45u8 && terminator()[1] == 45u8 && terminator()[2] == 45u8
        && terminator()[3] == 45u8);
    if ends_with_term(f.take(k)) {
        assert(f.take(k).len() == k);
        assert(k >= 4);
        let w = f.take(k).subrange(k - 4, k);
        assert(w == terminator());
        if k <= m.len() {
            assert(f.take(k) =~= m.take(k));
            assert(m.take(k).subrange(k - 4, k) =~= m.subrange(k - 4, (k - 4) + 4 as int));
            assert(m.subrange(k - 4, (k - 4) + 4 as int) == terminator());
            assert(false);
        } else {
            // the window of the last four bytes still covers the last
            // byte of m, which is not a hyphen
            assert(m.len() >= 1);
            let last = m.len() - 1;
            let j = last - (k - 4);
            assert(0 <= j < 4);
            assert(w[j] == f.take(k)[last]);
            assert(f.take(k)[last] == f[last]);
            assert(f[last] == m[last]);
            assert(w[j] == terminator()[j]);
            assert(terminator()[j] == 45u8);
            assert(m[last] != 45u8);
            assert(false);
        }
    }
}

/// One well-framed message decodes to exactly that message: feeding
/// `payload + terminator` into an empty splitter emits the payload as the
/// single segment and leaves the buffer empty.
pub proof fn lemma_frame_decodes(m: Seq<u8>)
    requires
        clean_payload(m),
    ensures
        feed_buf(Seq::empty(), framed(m)) == Seq::<u8>::empty(),
        feed_out(Seq::empty(), framed(m)) == seq![m],
{
    let f = framed(m);
    let head = f.take(f.len() - 1);
    assert(f.len() == m.len() + 4);
    assert forall|k: int| 1 <= k <= head.len() implies !ends_with_term(
        #[trigger] (Seq::<u8>::empty() + head.take(k)),
    ) by {
        assert(Seq::<u8>::empty() + head.take(k) =~= f.take(k));
        lemma_clean_prefix_quiet(m, k);
    }
    lemma_feed_quiet(Seq::empty(), head);
    assert(feed_buf(Seq::empty(), head) =~= head);
    lemma_feed_snoc(Seq::empty(), head, f[f.len() - 1]);
    assert(head.push(f[f.len() - 1]) =~= f);
    assert(head.push(f[f.len() - 1]).subrange(m.len() as int, m.len() + 4 as int) =~= terminator());
    assert(step_emits(head, f[f.len() - 1]));
    assert(step_seg(head, f[f.len() - 1]) =~= m);
    assert(Seq::<Seq<u8>>::empty().push(m) =~= seq![m]);
}

/// An encoded message split at any byte offset and fed as two reads
/// yields exactly the one payload, the same as feeding it unsplit.
pub proof fn lemma_fragmented_frame(m: Seq<u8>, cut: int)
    requires
        clean_payload(m),
        0 <= cut <= framed(m).len(),
    ensures
        feed_out(Seq::empty(), framed(m).take(cut)) + feed_out(
            feed_buf(Seq::empty(), framed(m).take(cut)),
            framed(m).skip(cut),
        ) == seq![m],
        feed_buf(feed_buf(Seq::empty(), framed(m).take(cut)), framed(m).skip(cut))
            == Seq::<u8>::empty(),
{
    let f = framed(m);
    assert(f.take(cut) + f.skip(cut) =~= f);
    lemma_feed_append(Seq::empty(), f.take(cut), f.skip(cut));
    lemma_frame_decodes(m);
}

/// Two framed messages concatenated into one read decode to exactly the
/// two payloads, in order.
pub proof fn lemma_two_frames(m1: Seq<u8>, m2: Seq<u8>)
    requires
        clean_payload(m1),
        clean_payload(m2),
    ensures
        feed_out(Seq::empty(), framed(m1) + framed(m2)) == seq![m1, m2],
        feed_buf(Seq::empty(), framed(m1) + framed(m2)) == Seq::<u8>::empty(),
{
    lemma_feed_append(Seq::empty(), framed(m1), framed(m2));
    lemma_frame_decodes(m1);
    lemma_frame_decodes(m2);
    assert(seq![m1] + seq![m2] =~= seq![m1, m2]);
}

/// The per-connection splitter: owns the accumulation buffer for one byte
/// stream. Each connection gets its own; there is no cross-connection
/// state.
pub struct Framer {
    buffer: Vec<u8>,
}

impl Framer {
    /// The bytes accumulated so far that no terminator has closed.
    pub closed spec fn buf(self) -> Seq<u8> {
        self.buffer@
    }

    pub fn new() -> (r: Framer)
        ensures
            r.buf() == Seq::<u8>::empty(),
    {
        Framer { buffer: Vec::new() }
    }

    /// Whether the accumulated bytes currently end with the terminator.
    fn ends_with_terminator(&self) -> (r: bool)
        ensures
            r == ends_with_term(self.buf()),
    {
        let n = self.buffer.len();
        if n < 4 {
            return false;
        }
        let r = self.buffer[n - 4] == 45u8 && self.buffer[n - 3] == 45u8 && self.buffer[n - 2]
            == 45u8 && self.buffer[n - 1] == 45u8;
        proof {
            let tail = self.buffer@.subrange(n - 4, n as int);
            assert(tail.len() == 4);
            assert(tail[0] == self.buffer@[n - 4]);
            assert(tail[1] == self.buffer@[n - 3]);
            assert(tail[2] == self.buffer@[n - 2]);
            assert(tail[3] == self.buffer@[n - 1]);
            if r {
                assert(tail =~= terminator());
            } else {
                assert(tail != terminator());
            }
        }
        r
    }

    /// Remove the terminator from the end of the buffer, hand out the
    /// segment before it, and clear the buffer.
    fn take_segment(&mut self) -> (seg: Vec<u8>)
        requires
            old(self).buf().len() >= 4,
        ensures
            seg@ == old(self).buf().take(old(self).buf().len() - 4),
            final(self).buf() == Seq::<u8>::empty(),
    {
        let n = self.buffer.len();
        let mut seg: Vec<u8> = Vec::new();
        let mut i: usize = 0;
        while i < n - 4
            invariant
                self.buffer@.len() == n,
                4 <= n,
                i <= n - 4,
                seg@ == self.buffer@.take(i as int),
            decreases n - 4 - i,
        {
            seg.push(self.buffer[i]);
            proof {
                assert(self.buffer@.take(i + 1) =~= self.buffer@.take(i as int).push(
                    self.buffer@[i as int],
                ));
            }
            i += 1;
        }
        self.buffer.clear();
        seg
    }

    /// Feed one read's worth of bytes; the complete segments they finish
    /// come out in order, and the incomplete remainder stays buffered.
    pub fn push(&mut self, chunk: &[u8]) -> (out: Vec<Vec<u8>>)
        ensures
            final(self).buf() == feed_buf(old(self).buf(), chunk@),
            out.deep_view() == feed_out(old(self).buf(), chunk@),
    {
        let mut out: Vec<Vec<u8>> = Vec::new();
        let ghost buf0 = self.buffer@;
        proof {
            assert(out.deep_view() =~~= Seq::<Seq<u8>>::empty());
            assert(chunk@.take(0) =~= Seq::<u8>::empty());
        }
        let mut i: usize = 0;
        while i < chunk.len()
            invariant
                i <= chunk.len(),
                self.buffer@ == feed_buf(buf0, chunk@.take(i as int)),
                out.deep_view() == feed_out(buf0, chunk@.take(i as int)),
            decreases chunk.len() - i,
        {
            let ghost pre = self.buffer@;
            let b = chunk[i];
            self.buffer.push(b);
            proof {
                lemma_feed_snoc(buf0, chunk@.take(i as int), b);
                assert(chunk@.take(i + 1) =~= chunk@.take(i as int).push(chunk@[i as int]));
            }
            if self.ends_with_terminator() {
                let ghost out_pre = out.deep_view();
                let seg = self.take_segment();
                proof {
                    assert(step_emits(pre, b));
                    assert(seg@ =~= step_seg(pre, b));
                }
                out.push(seg);
                proof {
                    assert(out.deep_view() =~~= (out_pre.push(seg@)));
                }
            } else {
                proof {
                    assert(self.buffer@ =~= step_buf(pre, b));
                }
            }
            i += 1;
        }
        proof {
            assert(chunk@.take(chunk.len() as int) =~= chunk@);
        }
        out
    }
}

/// Frame one payload for the wire: the payload's bytes, then the
/// terminator.
pub fn encode_frame(payload: &[u8]) -> (r: Vec<u8>)
    ensures
        r@ == framed(payload@),
{
    let mut r: Vec<u8> = Vec::new();
    let mut i: usize = 0;
    while i < payload.len()
        invariant
            i <= payload.len(),
            r@ == payload@.take(i as int),
        decreases payload.len() - i,
    {
        r.push(payload[i]);
        proof {
            assert(payload@.take(i + 1) =~= payload@.take(i as int).push(payload@[i as int]));
        }
        i += 1;
    }
    proof {
        assert(payload@.take(payload.len() as int) =~= payload@);
    }
    r.push(45u8);
    r.push(45u8);
    r.push(45u8);
    r.push(45u8);
    proof {
        assert(r@ =~= framed(payload@));
    }
    r
}

} // verus!
