//! Reassembly of newline-delimited records from an arbitrarily chunked byte
//! stream.
//!
//! A `FrameBuffer` accumulates raw transport bytes and hands out complete
//! newline-terminated lines one at a time, carrying any trailing partial line
//! forward until a later append supplies its terminator.

use vstd::prelude::*;

verus! {

/// The line terminator byte (`\n`).
pub const NEWLINE: u8 = 10;

/// Index of the first newline byte in `s`, or `-1` when `s` holds none.
pub open spec fn first_newline(s: Seq<u8>) -> int
    decreases s.len(),
{
    if s.len() == 0 {
        -1
    } else if s[0] == NEWLINE {
        0
    } else {
        let r = first_newline(s.drop_first());
        if r < 0 {
            -1
        } else {
            r + 1
        }
    }
}

/// The complete (terminator-ended) lines of `s`, in order, each without its
/// terminator.
pub open spec fn complete_lines(s: Seq<u8>) -> Seq<Seq<u8>>
    decreases s.len(),
{
    let i = first_newline(s);
    if 0 <= i < s.len() {
        seq![s.take(i)] + complete_lines(s.skip(i + 1))
    } else {
        Seq::empty()
    }
}

/// The bytes of `s` after its last terminator: the partial line still
/// awaiting completion.
pub open spec fn residual(s: Seq<u8>) -> Seq<u8>
    decreases s.len(),
{
    let i = first_newline(s);
    if 0 <= i < s.len() {
        residual(s.skip(i + 1))
    } else {
        s
    }
}

/// `first_newline` returns the least newline position, or `-1` when there is
/// none.
pub proof fn lemma_first_newline(s: Seq<u8>)
    ensures
        first_newline(s) >= 0 ==> first_newline(s) < s.len() && s[first_newline(s)] == NEWLINE
            && (forall|j: int| 0 <= j < first_newline(s) ==> s[j] != NEWLINE),
        first_newline(s) < 0 ==> forall|j: int| 0 <= j < s.len() ==> s[j] != NEWLINE,
    decreases s.len(),
{
    if s.len() == 0 {
    } else if s[0] == NEWLINE {
    } else {
        let t = s.drop_first();
        lemma_first_newline(t);
        if first_newline(t) >= 0 {
            assert(s[first_newline(s)] == t[first_newline(t)]);
            assert forall|j: int| 0 <= j < first_newline(s) implies s[j] != NEWLINE by {
                if j > 0 {
                    assert(s[j] == t[j - 1]);
                }
            }
        } else {
            assert forall|j: int| 0 <= j < s.len() implies s[j] != NEWLINE by {
                if j > 0 {
                    assert(s[j] == t[j - 1]);
                }
            }
        }
    }
}

/// A newline at `i` with none before it pins `first_newline(s)` to `i`.
pub proof fn lemma_first_newline_at(s: Seq<u8>, i: int)
    requires
        0 <= i < s.len(),
        s[i] == NEWLINE,
        forall|j: int| 0 <= j < i ==> s[j] != NEWLINE,
    ensures
        first_newline(s) == i,
{
    lemma_first_newline(s);
    let f = first_newline(s);
    if f < 0 {
        assert(s[i] != NEWLINE);
    } else if f < i {
        assert(s[f] != NEWLINE);
    } else if f > i {
        assert(s[i] != NEWLINE);
    }
}

/// Chunk-boundary independence: however the input is split, feeding a further
/// chunk `b` after the residue of `a` yields exactly the lines of `a + b`
/// beyond those of `a`, and the same final residue.  Repeated over a whole
/// sequence of chunks, the lines extracted equal the lines of the chunks'
/// concatenation.
pub proof fn lemma_lines_chunk_independent(a: Seq<u8>, b: Seq<u8>)
    ensures
        complete_lines(a + b) == complete_lines(a) + complete_lines(residual(a) + b),
        residual(a + b) == residual(residual(a) + b),
    decreases a.len(),
{
    lemma_first_newline(a);
    let i = first_newline(a);
    if 0 <= i < a.len() {
        assert(forall|j: int| 0 <= j < i ==> (a + b)[j] == a[j]);
        assert((a + b)[i] == a[i]);
        lemma_first_newline_at(a + b, i);
        assert((a + b).take(i) =~= a.take(i));
        assert((a + b).skip(i + 1) =~= a.skip(i + 1) + b);
        lemma_lines_chunk_independent(a.skip(i + 1), b);
        assert(complete_lines(a + b) == seq![a.take(i)] + complete_lines(a.skip(i + 1) + b));
        assert(residual(a) == residual(a.skip(i + 1)));
        assert(complete_lines(a) == seq![a.take(i)] + complete_lines(a.skip(i + 1)));
        assert(seq![a.take(i)] + (complete_lines(a.skip(i + 1)) + complete_lines(
            residual(a.skip(i + 1)) + b,
        )) =~= (seq![a.take(i)] + complete_lines(a.skip(i + 1))) + complete_lines(
            residual(a.skip(i + 1)) + b,
        ));
    } else {
        assert(residual(a) == a);
        assert(complete_lines(a) =~= Seq::<Seq<u8>>::empty());
        assert(a + b =~= residual(a) + b);
        assert(complete_lines(a) + complete_lines(residual(a) + b) =~= complete_lines(
            residual(a) + b,
        ));
    }
}

/// A byte sequence with no terminator holds no complete line: it is all
/// residue, pending a later append.
pub proof fn lemma_partial_line_pends(s: Seq<u8>)
    requires
        forall|j: int| 0 <= j < s.len() ==> s[j] != NEWLINE,
    ensures
        complete_lines(s) == Seq::<Seq<u8>>::empty(),
        residual(s) == s,
{
    lemma_first_newline(s);
    if first_newline(s) >= 0 {
        assert(s[first_newline(s)] == NEWLINE);
    }
}

/// Bytes received from the transport but not yet resolved into a complete
/// line.
pub struct FrameBuffer {
    data: Vec<u8>,
}

impl View for FrameBuffer {
    type V = Seq<u8>;

    closed spec fn view(&self) -> Seq<u8> {
        self.data@
    }
}

impl FrameBuffer {
    /// An empty buffer.
    pub fn new() -> (r: FrameBuffer)
        ensures
            r@ == Seq::<u8>::empty(),
    {
        FrameBuffer { data: Vec::new() }
    }

    /// Adds received bytes to the tail of the buffer.
    pub fn append(&mut self, chunk: &[u8])
        ensures
            final(self)@ == old(self)@ + chunk@,
    {
        let mut j: usize = 0;
        while j < chunk.len()
            invariant
                j <= chunk.len(),
                self.data@ == old(self).data@ + chunk@.take(j as int),
            decreases chunk.len() - j,
        {
            self.data.push(chunk[j]);
            j += 1;
            proof {
                assert(old(self).data@ + chunk@.take(j as int) =~= (old(self).data@ + chunk@.take(
                    j - 1,
                )).push(chunk@[j - 1]));
            }
        }
        proof {
            assert(chunk@.take(chunk@.len() as int) =~= chunk@);
        }
    }

    /// Removes and returns the first complete line (without its terminator),
    /// or returns `None`, leaving the buffer unchanged, when no terminator is
    /// present.
    pub fn extract_line(&mut self) -> (r: Option<Vec<u8>>)
        ensures
            ({
                let i = first_newline(old(self)@);
                if 0 <= i < old(self)@.len() {
                    r matches Some(line) && line@ == old(self)@.take(i) && final(self)@ == old(
                        self,
                    )@.skip(i + 1)
                } else {
                    r is None && final(self)@ == old(self)@
                }
            }),
    {
        let n = self.data.len();
        let mut i: usize = 0;
        let mut found = false;
        while i < n && !found
            invariant
                i <= n,
                n == self.data@.len(),
                self.data@ == old(self).data@,
                forall|j: int| 0 <= j < i ==> self.data@[j] != NEWLINE,
                found ==> i < n && self.data@[i as int] == NEWLINE,
            decreases n - i + (if found { 0int } else { 1int }),
        {
            if self.data[i] == NEWLINE {
                found = true;
            } else {
                i += 1;
            }
        }
        if !found {
            proof {
                lemma_first_newline(self.data@);
                if first_newline(self.data@) >= 0 {
                    assert(self.data@[first_newline(self.data@)] == NEWLINE);
                }
            }
            return None;
        }
        proof {
            lemma_first_newline_at(self.data@, i as int);
        }
        let mut line: Vec<u8> = Vec::new();
        let mut k: usize = 0;
        while k < i
            invariant
                k <= i < n,
                n == self.data@.len(),
                self.data@ == old(self).data@,
                line@ == self.data@.take(k as int),
            decreases i - k,
        {
            line.push(self.data[k]);
            k += 1;
            proof {
                assert(self.data@.take(k as int) =~= self.data@.take(k - 1).push(
                    self.data@[k - 1],
                ));
            }
        }
        let mut rest: Vec<u8> = Vec::new();
        let mut m: usize = i + 1;
        while m < n
            invariant
                i + 1 <= m <= n,
                n == self.data@.len(),
                self.data@ == old(self).data@,
                rest@ == self.data@.subrange(i + 1, m as int),
            decreases n - m,
        {
            rest.push(self.data[m]);
            m += 1;
            proof {
                assert(self.data@.subrange(i + 1, m as int) =~= self.data@.subrange(
                    i + 1,
                    m - 1,
                ).push(self.data@[m - 1]));
            }
        }
        proof {
            assert(rest@ =~= self.data@.skip(i + 1));
        }
        self.data = rest;
        Some(line)
    }

    /// True when the buffer holds a complete line ready for extraction.
    pub fn has_complete_line(&self) -> (r: bool)
        ensures
            r == (0 <= first_newline(self@) < self@.len()),
    {
        let n = self.data.len();
        let mut i: usize = 0;
        while i < n
            invariant
                i <= n,
                n == self.data@.len(),
                forall|j: int| 0 <= j < i ==> self.data@[j] != NEWLINE,
            decreases n - i,
        {
            if self.data[i] == NEWLINE {
                proof {
                    lemma_first_newline_at(self.data@, i as int);
                }
                return true;
            }
            i += 1;
        }
        proof {
            lemma_first_newline(self.data@);
            if first_newline(self.data@) >= 0 {
                assert(self.data@[first_newline(self.data@)] == NEWLINE);
            }
        }
        false
    }

    /// The number of buffered bytes not yet resolved into a line.
    pub fn pending_len(&self) -> (r: usize)
        ensures
            r == self@.len(),
    {
        self.data.len()
    }
}

} // verus!
