//! Streaming extraction of CR/LF-delimited telemetry lines.
//!
//! `CrlfStream` is a fixed-capacity byte window that ingests raw bytes and
//! lazily extracts lines ending in `\r\n`, delimiter included. Any byte is
//! valid line content, so there is no resynchronization: the window only
//! compacts when it is completely full and no line is present.

use vstd::prelude::*;

verus! {

/// Index of the first `\n` at or after `from` that directly follows a `\r`,
/// if any.
pub open spec fn find_crlf_from(s: Seq<u8>, from: int) -> Option<int>
    decreases s.len() - from,
{
    if from >= s.len() || from < 1 {
        None
    } else if s[from - 1] == 13 && s[from] == 10 {
        Some(from)
    } else {
        find_crlf_from(s, from + 1)
    }
}

/// Index of the `\n` ending the first complete line of `s`, if any.
pub open spec fn find_crlf(s: Seq<u8>) -> Option<int> {
    find_crlf_from(s, 1)
}

/// A found delimiter lies inside the sequence.
pub proof fn lemma_find_crlf_bounds(s: Seq<u8>, from: int)
    requires
        from >= 1,
        find_crlf_from(s, from) is Some,
    ensures
        from <= find_crlf_from(s, from)->Some_0 < s.len(),
    decreases s.len() - from,
{
    if from >= s.len() || from < 1 {
    } else if s[from - 1] == 13 && s[from] == 10 {
    } else {
        lemma_find_crlf_bounds(s, from + 1);
    }
}

/// Fixed-capacity byte window for the line-oriented protocol. `[begin, end)`
/// of the backing buffer holds bytes received but not yet consumed;
/// `[end, N)` is room for the next ingestion.
pub struct CrlfStream<const N: usize> {
    buf: Vec<u8>,
    begin: usize,
    end: usize,
}

impl<const N: usize> Default for CrlfStream<N> {
    fn default() -> (r: Self)
        ensures
            r.wf(),
            r.filled() == Seq::<u8>::empty(),
            r.free_len() == N as int,
    {
        Self::new()
    }
}

impl<const N: usize> CrlfStream<N> {
    /// The cursors sit inside the fixed-size buffer.
    pub closed spec fn wf(self) -> bool {
        self.buf@.len() == N && self.begin <= self.end <= N
    }

    /// Bytes received and not yet consumed.
    pub closed spec fn filled(self) -> Seq<u8> {
        self.buf@.subrange(self.begin as int, self.end as int)
    }

    /// Contents of the free region, next in line to be committed.
    pub closed spec fn staged(self) -> Seq<u8> {
        self.buf@.subrange(self.end as int, N as int)
    }

    /// Number of bytes the window can still accept before compaction.
    pub closed spec fn free_len(self) -> int {
        N - self.end
    }

    pub fn new() -> (r: Self)
        ensures
            r.wf(),
            r.filled() == Seq::<u8>::empty(),
            r.free_len() == N as int,
    {
        let mut buf: Vec<u8> = Vec::new();
        while buf.len() < N
            invariant
                buf@.len() <= N,
            decreases N - buf@.len(),
        {
            buf.push(0);
        }
        let r = CrlfStream { buf, begin: 0, end: 0 };
        proof {
            assert(r.filled() =~= Seq::<u8>::empty());
        }
        r
    }

    /// Marks `n` freshly staged bytes as received, saturating at capacity.
    pub fn commit(&mut self, n: usize)
        requires
            old(self).wf(),
        ensures
            final(self).wf(),
            final(self).filled() == old(self).filled() + old(self).staged().take(
                if n <= old(self).free_len() { n as int } else { old(self).free_len() },
            ),
            final(self).free_len() == if n <= old(self).free_len() {
                old(self).free_len() - n
            } else {
                0int
            },
            final(self).staged() == old(self).staged().skip(
                if n <= old(self).free_len() { n as int } else { old(self).free_len() },
            ),
    {
        let room = N - self.end;
        let k = if n <= room {
            n
        } else {
            room
        };
        self.end = self.end + k;
        proof {
            assert(self.filled() =~= old(self).filled() + old(self).staged().take(k as int));
            assert(self.staged() =~= old(self).staged().skip(k as int));
        }
    }

    /// Discards `n` bytes from the head, saturating at the filled length.
    pub fn consume(&mut self, n: usize)
        requires
            old(self).wf(),
        ensures
            final(self).wf(),
            final(self).filled() == old(self).filled().skip(
                if n <= old(self).filled().len() { n as int } else { old(self).filled().len() as int },
            ),
            final(self).free_len() == old(self).free_len(),
            final(self).staged() == old(self).staged(),
    {
        let len = self.end - self.begin;
        let k = if n <= len {
            n
        } else {
            len
        };
        self.begin = self.begin + k;
        proof {
            assert(self.filled() =~= old(self).filled().skip(k as int));
        }
    }

    /// Attempts one extraction, returning at most one line, delimiter
    /// included. If no line is complete and the window is completely full,
    /// the filled region is moved to offset 0 so the caller can keep
    /// ingesting; no byte is lost.
    #[verifier::loop_isolation(false)]
    pub fn pop(&mut self) -> (r: Option<Vec<u8>>)
        requires
            old(self).wf(),
        ensures
            final(self).wf(),
            match find_crlf(old(self).filled()) {
                Some(k) => {
                    &&& r matches Some(line)
                    &&& line@ == old(self).filled().take(k + 1)
                    &&& final(self).filled() == old(self).filled().skip(k + 1)
                    &&& final(self).free_len() == old(self).free_len()
                },
                None => {
                    &&& r is None
                    &&& final(self).filled() == old(self).filled()
                    &&& final(self).free_len() == if old(self).free_len() == 0 {
                        N - old(self).filled().len()
                    } else {
                        old(self).free_len()
                    }
                },
            },
    {
        let ghost f = self.filled();
        let ghost bufg = self.buf@;
        let ghost b0 = self.begin as int;
        let ghost e0 = self.end as int;
        if self.begin < self.end {
            let mut i: usize = self.begin + 1;
            while i < self.end
                invariant
                    b0 + 1 <= i <= e0,
                    self.begin == b0,
                    self.end == e0,
                    self.buf@ == bufg,
                    find_crlf(f) == find_crlf_from(f, i - b0),
                decreases e0 - i,
            {
                proof {
                    assert(f[i - b0 - 1] == bufg[i - 1]);
                    assert(f[i - b0] == bufg[i as int]);
                }
                let a = self.buf[i - 1];
                let b = self.buf[i];
                if a == 13 && b == 10 {
                    let ghost k = i - b0;
                    proof {
                        assert(find_crlf(f) == Some(k));
                    }
                    let mut line: Vec<u8> = Vec::new();
                    let mut t: usize = self.begin;
                    while t < i + 1
                        invariant
                            b0 <= t <= i + 1,
                            i < e0,
                            self.begin == b0,
                            self.end == e0,
                            self.buf@ == bufg,
                            line@.len() == t - b0,
                            forall|q: int| 0 <= q < t - b0 ==> line@[q] == bufg[b0 + q],
                        decreases i + 1 - t,
                    {
                        let c = self.buf[t];
                        line.push(c);
                        t = t + 1;
                    }
                    self.begin = i + 1;
                    proof {
                        assert(line@ =~= f.take(k + 1));
                        assert(self.filled() =~= f.skip(k + 1));
                    }
                    return Some(line);
                }
                i = i + 1;
            }
        }
        proof {
            assert(find_crlf(f) is None);
        }
        if self.end == N {
            let len = self.end - self.begin;
            let mut j: usize = 0;
            while j < len
                invariant
                    j <= len,
                    self.begin == b0,
                    self.end == e0,
                    self.buf@.len() == N,
                    len == e0 - b0,
                    forall|t: int| 0 <= t < j ==> self.buf@[t] == f[t],
                    forall|t: int| j <= t < len ==> #[trigger] self.buf@[self.begin + t] == f[t],
                decreases len - j,
            {
                let b = self.buf[self.begin + j];
                self.buf[j] = b;
                j = j + 1;
            }
            self.begin = 0;
            self.end = len;
            proof {
                assert(self.filled() =~= f);
            }
        }
        None
    }

    /// Moves the filled region to offset 0, making every unfilled byte of
    /// the window available for ingestion.
    pub(crate) fn compact(&mut self)
        requires
            old(self).wf(),
        ensures
            final(self).wf(),
            final(self).filled() == old(self).filled(),
            final(self).free_len() == N - old(self).filled().len(),
    {
        let len = self.end - self.begin;
        let mut j: usize = 0;
        while j < len
            invariant
                j <= len,
                self.begin == old(self).begin,
                self.end == old(self).end,
                self.buf@.len() == N,
                old(self).wf(),
                len == self.end - self.begin,
                forall|t: int| 0 <= t < j ==> self.buf@[t] == old(self).filled()[t],
                forall|t: int|
                    j <= t < len ==> #[trigger] self.buf@[self.begin + t] == old(
                        self,
                    ).filled()[t],
            decreases len - j,
        {
            let b = self.buf[self.begin + j];
            self.buf[j] = b;
            j = j + 1;
        }
        self.begin = 0;
        self.end = len;
        proof {
            assert(self.filled() =~= old(self).filled());
        }
    }

    /// Read-only view of the bytes received and not yet consumed.
    pub fn buf_filled(&self) -> (r: &[u8])
        requires
            self.wf(),
        ensures
            r@ == self.filled(),
    {
        vstd::slice::slice_subrange(self.buf.as_slice(), self.begin, self.end)
    }


    /// Length of the free region: how many bytes the window accepts
    /// before compaction.
    pub fn buf_unused_len(&self) -> (r: usize)
        requires
            self.wf(),
        ensures
            r == self.free_len(),
    {
        N - self.end
    }

    /// Copies `data` into the head of the free region — the verified
    /// counterpart of handing the free region out for I/O to fill — and
    /// returns how many bytes fit. Nothing is received until `commit`.
    pub fn buf_unused_mut(&mut self, data: &[u8]) -> (n: usize)
        requires
            old(self).wf(),
        ensures
            final(self).wf(),
            n == if data@.len() <= old(self).free_len() {
                data@.len() as int
            } else {
                old(self).free_len()
            },
            final(self).filled() == old(self).filled(),
            final(self).free_len() == old(self).free_len(),
            final(self).staged() == data@.take(n as int) + old(self).staged().skip(n as int),
    {
        let room = N - self.end;
        let limit = if data.len() <= room {
            data.len()
        } else {
            room
        };
        let mut k: usize = 0;
        while k < limit
            invariant
                self.begin == old(self).begin,
                self.end == old(self).end,
                self.buf@.len() == N,
                old(self).wf(),
                k <= limit,
                limit <= data@.len(),
                self.end + limit <= N,
                forall|t: int| 0 <= t < self.end ==> self.buf@[t] == old(self).buf@[t],
                forall|t: int| 0 <= t < k ==> #[trigger] self.buf@[self.end + t] == data@[t],
                forall|t: int|
                    k <= t < N - self.end ==> #[trigger] self.buf@[self.end + t] == old(
                        self,
                    ).buf@[self.end + t],
            decreases limit - k,
        {
            let b = data[k];
            let at = self.end + k;
            self.buf[at] = b;
            k = k + 1;
        }
        proof {
            assert(self.filled() =~= old(self).filled());
            let rhs = data@.take(limit as int) + old(self).staged().skip(limit as int);
            assert forall|t: int| 0 <= t < N - self.end implies self.staged()[t] == rhs[t] by {
                assert(self.staged()[t] == self.buf@[self.end + t]);
                if t < limit {
                    assert(rhs[t] == data@[t]);
                } else {
                    assert(rhs[t] == old(self).staged()[t]);
                    assert(old(self).staged()[t] == old(self).buf@[self.end + t]);
                }
            }
            assert(self.staged() =~= rhs);
        }
        limit
    }
}

} // verus!
