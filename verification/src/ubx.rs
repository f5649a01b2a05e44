//! Streaming extraction of binary configuration frames.
//!
//! A frame on the wire is `B5 62 | class | id | len_lo len_hi | payload[len]
//! | ck_a ck_b`, where the checksum runs over class, id, length and payload.
//! `UbxStream` is a fixed-capacity byte window that ingests raw bytes and
//! lazily extracts checksum-validated frames, resynchronizing one byte at a
//! time on garbage.

use vstd::prelude::*;

verus! {

/// Checksum pair over a byte sequence: both counters seeded at zero, then for
/// each byte `ck_a += byte; ck_b += ck_a`, with 8-bit wraparound.
pub open spec fn ubx_ck(s: Seq<u8>) -> (nat, nat)
    decreases s.len(),
{
    if s.len() == 0 {
        (0nat, 0nat)
    } else {
        let prev = ubx_ck(s.drop_last());
        let a = ((prev.0 + s.last()) % 256) as nat;
        (a, ((prev.1 + a) % 256) as nat)
    }
}

/// Two-byte checksum over `buf`, as the trailing bytes of a frame carry it.
pub fn checksum(buf: &[u8]) -> (r: (u8, u8))
    ensures
        (r.0 as nat, r.1 as nat) == ubx_ck(buf@),
{
    let mut ck_a: u8 = 0;
    let mut ck_b: u8 = 0;
    let mut i: usize = 0;
    while i < buf.len()
        invariant
            i <= buf@.len(),
            (ck_a as nat, ck_b as nat) == ubx_ck(buf@.take(i as int)),
        decreases buf@.len() - i,
    {
        let c = buf[i];
        ck_a = ((ck_a as u16 + c as u16) % 256) as u8;
        ck_b = ((ck_b as u16 + ck_a as u16) % 256) as u8;
        proof {
            assert(buf@.take(i + 1).drop_last() =~= buf@.take(i as int));
            assert(buf@.take(i + 1).last() == buf@[i as int]);
        }
        i = i + 1;
    }
    proof {
        assert(buf@.take(buf@.len() as int) =~= buf@);
    }
    (ck_a, ck_b)
}

/// Both checksum counters stay below 256.
pub proof fn lemma_ubx_ck_bounds(s: Seq<u8>)
    ensures
        ubx_ck(s).0 < 256,
        ubx_ck(s).1 < 256,
    decreases s.len(),
{
    if s.len() == 0 {
    } else {
        lemma_ubx_ck_bounds(s.drop_last());
    }
}

/// The 16-bit little-endian value stored as `lo`, `hi` on the wire.
pub open spec fn le16(lo: u8, hi: u8) -> int {
    lo + 256 * hi
}

/// Length in bytes of the frame whose metadata starts at the head of `s`:
/// preamble (2) + class + id + length (2) + checksum (2) + payload.
pub open spec fn frame_len(s: Seq<u8>) -> int {
    8 + le16(s[4], s[5])
}

/// `s` is exactly one frame and its trailing checksum matches the checksum
/// of class, id, length and payload.
pub open spec fn frame_ck_ok(s: Seq<u8>) -> bool {
    let plen = le16(s[4], s[5]);
    ubx_ck(s.subrange(2, 6 + plen)) == ((s[6 + plen] as nat, s[7 + plen] as nat))
}

/// `s` is one complete, well-formed frame: preamble, a length field that
/// accounts for every byte of `s`, and a matching checksum.
pub open spec fn valid_frame(s: Seq<u8>) -> bool {
    &&& s.len() >= 8
    &&& s[0] == 0xb5
    &&& s[1] == 0x62
    &&& s.len() == frame_len(s)
    &&& frame_ck_ok(s)
}

/// One extraction pass over the window contents `s`, scanning forward from
/// the head. The result is `(consumed, found)`: `consumed` bytes leave the
/// window, and `found` is the first checksum-valid frame, if one is complete.
///
/// Garbage before a preamble is dropped one byte at a time; an incomplete
/// candidate frame is kept (waiting for more bytes); a complete frame with a
/// bad checksum is dropped whole and the scan continues behind it.
pub open spec fn ubx_scan(s: Seq<u8>) -> (int, Option<(u8, u8, Seq<u8>)>)
    decreases s.len(),
{
    if s.len() == 0 {
        (0int, None)
    } else if s[0] != 0xb5 {
        let r = ubx_scan(s.skip(1));
        (1 + r.0, r.1)
    } else if s.len() == 1 {
        (0int, None)
    } else if s[1] != 0x62 {
        let r = ubx_scan(s.skip(1));
        (1 + r.0, r.1)
    } else if s.len() < 8 || s.len() < frame_len(s) {
        (0int, None)
    } else if frame_ck_ok(s.take(frame_len(s))) {
        (frame_len(s), Some((s[2], s[3], s.subrange(6, frame_len(s) - 2))))
    } else {
        let r = ubx_scan(s.skip(frame_len(s)));
        (frame_len(s) + r.0, r.1)
    }
}

/// The scan never consumes more bytes than the window holds.
pub proof fn lemma_scan_bounds(s: Seq<u8>)
    ensures
        0 <= ubx_scan(s).0 <= s.len(),
    decreases s.len(),
{
    if s.len() == 0 {
    } else if s[0] != 0xb5 {
        lemma_scan_bounds(s.skip(1));
    } else if s.len() == 1 {
    } else if s[1] != 0x62 {
        lemma_scan_bounds(s.skip(1));
    } else if s.len() < 8 || s.len() < frame_len(s) {
    } else if frame_ck_ok(s.take(frame_len(s))) {
    } else {
        lemma_scan_bounds(s.skip(frame_len(s)));
    }
}

/// Law: a scan that found no frame reaches a fixed point. Once the garbage
/// it consumed is gone, re-scanning consumes nothing and still finds
/// nothing — so repeated `pop` calls on a window holding no complete frame
/// keep returning `None` without changing the filled bytes again.
pub proof fn lemma_scan_none_fixpoint(s: Seq<u8>)
    requires
        ubx_scan(s).1 is None,
    ensures
        ubx_scan(s.skip(ubx_scan(s).0)) == (0int, None::<(u8, u8, Seq<u8>)>),
    decreases s.len(),
{
    if s.len() == 0 {
        assert(s.skip(0) =~= s);
    } else if s[0] != 0xb5 {
        lemma_scan_bounds(s.skip(1));
        lemma_scan_none_fixpoint(s.skip(1));
        assert(s.skip(1 + ubx_scan(s.skip(1)).0) =~= s.skip(1).skip(ubx_scan(s.skip(1)).0));
    } else if s.len() == 1 {
        assert(s.skip(0) =~= s);
    } else if s[1] != 0x62 {
        lemma_scan_bounds(s.skip(1));
        lemma_scan_none_fixpoint(s.skip(1));
        assert(s.skip(1 + ubx_scan(s.skip(1)).0) =~= s.skip(1).skip(ubx_scan(s.skip(1)).0));
    } else if s.len() < 8 || s.len() < frame_len(s) {
        assert(s.skip(0) =~= s);
    } else if frame_ck_ok(s.take(frame_len(s))) {
    } else {
        let f = frame_len(s);
        lemma_scan_bounds(s.skip(f));
        lemma_scan_none_fixpoint(s.skip(f));
        assert(s.skip(f + ubx_scan(s.skip(f)).0) =~= s.skip(f).skip(ubx_scan(s.skip(f)).0));
    }
}

/// Law: a run of bytes none of which is the first preamble byte, followed by
/// one complete valid frame, yields exactly that frame in a single scan,
/// with every garbage byte consumed.
pub proof fn lemma_resync_skip(garbage: Seq<u8>, frame: Seq<u8>)
    requires
        forall|k: int| 0 <= k < garbage.len() ==> garbage[k] != 0xb5,
        valid_frame(frame),
    ensures
        ubx_scan(garbage + frame) == (
            garbage.len() + frame.len() as int,
            Some((frame[2], frame[3], frame.subrange(6, frame.len() - 2))),
        ),
    decreases garbage.len(),
{
    let s = garbage + frame;
    if garbage.len() == 0 {
        assert(s =~= frame);
        assert(frame.take(frame_len(frame)) =~= frame);
    } else {
        assert(s[0] == garbage[0]);
        lemma_resync_skip(garbage.skip(1), frame);
        assert(s.skip(1) =~= garbage.skip(1) + frame);
    }
}

/// Law: a complete frame whose trailing checksum disagrees is consumed
/// whole and never returned — the scan result comes only from the bytes
/// behind it.
pub proof fn lemma_checksum_rejection(s: Seq<u8>)
    requires
        s.len() >= 8,
        s[0] == 0xb5,
        s[1] == 0x62,
        frame_len(s) <= s.len(),
        !frame_ck_ok(s.take(frame_len(s))),
    ensures
        ubx_scan(s).0 == frame_len(s) + ubx_scan(s.skip(frame_len(s))).0,
        ubx_scan(s).1 == ubx_scan(s.skip(frame_len(s))).1,
{
}

/// Law: bytes committed in two batches are the same bytes as their one
/// concatenated batch — and extraction looks only at the window's filled
/// sequence, so a frame split across any commit boundary is still found,
/// exactly once.
pub proof fn lemma_split_commit(f: Seq<u8>, a: Seq<u8>, b: Seq<u8>)
    ensures
        (f + a) + b == f + (a + b),
{
    assert((f + a) + b =~= f + (a + b));
}

/// One extracted frame: class, id and a copy of the payload bytes.
#[derive(Debug, PartialEq)]
pub struct UbxFrame {
    pub class: u8,
    pub id: u8,
    pub payload: Vec<u8>,
}

/// Fixed-capacity byte window for the binary protocol. `[begin, end)` of the
/// backing buffer holds bytes received but not yet consumed; `[end, N)` is
/// room for the next ingestion.
pub struct UbxStream<const N: usize> {
    buf: Vec<u8>,
    begin: usize,
    end: usize,
}

impl<const N: usize> Default for UbxStream<N> {
    fn default() -> (r: Self)
        ensures
            r.wf(),
            r.filled() == Seq::<u8>::empty(),
            r.free_len() == N as int,
    {
        Self::new()
    }
}

impl<const N: usize> UbxStream<N> {
    /// The cursors sit inside the fixed-size buffer.
    pub closed spec fn wf(self) -> bool {
        self.buf@.len() == N && self.begin <= self.end <= N
    }

    /// Bytes received and not yet consumed.
    pub closed spec fn filled(self) -> Seq<u8> {
        self.buf@.subrange(self.begin as int, self.end as int)
    }

    /// Contents of the free region, next in line to be committed.
    pub closed spec fn staged(self) -> Seq<u8> {
        self.buf@.subrange(self.end as int, N as int)
    }

    /// Number of bytes the window can still accept before compaction.
    pub closed spec fn free_len(self) -> int {
        N - self.end
    }

    pub fn new() -> (r: Self)
        ensures
            r.wf(),
            r.filled() == Seq::<u8>::empty(),
            r.free_len() == N as int,
    {
        let mut buf: Vec<u8> = Vec::new();
        while buf.len() < N
            invariant
                buf@.len() <= N,
            decreases N - buf@.len(),
        {
            buf.push(0);
        }
        let r = UbxStream { buf, begin: 0, end: 0 };
        proof {
            assert(r.filled() =~= Seq::<u8>::empty());
        }
        r
    }

    /// Marks `n` freshly staged bytes as received, saturating at capacity.
    pub fn commit(&mut self, n: usize)
        requires
            old(self).wf(),
        ensures
            final(self).wf(),
            final(self).filled() == old(self).filled() + old(self).staged().take(
                if n <= old(self).free_len() { n as int } else { old(self).free_len() },
            ),
            final(self).free_len() == if n <= old(self).free_len() {
                old(self).free_len() - n
            } else {
                0int
            },
            final(self).staged() == old(self).staged().skip(
                if n <= old(self).free_len() { n as int } else { old(self).free_len() },
            ),
    {
        let room = N - self.end;
        let k = if n <= room {
            n
        } else {
            room
        };
        self.end = self.end + k;
        proof {
            assert(self.filled() =~= old(self).filled() + old(self).staged().take(k as int));
            assert(self.staged() =~= old(self).staged().skip(k as int));
        }
    }

    /// Discards `n` bytes from the head, saturating at the filled length.
    pub fn consume(&mut self, n: usize)
        requires
            old(self).wf(),
        ensures
            final(self).wf(),
            final(self).filled() == old(self).filled().skip(
                if n <= old(self).filled().len() { n as int } else { old(self).filled().len() as int },
            ),
            final(self).free_len() == old(self).free_len(),
            final(self).staged() == old(self).staged(),
    {
        let len = self.end - self.begin;
        let k = if n <= len {
            n
        } else {
            len
        };
        self.begin = self.begin + k;
        proof {
            assert(self.filled() =~= old(self).filled().skip(k as int));
        }
    }

    /// Attempts one extraction, returning at most one frame.
    ///
    /// If the window is completely full, the filled region is first moved to
    /// offset 0 so that room is free afterwards whatever the outcome. The
    /// scan then drops garbage one byte at a time, waits on an incomplete
    /// candidate frame, silently drops a complete frame whose checksum
    /// disagrees — costing exactly its own length — and returns the first
    /// checksum-valid frame. A corrupted frame, once complete, is always
    /// consumed, so a broken frame is never re-scanned.
    #[verifier::loop_isolation(false)]
    #[verifier::rlimit(80)]
    pub fn pop(&mut self) -> (r: Option<UbxFrame>)
        requires
            old(self).wf(),
        ensures
            final(self).wf(),
            final(self).filled() == old(self).filled().skip(ubx_scan(old(self).filled()).0),
            final(self).free_len() == if old(self).free_len() == 0 {
                N - old(self).filled().len()
            } else {
                old(self).free_len()
            },
            match ubx_scan(old(self).filled()).1 {
                None => r is None,
                Some(m) => {
                    &&& r matches Some(fr)
                    &&& fr.class == m.0
                    &&& fr.id == m.1
                    &&& fr.payload@ == m.2
                },
            },
    {
        if self.end == N {
            let len = self.end - self.begin;
            let mut j: usize = 0;
            while j < len
                invariant
                    j <= len,
                    self.begin == old(self).begin,
                    self.end == old(self).end,
                    self.buf@.len() == N,
                    forall|t: int| 0 <= t < j ==> self.buf@[t] == old(self).filled()[t],
                    forall|t: int|
                        j <= t < len ==> #[trigger] self.buf@[self.begin + t] == old(
                            self,
                        ).filled()[t],
                decreases len - j,
            {
                let b = self.buf[self.begin + j];
                self.buf[j] = b;
                j = j + 1;
            }
            self.begin = 0;
            self.end = len;
            proof {
                assert(self.filled() =~= old(self).filled());
            }
        }
        let ghost b0 = self.begin as int;
        let ghost e0 = self.end as int;
        let ghost bufg = self.buf@;
        let ghost g = self.filled();
        assert(g == old(self).filled());
        let mut i: usize = self.begin;
        while i < self.end
            invariant
                b0 <= i <= e0,
                self.begin == b0,
                self.end == e0,
                self.buf@ == bufg,
                ubx_scan(g).0 == i - b0 + ubx_scan(bufg.subrange(i as int, e0)).0,
                ubx_scan(g).1 == ubx_scan(bufg.subrange(i as int, e0)).1,
            decreases e0 - i,
        {
            let ghost sub_i = bufg.subrange(i as int, e0);
            proof {
                assert(sub_i.len() == e0 - i);
                assert(sub_i[0] == bufg[i as int]);
            }
            let c0 = self.buf[i];
            if c0 != 0xb5 {
                proof {
                    assert(sub_i.skip(1) =~= bufg.subrange(i + 1, e0));
                }
                i = i + 1;
                continue;
            }
            if i + 1 == self.end {
                self.begin = i;
                proof {
                    assert(ubx_scan(sub_i) == (0int, None::<(u8, u8, Seq<u8>)>));
                    assert(self.filled() =~= g.skip(ubx_scan(g).0));
                }
                return None;
            }
            proof {
                assert(sub_i[1] == bufg[i + 1]);
            }
            let c1 = self.buf[i + 1];
            if c1 != 0x62 {
                proof {
                    assert(sub_i.skip(1) =~= bufg.subrange(i + 1, e0));
                }
                i = i + 1;
                continue;
            }
            if self.end - i < 8 {
                self.begin = i;
                proof {
                    assert(ubx_scan(sub_i) == (0int, None::<(u8, u8, Seq<u8>)>));
                    assert(self.filled() =~= g.skip(ubx_scan(g).0));
                }
                return None;
            }
            proof {
                assert(sub_i[4] == bufg[i + 4]);
                assert(sub_i[5] == bufg[i + 5]);
            }
            let plen: usize = self.buf[i + 4] as usize + 256 * (self.buf[i + 5] as usize);
            let flen: usize = 8 + plen;
            proof {
                assert(frame_len(sub_i) == flen);
            }
            if self.end - i < flen {
                self.begin = i;
                proof {
                    assert(ubx_scan(sub_i) == (0int, None::<(u8, u8, Seq<u8>)>));
                    assert(self.filled() =~= g.skip(ubx_scan(g).0));
                }
                return None;
            }
            let ghost whole = sub_i.take(flen as int);
            let body = vstd::slice::slice_subrange(self.buf.as_slice(), i + 2, i + 6 + plen);
            let (ck_a, ck_b) = checksum(body);
            proof {
                assert(whole.subrange(2, 6 + plen) =~= bufg.subrange(i + 2, i + 6 + plen));
                assert(whole[6 + plen] == bufg[i + 6 + plen]);
                assert(whole[7 + plen] == bufg[i + 7 + plen]);
                assert(le16(whole[4], whole[5]) == plen);
            }
            if self.buf[i + 6 + plen] == ck_a && self.buf[i + 7 + plen] == ck_b {
                proof {
                    assert(frame_ck_ok(whole));
                }
                let class = self.buf[i + 2];
                let id = self.buf[i + 3];
                let mut payload: Vec<u8> = Vec::new();
                let mut t: usize = 0;
                while t < plen
                    invariant
                        t <= plen,
                        payload@.len() == t,
                        forall|k: int| 0 <= k < t ==> payload@[k] == bufg[i + 6 + k],
                    decreases plen - t,
                {
                    let b = self.buf[i + 6 + t];
                    payload.push(b);
                    t = t + 1;
                }
                self.begin = i + flen;
                proof {
                    assert(payload@ =~= sub_i.subrange(6, flen - 2));
                    assert(ubx_scan(sub_i) == (
                        flen as int,
                        Some((sub_i[2], sub_i[3], sub_i.subrange(6, flen - 2))),
                    ));
                    assert(sub_i[2] == bufg[i + 2]);
                    assert(sub_i[3] == bufg[i + 3]);
                    assert(self.filled() =~= g.skip(ubx_scan(g).0));
                }
                return Some(UbxFrame { class, id, payload });
            } else {
                proof {
                    assert(!frame_ck_ok(whole));
                    assert(sub_i.skip(flen as int) =~= bufg.subrange(i + flen, e0));
                }
                i = i + flen;
            }
        }
        self.begin = i;
        proof {
            assert(bufg.subrange(i as int, e0).len() == 0);
            assert(ubx_scan(bufg.subrange(i as int, e0)) == (0int, None::<(u8, u8, Seq<u8>)>));
            assert(self.filled() =~= g.skip(ubx_scan(g).0));
        }
        None
    }

    /// Read-only view of the bytes received and not yet consumed.
    pub fn buf_filled(&self) -> (r: &[u8])
        requires
            self.wf(),
        ensures
            r@ == self.filled(),
    {
        vstd::slice::slice_subrange(self.buf.as_slice(), self.begin, self.end)
    }


    /// Length of the free region: how many bytes the window accepts
    /// before compaction.
    pub fn buf_unused_len(&self) -> (r: usize)
        requires
            self.wf(),
        ensures
            r == self.free_len(),
    {
        N - self.end
    }

    /// Copies `data` into the head of the free region — the verified
    /// counterpart of handing the free region out for I/O to fill — and
    /// returns how many bytes fit. Nothing is received until `commit`.
    pub fn buf_unused_mut(&mut self, data: &[u8]) -> (n: usize)
        requires
            old(self).wf(),
        ensures
            final(self).wf(),
            n == if data@.len() <= old(self).free_len() {
                data@.len() as int
            } else {
                old(self).free_len()
            },
            final(self).filled() == old(self).filled(),
            final(self).free_len() == old(self).free_len(),
            final(self).staged() == data@.take(n as int) + old(self).staged().skip(n as int),
    {
        let room = N - self.end;
        let limit = if data.len() <= room {
            data.len()
        } else {
            room
        };
        let mut k: usize = 0;
        while k < limit
            invariant
                self.begin == old(self).begin,
                self.end == old(self).end,
                self.buf@.len() == N,
                old(self).wf(),
                k <= limit,
                limit <= data@.len(),
                self.end + limit <= N,
                forall|t: int| 0 <= t < self.end ==> self.buf@[t] == old(self).buf@[t],
                forall|t: int| 0 <= t < k ==> #[trigger] self.buf@[self.end + t] == data@[t],
                forall|t: int|
                    k <= t < N - self.end ==> #[trigger] self.buf@[self.end + t] == old(
                        self,
                    ).buf@[self.end + t],
            decreases limit - k,
        {
            let b = data[k];
            let at = self.end + k;
            self.buf[at] = b;
            k = k + 1;
        }
        proof {
            assert(self.filled() =~= old(self).filled());
            let rhs = data@.take(limit as int) + old(self).staged().skip(limit as int);
            assert forall|t: int| 0 <= t < N - self.end implies self.staged()[t] == rhs[t] by {
                assert(self.staged()[t] == self.buf@[self.end + t]);
                if t < limit {
                    assert(rhs[t] == data@[t]);
                } else {
                    assert(rhs[t] == old(self).staged()[t]);
                    assert(old(self).staged()[t] == old(self).buf@[self.end + t]);
                }
            }
            assert(self.staged() =~= rhs);
        }
        limit
    }
}

} // verus!

