//! The download payload.
//!
//! The engine only cares that `GET /__down?bytes=N` yields N bytes; the
//! content is discarded. So one buffer is filled at startup and every
//! response is cut from it, frame by frame, until exactly N bytes have gone.

use vstd::prelude::*;

verus! {

/// One step of the byte pattern's generator (a 32-bit linear congruential
/// generator, wrapping as the `wrapping_*` operations do).
pub open spec fn lcg_next(x: u32) -> u32 {
    ((((x as nat * 1664525) % 4294967296) + 1013904223) % 4294967296) as u32
}

/// The generator's state after `k` steps.
pub open spec fn lcg_state(k: nat) -> u32
    decreases k,
{
    if k == 0 {
        0x9E3779B9u32
    } else {
        lcg_next(lcg_state((k - 1) as nat))
    }
}

/// The `k`th byte of the pattern: printable ASCII from `!` to `~`.
pub open spec fn pattern_byte(k: nat) -> u8 {
    (33 + ((lcg_state(k + 1) >> 24u32) as u8) % 94) as u8
}

/// The first `n` bytes of the pattern.
pub open spec fn pattern(n: nat) -> Seq<u8> {
    Seq::new(n, |k: int| pattern_byte(k as nat))
}

/// The shared source buffer.
#[derive(Debug)]
pub struct PayloadSource {
    chunk: Vec<u8>,
}

impl PayloadSource {
    #[verifier::type_invariant]
    spec fn wf(self) -> bool {
        self.chunk@.len() > 0
    }

    pub closed spec fn chunk_spec(self) -> Seq<u8> {
        self.chunk@
    }

    /// A source buffer of `chunk_bytes` (at least one), filled with printable
    /// ASCII. Deliberately not all-zero: an incompressible-looking pattern
    /// keeps transparent compression on the path from flattering the result.
    pub fn new(chunk_bytes: usize) -> (s: PayloadSource)
        ensures
            s.chunk_spec() == pattern(if chunk_bytes == 0 { 1 } else { chunk_bytes as nat }),
    {
        let n: usize = if chunk_bytes == 0 {
            1
        } else {
            chunk_bytes
        };
        let mut buf: Vec<u8> = Vec::new();
        let mut x: u32 = 0x9E37_79B9;
        let mut i: usize = 0;
        while i < n
            invariant
                i <= n,
                x == lcg_state(i as nat),
                buf@ == pattern(i as nat),
            decreases n - i,
        {
            x = x.wrapping_mul(1_664_525).wrapping_add(1_013_904_223);
            let top: u32 = x >> 24;
            assert(top < 256) by (bit_vector)
                requires
                    top == x >> 24,
            ;
            let b: u8 = 33 + (top as u8) % 94;
            buf.push(b);
            assert(buf@ =~= pattern((i + 1) as nat));
            i = i + 1;
        }
        PayloadSource { chunk: buf }
    }

    /// The bytes every response is cut from.
    pub fn chunk(&self) -> (c: &Vec<u8>)
        ensures
            c@ == self.chunk_spec(),
    {
        &self.chunk
    }

    pub fn chunk_len(&self) -> (n: usize)
        ensures
            n == self.chunk_spec().len(),
            n > 0,
    {
        proof {
            use_type_invariant(self);
        }
        self.chunk.len()
    }

    /// A body that emits exactly `total` bytes as slices of the buffer.
    pub fn body(&self, total: u64) -> (b: RepeatBody)
        ensures
            b.remaining_spec() == total,
            b.chunk_len_spec() == self.chunk_spec().len(),
    {
        RepeatBody { chunk_len: self.chunk_len(), remaining: total }
    }
}

/// How many bytes a body still owes, and the most a frame may carry.
#[derive(Clone, Copy, Debug)]
pub struct RepeatBody {
    chunk_len: usize,
    remaining: u64,
}

/// The frame sizes a body owing `remaining` bytes emits, frames being at
/// most `chunk` bytes: full frames, then whatever is left.
pub open spec fn frame_lengths(remaining: nat, chunk: nat) -> Seq<nat>
    recommends
        chunk > 0,
    decreases remaining,
{
    if remaining == 0 || chunk == 0 {
        Seq::empty()
    } else if remaining <= chunk {
        seq![remaining]
    } else {
        seq![chunk] + frame_lengths((remaining - chunk) as nat, chunk)
    }
}

/// The sum of a run of frame sizes.
pub open spec fn total(s: Seq<nat>) -> nat
    decreases s.len(),
{
    if s.len() == 0 {
        0
    } else {
        s[0] + total(s.drop_first())
    }
}

impl RepeatBody {
    #[verifier::type_invariant]
    spec fn wf(self) -> bool {
        self.chunk_len > 0
    }

    pub closed spec fn remaining_spec(self) -> nat {
        self.remaining as nat
    }

    pub closed spec fn chunk_len_spec(self) -> nat {
        self.chunk_len as nat
    }

    /// The frames still to come.
    pub open spec fn frames(self) -> Seq<nat> {
        frame_lengths(self.remaining_spec(), self.chunk_len_spec())
    }

    /// Bytes still owed: the exact size hint, which lets the server send a
    /// real `content-length` rather than chunked framing.
    pub fn remaining(&self) -> (n: u64)
        ensures
            n == self.remaining_spec(),
    {
        self.remaining
    }

    /// Whether the body has nothing left to send.
    pub fn is_end_stream(&self) -> (b: bool)
        ensures
            b == (self.remaining_spec() == 0),
    {
        self.remaining == 0
    }

    /// The size of the next frame, or `None` once everything has been sent.
    pub fn next_frame(&mut self) -> (take: Option<usize>)
        ensures
            final(self).chunk_len_spec() == old(self).chunk_len_spec(),
            old(self).remaining_spec() == 0 ==> take is None && final(self).remaining_spec() == 0,
            old(self).remaining_spec() > 0 ==> take is Some && take->0 > 0 && take->0
                <= final(self).chunk_len_spec() && take->0 == old(self).frames()[0]
                && final(self).remaining_spec() == old(self).remaining_spec() - take->0
                && final(self).frames() == old(self).frames().drop_first(),
    {
        proof {
            use_type_invariant(&*self);
        }
        if self.remaining == 0 {
            return None;
        }
        let take: usize = if self.remaining < self.chunk_len as u64 {
            self.remaining as usize
        } else {
            self.chunk_len
        };
        self.remaining = self.remaining - take as u64;
        proof {
            let r = old(self).remaining as nat;
            let c = self.chunk_len as nat;
            if r <= c {
                assert(frame_lengths(r, c) == seq![r]);
            } else {
                assert(frame_lengths(r, c) =~= seq![c] + frame_lengths((r - c) as nat, c));
                assert((seq![c] + frame_lengths((r - c) as nat, c)).drop_first() =~= frame_lengths((r - c) as nat, c));
            }
        }
        Some(take)
    }
}

/// A body emits exactly what it owes: its frames add up to the bytes
/// remaining, each carrying at least one and at most a buffer's worth.
pub proof fn lemma_frames_total(remaining: nat, chunk: nat)
    requires
        chunk > 0,
    ensures
        total(frame_lengths(remaining, chunk)) == remaining,
        forall|k: int|
            0 <= k < frame_lengths(remaining, chunk).len() ==> 0 < #[trigger] frame_lengths(
                remaining,
                chunk,
            )[k] <= chunk,
    decreases remaining,
{
    if remaining == 0 {
    } else if remaining <= chunk {
        assert(total(seq![remaining]) == remaining + total(seq![remaining].drop_first()));
        assert(seq![remaining].drop_first() =~= Seq::<nat>::empty());
    } else {
        let rest = frame_lengths((remaining - chunk) as nat, chunk);
        lemma_frames_total((remaining - chunk) as nat, chunk);
        assert((seq![chunk] + rest).drop_first() =~= rest);
        assert forall|k: int|
            0 <= k < frame_lengths(remaining, chunk).len() implies 0 < #[trigger] frame_lengths(
            remaining,
            chunk,
        )[k] <= chunk by {
            if k > 0 {
                assert(frame_lengths(remaining, chunk)[k] == rest[k - 1]);
            }
        }
    }
}

} // verus!
