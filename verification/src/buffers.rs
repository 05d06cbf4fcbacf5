//! Input transfer buffer: streams an arbitrarily large host-side input byte
//! sequence into the guest's small, fixed-size input window in ordered chunks.
//!
//! The guest drives the protocol itself: `start` writes the first chunk into
//! the window, each effective `next` overwrites it with the following chunk,
//! and `len` tells the guest how many bytes to expect in total. All chunks
//! are exactly one window long except the final one, which may be shorter.

use vstd::arithmetic::div_mod::lemma_fundamental_div_mod;
use vstd::prelude::*;

verus! {

/// Size in bytes of the guest's fixed input window.
pub const FUNCTION_INPUT_BUFFER_SIZE: usize = 8192;

/// The `k`-th window-sized chunk of `s`; the final chunk is the shorter
/// remainder, and a chunk past the end of `s` is empty.
pub open spec fn chunk_of(s: Seq<u8>, k: int) -> Seq<u8> {
    let w = FUNCTION_INPUT_BUFFER_SIZE as int;
    if 0 <= k && k * w < s.len() {
        s.subrange(
            k * w,
            if (k + 1) * w <= s.len() {
                (k + 1) * w
            } else {
                s.len() as int
            },
        )
    } else {
        Seq::<u8>::empty()
    }
}

/// How many chunks `s` falls into: `len / window` rounded up.
pub open spec fn num_chunks(s: Seq<u8>) -> int {
    let w = FUNCTION_INPUT_BUFFER_SIZE as int;
    (s.len() + w - 1) / w
}

/// The first `n` chunks of `s`, in order, laid end to end.
pub open spec fn chunks_concat(s: Seq<u8>, n: int) -> Seq<u8>
    decreases n,
{
    if n <= 0 {
        Seq::<u8>::empty()
    } else {
        chunks_concat(s, n - 1) + chunk_of(s, n - 1)
    }
}

proof fn lemma_chunks_concat_prefix(s: Seq<u8>, n: int)
    requires
        0 <= n,
    ensures
        chunks_concat(s, n) == s.take(
            if n * (FUNCTION_INPUT_BUFFER_SIZE as int) <= s.len() {
                n * (FUNCTION_INPUT_BUFFER_SIZE as int)
            } else {
                s.len() as int
            },
        ),
    decreases n,
{
    let w = FUNCTION_INPUT_BUFFER_SIZE as int;
    if n == 0 {
        assert(chunks_concat(s, 0) =~= s.take(0));
    } else {
        lemma_chunks_concat_prefix(s, n - 1);
        let prev = if (n - 1) * w <= s.len() {
            (n - 1) * w
        } else {
            s.len() as int
        };
        let cur = if n * w <= s.len() {
            n * w
        } else {
            s.len() as int
        };
        assert((n - 1) * w == n * w - w);
        if (n - 1) * w < s.len() {
            assert(s.take(prev) + chunk_of(s, n - 1) =~= s.take(cur));
        } else {
            assert(s.take(prev) + chunk_of(s, n - 1) =~= s.take(cur));
        }
    }
}

/// Writing every chunk in order reproduces the original input exactly.
pub proof fn lemma_chunks_reassemble(s: Seq<u8>)
    ensures
        chunks_concat(s, num_chunks(s)) == s,
{
    let w = FUNCTION_INPUT_BUFFER_SIZE as int;
    let n = num_chunks(s);
    lemma_fundamental_div_mod(s.len() + w - 1, w);
    assert(n * w == w * ((s.len() + w - 1) / w));
    assert(n * w >= s.len());
    assert(0 <= n) by {
        assert(n * w >= s.len() >= 0);
        if n < 0 {
            assert(n * w <= -1 * w) by (nonlinear_arith)
                requires n <= -1 && w > 0;
        }
    }
    lemma_chunks_concat_prefix(s, n);
    if n * w <= s.len() {
        assert(chunks_concat(s, n) =~= s);
    } else {
        assert(s.take(s.len() as int) =~= s);
    }
}

/// Holds the full host-side input byte sequence and a cursor over its
/// window-sized chunks.
pub struct FunctionInputBuffer {
    buffer: Vec<u8>,
    buffer_idx: usize,
}

impl FunctionInputBuffer {
    /// The full input byte sequence held by this buffer.
    pub closed spec fn bytes(self) -> Seq<u8> {
        self.buffer@
    }

    /// Index of the chunk most recently written to the guest window.
    pub closed spec fn cursor(self) -> usize {
        self.buffer_idx
    }

    /// The cursor never runs past the input: the chunk it names begins at or
    /// before the end of the buffer.
    pub closed spec fn wf(self) -> bool {
        self.buffer_idx * FUNCTION_INPUT_BUFFER_SIZE <= self.buffer@.len()
    }

    /// Whether an effective `next` call is still possible: more input remains
    /// beyond the chunk the cursor names.
    pub open spec fn remaining(self) -> bool {
        (self.cursor() + 1) * (FUNCTION_INPUT_BUFFER_SIZE as int) < self.bytes().len()
    }

    pub fn new() -> (r: Self)
        ensures
            r.wf(),
            r.bytes() == Seq::<u8>::empty(),
            r.cursor() == 0,
    {
        let r = Self { buffer: Vec::new(), buffer_idx: 0usize };
        proof {
            assert(r.buffer@ =~= Seq::<u8>::empty());
        }
        r
    }

    /// Replaces the held input and rewinds the cursor to the first chunk.
    pub fn set_buffer(&mut self, buffer: Vec<u8>)
        ensures
            final(self).wf(),
            final(self).bytes() == buffer@,
            final(self).cursor() == 0,
    {
        self.buffer = buffer;
        self.buffer_idx = 0;
    }

    /// Total byte count of the held input; the guest reads it to know how
    /// many `next` calls to issue.
    pub fn len(&self) -> (r: usize)
        ensures
            r == self.bytes().len(),
    {
        self.buffer.len()
    }

    /// Writes the first chunk — `min(len, window)` bytes — into the guest
    /// window at offset zero and rewinds the cursor.
    pub fn start(&mut self, window: &mut Vec<u8>) -> (r: i32)
        requires
            old(window)@.len() == FUNCTION_INPUT_BUFFER_SIZE,
        ensures
            r == 0,
            final(self).wf(),
            final(self).bytes() == old(self).bytes(),
            final(self).cursor() == 0,
            final(window)@ == chunk_of(old(self).bytes(), 0) + old(window)@.skip(
                chunk_of(old(self).bytes(), 0).len() as int,
            ),
    {
        let end: usize = if self.buffer.len() < FUNCTION_INPUT_BUFFER_SIZE {
            self.buffer.len()
        } else {
            FUNCTION_INPUT_BUFFER_SIZE
        };
        self.write_window(0, end, window);
        self.buffer_idx = 0;
        proof {
            assert(self.buffer@.subrange(0, end as int) =~= chunk_of(self.buffer@, 0));
        }
        0
    }

    /// If more input remains beyond the current chunk, advances the cursor
    /// and overwrites the window with the following chunk (the final chunk
    /// may be shorter than the window); past the end of the input this is a
    /// no-op.
    pub fn next(&mut self, window: &mut Vec<u8>) -> (r: i32)
        requires
            old(self).wf(),
            old(window)@.len() == FUNCTION_INPUT_BUFFER_SIZE,
        ensures
            r == 0,
            final(self).wf(),
            final(self).bytes() == old(self).bytes(),
            old(self).remaining() ==> {
                let c = chunk_of(old(self).bytes(), old(self).cursor() + 1);
                &&& final(self).cursor() == old(self).cursor() + 1
                &&& final(window)@ == c + old(window)@.skip(c.len() as int)
            },
            !old(self).remaining() ==> {
                &&& final(self).cursor() == old(self).cursor()
                &&& final(window)@ == old(window)@
            },
    {
        let w = FUNCTION_INPUT_BUFFER_SIZE;
        let len = self.buffer.len();
        let step = len > 0 && self.buffer_idx < (len - 1) / w;
        proof {
            let li = len as int;
            let wi = w as int;
            let idx = self.buffer_idx as int;
            if len > 0 {
                lemma_fundamental_div_mod(li - 1, wi);
                let q = (li - 1) / wi;
                let rem = (li - 1) % wi;
                if step {
                    assert((idx + 1) * wi <= li - 1) by (nonlinear_arith)
                        requires
                            idx + 1 <= q,
                            li - 1 == wi * q + rem,
                            rem >= 0,
                            wi > 0,
                    ;
                } else if (idx + 1) * wi < li {
                    assert(idx + 1 <= q) by (nonlinear_arith)
                        requires
                            (idx + 1) * wi <= li - 1,
                            li - 1 == wi * q + rem,
                            0 <= rem < wi,
                            wi > 0,
                    ;
                }
            }
        }
        if step {
            self.buffer_idx = self.buffer_idx + 1;
            let start = self.buffer_idx * w;
            let end: usize = if len - start < w {
                len
            } else {
                start + w
            };
            self.write_window(start, end, window);
            proof {
                assert(self.buffer@.subrange(start as int, end as int) =~= chunk_of(
                    self.buffer@,
                    self.buffer_idx as int,
                ));
            }
        }
        0
    }

    /// Copies `buffer[start..end]` to the front of the guest window.
    fn write_window(&self, start: usize, end: usize, window: &mut Vec<u8>)
        requires
            start <= end <= self.bytes().len(),
            end - start <= old(window)@.len(),
        ensures
            final(window)@ == self.bytes().subrange(start as int, end as int) + old(
                window,
            )@.skip((end - start) as int),
    {
        let n = end - start;
        let mut j: usize = 0;
        while j < n
            invariant
                n == end - start,
                start <= end <= self.bytes().len(),
                n <= window@.len(),
                j <= n,
                window@.len() == old(window)@.len(),
                forall|k: int| 0 <= k < j ==> window@[k] == self.bytes()[start + k],
                forall|k: int| j <= k < window@.len() ==> window@[k] == old(window)@[k],
            decreases n - j,
        {
            let b = self.buffer[start + j];
            window[j] = b;
            j = j + 1;
        }
        proof {
            assert(window@ =~= self.bytes().subrange(start as int, end as int) + old(
                window,
            )@.skip((end - start) as int));
        }
    }
}

} // verus!
