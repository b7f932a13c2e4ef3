//! Exact content comparison with early exit.
//!
//! Two files are compared size first: different sizes settle the question
//! as "different" before a single content byte is supplied. Equal-sized
//! files are then compared block by block from the start, stopping at the
//! first mismatching block. `Comparator` is the decision engine: the caller
//! reads the two files chunk by chunk and feeds the chunks in, and the
//! engine keeps the verdict. `compare_content` runs that engine over two
//! in-memory contents in fixed-size blocks.

use vstd::prelude::*;
use vstd::slice::slice_subrange;

verus! {

/// Block size for content comparison, in bytes.
pub const BLOCK_SIZE: u64 = 4096;

/// The state of one content comparison.
///
/// `fed1` and `fed2` record the bytes supplied so far from each file, and
/// `len1` and `len2` the announced total lengths; `wf()` ties the verdict
/// to them: undecided means everything supplied so far agreed and bytes
/// remain, `Some(true)` means the whole contents agreed, and `Some(false)`
/// means the lengths differed or some supplied bytes differed.
pub struct Comparator {
    /// The verdict so far: `None` while undecided.
    pub verdict: Option<bool>,
    /// Bytes of each file still to be supplied.
    pub remaining: u64,
    /// Announced length of the first file.
    pub len1: Ghost<nat>,
    /// Announced length of the second file.
    pub len2: Ghost<nat>,
    /// Bytes supplied so far from the first file.
    pub fed1: Ghost<Seq<u8>>,
    /// Bytes supplied so far from the second file.
    pub fed2: Ghost<Seq<u8>>,
}

impl Comparator {
    pub open spec fn wf(self) -> bool {
        &&& self.fed1@.len() == self.fed2@.len()
        &&& if self.len1@ != self.len2@ {
            &&& self.verdict == Some(false)
            &&& self.fed1@.len() == 0
        } else {
            &&& self.fed1@.len() + self.remaining == self.len1@
            &&& match self.verdict {
                None => self.fed1@ == self.fed2@ && self.remaining > 0,
                Some(true) => self.fed1@ == self.fed2@ && self.remaining == 0,
                Some(false) => self.fed1@ != self.fed2@,
            }
        }
    }

    /// Starts a comparison of two files of the given sizes. Files of
    /// different sizes are settled as different here, before any content
    /// byte is supplied; empty files are equal outright.
    pub fn new(len1: u64, len2: u64) -> (c: Comparator)
        ensures
            c.wf(),
            c.len1@ == len1,
            c.len2@ == len2,
            c.fed1@ == Seq::<u8>::empty(),
            c.fed2@ == Seq::<u8>::empty(),
            len1 == len2 ==> c.remaining == len1,
            c.verdict == (if len1 != len2 {
                Some(false)
            } else if len1 == 0 {
                Some(true)
            } else {
                None::<bool>
            }),
    {
        if len1 != len2 {
            Comparator {
                verdict: Some(false),
                remaining: 0,
                len1: Ghost(len1 as nat),
                len2: Ghost(len2 as nat),
                fed1: Ghost(Seq::empty()),
                fed2: Ghost(Seq::empty()),
            }
        } else {
            Comparator {
                verdict: if len1 == 0 { Some(true) } else { None },
                remaining: len1,
                len1: Ghost(len1 as nat),
                len2: Ghost(len2 as nat),
                fed1: Ghost(Seq::empty()),
                fed2: Ghost(Seq::empty()),
            }
        }
    }

    /// How many bytes the caller should read next from each file: a full
    /// block, or whatever remains for the final partial block.
    pub fn next_chunk_len(&self) -> (n: u64)
        ensures
            n == (if self.remaining < BLOCK_SIZE { self.remaining } else { BLOCK_SIZE }),
    {
        if self.remaining < BLOCK_SIZE {
            self.remaining
        } else {
            BLOCK_SIZE
        }
    }

    /// Supplies the next chunk read from each file. The chunks agree: the
    /// comparison goes on, done if nothing remains. The chunks differ: the
    /// verdict is settled as different, and no further byte need be read.
    pub fn feed(&mut self, chunk1: &[u8], chunk2: &[u8])
        requires
            old(self).wf(),
            old(self).verdict is None,
            chunk1@.len() == chunk2@.len(),
            0 < chunk1@.len() <= old(self).remaining,
        ensures
            final(self).wf(),
            final(self).len1 == old(self).len1,
            final(self).len2 == old(self).len2,
            final(self).fed1@ == old(self).fed1@ + chunk1@,
            final(self).fed2@ == old(self).fed2@ + chunk2@,
            final(self).remaining == old(self).remaining - chunk1@.len(),
            final(self).verdict == (if chunk1@ != chunk2@ {
                Some(false)
            } else if old(self).remaining == chunk1@.len() {
                Some(true)
            } else {
                None::<bool>
            }),
    {
        let equal = slices_equal(chunk1, chunk2);
        self.remaining = self.remaining - (chunk1.len() as u64);
        self.verdict = if !equal {
            Some(false)
        } else if self.remaining == 0 {
            Some(true)
        } else {
            None
        };
        proof {
            self.fed1 = Ghost(self.fed1@ + chunk1@);
            self.fed2 = Ghost(self.fed2@ + chunk2@);
            if chunk1@ != chunk2@ && self.fed1@ == self.fed2@ {
                let n = old(self).fed1@.len() as int;
                assert forall|k: int| 0 <= k < chunk1@.len() implies chunk1@[k] == chunk2@[k] by {
                    assert(self.fed1@[n + k] == self.fed2@[n + k]);
                }
                assert(chunk1@ =~= chunk2@);
            }
        }
    }
}

/// Two equally long byte slices are equal exactly when their contents are,
/// checked front to back with an early exit at the first mismatch.
fn slices_equal(a: &[u8], b: &[u8]) -> (r: bool)
    requires
        a@.len() == b@.len(),
    ensures
        r == (a@ == b@),
{
    let n = a.len();
    for i in 0..n
        invariant
            n == a@.len(),
            a@.len() == b@.len(),
            forall|k: int| 0 <= k < i ==> a@[k] == b@[k],
    {
        if a[i] != b[i] {
            return false;
        }
    }
    proof {
        assert(a@ =~= b@);
    }
    true
}

/// Two contents are equal exactly when they are the same byte sequence.
/// The comparison runs the block engine: sizes first, then blocks of
/// `BLOCK_SIZE` bytes, stopping at the first mismatch.
pub fn compare_content(a: &Vec<u8>, b: &Vec<u8>) -> (r: bool)
    ensures
        r == (a@ == b@),
{
    let mut cmp = Comparator::new(a.len() as u64, b.len() as u64);
    let mut pos: usize = 0;
    proof {
        assert(a@.subrange(0, 0) =~= Seq::<u8>::empty());
        assert(b@.subrange(0, 0) =~= Seq::<u8>::empty());
    }
    while cmp.verdict.is_none()
        invariant
            cmp.wf(),
            cmp.len1@ == a@.len(),
            cmp.len2@ == b@.len(),
            a@.len() <= usize::MAX,
            pos == cmp.fed1@.len(),
            cmp.fed1@ == a@.subrange(0, pos as int),
            cmp.fed2@ == b@.subrange(0, pos as int),
        decreases a@.len() - pos,
    {
        let step_u64 = cmp.next_chunk_len();
        let step = step_u64 as usize;
        proof {
            assert(cmp.remaining == a@.len() - pos);
            assert(cmp.remaining > 0);
            assert(step == (if cmp.remaining < BLOCK_SIZE { cmp.remaining } else { BLOCK_SIZE }));
            assert(0 < step <= a@.len() - pos);
        }
        let chunk1 = slice_subrange(a.as_slice(), pos, pos + step);
        let chunk2 = slice_subrange(b.as_slice(), pos, pos + step);
        cmp.feed(chunk1, chunk2);
        proof {
            assert(a@.subrange(0, pos as int) + a@.subrange(pos as int, pos + step)
                =~= a@.subrange(0, pos + step));
            assert(b@.subrange(0, pos as int) + b@.subrange(pos as int, pos + step)
                =~= b@.subrange(0, pos + step));
        }
        pos = pos + step;
    }
    let verdict = cmp.verdict.unwrap();
    proof {
        if verdict {
            assert(cmp.fed1@ == a@.subrange(0, a@.len() as int));
            assert(a@.subrange(0, a@.len() as int) =~= a@);
            assert(b@.subrange(0, b@.len() as int) =~= b@);
            assert(a@ == b@);
        } else {
            if cmp.len1@ == cmp.len2@ {
                assert(cmp.fed1@ != cmp.fed2@);
                if a@ == b@ {
                    assert(a@.subrange(0, pos as int) == b@.subrange(0, pos as int));
                }
            }
            assert(a@ != b@);
        }
    }
    verdict
}

} // verus!
