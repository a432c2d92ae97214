//! An in-memory output writer: the packer builds the whole output file as
//! one byte vector, with zero padding and page alignment, and the caller
//! writes it to disk in one piece.

use vstd::prelude::*;

verus! {

/// A growing output buffer with a write cursor at its end.
#[derive(Debug)]
pub struct Writer {
    pub buf: Vec<u8>,
}

impl Writer {
    /// An empty output.
    pub fn new() -> (r: Writer)
        ensures
            r.buf@ == Seq::<u8>::empty(),
    {
        Writer { buf: Vec::new() }
    }

    /// The current write offset: the number of bytes written so far.
    pub fn offset(&self) -> (r: u64)
        requires
            self.buf@.len() <= u64::MAX,
        ensures
            r == self.buf@.len(),
    {
        self.buf.len() as u64
    }

    /// Append `data` unchanged.
    pub fn write_all(&mut self, data: &[u8])
        requires
            old(self).buf@.len() + data@.len() <= usize::MAX,
        ensures
            final(self).buf@ == old(self).buf@ + data@,
    {
        let n = data.len();
        let mut j: usize = 0;
        while j < n
            invariant
                0 <= j <= n,
                n == data@.len(),
                self.buf@ == old(self).buf@ + data@.subrange(0, j as int),
            decreases n - j,
        {
            self.buf.push(data[j]);
            proof {
                assert(self.buf@ =~= old(self).buf@ + data@.subrange(0, j + 1));
            }
            j += 1;
        }
        proof {
            assert(data@.subrange(0, n as int) =~= data@);
        }
    }

    /// Append `n` zero bytes.
    pub fn pad(&mut self, n: u64)
        requires
            old(self).buf@.len() + n <= usize::MAX,
        ensures
            final(self).buf@ == old(self).buf@ + Seq::new(n as nat, |i: int| 0u8),
    {
        let mut j: u64 = 0;
        while j < n
            invariant
                0 <= j <= n,
                old(self).buf@.len() + n <= usize::MAX,
                self.buf@ == old(self).buf@ + Seq::new(j as nat, |i: int| 0u8),
            decreases n - j,
        {
            self.buf.push(0);
            proof {
                assert(self.buf@ =~= old(self).buf@ + Seq::new((j + 1) as nat, |i: int| 0u8));
            }
            j += 1;
        }
    }

    /// Pad with zero bytes up to the next multiple of `align`.
    pub fn align(&mut self, align: u64)
        requires
            align > 0,
            old(self).buf@.len() + align <= usize::MAX,
        ensures
            final(self).buf@.len() as int % (align as int) == 0,
            old(self).buf@.len() <= final(self).buf@.len(),
            final(self).buf@.len() < old(self).buf@.len() + align,
            final(self).buf@.subrange(0, old(self).buf@.len() as int) == old(self).buf@,
            forall|i: int| old(self).buf@.len() <= i < final(self).buf@.len()
                ==> final(self).buf@[i] == 0,
    {
        let r = (self.buf.len() as u64) % align;
        if r != 0 {
            self.pad(align - r);
            proof {
                let a = align as int;
                let l0 = old(self).buf@.len() as int;
                assert(self.buf@.len() == l0 + (a - l0 % a));
                assert((l0 + (a - l0 % a)) % a == 0) by (nonlinear_arith)
                    requires a > 0, l0 >= 0;
            }
        }
        proof {
            assert(self.buf@.subrange(0, old(self).buf@.len() as int) =~= old(self).buf@);
        }
    }

    /// Hand the finished bytes out.
    pub fn into_vec(self) -> (r: Vec<u8>)
        ensures
            r@ == self.buf@,
    {
        self.buf
    }
}

} // verus!
