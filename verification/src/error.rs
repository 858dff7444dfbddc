use vstd::prelude::*;
use crate::code::hyper_code;

verus! {

/// An operational failure, held as the text that describes it.
#[derive(Debug)]
pub struct hyper_error {
    message: Vec<u8>,
}

/// The smaller of two lengths.
pub open spec fn min_len(a: int, b: int) -> int {
    if a <= b { a } else { b }
}

impl View for hyper_error {
    type V = Seq<u8>;

    closed spec fn view(&self) -> Seq<u8> {
        self.message@
    }
}

impl hyper_error {
    /// An error described by `message`.
    pub fn new(message: Vec<u8>) -> (r: hyper_error)
        ensures
            r@ == message@,
    {
        hyper_error { message }
    }

    /// The coarse status that stands for this error.
    pub fn code(&self) -> (r: hyper_code)
        ensures
            r == hyper_code::HYPERE_ERROR,
    {
        hyper_code::HYPERE_ERROR
    }

    /// Writes as much of the description as fits into `dst`, from its start,
    /// and returns the number of bytes written. The rest of `dst` is left
    /// as it was; a description that is too long is cut without notice.
    pub fn print_to(&self, dst: &mut [u8]) -> (n: usize)
        ensures
            n == min_len(self@.len() as int, old(dst)@.len() as int),
            final(dst)@.len() == old(dst)@.len(),
            final(dst)@.subrange(0, n as int) == self@.subrange(0, n as int),
            final(dst)@.subrange(n as int, old(dst)@.len() as int)
                == old(dst)@.subrange(n as int, old(dst)@.len() as int),
    {
        let cap: usize = dst.len();
        let len: usize = self.message.len();
        let n: usize = if len <= cap { len } else { cap };
        let mut i: usize = 0;
        while i < n
            invariant
                i <= n,
                n <= cap,
                n <= len,
                len == self.message@.len(),
                dst@.len() == cap,
                cap == old(dst)@.len(),
                forall|j: int| 0 <= j < i ==> dst@[j] == self.message@[j],
                forall|j: int| i <= j < cap ==> dst@[j] == old(dst)@[j],
            decreases n - i,
        {
            dst[i] = self.message[i];
            i = i + 1;
        }
        proof {
            assert(dst@.subrange(0, n as int) =~= self@.subrange(0, n as int));
            assert(dst@.subrange(n as int, cap as int) =~= old(dst)@.subrange(n as int, cap as int));
        }
        n
    }
}

} // verus!
