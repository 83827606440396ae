//! What a typed GPU buffer can hold.

use vstd::prelude::*;

verus! {

/// A value that is stored on the GPU as a fixed number of 32-bit words.
pub trait GpuElement: Sized {
    /// The number of words that each value takes.
    spec fn words_each() -> nat;

    /// The words of this value, in memory order.
    spec fn words(&self) -> Seq<u32>;

    proof fn words_len(&self)
        ensures
            self.words().len() == Self::words_each(),
    ;

    fn word_count() -> (n: usize)
        ensures
            n == Self::words_each(),
            1 <= n <= 64,
    ;

    fn append_words(&self, out: &mut Vec<u32>)
        ensures
            final(out)@ == old(out)@ + self.words(),
    ;
}

/// The words of a whole slice of elements, one after another.
pub open spec fn all_words<T: GpuElement>(data: Seq<T>) -> Seq<u32>
    decreases data.len(),
{
    if data.len() == 0 {
        Seq::empty()
    } else {
        all_words(data.drop_last()) + data.last().words()
    }
}

pub proof fn lemma_all_words_len<T: GpuElement>(data: Seq<T>)
    ensures
        all_words(data).len() == data.len() * T::words_each(),
    decreases data.len(),
{
    if data.len() != 0 {
        lemma_all_words_len(data.drop_last());
        data.last().words_len();
        assert((data.len() - 1) * T::words_each() + T::words_each() == data.len() * T::words_each())
            by (nonlinear_arith);
    }
}

/// Flatten a slice of elements into the words that are uploaded.
pub fn flatten<T: GpuElement>(data: &[T]) -> (out: Vec<u32>)
    ensures
        out@ == all_words(data@),
{
    let mut out: Vec<u32> = Vec::new();
    let mut i: usize = 0;
    assert(out@ =~= all_words(data@.take(0)));
    while i < data.len()
        invariant
            i <= data@.len(),
            out@ == all_words(data@.take(i as int)),
        decreases data@.len() - i,
    {
        data[i].append_words(&mut out);
        assert(data@.take(i + 1).drop_last() =~= data@.take(i as int));
        i = i + 1;
    }
    assert(data@.take(data@.len() as int) =~= data@);
    out
}

impl GpuElement for u32 {
    open spec fn words_each() -> nat {
        1
    }

    open spec fn words(&self) -> Seq<u32> {
        seq![*self]
    }

    proof fn words_len(&self) {
    }

    fn word_count() -> (n: usize) {
        1
    }

    fn append_words(&self, out: &mut Vec<u32>) {
        out.push(*self);
        assert(out@ =~= old(out)@ + self.words());
    }
}

} // verus!
