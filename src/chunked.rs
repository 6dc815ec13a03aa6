use crate::fill::{fill_len, Fill};
use crate::source::Source;
use vstd::prelude::*;

verus! {

/// The next chunk that a stream with `pending` bytes gives: its first `size`
/// bytes, or all of them when fewer are pending.
pub open spec fn first_chunk(pending: Seq<u8>, size: nat) -> Seq<u8> {
    if pending.len() <= size {
        pending
    } else {
        pending.take(size as int)
    }
}

/// The chunks that a stream holding `data`, and then reporting its end, yields
/// one after another when read in chunks of `size` bytes.
pub open spec fn chunks_of(data: Seq<u8>, size: nat) -> Seq<Seq<u8>>
    decreases data.len(),
{
    if size == 0 || data.len() == 0 {
        Seq::empty()
    } else if data.len() <= size {
        seq![data]
    } else {
        seq![data.take(size as int)] + chunks_of(data.skip(size as int), size)
    }
}

/// Reading a stream of `n` bytes in chunks of `size > 0` bytes gives
/// `ceil(n / size)` chunks (none when `n` is 0). Each chunk but the last holds
/// `size` bytes, the last holds `n % size` bytes, or `size` when `size` divides
/// `n`, and the chunks put together in order are the stream's bytes.
///
/// Each step is the one that [`ChunkedReader::next`] takes: the first chunk is
/// [`first_chunk`], and once it is taken the rest of the stream yields the
/// remaining chunks.
pub proof fn lemma_chunks_of(data: Seq<u8>, size: nat)
    requires
        size > 0,
    ensures
        chunks_of(data, size).len() == (data.len() + size - 1) / size as int,
        forall|i: int|
            0 <= i < chunks_of(data, size).len() - 1 ==> (#[trigger] chunks_of(data, size)[i]).len()
                == size,
        data.len() > 0 ==> chunks_of(data, size).last().len() == if data.len() % size == 0 {
            size
        } else {
            data.len() % size
        },
        chunks_of(data, size).flatten() == data,
        data.len() > 0 ==> chunks_of(data, size)[0] == first_chunk(data, size),
        data.len() > 0 ==> chunks_of(data.skip(first_chunk(data, size).len() as int), size)
            == chunks_of(data, size).drop_first(),
    decreases data.len(),
{
    let n = data.len() as int;
    let s = size as int;
    let c = chunks_of(data, size);
    if n == 0 {
        assert((s - 1) / s == 0) by (nonlinear_arith)
            requires
                s > 0,
        ;
        assert(c.flatten() =~= data);
    } else if n <= s {
        assert((n + s - 1) / s == 1) by (nonlinear_arith)
            requires
                0 < n <= s,
        ;
        assert(n % s == if n == s { 0 } else { n }) by (nonlinear_arith)
            requires
                0 < n <= s,
        ;
        assert(c.drop_first() =~= Seq::<Seq<u8>>::empty());
        assert(c.drop_first().flatten() =~= Seq::<u8>::empty());
        assert(c.flatten() =~= data);
        assert(data.skip(n) =~= Seq::<u8>::empty());
    } else {
        let rest = data.skip(s);
        lemma_chunks_of(rest, size);
        let rc = chunks_of(rest, size);
        assert(c == seq![data.take(s)] + rc);
        vstd::arithmetic::div_mod::lemma_div_plus_one(n - 1, s);
        vstd::arithmetic::div_mod::lemma_mod_sub_multiples_vanish(n, s);
        assert(rc.len() > 0) by {
            assert((n - s + s - 1) / s >= 1) by (nonlinear_arith)
                requires
                    n > s > 0,
            ;
        }
        assert(c.last() == rc.last());
        assert forall|i: int| 0 <= i < c.len() - 1 implies (#[trigger] c[i]).len() == size by {
            if i > 0 {
                assert(c[i] == rc[i - 1]);
            }
        }
        assert(c.drop_first() =~= rc);
        assert(c.flatten() == data.take(s) + rc.flatten());
        assert(data.take(s) + rest =~= data);
    }
}

/// Wraps a [`Source`] and reads it in chunks of a fixed, positive size.
///
/// Each call to [`next`](ChunkedReader::next) fills a fresh buffer of the
/// chunk size and hands it out, cut down to the bytes that were read.
#[must_use]
pub struct ChunkedReader<R: Source> {
    read: R,
    size: usize,
}

impl<R: Source> ChunkedReader<R> {
    /// The chunk size is positive.
    pub closed spec fn wf(&self) -> bool {
        self.size > 0
    }

    /// The wrapped stream.
    pub closed spec fn inner(&self) -> R {
        self.read
    }

    /// The length of a full chunk.
    pub closed spec fn chunk_size(&self) -> nat {
        self.size as nat
    }

    /// Consumes the reader, returning the wrapped stream as the reads left it.
    pub fn into_inner(self) -> (r: R)
        ensures
            r == self.inner(),
    {
        self.read
    }

    /// Reads the next chunk.
    ///
    /// `None` when the stream reports its end before any byte; an error when a
    /// read fails with anything but an interruption; else the chunk, of the
    /// chunk size unless the stream reported its end first. The stream gives
    /// up exactly the bytes of the chunk, or on an error the bytes read before
    /// it. On a settled stream the chunks follow [`chunks_of`], and once `None`
    /// has come the stream stays at its end.
    pub fn next(&mut self) -> (r: Option<Result<Vec<u8>, R::Error>>)
        requires
            old(self).wf(),
        ensures
            final(self).wf(),
            final(self).chunk_size() == old(self).chunk_size(),
            old(self).inner().reliable()
                ==> final(self).inner().reliable() && !(r matches Some(Err(_))),
            old(self).inner().settled() ==> final(self).inner().settled(),
            match r {
                Option::None => {
                    &&& old(self).inner().pending().len() == 0
                    &&& final(self).inner().consumed() == old(self).inner().consumed()
                    &&& final(self).inner().failures() == old(self).inner().failures()
                    &&& final(self).inner().last_failure() == old(self).inner().last_failure()
                    &&& old(self).inner().settled() ==> final(self).inner().pending()
                        == old(self).inner().pending()
                },
                Some(Ok(c)) => {
                    &&& c@ == first_chunk(old(self).inner().pending(), old(self).chunk_size())
                    &&& c@.len() > 0
                    &&& c@ == chunks_of(old(self).inner().pending(), old(self).chunk_size())[0]
                    &&& final(self).inner().consumed() == old(self).inner().consumed() + c@
                    &&& final(self).inner().failures() == old(self).inner().failures()
                    &&& final(self).inner().last_failure() == old(self).inner().last_failure()
                    &&& c@.len() == old(self).chunk_size() || old(self).inner().settled()
                        ==> final(self).inner().pending() == old(self).inner().pending().skip(
                        c@.len() as int,
                    )
                    &&& old(self).inner().settled() ==> chunks_of(
                        final(self).inner().pending(),
                        final(self).chunk_size(),
                    ) == chunks_of(old(self).inner().pending(), old(self).chunk_size()).drop_first()
                },
                Some(Err(e)) => {
                    &&& !R::interrupted(&e)
                    &&& final(self).inner().failures() == old(self).inner().failures() + 1
                    &&& final(self).inner().last_failure() == Some(e)
                    &&& exists|k: int|
                        0 <= k <= old(self).chunk_size() && k <= old(self).inner().pending().len()
                            && final(self).inner().consumed() == old(self).inner().consumed()
                            + old(self).inner().pending().take(k)
                            && #[trigger] old(self).inner().pending().skip(k)
                            == final(self).inner().pending()
                },
            },
            r is None ==> chunks_of(old(self).inner().pending(), old(self).chunk_size()).len()
                == 0,
    {
        let ghost p = self.read.pending();
        proof {
            lemma_chunks_of(p, self.size as nat);
        }
        let mut buf = vec![0u8; self.size];
        match self.read.fill(buf.as_mut_slice()) {
            Err(e) => {
                proof {
                    let k = choose|k: int|
                        0 <= k <= fill_len(old(self).chunk_size(), p.len()) && #[trigger] p.skip(k)
                            == self.read.pending();
                    assert(p.skip(k) == self.inner().pending());
                    assert(p.take(k) == buf@.take(k));
                }
                Some(Err(e))
            },
            Ok(0) => {
                assert(p.skip(0) =~= p);
                None
            },
            Ok(l) => {
                buf.truncate(l);
                assert(buf@ =~= first_chunk(p, self.size as nat));
                Some(Ok(buf))
            },
        }
    }
}

/// Adds [`chunked`](Chunk::chunked) to every [`Source`].
pub trait Chunk: Source + Sized {
    /// Consumes the stream, returning a [`ChunkedReader`] over it with chunks
    /// of `size` bytes.
    fn chunked(self, size: usize) -> (r: ChunkedReader<Self>)
        requires
            size > 0,
        ensures
            r.wf(),
            r.inner() == self,
            r.chunk_size() == size,
    {
        ChunkedReader { read: self, size }
    }
}

impl<R: Source> Chunk for R {

}

} // verus!
