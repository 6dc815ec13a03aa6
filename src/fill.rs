use crate::source::Source;
use vstd::prelude::*;

verus! {

/// The smaller of a buffer length and a pending length.
pub open spec fn fill_len(buf_len: nat, pending_len: nat) -> nat {
    if buf_len <= pending_len {
        buf_len
    } else {
        pending_len
    }
}

/// Adds [`fill`](Fill::fill) to every [`Source`].
pub trait Fill: Source {
    /// Reads into `buf` until it is full or the stream reports its end.
    ///
    /// Reads that report an interruption are made again; any other error ends
    /// the call and is handed back as it came. On success the count is that of
    /// the bytes placed at the front of `buf`: all of `buf` when enough bytes
    /// were pending, else all the pending bytes. On an error, the bytes read
    /// before it stay at the front of `buf` and are gone from the stream.
    ///
    /// Interrupted reads are retried with no limit of their own; the stream's
    /// `interruptions` bound is what shows that the retries end.
    fn fill(&mut self, buf: &mut [u8]) -> (r: Result<usize, Self::Error>)
        ensures
            final(buf)@.len() == old(buf)@.len(),
            old(self).reliable() ==> r is Ok && final(self).reliable(),
            old(self).settled() ==> final(self).settled(),
            match r {
                Ok(n) => {
                    &&& n == fill_len(old(buf)@.len(), old(self).pending().len())
                    &&& final(buf)@.take(n as int) == old(self).pending().take(n as int)
                    &&& n == old(buf)@.len() || old(self).settled()
                        ==> final(self).pending() == old(self).pending().skip(n as int)
                    &&& final(self).consumed() == old(self).consumed() + final(buf)@.take(n as int)
                    &&& final(self).failures() == old(self).failures()
                    &&& final(self).last_failure() == old(self).last_failure()
                },
                Err(e) => {
                    &&& !Self::interrupted(&e)
                    &&& final(self).failures() == old(self).failures() + 1
                    &&& final(self).last_failure() == Some(e)
                    &&& exists|k: int|
                        0 <= k <= fill_len(old(buf)@.len(), old(self).pending().len())
                            && old(self).pending().take(k) == final(buf)@.take(k)
                            && final(self).consumed() == old(self).consumed() + final(buf)@.take(k)
                            && #[trigger] old(self).pending().skip(k) == final(self).pending()
                },
            },
    {
        let len = buf.len();
        let mut count: usize = 0;
        loop
            invariant
                count <= len,
                count == len ==> count == 0,
                buf@.len() == len,
                len == old(buf)@.len(),
                count <= old(self).pending().len(),
                buf@.take(count as int) == old(self).pending().take(count as int),
                self.pending() == old(self).pending().skip(count as int),
                old(self).reliable() ==> self.reliable(),
                old(self).settled() ==> self.settled(),
                self.consumed() == old(self).consumed() + buf@.take(count as int),
                self.failures() == old(self).failures(),
                self.last_failure() == old(self).last_failure(),
            decreases len - count, self.interruptions(),
        {
            let ghost before = buf@;
            let ghost pending = self.pending();
            let (_head, rest) = buf.split_at_mut(count);
            let got = self.read(rest);
            assert(buf@.take(count as int) =~= before.take(count as int));
            match got {
                Err(e) => {
                    if Self::is_interrupted(&e) {
                        continue ;
                    } else {
                        return Err(e);
                    }
                },
                Ok(0) => {
                    assert(pending.skip(0) =~= pending);
                    return Ok(count);
                },
                Ok(l) => {
                    proof {
                        let total = count + l;
                        assert(buf@.take(total) =~= before.take(count as int) + buf@.subrange(
                            count as int,
                            total,
                        ));
                        assert(buf@.subrange(count as int, total) =~= pending.take(l as int));
                        assert(old(self).pending().take(total) =~= old(self).pending().take(
                            count as int,
                        ) + pending.take(l as int));
                        assert(self.pending() =~= old(self).pending().skip(total));
                        assert(self.consumed() =~= old(self).consumed() + buf@.take(total));
                    }
                    count = count + l;
                    if count == len {
                        return Ok(count);
                    }
                },
            }
        }
    }
}

impl<S: Source> Fill for S {

}

} // verus!
