use vstd::prelude::*;

verus! {

/// A stream of bytes with a single-shot read.
///
/// A state of the stream is modelled by `pending`: the bytes that reads from
/// that state hand out, in order, before the stream next reports its end. Once
/// the end has been reported, nothing is assumed of what the stream holds
/// afterwards, unless the stream is `settled`: then it stays at its end.
pub trait Source {
    /// What a failed read reports.
    type Error;

    /// The bytes that the following reads hand out before the end is reported.
    spec fn pending(&self) -> Seq<u8>;

    /// The bytes that reads have handed out so far, in order.
    spec fn consumed(&self) -> Seq<u8>;

    /// The stream promises to gain no bytes: once it has reported its end, it
    /// goes on reporting it.
    spec fn settled(&self) -> bool;

    /// How many reads have failed other than by an interruption.
    spec fn failures(&self) -> nat;

    /// The error of the latest read that failed other than by an interruption.
    spec fn last_failure(&self) -> Option<Self::Error>;

    /// No read from this state on fails, other than by an interruption.
    spec fn reliable(&self) -> bool;

    /// A bound on how many reads in a row may still report an interruption.
    ///
    /// Every interrupted read lowers it; any other outcome may raise it again.
    /// It only serves to show that retrying an interrupted read comes to an end.
    spec fn interruptions(&self) -> nat;

    /// The error is a transient interruption: the read may simply be made again.
    spec fn interrupted(e: &Self::Error) -> bool;

    /// Tells whether `e` reports an interruption.
    fn is_interrupted(e: &Self::Error) -> (r: bool)
        ensures
            r == Self::interrupted(e),
    ;

    /// Reads at most `buf.len()` bytes into the front of `buf`.
    ///
    /// `Ok(n)` says that the first `n` pending bytes are now the first `n`
    /// bytes of `buf`; `Ok(0)` on a non-empty buffer says that no byte was
    /// pending. A failed read hands out no byte; one that fails other than by
    /// an interruption is recorded.
    fn read(&mut self, buf: &mut [u8]) -> (r: Result<usize, Self::Error>)
        ensures
            final(buf)@.len() == old(buf)@.len(),
            old(self).reliable() ==> final(self).reliable(),
            old(self).reliable() && r is Err ==> Self::interrupted(&r->Err_0),
            old(self).settled() ==> final(self).settled(),
            match r {
                Ok(n) => {
                    &&& n <= old(buf)@.len()
                    &&& n <= old(self).pending().len()
                    &&& final(buf)@.take(n as int) == old(self).pending().take(n as int)
                    &&& n > 0 ==> final(self).pending() == old(self).pending().skip(n as int)
                    &&& old(buf)@.len() == 0 ==> final(self).pending() == old(self).pending()
                    &&& n == 0 && old(buf)@.len() > 0 ==> old(self).pending().len() == 0
                    &&& old(self).settled() ==> final(self).pending() == old(self).pending().skip(
                        n as int,
                    )
                    &&& final(self).consumed() == old(self).consumed() + final(buf)@.take(n as int)
                    &&& final(self).failures() == old(self).failures()
                    &&& final(self).last_failure() == old(self).last_failure()
                },
                Err(e) => {
                    &&& final(self).pending() == old(self).pending()
                    &&& final(self).consumed() == old(self).consumed()
                    &&& if Self::interrupted(&e) {
                        &&& final(self).failures() == old(self).failures()
                        &&& final(self).last_failure() == old(self).last_failure()
                    } else {
                        &&& final(self).failures() == old(self).failures() + 1
                        &&& final(self).last_failure() == Some(e)
                    }
                    &&& Self::interrupted(&e) ==> final(self).interruptions() < old(
                        self,
                    ).interruptions()
                },
            },
    ;
}

} // verus!
