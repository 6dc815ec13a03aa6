use crate::source::Source;
use vstd::prelude::*;

verus! {

/// What one read of a [`MemReader`] does, as its script sets out.
#[derive(Clone, Copy, Debug, PartialEq, Eq, Structural)]
pub enum Step {
    /// Hand out bytes as usual.
    Read,
    /// Report an interruption and hand out nothing.
    Interrupt,
    /// Fail and hand out nothing.
    Fail,
}

/// The errors of a [`MemReader`].
#[derive(Clone, Copy, Debug, PartialEq, Eq, Structural)]
pub enum MemError {
    /// A read was interrupted.
    Interrupted,
    /// The read with this number, counted from 0, failed.
    Failed(usize),
}

/// A stream over bytes held in memory, read from the front.
///
/// Each read hands out at most `piece` bytes. The reads follow a script: the
/// read with number `i`, counted from 0, does what the script's step `i` says;
/// the reads after the script's end hand out bytes. When the bytes run out the
/// stream reports its end.
pub struct MemReader {
    data: Vec<u8>,
    pos: usize,
    piece: usize,
    script: Vec<Step>,
    reads: usize,
    failed: Ghost<nat>,
    last: Ghost<Option<MemError>>,
}

/// No step of `script` from `from` on is a failure.
pub open spec fn no_failure_from(script: Seq<Step>, from: int) -> bool {
    forall|j: int| from <= j < script.len() ==> script[j] != Step::Fail
}

impl MemReader {
    #[verifier::type_invariant]
    spec fn well_formed(&self) -> bool {
        &&& self.pos <= self.data@.len()
        &&& self.piece > 0
    }

    /// A stream that hands out all the bytes of `data` at the first read, then
    /// reports its end.
    pub fn new(data: Vec<u8>) -> (r: MemReader)
        ensures
            r.pending() == data@,
            r.reliable(),
            r.consumed() == Seq::<u8>::empty(),
            r.settled(),
            r.failures() == 0,
            r.last_failure() == None::<MemError>,
    {
        MemReader::scripted(data, usize::MAX, Vec::new())
    }

    /// A stream over `data` that hands out at most `piece` bytes a read and
    /// follows `script`.
    pub fn scripted(data: Vec<u8>, piece: usize, script: Vec<Step>) -> (r: MemReader)
        requires
            piece > 0,
        ensures
            r.pending() == data@,
            r.reliable() == no_failure_from(script@, 0),
            r.consumed() == Seq::<u8>::empty(),
            r.settled(),
            r.failures() == 0,
            r.last_failure() == None::<MemError>,
    {
        let r = MemReader {
            data,
            pos: 0,
            piece,
            script,
            reads: 0,
            failed: Ghost(0),
            last: Ghost(None),
        };
        assert(r.data@.skip(0) =~= r.data@);
        assert(r.data@.take(0) =~= Seq::<u8>::empty());
        r
    }

    /// How many bytes have been read so far.
    pub fn position(&self) -> (r: usize)
        ensures
            r == self.consumed().len(),
    {
        proof {
            use_type_invariant(self);
        }
        self.pos
    }
}

impl Source for MemReader {
    type Error = MemError;

    closed spec fn pending(&self) -> Seq<u8> {
        self.data@.skip(self.pos as int)
    }

    closed spec fn consumed(&self) -> Seq<u8> {
        self.data@.take(self.pos as int)
    }

    open spec fn settled(&self) -> bool {
        true
    }

    closed spec fn failures(&self) -> nat {
        self.failed@
    }

    closed spec fn last_failure(&self) -> Option<MemError> {
        self.last@
    }

    closed spec fn reliable(&self) -> bool {
        no_failure_from(self.script@, self.reads as int)
    }

    closed spec fn interruptions(&self) -> nat {
        if self.reads < self.script@.len() {
            (self.script@.len() - self.reads) as nat
        } else {
            0
        }
    }

    open spec fn interrupted(e: &MemError) -> bool {
        *e == MemError::Interrupted
    }

    fn is_interrupted(e: &MemError) -> (r: bool) {
        match e {
            MemError::Interrupted => true,
            MemError::Failed(_) => false,
        }
    }

    fn read(&mut self, buf: &mut [u8]) -> (r: Result<usize, MemError>) {
        proof {
            use_type_invariant(&*self);
        }
        let number = self.reads;
        let mut step = Step::Read;
        if number < self.script.len() {
            step = self.script[number];
            self.reads = number + 1;
        }
        match step {
            Step::Interrupt => {
                return Err(MemError::Interrupted);
            },
            Step::Fail => {
                self.failed = Ghost(self.failed@ + 1);
                self.last = Ghost(Some(MemError::Failed(number)));
                return Err(MemError::Failed(number));
            },
            Step::Read => {},
        }
        let len = self.data.len();
        let mut n = len - self.pos;
        if buf.len() < n {
            n = buf.len();
        }
        if self.piece < n {
            n = self.piece;
        }
        let ghost start = buf@;
        let mut i: usize = 0;
        while i < n
            invariant
                i <= n,
                n <= buf@.len(),
                n <= len - self.pos,
                self.pos <= len,
                self.data@.len() == len,
                buf@.len() == start.len(),
                forall|j: int| 0 <= j < i ==> buf@[j] == self.data@[self.pos + j],
            decreases n - i,
        {
            buf[i] = self.data[self.pos + i];
            i = i + 1;
        }
        assert(buf@.take(n as int) =~= self.data@.skip(self.pos as int).take(n as int));
        assert(self.data@.take(self.pos + n) =~= self.data@.take(self.pos as int) + buf@.take(
            n as int,
        ));
        self.pos = self.pos + n;
        assert(self.data@.skip(self.pos as int) =~= old(self).data@.skip(old(self).pos as int).skip(
            n as int,
        ));
        Ok(n)
    }
}

} // verus!
