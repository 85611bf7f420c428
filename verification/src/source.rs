//! The byte-source interface and an in-memory source.
//!
//! A source hands out bounded batches of bytes on demand: one `fill` call
//! either delivers up to a requested number of bytes (zero meaning the
//! source is exhausted) or reports a low-level failure.

use vstd::prelude::*;

verus! {

/// An opaque report of a low-level source failure. It travels with the
/// error for diagnostics only; nothing compares or interprets it.
#[derive(Debug)]
pub struct SourceFault {
    /// A human-readable description of what went wrong.
    pub message: String,
}

/// A byte source delivering bounded batches on demand.
///
/// `bytes()` is the sequence of bytes the source will still deliver, in
/// order. A `fill` call hands out a prefix of it: a shorter batch than
/// requested is ordinary chunking, while an empty batch (for a nonzero
/// request) means the source is exhausted for good.
///
/// `reliable()` marks sources that never report a failure; `broken()`
/// marks sources whose next fill attempt is certain to fail. An
/// implementation free to do either may let both be false.
pub trait ByteSource: Sized {
    /// The bytes this source will still deliver, in order. The defaults
    /// here model nothing; a source verified against this trait gives all
    /// three functions bodies of its own.
    open spec fn bytes(&self) -> Seq<u8> {
        Seq::empty()
    }

    /// True of a source that never reports a failure.
    open spec fn reliable(&self) -> bool {
        false
    }

    /// True of a source whose next fill attempt reports a failure.
    open spec fn broken(&self) -> bool {
        false
    }

    /// Deliver up to `max` of the remaining bytes, or report a failure.
    ///
    /// On success the batch is a prefix of `bytes()` and is consumed from
    /// it; an empty batch for a nonzero request means exhaustion. A failed
    /// attempt consumes nothing.
    fn fill(&mut self, max: usize) -> (r: Result<Vec<u8>, SourceFault>)
        ensures
            match r {
                Ok(batch) => {
                    &&& !old(self).broken()
                    &&& batch@.len() <= max
                    &&& batch@.len() <= old(self).bytes().len()
                    &&& batch@ == old(self).bytes().take(batch@.len() as int)
                    &&& final(self).bytes() == old(self).bytes().skip(batch@.len() as int)
                    &&& ((batch@.len() == 0 && max > 0) ==> old(self).bytes().len() == 0)
                    &&& final(self).reliable() == old(self).reliable()
                },
                Err(_) => {
                    &&& !old(self).reliable()
                    &&& *final(self) == *old(self)
                },
            },
    ;
}

/// An in-memory byte source.
///
/// It delivers a fixed sequence of bytes, optionally in batches no larger
/// than a chosen bound, or — when constructed as failing — reports a
/// failure on every fill attempt without delivering anything.
pub struct FakeDataReader {
    data: Vec<u8>,
    pos: usize,
    fail: bool,
    batch_bound: usize,
}

impl FakeDataReader {
    /// A source that delivers `data` (as large a batch as is asked for),
    /// or fails on every fill attempt when `fail` is set.
    pub fn new(data: Vec<u8>, fail: bool) -> (r: FakeDataReader)
        ensures
            r.bytes() == data@,
            r.reliable() == !fail,
            r.broken() == fail,
    {
        FakeDataReader { data, pos: 0, fail, batch_bound: 0 }
    }

    /// A never-failing source that delivers `data` in batches of at most
    /// `bound` bytes (a zero bound means no bound of its own).
    pub fn with_batch_bound(data: Vec<u8>, bound: usize) -> (r: FakeDataReader)
        ensures
            r.bytes() == data@,
            r.reliable(),
            !r.broken(),
    {
        FakeDataReader { data, pos: 0, fail: false, batch_bound: bound }
    }
}

impl ByteSource for FakeDataReader {
    closed spec fn bytes(&self) -> Seq<u8> {
        if self.pos <= self.data@.len() {
            self.data@.skip(self.pos as int)
        } else {
            Seq::empty()
        }
    }

    closed spec fn reliable(&self) -> bool {
        !self.fail
    }

    closed spec fn broken(&self) -> bool {
        self.fail
    }

    fn fill(&mut self, max: usize) -> (r: Result<Vec<u8>, SourceFault>) {
        if self.fail {
            return Err(SourceFault { message: String::new() });
        }
        let mut want: usize = max;
        if self.batch_bound != 0 && self.batch_bound < want {
            want = self.batch_bound;
        }
        let mut left: usize = 0;
        if self.pos < self.data.len() {
            left = self.data.len() - self.pos;
        }
        if left < want {
            want = left;
        }
        let start: usize = self.pos;
        let mut batch: Vec<u8> = Vec::new();
        let mut i: usize = 0;
        while i < want
            invariant
                i <= want,
                want == 0 || start + want <= self.data.len(),
                batch@.len() == i as int,
                forall|k: int| 0 <= k < i ==> batch@[k] == self.data@[start + k],
            decreases want - i,
        {
            batch.push(self.data[start + i]);
            i = i + 1;
        }
        self.pos = start + want;
        proof {
            if want == 0 {
                assert(batch@ =~= old(self).bytes().take(0));
                assert(self.bytes() =~= old(self).bytes().skip(0));
            } else {
                assert(batch@ =~= old(self).bytes().take(want as int));
                assert(self.bytes() =~= old(self).bytes().skip(want as int));
            }
        }
        Ok(batch)
    }
}

} // verus!
