//! The buffered reader over a byte source.
//!
//! `DataProvider` owns a byte source and a small internal buffer, refills
//! the buffer only when it is fully consumed, and serves two read
//! operations on top of a one-byte primitive: a fixed-size read and a
//! null-terminated UTF-8 string read.

use vstd::prelude::*;
use vstd::utf8::{decode_utf8, valid_utf8};

use crate::source::{ByteSource, SourceFault};

verus! {

/// How many bytes a refill asks the source for at most.
pub const BUFFER_CAPACITY: usize = 512;

/// Why a read failed.
#[derive(Debug)]
pub enum DataError {
    /// The source was exhausted before the read was served.
    EndOfStream,
    /// The bytes read are not valid UTF-8 text.
    Utf8Error,
    /// The source reported a low-level failure; the payload is carried
    /// for diagnostics only.
    IOError(SourceFault),
}

impl PartialEq for DataError {
    /// Two errors are equal when their variants match; the payload of
    /// `IOError` is deliberately ignored.
    fn eq(&self, other: &DataError) -> bool {
        match (self, other) {
            (DataError::IOError(_), DataError::IOError(_)) => true,
            (DataError::EndOfStream, DataError::EndOfStream) => true,
            (DataError::Utf8Error, DataError::Utf8Error) => true,
            _ => false,
        }
    }
}

impl vstd::std_specs::cmp::PartialEqSpecImpl for DataError {
    open spec fn obeys_eq_spec() -> bool {
        true
    }

    open spec fn eq_spec(&self, other: &DataError) -> bool {
        match (self, other) {
            (DataError::IOError(_), DataError::IOError(_)) => true,
            (DataError::EndOfStream, DataError::EndOfStream) => true,
            (DataError::Utf8Error, DataError::Utf8Error) => true,
            _ => false,
        }
    }
}

/// The position of the first zero byte of `s`, if there is one.
pub open spec fn first_zero(s: Seq<u8>) -> Option<int>
    decreases s.len(),
{
    if s.len() == 0 {
        None
    } else if s[0] == 0u8 {
        Some(0int)
    } else {
        match first_zero(s.skip(1)) {
            Some(i) => Some(i + 1),
            None => None,
        }
    }
}

/// A zero byte preceded only by nonzero bytes is the first zero.
proof fn lemma_first_zero_at(s: Seq<u8>, n: int)
    requires
        0 <= n < s.len(),
        s[n] == 0u8,
        forall|j: int| 0 <= j < n ==> s[j] != 0u8,
    ensures
        first_zero(s) == Some(n),
    decreases n,
{
    if n > 0 {
        lemma_first_zero_at(s.skip(1), n - 1);
    }
}

/// A sequence without a zero byte has no first zero.
proof fn lemma_first_zero_none(s: Seq<u8>)
    requires
        forall|j: int| 0 <= j < s.len() ==> s[j] != 0u8,
    ensures
        first_zero(s) is None,
    decreases s.len(),
{
    if s.len() > 0 {
        lemma_first_zero_none(s.skip(1));
    }
}

/// Relies on `String::from_utf8`: it succeeds exactly when the bytes are
/// valid UTF-8, and then returns the text those bytes encode.
#[verifier::external_body]
fn bytes_to_string(bytes: Vec<u8>) -> (r: Option<String>)
    ensures
        match r {
            Some(s) => valid_utf8(bytes@) && s@ == decode_utf8(bytes@),
            None => !valid_utf8(bytes@),
        },
{
    String::from_utf8(bytes).ok()
}

/// A buffered reader over a byte source.
///
/// The reader exclusively owns its source. Bytes the source delivered but
/// the caller has not read yet sit in an internal buffer between the read
/// cursor and the fill level; a refill is attempted only when that region
/// is empty.
pub struct DataProvider<S: ByteSource> {
    source: S,
    buffer: Vec<u8>,
    data_pointer: usize,
    data_available: usize,
}

impl<S: ByteSource> DataProvider<S> {
    /// The buffered bytes not yet handed to a caller.
    pub closed spec fn buffered(&self) -> Seq<u8> {
        self.buffer@.subrange(self.data_pointer as int, self.data_available as int)
    }

    /// The bytes still to be read: the unread part of the buffer followed
    /// by whatever the source will still deliver.
    pub closed spec fn remaining(&self) -> Seq<u8> {
        self.buffered() + self.source.bytes()
    }

    /// The reader's internal invariant: the read cursor never passes the
    /// fill level, and the buffer never outgrows its fixed capacity.
    pub closed spec fn wf(&self) -> bool {
        &&& self.data_pointer <= self.data_available
        &&& self.data_available == self.buffer@.len()
        &&& self.buffer@.len() <= BUFFER_CAPACITY
    }

    /// True when the owned source never reports a failure.
    pub closed spec fn source_reliable(&self) -> bool {
        self.source.reliable()
    }

    /// True when the owned source's next fill attempt reports a failure.
    pub closed spec fn source_broken(&self) -> bool {
        self.source.broken()
    }

    /// Take ownership of a source; the buffer starts out empty.
    pub fn new(source: S) -> (r: DataProvider<S>)
        ensures
            r.wf(),
            r.buffered().len() == 0,
            r.remaining() == source.bytes(),
            r.source_reliable() == source.reliable(),
            r.source_broken() == source.broken(),
    {
        let r = DataProvider { source, buffer: Vec::new(), data_pointer: 0, data_available: 0 };
        proof {
            assert(r.remaining() =~= r.source.bytes());
        }
        r
    }

    /// Refill the buffer from the source. Called only when the buffer is
    /// fully consumed; on success the cursor is reset and the delivered
    /// batch becomes the buffered region, so `remaining()` is unchanged.
    /// A failed attempt changes nothing: it must not claim bytes are
    /// available.
    fn load_data(&mut self) -> (r: Result<usize, SourceFault>)
        requires
            old(self).wf(),
            old(self).data_pointer == old(self).data_available,
        ensures
            final(self).wf(),
            match r {
                Ok(size) => {
                    &&& !old(self).source.broken()
                    &&& final(self).data_pointer == 0
                    &&& final(self).data_available == size
                    &&& ((size == 0) ==> old(self).source.bytes().len() == 0)
                    &&& final(self).remaining() == old(self).remaining()
                    &&& final(self).source.reliable() == old(self).source.reliable()
                },
                Err(_) => {
                    &&& !old(self).source.reliable()
                    &&& *final(self) == *old(self)
                },
            },
    {
        match self.source.fill(BUFFER_CAPACITY) {
            Ok(batch) => {
                let size: usize = batch.len();
                proof {
                    assert(old(self).buffered() =~= Seq::<u8>::empty());
                }
                self.buffer = batch;
                self.data_pointer = 0;
                self.data_available = size;
                proof {
                    assert(self.buffered() =~= self.buffer@);
                    assert(self.remaining() =~= old(self).remaining());
                }
                Ok(size)
            },
            Err(fault) => Err(fault),
        }
    }

    /// Hand out the next unread byte, refilling the buffer first when it
    /// is fully consumed. `EndOfStream` reports an exhausted source;
    /// `IOError` propagates a source failure and leaves the reader as it
    /// was, with nothing consumed.
    fn get_next_byte(&mut self) -> (r: Result<u8, DataError>)
        requires
            old(self).wf(),
        ensures
            final(self).wf(),
            match r {
                Ok(b) => {
                    &&& old(self).remaining().len() > 0
                    &&& b == old(self).remaining()[0]
                    &&& final(self).remaining() == old(self).remaining().skip(1)
                    &&& (old(self).source_reliable() ==> final(self).source_reliable())
                    &&& (old(self).source_broken() ==> final(self).source_broken()
                        && old(self).buffered().len() > 0)
                },
                Err(e) => match e {
                    DataError::EndOfStream => {
                        &&& old(self).remaining().len() == 0
                        &&& final(self).remaining().len() == 0
                        &&& !old(self).source_broken()
                        &&& (old(self).source_reliable() ==> final(self).source_reliable())
                    },
                    DataError::Utf8Error => false,
                    DataError::IOError(_) => {
                        &&& !old(self).source_reliable()
                        &&& *final(self) == *old(self)
                    },
                },
            },
    {
        if self.data_pointer == self.data_available {
            match self.load_data() {
                Err(fault) => {
                    return Err(DataError::IOError(fault));
                },
                Ok(_) => {
                    if self.data_available == 0 {
                        proof {
                            assert(old(self).buffered() =~= Seq::<u8>::empty());
                            assert(self.buffered() =~= Seq::<u8>::empty());
                        }
                        return Err(DataError::EndOfStream);
                    }
                },
            }
        }
        let b: u8 = self.buffer[self.data_pointer];
        let ghost mid = *self;
        self.data_pointer = self.data_pointer + 1;
        proof {
            assert(mid.buffered().len() > 0);
            assert(b == mid.buffered()[0]);
            assert(self.buffered() =~= mid.buffered().skip(1));
            assert(self.remaining() =~= mid.remaining().skip(1));
            assert(mid.remaining() == old(self).remaining());
        }
        Ok(b)
    }

    /// Fill the whole destination with the next bytes of the stream, in
    /// order, one byte at a time.
    ///
    /// On success exactly `buffer.len()` bytes were consumed, none skipped
    /// and none duplicated. On failure the bytes already read stay where
    /// they were written — the destination is left partially filled, and
    /// `EndOfStream` strikes only after every byte the stream still had
    /// has been placed. A source failure is reported as `IOError`; a
    /// reliable source never causes one, and a broken source causes one
    /// right away whenever a fresh byte is demanded of it.
    pub fn read_bytes(&mut self, buffer: &mut Vec<u8>) -> (r: Result<(), DataError>)
        requires
            old(self).wf(),
        ensures
            final(self).wf(),
            final(buffer)@.len() == old(buffer)@.len(),
            match r {
                Ok(()) => {
                    &&& old(self).remaining().len() >= old(buffer)@.len()
                    &&& final(buffer)@ == old(self).remaining().take(old(buffer)@.len() as int)
                    &&& final(self).remaining() == old(self).remaining().skip(
                        old(buffer)@.len() as int,
                    )
                    &&& (old(self).source_reliable() ==> final(self).source_reliable())
                },
                Err(e) => match e {
                    DataError::EndOfStream => {
                        &&& old(self).remaining().len() < old(buffer)@.len()
                        &&& final(buffer)@ == old(self).remaining() + old(buffer)@.skip(
                            old(self).remaining().len() as int,
                        )
                        &&& final(self).remaining().len() == 0
                        &&& !old(self).source_broken()
                        &&& (old(self).source_reliable() ==> final(self).source_reliable())
                    },
                    DataError::Utf8Error => false,
                    DataError::IOError(_) => {
                        &&& !old(self).source_reliable()
                        &&& exists|k: int|
                            {
                                &&& 0 <= k < old(buffer)@.len()
                                &&& k <= old(self).remaining().len()
                                &&& final(buffer)@ == old(self).remaining().take(k) + old(
                                    buffer,
                                )@.skip(k)
                                &&& final(self).remaining() == old(self).remaining().skip(k)
                            }
                    },
                },
            },
            ((old(self).source_reliable() && old(self).remaining().len() >= old(
                buffer,
            )@.len()) ==> r is Ok),
            ((old(self).source_broken() && old(self).buffered().len() == 0 && old(
                buffer,
            )@.len() > 0) ==> (r matches Err(DataError::IOError(_)))),
    {
        let count: usize = buffer.len();
        let mut i: usize = 0;
        proof {
            assert(buffer@ =~= old(self).remaining().take(0) + old(buffer)@.skip(0));
        }
        while i < count
            invariant
                self.wf(),
                i <= count,
                count == buffer@.len(),
                count == old(buffer)@.len(),
                i <= old(self).remaining().len(),
                buffer@ == old(self).remaining().take(i as int) + old(buffer)@.skip(i as int),
                self.remaining() == old(self).remaining().skip(i as int),
                old(self).source_reliable() ==> self.source_reliable(),
                old(self).source_broken() ==> self.source_broken(),
                ((old(self).source_broken() && old(self).buffered().len() == 0) ==> (i == 0
                    && self.buffered().len() == 0)),
            decreases count - i,
        {
            match self.get_next_byte() {
                Ok(value) => {
                    buffer[i] = value;
                    proof {
                        assert(buffer@ =~= old(self).remaining().take(i as int + 1) + old(
                            buffer,
                        )@.skip(i as int + 1));
                        assert(self.remaining() =~= old(self).remaining().skip(i as int + 1));
                    }
                    i = i + 1;
                },
                Err(err) => {
                    proof {
                        if err is EndOfStream {
                            assert(old(self).remaining().len() == i);
                            assert(old(self).remaining().take(i as int) =~= old(
                                self,
                            ).remaining());
                        } else {
                            assert({
                                let k: int = i as int;
                                &&& 0 <= k < old(buffer)@.len()
                                &&& k <= old(self).remaining().len()
                                &&& buffer@ == old(self).remaining().take(k) + old(buffer)@.skip(k)
                                &&& self.remaining() == old(self).remaining().skip(k)
                            });
                        }
                    }
                    return Err(err);
                },
            }
        }
        proof {
            assert(buffer@ =~= old(self).remaining().take(count as int));
        }
        Ok(())
    }

    /// Read bytes up to and including the first zero byte, and decode the
    /// bytes before it as UTF-8 text.
    ///
    /// The terminator is consumed but not part of the text; a terminator
    /// as the very first byte yields the empty string. The result is
    /// all-or-nothing: if the stream ends, the source fails, or the
    /// accumulated bytes are not valid UTF-8, no partial string comes
    /// back — only the matching error. A broken source fails the call
    /// right away when a fresh byte is demanded of it.
    pub fn read_string(&mut self) -> (r: Result<String, DataError>)
        requires
            old(self).wf(),
        ensures
            final(self).wf(),
            match r {
                Ok(s) => match first_zero(old(self).remaining()) {
                    Some(n) => {
                        &&& valid_utf8(old(self).remaining().take(n))
                        &&& s@ == decode_utf8(old(self).remaining().take(n))
                        &&& final(self).remaining() == old(self).remaining().skip(n + 1)
                        &&& (old(self).source_reliable() ==> final(self).source_reliable())
                    },
                    None => false,
                },
                Err(e) => match e {
                    DataError::EndOfStream => {
                        &&& first_zero(old(self).remaining()) is None
                        &&& final(self).remaining().len() == 0
                        &&& !old(self).source_broken()
                        &&& (old(self).source_reliable() ==> final(self).source_reliable())
                    },
                    DataError::Utf8Error => match first_zero(old(self).remaining()) {
                        Some(n) => {
                            &&& !valid_utf8(old(self).remaining().take(n))
                            &&& final(self).remaining() == old(self).remaining().skip(n + 1)
                            &&& (old(self).source_reliable() ==> final(self).source_reliable())
                        },
                        None => false,
                    },
                    DataError::IOError(_) => {
                        &&& !old(self).source_reliable()
                        &&& exists|k: int|
                            {
                                &&& 0 <= k <= old(self).remaining().len()
                                &&& (forall|j: int|
                                    0 <= j < k ==> old(self).remaining()[j] != 0u8)
                                &&& final(self).remaining() == old(self).remaining().skip(k)
                            }
                    },
                },
            },
            ((old(self).source_reliable() && (match first_zero(old(self).remaining()) {
                Some(n) => valid_utf8(old(self).remaining().take(n)),
                None => false,
            })) ==> r is Ok),
            ((old(self).source_broken() && old(self).buffered().len() == 0) ==> (
            r matches Err(DataError::IOError(_)))),
    {
        let mut data: Vec<u8> = Vec::new();
        loop
            invariant
                self.wf(),
                data@.len() <= old(self).remaining().len(),
                data@ == old(self).remaining().take(data@.len() as int),
                forall|j: int| 0 <= j < data@.len() ==> old(self).remaining()[j] != 0u8,
                self.remaining() == old(self).remaining().skip(data@.len() as int),
                old(self).source_reliable() ==> self.source_reliable(),
                old(self).source_broken() ==> self.source_broken(),
                ((old(self).source_broken() && old(self).buffered().len() == 0) ==> (
                data@.len() == 0 && self.buffered().len() == 0)),
            decreases self.remaining().len(),
        {
            match self.get_next_byte() {
                Ok(value) => {
                    if value == 0 {
                        let ghost stream = old(self).remaining();
                        let ghost n: int = data@.len() as int;
                        proof {
                            assert(stream[n] == 0u8);
                            lemma_first_zero_at(stream, n);
                            assert(self.remaining() =~= stream.skip(n + 1));
                        }
                        return match bytes_to_string(data) {
                            Some(text) => Ok(text),
                            None => Err(DataError::Utf8Error),
                        };
                    }
                    let ghost len_before: int = data@.len() as int;
                    data.push(value);
                    proof {
                        assert(data@ =~= old(self).remaining().take(len_before + 1));
                        assert(self.remaining() =~= old(self).remaining().skip(len_before + 1));
                    }
                },
                Err(err) => {
                    proof {
                        if err is EndOfStream {
                            assert(old(self).remaining().len() == data@.len());
                            lemma_first_zero_none(old(self).remaining());
                        } else {
                            assert({
                                let k: int = data@.len() as int;
                                &&& 0 <= k <= old(self).remaining().len()
                                &&& (forall|j: int|
                                    0 <= j < k ==> old(self).remaining()[j] != 0u8)
                                &&& self.remaining() == old(self).remaining().skip(k)
                            });
                        }
                    }
                    return Err(err);
                },
            }
        }
    }
}

/// Whole-stream reads are exact. A successful `read_bytes` into a
/// destination of `l` bytes yields `remaining().take(l)`; so when the
/// stream holds exactly `s` and all of it is requested, the destination
/// holds `s` itself, byte for byte and in order — and since the contracts
/// speak only of the stream, never of batch sizes, the outcome is the
/// same however the source chunks its deliveries.
pub proof fn lemma_whole_stream_read_is_exact(s: Seq<u8>)
    ensures
        s.take(s.len() as int) == s,
{
    assert(s.take(s.len() as int) =~= s);
}

/// Consecutive one-byte reads advance monotonically. A successful
/// `read_bytes` into a one-byte destination yields the head of the stream
/// and leaves exactly its tail; so on a stream of two or more bytes, the
/// first read yields `s[0]`, a second read yields `s[1]` — never `s[0]`
/// again, never out of order — and the stream then stands at `s.skip(2)`.
pub proof fn lemma_consecutive_reads_advance(s: Seq<u8>)
    requires
        s.len() >= 2,
    ensures
        s.take(1) == seq![s[0]],
        s.skip(1).take(1) == seq![s[1]],
        s.skip(1).skip(1) == s.skip(2),
{
    assert(s.take(1) =~= seq![s[0]]);
    assert(s.skip(1).take(1) =~= seq![s[1]]);
    assert(s.skip(1).skip(1) =~= s.skip(2));
}

} // verus!
