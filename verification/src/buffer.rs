//! A fixed-capacity read buffer. It accumulates bytes supplied by a
//! caller-provided source, exposes the currently readable, unconsumed
//! region, and lets the caller mark a consumed prefix. When tail space
//! runs low before a fill, the unconsumed bytes are shifted to the front
//! of the store, reclaiming consumed space without ever discarding an
//! unconsumed byte; the store itself never grows.

use vstd::pervasive::unreached;
use vstd::prelude::*;
use vstd::slice::slice_subrange;

verus! {

/// Error type for [`ReadBuf::read`].
#[derive(Debug, Clone, PartialEq, Eq)]
pub enum ReadError<E> {
    /// The source reported a successful read of zero bytes. This is
    /// always an error at this layer, never a silent no-op, so a caller
    /// can tell a stalled source from a genuine source failure.
    ZeroProgress,
    /// The source itself failed; its error is passed through unchanged.
    Source(E),
}

/// A supplier of bytes for [`ReadBuf::read`]: the one capability it needs
/// is to fill the tail of a byte store and report how many bytes it wrote,
/// or fail. Implementations live outside the verified core (an adapter
/// around an I/O reader, a scripted source in a test); the contract here
/// is what the buffer relies on of every implementation.
pub trait ByteSource {
    /// The error type of a failed fill, passed through to the caller of
    /// [`ReadBuf::read`] unchanged.
    type SourceError;

    /// Writes at most `store.len() - start` bytes into `store` from index
    /// `start` on, returning how many were written. Bytes before `start`
    /// and the length of `store` are left untouched.
    fn fill(&mut self, store: &mut Vec<u8>, start: usize) -> (r: Result<usize, Self::SourceError>)
        requires
            start <= old(store).len(),
        ensures
            final(store).len() == old(store).len(),
            forall|i: int| 0 <= i < start ==> final(store)[i] == old(store)[i],
            r matches Ok(n) ==> start + n <= final(store).len(),
    ;
}

/// Turns the raw outcome of a [`ByteSource::fill`] into the result of
/// [`ReadBuf::read`]: a positive count passes through as success, a
/// zero-byte fill becomes the distinct [`ReadError::ZeroProgress`] — a
/// zero-length successful read is always an error at this layer, never a
/// silent no-op — and a source failure is passed through unchanged inside
/// [`ReadError::Source`].
pub fn classify_fill<E>(res: Result<usize, E>) -> (r: Result<usize, ReadError<E>>)
    ensures
        res matches Ok(n) ==> (n > 0 ==> r == Ok::<usize, ReadError<E>>(n)) && (n == 0 ==> r
            == Err::<usize, ReadError<E>>(ReadError::ZeroProgress)),
        res matches Err(e) ==> r == Err::<usize, ReadError<E>>(ReadError::Source(e)),
{
    match res {
        Ok(n) => {
            if n > 0 {
                Ok(n)
            } else {
                Err(ReadError::ZeroProgress)
            }
        },
        Err(e) => Err(ReadError::Source(e)),
    }
}

/// Buffer for reading into.
///
/// This type is very similar to a buffered reader, but with the added
/// ability to allow for users to request more data to be filled into the
/// buffer even when the buffer isn't empty, using [`ReadBuf::read`].
pub struct ReadBuf {
    store: Vec<u8>,
    start: usize,
    end: usize,
}

impl View for ReadBuf {
    type V = Seq<u8>;

    /// The readable region: every byte read from a source and not yet
    /// consumed, in arrival order.
    closed spec fn view(&self) -> Seq<u8> {
        self.store@.subrange(self.start as int, self.end as int)
    }
}

impl ReadBuf {
    /// The fixed size of the byte store.
    pub closed spec fn capacity(&self) -> nat {
        self.store@.len()
    }

    /// The consumed prefix and the filled extent are indices into the
    /// store, in order.
    pub closed spec fn wf(&self) -> bool {
        self.start <= self.end && self.end <= self.store@.len()
    }

    /// Creates a new [`ReadBuf`] with a capacity of 4096.
    pub fn new() -> (b: ReadBuf)
        ensures
            b.wf(),
            b@ == Seq::<u8>::empty(),
            b.capacity() == 4096,
    {
        Self::with_capacity(4096)
    }

    /// Creates a new [`ReadBuf`] with the given capacity.
    pub fn with_capacity(capacity: usize) -> (b: ReadBuf)
        ensures
            b.wf(),
            b@ == Seq::<u8>::empty(),
            b.capacity() == capacity,
    {
        let store: Vec<u8> = vec![0u8; capacity];
        let b = ReadBuf { store, start: 0, end: 0 };
        proof {
            assert(b@ =~= Seq::<u8>::empty());
        }
        b
    }

    /// Shifts the readable region to the front of the store, byte for
    /// byte in order, resetting the consumed prefix to nothing. The
    /// readable bytes themselves are unchanged.
    fn compact(&mut self)
        requires
            old(self).wf(),
        ensures
            final(self).wf(),
            final(self)@ == old(self)@,
            final(self).capacity() == old(self).capacity(),
            final(self).end_spec() == old(self)@.len(),
    {
        let len: usize = self.end - self.start;
        let start: usize = self.start;
        let mut i: usize = 0;
        while i < len
            invariant
                i <= len,
                len == self.end - self.start,
                start == self.start,
                self.start <= self.end <= self.store@.len(),
                self.start == old(self).start_spec(),
                self.end == old(self).end_spec(),
                self.store@.len() == old(self).capacity(),
                forall|j: int| 0 <= j < i ==> self.store@[j] == old(self).store_spec()[start + j],
                forall|j: int|
                    i <= j < self.store@.len() ==> self.store@[j] == old(self).store_spec()[j],
            decreases len - i,
        {
            let b: u8 = self.store[start + i];
            self.store[i] = b;
            i = i + 1;
        }
        self.end = len;
        self.start = 0;
        proof {
            assert(self@ =~= old(self)@);
        }
    }

    /// The first unconsumed index of the store.
    spec fn start_spec(&self) -> int {
        self.start as int
    }

    /// One past the last filled index of the store.
    spec fn end_spec(&self) -> int {
        self.end as int
    }

    /// The whole byte store, garbage regions included.
    spec fn store_spec(&self) -> Seq<u8> {
        self.store@
    }

    /// Reads some more bytes into the buffer, returning the number of
    /// bytes read.
    ///
    /// This method calls [`ByteSource::fill`] on the provided source, but
    /// automatically provides the writable tail of the store for it to
    /// read into, compacting first when less than 512 bytes of tail space
    /// remain. The resulting buffer can then be accessed with
    /// [`ReadBuf::buf`].
    ///
    /// On success the source supplied at least one byte, and exactly the
    /// bytes it supplied are appended to the readable region. A source
    /// failure is passed through unchanged as [`ReadError::Source`]; a
    /// source that reports zero bytes makes the read fail with
    /// [`ReadError::ZeroProgress`]. Either way no readable byte is lost.
    pub fn read<S: ByteSource>(&mut self, source: &mut S) -> (r: Result<
        usize,
        ReadError<S::SourceError>,
    >)
        requires
            old(self).wf(),
        ensures
            final(self).wf(),
            final(self).capacity() == old(self).capacity(),
            match r {
                Ok(n) => n > 0 && final(self)@.len() == old(self)@.len() + n
                    && final(self)@.subrange(0, old(self)@.len() as int) == old(self)@,
                Err(e) => final(self)@ == old(self)@,
            },
    {
        if self.store.len() - self.end < 512 {
            self.compact();
        }
        let ghost mid = *self;
        let e: usize = self.end;
        let res = source.fill(&mut self.store, e);
        proof {
            assert(self@ =~= mid@);
        }
        match classify_fill(res) {
            Err(err) => Err(err),
            Ok(n) => {
                self.end = self.end + n;
                proof {
                    assert(self@.subrange(0, mid@.len() as int) =~= mid@);
                }
                Ok(n)
            },
        }
    }

    /// Returns the bytes currently buffered: the readable region, without
    /// copying it. Without an intervening mutation, repeated calls return
    /// the same bytes.
    pub fn buf(&self) -> (r: &[u8])
        requires
            self.wf(),
        ensures
            r@ == self@,
    {
        slice_subrange(self.store.as_slice(), self.start, self.end)
    }

    /// A well-formed buffer never holds more readable bytes than its
    /// capacity: the store is fixed, only its tail is offered to a
    /// source, and compaction reclaims space without growing it.
    pub proof fn lemma_view_within_capacity(&self)
        requires
            self.wf(),
        ensures
            self@.len() <= self.capacity(),
    {
    }

    /// Marks `amt` bytes as consumed: the readable region loses exactly
    /// its first `amt` bytes, which become eligible for reclamation on a
    /// later compaction. Consuming more than the readable length is a
    /// caller bug that verification rules out; it can never corrupt the
    /// buffer's bounds.
    pub fn consume(&mut self, amt: usize)
        requires
            old(self).wf(),
            amt <= old(self)@.len(),
        ensures
            final(self).wf(),
            final(self)@ == old(self)@.subrange(amt as int, old(self)@.len() as int),
            final(self).capacity() == old(self).capacity(),
    {
        if amt > self.end - self.start {
            // Verified callers can never reach this branch; an unverified
            // caller that over-consumes aborts here instead of corrupting
            // the buffer's bounds.
            unreached::<()>();
        }
        self.start = self.start + amt;
        proof {
            assert(self@ =~= old(self)@.subrange(amt as int, old(self)@.len() as int));
        }
    }
}

/// Observing the readable region is stable: two observations of the same
/// buffer state, with no mutation in between, see the same bytes.
pub proof fn lemma_buf_stable(b: &ReadBuf, r1: Seq<u8>, r2: Seq<u8>)
    requires
        r1 == b@,
        r2 == b@,
    ensures
        r1 == r2,
{
}

} // verus!
