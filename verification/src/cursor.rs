//! A position-tracked view over an immutable byte slice, and the token
//! readers that drive it: a single byte, a raw sub-slice of known length,
//! a `\r\n`-terminated line, and ASCII-decimal integers parsed from such a
//! line. Every returned token borrows the underlying slice; nothing is
//! copied. The position only moves forward, and only on success, except
//! that a line whose bytes fail numeric parsing stays consumed.

use crate::decimal::i64_of_decimal;
use crate::decimal::parse_i64;
use crate::decimal::parse_u64;
use crate::decimal::u64_of_decimal;
use vstd::pervasive::unreached;
use vstd::prelude::*;
use vstd::slice::slice_index_get;
use vstd::slice::slice_subrange;

verus! {

/// Error type for reading tokens from a [`Cursor`].
#[derive(Debug, Copy, Clone, PartialEq, Eq, Hash, Structural)]
pub enum CursorError {
    /// Expected a `\r\n`-terminated line, but no terminating `\r\n` was
    /// found in the remaining bytes; holds how many bytes were scanned.
    Unterminated(usize),
    /// A specific number of bytes were requested (like through [`byte`] or
    /// [`slice()`]), but there weren't that many bytes remaining.
    Incomplete,
    /// `i64` not parsable from ASCII.
    Integer,
    /// `u64` not parsable from ASCII.
    Size,
}

impl CursorError {
    /// Whether this error means the bytes seen so far are a valid but
    /// incomplete token, so that reading more input and retrying can
    /// succeed; parse errors are permanent and excluded.
    pub open spec fn spec_not_enough_data(self) -> bool {
        self is Unterminated || self is Incomplete
    }

    /// Classifies this error: `true` for the transient, more-data-needed
    /// family, `false` for a permanently malformed payload.
    pub fn not_enough_data(&self) -> (r: bool)
        ensures
            r == self.spec_not_enough_data(),
    {
        match self {
            Self::Unterminated(_) => true,
            Self::Incomplete => true,
            Self::Integer => false,
            Self::Size => false,
        }
    }
}

/// A position-tracked view over a borrowed byte slice. The position never
/// exceeds the slice length, never decreases, and advances only when a
/// read succeeds (or, for the numeric readers, when the line itself was
/// successfully read).
pub struct Cursor<'a> {
    data: &'a [u8],
    pos: usize,
}

impl<'a> Cursor<'a> {
    /// The bytes this cursor reads from.
    pub closed spec fn data_spec(&self) -> Seq<u8> {
        self.data@
    }

    /// The current position, as an offset into [`Self::data_spec`].
    pub closed spec fn pos_spec(&self) -> int {
        self.pos as int
    }

    /// The position is an index into the slice, at most its length.
    pub open spec fn wf(&self) -> bool {
        0 <= self.pos_spec() <= self.data_spec().len()
    }

    /// The bytes not yet read: everything from the position to the end.
    pub open spec fn remaining(&self) -> Seq<u8> {
        self.data_spec().subrange(self.pos_spec(), self.data_spec().len() as int)
    }

    /// Creates a cursor over `data`, positioned at its first byte.
    pub fn new(data: &'a [u8]) -> (c: Cursor<'a>)
        ensures
            c.wf(),
            c.data_spec() == data@,
            c.pos_spec() == 0,
    {
        Cursor { data, pos: 0 }
    }

    /// Returns the current position.
    pub fn position(&self) -> (p: usize)
        ensures
            p as int == self.pos_spec(),
    {
        self.pos
    }
}

/// Read a byte from a cursor, moving the position forward by 1.
///
/// Succeeds exactly when at least one byte remains, returning the byte at
/// the current position. At the end of the slice it fails with
/// [`CursorError::Incomplete`] and leaves the position unchanged.
pub fn byte(src: &mut Cursor<'_>) -> (r: Result<u8, CursorError>)
    requires
        old(src).wf(),
    ensures
        final(src).wf(),
        final(src).data_spec() == old(src).data_spec(),
        old(src).pos_spec() < old(src).data_spec().len() ==> r == Ok::<u8, CursorError>(
            old(src).data_spec()[old(src).pos_spec()],
        ) && final(src).pos_spec() == old(src).pos_spec() + 1,
        old(src).pos_spec() >= old(src).data_spec().len() ==> r == Err::<u8, CursorError>(
            CursorError::Incomplete,
        ) && final(src).pos_spec() == old(src).pos_spec(),
{
    if src.pos < src.data.len() {
        let b: u8 = *slice_index_get(src.data, src.pos);
        src.pos = src.pos + 1;
        Ok(b)
    } else {
        Err(CursorError::Incomplete)
    }
}

/// Read `len` bytes from a cursor, advancing the position to the next
/// unread byte.
///
/// Succeeds exactly when `len` bytes remain, returning the sub-slice that
/// starts at the current position, without copying it. With fewer bytes
/// remaining it fails with [`CursorError::Incomplete`] and leaves the
/// position unchanged. A length so large that `position + len` overflows
/// is a caller bug — lengths come from previously validated protocol
/// fields — and is fatal, never folded into the recoverable errors.
pub fn slice<'a>(src: &mut Cursor<'a>, len: u64) -> (r: Result<&'a [u8], CursorError>)
    requires
        old(src).wf(),
        old(src).pos_spec() + len <= u64::MAX,
    ensures
        final(src).wf(),
        final(src).data_spec() == old(src).data_spec(),
        old(src).pos_spec() + len <= old(src).data_spec().len() ==> (r matches Ok(out)
            && out@ == old(src).data_spec().subrange(
            old(src).pos_spec(),
            old(src).pos_spec() + len,
        )) && final(src).pos_spec() == old(src).pos_spec() + len,
        old(src).pos_spec() + len > old(src).data_spec().len() ==> r == Err::<
            &'a [u8],
            CursorError,
        >(CursorError::Incomplete) && final(src).pos_spec() == old(src).pos_spec(),
{
    if len > u64::MAX - src.pos as u64 {
        // Verified callers can never reach this branch; an unverified
        // caller whose position and length overflow aborts here instead
        // of having the overflow folded into a recoverable error.
        unreached::<()>();
    }
    let available: usize = src.data.len() - src.pos;
    if len <= available as u64 {
        let l: usize = len as usize;
        let out: &'a [u8] = slice_subrange(src.data, src.pos, src.pos + l);
        src.pos = src.pos + l;
        Ok(out)
    } else {
        Err(CursorError::Incomplete)
    }
}

/// Whether the two-byte terminator `\r\n` (ASCII 13 then 10) stands at
/// index `i` of `s`.
pub open spec fn crlf_at(s: Seq<u8>, i: int) -> bool {
    0 <= i && i + 1 < s.len() && s[i] == 13 && s[i + 1] == 10
}

/// The index of the first `\r\n` terminator in `s`, or -1 if `s` holds
/// none.
pub open spec fn first_crlf(s: Seq<u8>) -> int
    decreases s.len(),
{
    if s.len() < 2 {
        -1
    } else if s[0] == 13 && s[1] == 10 {
        0
    } else {
        let rest = first_crlf(s.skip(1));
        if rest < 0 {
            -1
        } else {
            rest + 1
        }
    }
}

/// `first_crlf` finds exactly the least index holding the terminator:
/// -1 means there is none, and a found index holds one with none before it.
pub proof fn lemma_first_crlf_spec(s: Seq<u8>)
    ensures
        first_crlf(s) >= -1,
        first_crlf(s) == -1 ==> forall|i: int| !crlf_at(s, i),
        first_crlf(s) >= 0 ==> crlf_at(s, first_crlf(s)) && (forall|j: int|
            0 <= j < first_crlf(s) ==> !crlf_at(s, j)),
    decreases s.len(),
{
    if s.len() < 2 {
        assert(forall|i: int| !crlf_at(s, i));
    } else if s[0] == 13 && s[1] == 10 {
    } else {
        lemma_first_crlf_spec(s.skip(1));
        assert forall|i: int| 1 <= i && i + 1 < s.len() implies crlf_at(s, i) == crlf_at(
            s.skip(1),
            i - 1,
        ) by {
            assert(s.skip(1)[i - 1] == s[i]);
            assert(s.skip(1)[i] == s[i + 1]);
        }
        if first_crlf(s.skip(1)) < 0 {
            assert forall|i: int| !crlf_at(s, i) by {
                if 1 <= i && i + 1 < s.len() {
                    assert(!crlf_at(s.skip(1), i - 1));
                }
            }
        } else {
            let k = first_crlf(s.skip(1));
            assert(crlf_at(s.skip(1), k));
            assert(s[k + 1] == s.skip(1)[k]);
            assert(s[k + 2] == s.skip(1)[k + 1]);
            assert(crlf_at(s, k + 1));
            assert forall|j: int| 0 <= j < k + 1 implies !crlf_at(s, j) by {
                if j >= 1 {
                    assert(!crlf_at(s.skip(1), j - 1));
                }
            }
        }
    }
}

/// Round trip for line reading: bytes `b` holding no terminator, followed
/// by the terminator and any trailing bytes, hold their first `\r\n`
/// exactly at `b.len()`, so by [`line`]'s contract a read over them
/// returns exactly `b` and advances the position by `b.len() + 2`.
pub proof fn lemma_line_round_trip(b: Seq<u8>, rest: Seq<u8>)
    requires
        forall|i: int| !crlf_at(b, i),
    ensures
        first_crlf(b + seq![13u8, 10u8] + rest) == b.len(),
        (b + seq![13u8, 10u8] + rest).subrange(0, b.len() as int) == b,
{
    let s = b + seq![13u8, 10u8] + rest;
    assert(s[b.len() as int] == 13);
    assert(s[b.len() as int + 1] == 10);
    assert(crlf_at(s, b.len() as int));
    assert forall|j: int| 0 <= j < b.len() implies !crlf_at(s, j) by {
        assert(s[j] == b[j]);
        if j + 1 < b.len() {
            assert(s[j + 1] == b[j + 1]);
            assert(!crlf_at(b, j));
        } else {
            assert(s[j + 1] == 13);
        }
    }
    lemma_first_crlf_spec(s);
    assert(s.subrange(0, b.len() as int) =~= b);
}

/// Bytes holding no terminator have no first occurrence of one, so by
/// [`line`]'s contract a read over exactly those bytes fails with
/// `Unterminated` carrying their full count, the position unchanged.
pub proof fn lemma_line_unterminated(b: Seq<u8>)
    requires
        forall|i: int| !crlf_at(b, i),
    ensures
        first_crlf(b) == -1,
{
    lemma_first_crlf_spec(b);
}

/// Read a `\r\n`-terminated line from a cursor, advancing the position
/// just past the `\n`.
///
/// Succeeds exactly when the remaining bytes hold the terminator,
/// returning the bytes before its first occurrence, without copying them.
/// Otherwise it fails with [`CursorError::Unterminated`] holding the count
/// of remaining bytes, and leaves the position unchanged.
pub fn line<'a>(src: &mut Cursor<'a>) -> (r: Result<&'a [u8], CursorError>)
    requires
        old(src).wf(),
    ensures
        final(src).wf(),
        final(src).data_spec() == old(src).data_spec(),
        ({
            let rem = old(src).remaining();
            match r {
                Ok(tok) => first_crlf(rem) >= 0 && tok@ == rem.subrange(0, first_crlf(rem))
                    && final(src).pos_spec() == old(src).pos_spec() + first_crlf(rem) + 2,
                Err(e) => first_crlf(rem) == -1 && e == CursorError::Unterminated(
                    rem.len() as usize,
                ) && final(src).pos_spec() == old(src).pos_spec(),
            }
        }),
{
    let data: &'a [u8] = src.data;
    let start: usize = src.pos;
    let n: usize = data.len();
    let ghost rem = src.remaining();
    let mut i: usize = start;
    while n - i > 1
        invariant
            start <= i <= n,
            n == data@.len(),
            start <= n,
            src.data_spec() == data@,
            src.pos_spec() == start as int,
            data@ == old(src).data_spec(),
            start as int == old(src).pos_spec(),
            rem == old(src).remaining(),
            rem == data@.subrange(start as int, n as int),
            forall|t: int| 0 <= t < i - start ==> !crlf_at(rem, t),
        decreases n - i,
    {
        if *slice_index_get(data, i) == 13 && *slice_index_get(data, i + 1) == 10 {
            let tok: &'a [u8] = slice_subrange(data, start, i);
            proof {
                assert(rem[i - start] == data@[i as int]);
                assert(rem[i - start + 1] == data@[i + 1]);
                assert(crlf_at(rem, i - start));
                lemma_first_crlf_spec(rem);
                assert(first_crlf(rem) == i - start);
                assert(tok@ =~= rem.subrange(0, i - start));
            }
            src.pos = i + 2;
            return Ok(tok);
        }
        proof {
            assert(rem[i - start] == data@[i as int]);
            assert(rem[i - start + 1] == data@[i + 1]);
        }
        i = i + 1;
    }
    proof {
        // Indices below the scan head hold no terminator by the loop
        // invariant; at or past it there is no room left for one.
        assert forall|t: int| !crlf_at(rem, t) by {
            if t >= i - start {
                assert(t + 1 >= rem.len());
            }
        }
        lemma_first_crlf_spec(rem);
    }
    Err(CursorError::Unterminated(n - start))
}

/// Read an ASCII-encoded, `\r\n`-terminated decimal size from a cursor,
/// advancing the position just past the `\n`.
///
/// If the remaining bytes hold no terminator, fails with
/// [`CursorError::Unterminated`] and leaves the position unchanged.
/// Otherwise the position moves past the line, and the line's bytes must
/// denote an unsigned decimal `u64` (digits only); if they do not, the
/// read fails with [`CursorError::Size`], the position staying past the
/// line even so.
pub fn size(src: &mut Cursor<'_>) -> (r: Result<u64, CursorError>)
    requires
        old(src).wf(),
    ensures
        final(src).wf(),
        final(src).data_spec() == old(src).data_spec(),
        ({
            let rem = old(src).remaining();
            if first_crlf(rem) == -1 {
                r == Err::<u64, CursorError>(CursorError::Unterminated(rem.len() as usize))
                    && final(src).pos_spec() == old(src).pos_spec()
            } else {
                final(src).pos_spec() == old(src).pos_spec() + first_crlf(rem) + 2 && (match
                    u64_of_decimal(rem.subrange(0, first_crlf(rem))) {
                    Some(v) => r == Ok::<u64, CursorError>(v),
                    None => r == Err::<u64, CursorError>(CursorError::Size),
                })
            }
        }),
{
    match line(src) {
        Err(e) => Err(e),
        Ok(tok) => match parse_u64(tok) {
            Some(v) => Ok(v),
            None => Err(CursorError::Size),
        },
    }
}

/// Read an ASCII-encoded, `\r\n`-terminated 64-bit signed integer from a
/// cursor, advancing the position just past the `\n`.
///
/// If the remaining bytes hold no terminator, fails with
/// [`CursorError::Unterminated`] and leaves the position unchanged.
/// Otherwise the position moves past the line, and the line's bytes must
/// denote a signed decimal `i64` (an optional leading minus sign, then
/// digits); if they do not, the read fails with [`CursorError::Integer`],
/// the position staying past the line even so.
pub fn integer(src: &mut Cursor<'_>) -> (r: Result<i64, CursorError>)
    requires
        old(src).wf(),
    ensures
        final(src).wf(),
        final(src).data_spec() == old(src).data_spec(),
        ({
            let rem = old(src).remaining();
            if first_crlf(rem) == -1 {
                r == Err::<i64, CursorError>(CursorError::Unterminated(rem.len() as usize))
                    && final(src).pos_spec() == old(src).pos_spec()
            } else {
                final(src).pos_spec() == old(src).pos_spec() + first_crlf(rem) + 2 && (match
                    i64_of_decimal(rem.subrange(0, first_crlf(rem))) {
                    Some(v) => r == Ok::<i64, CursorError>(v),
                    None => r == Err::<i64, CursorError>(CursorError::Integer),
                })
            }
        }),
{
    match line(src) {
        Err(e) => Err(e),
        Ok(tok) => match parse_i64(tok) {
            Some(v) => Ok(v),
            None => Err(CursorError::Integer),
        },
    }
}

} // verus!
