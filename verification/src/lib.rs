//! Zero-copy parsing primitives for line-oriented, length-prefixed wire
//! protocols: a position-tracked cursor over an immutable byte slice that
//! extracts bytes, raw sub-slices, `\r\n`-terminated lines and ASCII-decimal
//! integers, together with a fixed-capacity read buffer that accumulates
//! bytes from a caller-supplied source and compacts around a consumed prefix.

pub mod buffer;
pub mod cursor;
pub mod decimal;

pub use crate::buffer::{classify_fill, ByteSource, ReadBuf, ReadError};
pub use crate::cursor::{byte, integer, line, size, slice, Cursor, CursorError};
pub use crate::decimal::{parse_i64, parse_u64};
