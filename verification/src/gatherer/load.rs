//! The load path of the gatherer hook: the raw bytes of the record the
//! game's loader is about to parse, found through the record manager and the
//! stream it reads from.
//!
//! ```text
//! mgr+0x08     u32   record_count
//! mgr+0x28     ptr   offsets table: 8 bytes per record, the file offset at +4
//! mgr+0x58     ptr   array of record pointers (null = not loaded)
//! stream+0x10  ptr   buffer
//! stream+0x18  u32   size
//! stream+0x1C  u32   cursor
//! ```

use vstd::prelude::*;

use crate::gatherer::reapply::{MGR_COUNT, MGR_RECORDS};
use crate::looter::memory::{byte_at, bytes_at, ptr_at, u32_at, u64_at, Memory, SpecRegion};

verus! {

/// The largest raw record the hook will patch.
pub const MAX_RECORD: usize = 4 * 1024 * 1024;
pub const MGR_OFFSETS: usize = 0x28;
pub const STREAM_BUF: usize = 0x10;
pub const STREAM_SIZE: usize = 0x18;
pub const STREAM_CURSOR: usize = 0x1C;

/// Why a record is left alone.
#[derive(Debug, Clone, Copy, PartialEq, Eq, Structural)]
pub enum RecordRefusal {
    /// A read failed.
    Unreadable,
    /// The index is past the manager's record count.
    OutOfRange,
    /// The record is already loaded: the game will parse nothing.
    Loaded,
    /// The stream's cursor is at or past its end.
    CursorPastSize,
    /// The offsets table does not put the record where the stream is parked:
    /// the model of the manager is wrong on this build.
    CursorMismatch { cursor: u32, expected: u32 },
    /// The record's end is not in `(cursor, size]`, or the record is larger
    /// than `MAX_RECORD`.
    BadEnd { end: u32, cursor: u32, size: u32 },
}

/// Where record `idx` ends: where the next one starts, or the end of the
/// stream for the last.
pub open spec fn record_end(m: Seq<SpecRegion>, offsets: int, idx: int, count: int, size: u32) -> Option<u32> {
    if idx + 1 < count {
        u32_at(m, offsets + 8 * (idx + 1) + 4)
    } else {
        Some(size)
    }
}

/// The raw bytes of record `idx` and the address they sit at, or why the
/// record must be left alone: a read that failed, an index out of range, a
/// record already loaded, a cursor at the end of the stream, an offsets table
/// that disagrees with the cursor, or an end out of bounds.
pub open spec fn record_bytes_spec(m: Seq<SpecRegion>, mgr: int, idx: int, stream: int) -> Result<(usize, Seq<u8>), RecordRefusal> {
    match u32_at(m, mgr + MGR_COUNT) {
        None => Err(RecordRefusal::Unreadable),
        Some(count) => if idx >= count {
            Err(RecordRefusal::OutOfRange)
        } else {
            match ptr_at(m, mgr + MGR_RECORDS) {
                None => Err(RecordRefusal::Unreadable),
                Some(records) => match u64_at(m, records + 8 * idx) {
                    None => Err(RecordRefusal::Unreadable),
                    Some(slot) => if slot != 0 {
                        Err(RecordRefusal::Loaded)
                    } else {
                        match (ptr_at(m, stream + STREAM_BUF), u32_at(m, stream + STREAM_SIZE), u32_at(m, stream + STREAM_CURSOR)) {
                            (Some(buf), Some(size), Some(cursor)) => if cursor >= size {
                                Err(RecordRefusal::CursorPastSize)
                            } else {
                                match ptr_at(m, mgr + MGR_OFFSETS) {
                                    None => Err(RecordRefusal::Unreadable),
                                    Some(offsets) => match u32_at(m, offsets + 8 * idx + 4) {
                                        None => Err(RecordRefusal::Unreadable),
                                        Some(expected) => if expected != cursor {
                                            Err(RecordRefusal::CursorMismatch { cursor, expected })
                                        } else {
                                            match record_end(m, offsets as int, idx, count as int, size) {
                                                None => Err(RecordRefusal::Unreadable),
                                                Some(end) => if !(cursor < end && end <= size && end - cursor <= MAX_RECORD) {
                                                    Err(RecordRefusal::BadEnd { end, cursor, size })
                                                } else {
                                                    match bytes_at(m, buf + cursor, end - cursor) {
                                                        None => Err(RecordRefusal::Unreadable),
                                                        Some(bs) => Ok(((buf + cursor) as usize, bs)),
                                                    }
                                                },
                                            }
                                        },
                                    },
                                }
                            },
                            _ => Err(RecordRefusal::Unreadable),
                        }
                    },
                },
            }
        },
    }
}

pub open spec fn record_view(r: Result<(usize, Vec<u8>), RecordRefusal>) -> Result<(usize, Seq<u8>), RecordRefusal> {
    match r {
        Ok((at, v)) => Ok((at, v@)),
        Err(e) => Err(e),
    }
}

/// The u32 at `base + 8 * i + 4`, as an offsets-table entry.
fn entry_offset(mem: &Memory, base: usize, i: usize) -> (r: Option<u32>)
    ensures
        r == u32_at(mem@, base + 8 * i + 4),
{
    if i > (usize::MAX - 4) / 8 {
        proof {
            assert(8 * i + 4 > usize::MAX) by (nonlinear_arith)
                requires
                    i > (usize::MAX - 4) / 8,
            ;
            assert(byte_at(mem@, base + 8 * i + 4 + 0) is None);
        }
        return None;
    }
    proof {
        assert(8 * i + 4 <= usize::MAX) by (nonlinear_arith)
            requires
                i <= (usize::MAX - 4) / 8,
        ;
    }
    mem.u32_at(base, 8 * i + 4)
}

/// Read the record's raw bytes out of the stream buffer: the address they
/// sit at and the bytes, or why the record must be left alone.
pub fn record_bytes(mem: &Memory, mgr: usize, idx: usize, stream: usize) -> (r: Result<(usize, Vec<u8>), RecordRefusal>)
    ensures
        record_view(r) == record_bytes_spec(mem@, mgr as int, idx as int, stream as int),
{
    let count = match mem.u32_at(mgr, MGR_COUNT) {
        Some(c) => c,
        None => return Err(RecordRefusal::Unreadable),
    };
    if idx >= count as usize {
        return Err(RecordRefusal::OutOfRange);
    }
    let records = match mem.ptr_at(mgr, MGR_RECORDS) {
        Some(p) => p,
        None => return Err(RecordRefusal::Unreadable),
    };
    let slot = match mem.word(records, idx) {
        Some(s) => s,
        None => return Err(RecordRefusal::Unreadable),
    };
    if slot != 0 {
        return Err(RecordRefusal::Loaded);
    }
    let (buf, size, cursor) = match (
        mem.ptr_at(stream, STREAM_BUF),
        mem.u32_at(stream, STREAM_SIZE),
        mem.u32_at(stream, STREAM_CURSOR),
    ) {
        (Some(b), Some(s), Some(c)) => (b, s, c),
        _ => return Err(RecordRefusal::Unreadable),
    };
    if cursor >= size {
        return Err(RecordRefusal::CursorPastSize);
    }
    let offsets = match mem.ptr_at(mgr, MGR_OFFSETS) {
        Some(p) => p,
        None => return Err(RecordRefusal::Unreadable),
    };
    let expected = match entry_offset(mem, offsets, idx) {
        Some(e) => e,
        None => return Err(RecordRefusal::Unreadable),
    };
    if expected != cursor {
        return Err(RecordRefusal::CursorMismatch { cursor, expected });
    }
    let end = if idx + 1 < count as usize {
        match entry_offset(mem, offsets, idx + 1) {
            Some(e) => e,
            None => return Err(RecordRefusal::Unreadable),
        }
    } else {
        size
    };
    if !(cursor < end && end <= size && ((end - cursor) as usize) <= MAX_RECORD) {
        return Err(RecordRefusal::BadEnd { end, cursor, size });
    }
    let n = (end - cursor) as usize;
    if buf > usize::MAX - cursor as usize {
        proof {
            assert(byte_at(mem@, buf + cursor + 0) is None);
        }
        return Err(RecordRefusal::Unreadable);
    }
    let at = buf + cursor as usize;
    match mem.read_bytes(at, n) {
        Some(bytes) => Ok((at, bytes)),
        None => Err(RecordRefusal::Unreadable),
    }
}

} // verus!
