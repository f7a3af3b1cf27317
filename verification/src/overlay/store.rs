//! One ini file's live state, as decisions: when the file is due a stat,
//! whether what the stat saw is an outside change worth reloading, when a
//! pending edit is due a write, and what the status line says after a read
//! or a write failed. The reading, statting and writing themselves are the
//! caller's; times are milliseconds on a monotonic clock the caller reads,
//! and a modified time is whatever stamp the caller's stat returns.

use vstd::prelude::*;
use vstd::string::StringSliceAdditionalSpecFns;
use vstd::utf8::*;

use crate::strings::{push_str, utf8_string};

verus! {

/// Longest a pending edit waits before it reaches disk.
pub const FLUSH_INTERVAL_MS: u64 = 250;
/// How often the file is stat'd for an outside change.
pub const POLL_INTERVAL_MS: u64 = 1000;
/// How long a failed write waits before it is tried again.
pub const RETRY_INTERVAL_MS: u64 = 2000;

/// What a flush did.
#[derive(Debug, Clone, Copy, PartialEq, Eq, Structural)]
pub enum Flushed {
    /// The existing file was rewritten.
    Wrote,
    /// The file was missing and was created from the model's header.
    Created,
    /// A read or the write failed; the status line says which.
    Failed,
}

pub struct Store {
    path: String,
    name: String,
    mtime: Option<u64>,
    dirty: bool,
    failed: bool,
    last_flush: u64,
    last_poll: u64,
    status: Option<String>,
}

pub open spec fn elapsed(now: u64, then: u64) -> int {
    if now >= then { now - then } else { 0 }
}

/// `cannot <verb> <file>: <error>`.
pub open spec fn status_text(verb: Seq<u8>, name: Seq<char>, err: Seq<char>) -> Seq<u8> {
    encode_utf8("cannot "@) + verb + encode_utf8(" "@) + encode_utf8(name) + encode_utf8(": "@) + encode_utf8(err)
}

impl Store {
    pub closed spec fn path_spec(&self) -> Seq<char> { self.path@ }
    pub closed spec fn name_spec(&self) -> Seq<char> { self.name@ }
    pub closed spec fn mtime_spec(&self) -> Option<u64> { self.mtime }
    pub closed spec fn dirty_spec(&self) -> bool { self.dirty }
    pub closed spec fn failed_spec(&self) -> bool { self.failed }
    pub closed spec fn last_flush_spec(&self) -> u64 { self.last_flush }
    pub closed spec fn last_poll_spec(&self) -> u64 { self.last_poll }
    pub closed spec fn status_spec(&self) -> Option<Seq<char>> {
        match self.status { Some(s) => Some(s@), None => None }
    }

    /// A store for the file at `path`, named `name` in messages, before its
    /// first read: clean, no failure, no watermark.
    pub fn new(path: String, name: String, now: u64) -> (r: Store)
        ensures
            r.path_spec() == path@ && r.name_spec() == name@,
            r.mtime_spec() is None && !r.dirty_spec() && !r.failed_spec() && r.status_spec() is None,
            r.last_flush_spec() == now && r.last_poll_spec() == now,
    {
        Store { path, name, mtime: None, dirty: false, failed: false, last_flush: now, last_poll: now, status: None }
    }

    pub fn path(&self) -> (r: &str)
        ensures
            r@ == self.path_spec(),
    {
        self.path.as_str()
    }

    pub fn file_name(&self) -> (r: &str)
        ensures
            r@ == self.name_spec(),
    {
        self.name.as_str()
    }

    /// Whether an edit is waiting to be written.
    pub fn dirty(&self) -> (r: bool)
        ensures
            r == self.dirty_spec(),
    {
        self.dirty
    }

    /// The status line, when the last read or write failed.
    pub fn status(&self) -> (r: Option<&str>)
        ensures
            match r { Some(s) => self.status_spec() == Some(s@), None => self.status_spec() is None },
    {
        match &self.status {
            Some(s) => Some(s.as_str()),
            None => None,
        }
    }

    /// A widget changed the model.
    pub fn touch(&mut self)
        ensures
            final(self).dirty_spec(),
            final(self).failed_spec() == old(self).failed_spec(),
            final(self).mtime_spec() == old(self).mtime_spec(),
            final(self).last_flush_spec() == old(self).last_flush_spec(),
            final(self).last_poll_spec() == old(self).last_poll_spec(),
            final(self).path_spec() == old(self).path_spec(),
            final(self).name_spec() == old(self).name_spec(),
    {
        self.dirty = true;
    }

    /// Whether the file is due a stat now: at most once a poll interval, and
    /// never while an edit is pending, so the overlay's own edit is not
    /// overwritten by the file it is about to replace.
    pub fn poll(&mut self, now: u64) -> (r: bool)
        ensures
            r == (elapsed(now, old(self).last_poll_spec()) >= POLL_INTERVAL_MS && !old(self).dirty_spec()),
            final(self).last_poll_spec() == (if elapsed(now, old(self).last_poll_spec()) >= POLL_INTERVAL_MS { now } else { old(self).last_poll_spec() }),
            final(self).dirty_spec() == old(self).dirty_spec(),
            final(self).mtime_spec() == old(self).mtime_spec(),
            final(self).failed_spec() == old(self).failed_spec(),
            final(self).last_flush_spec() == old(self).last_flush_spec(),
            final(self).path_spec() == old(self).path_spec(),
            final(self).name_spec() == old(self).name_spec(),
    {
        let since = if now >= self.last_poll { now - self.last_poll } else { 0 };
        if since < POLL_INTERVAL_MS {
            return false;
        }
        self.last_poll = now;
        !self.dirty
    }

    /// Whether the modified time a stat saw calls for a reload: the file is
    /// there and its time moved from the watermark.
    pub fn changed(&self, seen: Option<u64>) -> (r: bool)
        ensures
            r == (seen is Some && seen != self.mtime_spec()),
    {
        match seen {
            Some(t) => match self.mtime {
                Some(m) => t != m,
                None => true,
            },
            None => false,
        }
    }

    /// The file read back: the watermark moves to its time, the failure is
    /// cleared.
    pub fn read_ok(&mut self, mtime: Option<u64>)
        ensures
            final(self).mtime_spec() == mtime,
            final(self).status_spec() is None && !final(self).failed_spec(),
            final(self).dirty_spec() == old(self).dirty_spec(),
            final(self).path_spec() == old(self).path_spec(),
            final(self).name_spec() == old(self).name_spec(),
    {
        self.mtime = mtime;
        self.status = None;
        self.failed = false;
    }

    /// The file is not there: not an error, and nothing to compare against.
    pub fn read_missing(&mut self)
        ensures
            final(self).mtime_spec() is None,
            final(self).status_spec() == old(self).status_spec(),
            final(self).failed_spec() == old(self).failed_spec(),
            final(self).dirty_spec() == old(self).dirty_spec(),
            final(self).path_spec() == old(self).path_spec(),
            final(self).name_spec() == old(self).name_spec(),
    {
        self.mtime = None;
    }

    fn fail(&mut self, verb: &str, err: &str)
        ensures
            final(self).failed_spec(),
            final(self).status_spec() matches Some(s) && encode_utf8(s) == status_text(verb.spec_bytes(), old(self).name_spec(), err@),
            final(self).mtime_spec() == old(self).mtime_spec(),
            final(self).dirty_spec() == old(self).dirty_spec(),
            final(self).name_spec() == old(self).name_spec(),
            final(self).path_spec() == old(self).path_spec(),
            final(self).last_flush_spec() == old(self).last_flush_spec(),
    {
        let mut out: Vec<u8> = Vec::new();
        push_str(&mut out, "cannot ");
        push_str(&mut out, verb);
        push_str(&mut out, " ");
        push_str(&mut out, self.name.as_str());
        push_str(&mut out, ": ");
        push_str(&mut out, err);
        proof {
            let a = encode_utf8("cannot "@);
            let b = verb.spec_bytes();
            let c = encode_utf8(" "@);
            let d = encode_utf8(self.name@);
            let e = encode_utf8(": "@);
            let f = encode_utf8(err@);
            encode_utf8_valid_utf8("cannot "@);
            encode_utf8_valid_utf8(verb@);
            encode_utf8_valid_utf8(" "@);
            encode_utf8_valid_utf8(self.name@);
            encode_utf8_valid_utf8(": "@);
            encode_utf8_valid_utf8(err@);
            valid_utf8_concat(a, b);
            valid_utf8_concat(a + b, c);
            valid_utf8_concat(a + b + c, d);
            valid_utf8_concat(a + b + c + d, e);
            valid_utf8_concat(a + b + c + d + e, f);
            assert(out@ =~= a + b + c + d + e + f);
        }
        self.status = Some(utf8_string(out));
        self.failed = true;
    }

    /// A read failed for a reason other than a missing file.
    pub fn read_failed(&mut self, err: &str)
        ensures
            final(self).failed_spec(),
            final(self).status_spec() matches Some(s) && encode_utf8(s) == status_text(encode_utf8("read"@), old(self).name_spec(), err@),
            final(self).mtime_spec() == old(self).mtime_spec(),
            final(self).dirty_spec() == old(self).dirty_spec(),
            final(self).path_spec() == old(self).path_spec(),
            final(self).name_spec() == old(self).name_spec(),
    {
        self.fail("read", err);
    }

    /// Whether a pending edit is due a write now: every flush interval while
    /// a widget is held, at once on release, and only every retry interval
    /// after a failure, whatever the widget does. A due write moves the
    /// debounce mark.
    pub fn flush_due(&mut self, now: u64, released: bool) -> (r: bool)
        ensures
            r == (old(self).dirty_spec() && (elapsed(now, old(self).last_flush_spec()) >= (if old(self).failed_spec() { RETRY_INTERVAL_MS } else { FLUSH_INTERVAL_MS })
                || (released && !old(self).failed_spec()))),
            final(self).last_flush_spec() == (if r { now } else { old(self).last_flush_spec() }),
            final(self).dirty_spec() == old(self).dirty_spec(),
            final(self).failed_spec() == old(self).failed_spec(),
            final(self).mtime_spec() == old(self).mtime_spec(),
            final(self).last_poll_spec() == old(self).last_poll_spec(),
            final(self).status_spec() == old(self).status_spec(),
            final(self).path_spec() == old(self).path_spec(),
            final(self).name_spec() == old(self).name_spec(),
    {
        if !self.dirty {
            return false;
        }
        let wait = if self.failed { RETRY_INTERVAL_MS } else { FLUSH_INTERVAL_MS };
        let since = if now >= self.last_flush { now - self.last_flush } else { 0 };
        let due = since >= wait;
        if !due && !(released && !self.failed) {
            return false;
        }
        self.last_flush = now;
        true
    }

    /// The write landed: nothing pending, the watermark is the written
    /// file's own time so it is not read back as an outside change.
    pub fn write_ok(&mut self, mtime: Option<u64>, outcome: Flushed) -> (r: Flushed)
        ensures
            r == outcome,
            !final(self).dirty_spec() && !final(self).failed_spec() && final(self).status_spec() is None,
            final(self).mtime_spec() == mtime,
            final(self).last_flush_spec() == old(self).last_flush_spec(),
            final(self).path_spec() == old(self).path_spec(),
            final(self).name_spec() == old(self).name_spec(),
    {
        self.dirty = false;
        self.mtime = mtime;
        self.status = None;
        self.failed = false;
        outcome
    }

    /// The write failed: the edit stays pending and the backoff starts.
    pub fn write_failed(&mut self, err: &str) -> (r: Flushed)
        ensures
            r == Flushed::Failed,
            final(self).dirty_spec() == old(self).dirty_spec(),
            final(self).failed_spec(),
            final(self).status_spec() matches Some(s) && encode_utf8(s) == status_text(encode_utf8("write"@), old(self).name_spec(), err@),
            final(self).mtime_spec() == old(self).mtime_spec(),
            final(self).path_spec() == old(self).path_spec(),
            final(self).name_spec() == old(self).name_spec(),
    {
        self.fail("write", err);
        Flushed::Failed
    }

    /// The read before a write failed: the edit stays pending.
    pub fn flush_read_failed(&mut self, err: &str) -> (r: Flushed)
        ensures
            r == Flushed::Failed,
            final(self).dirty_spec() == old(self).dirty_spec(),
            final(self).failed_spec(),
            final(self).status_spec() matches Some(s) && encode_utf8(s) == status_text(encode_utf8("read"@), old(self).name_spec(), err@),
            final(self).path_spec() == old(self).path_spec(),
            final(self).name_spec() == old(self).name_spec(),
    {
        self.fail("read", err);
        Flushed::Failed
    }
}

} // verus!
