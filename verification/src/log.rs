//! Log files written in the background: a line always ends in a newline,
//! the current file is rotated when the day changes or it grows too big,
//! and an archived file gets the first free dated name.
use vstd::prelude::*;

use crate::text::{decimal, owned, push_decimal, push_str, str_eq};

verus! {

/// How many bytes a log file may grow to before it is rotated (100 MiB).
pub const MAX_SIZE: u64 = 104857600;

#[verifier::external_type_specification]
#[verifier::external_body]
#[verifier::reject_recursive_types(T)]
pub struct ExSyncSender<T>(std::sync::mpsc::SyncSender<T>);

/// `SyncSender::try_send`: hands the bytes to the writer unless its queue
/// is full or gone. Nothing is stated: whether they were taken depends on
/// the writer.
#[verifier::external_body]
fn try_send(tx: &std::sync::mpsc::SyncSender<Vec<u8>>, buf: Vec<u8>) {
    let _ = tx.try_send(buf);
}

/// `SyncSender::clone`: another handle on the same queue.
#[verifier::external_body]
fn clone_sender(tx: &std::sync::mpsc::SyncSender<Vec<u8>>) -> std::sync::mpsc::SyncSender<Vec<u8>> {
    tx.clone()
}

/// A log file that lines are queued for; a background writer appends them.
#[derive(Debug)]
pub struct FileLogger {
    tx: std::sync::mpsc::SyncSender<Vec<u8>>,
}

impl Clone for FileLogger {
    fn clone(&self) -> Self {
        FileLogger { tx: clone_sender(&self.tx) }
    }
}

/// The bytes a line is written as: its text, with a newline added unless
/// it ends in one.
pub open spec fn line_bytes_spec(line: Seq<char>) -> Seq<u8> {
    let b = vstd::utf8::encode_utf8(line);
    if b.len() > 0 && b.last() == 10u8 {
        b
    } else {
        b.push(10u8)
    }
}

/// See [`line_bytes_spec`].
pub fn line_bytes(line: &str) -> (r: Vec<u8>)
    ensures
        r@ == line_bytes_spec(line@),
{
    let b = line.as_bytes();
    let mut out: Vec<u8> = Vec::new();
    let mut i: usize = 0;
    while i < b.len()
        invariant
            i <= b@.len(),
            out@ == b@.take(i as int),
        decreases b.len() - i,
    {
        out.push(b[i]);
        assert(b@.take(i + 1) == b@.take(i as int).push(b@[i as int]));
        i = i + 1;
    }
    assert(b@.take(i as int) == b@);
    if !(out.len() > 0 && out[out.len() - 1] == 10u8) {
        out.push(10u8);
    }
    out
}

impl FileLogger {
    /// The queue this logger sends its bytes on.
    pub closed spec fn sender(&self) -> std::sync::mpsc::SyncSender<Vec<u8>> {
        self.tx
    }

    /// A logger that queues on `tx`.
    pub fn from_sender(tx: std::sync::mpsc::SyncSender<Vec<u8>>) -> (r: Self)
        ensures
            r.sender() == tx,
    {
        FileLogger { tx }
    }

    /// Queues one line (see [`line_bytes_spec`]); a full queue drops it.
    pub fn line(&self, line: &str) {
        let buf = line_bytes(line);
        self.write_bytes(buf);
    }

    /// Queues raw bytes; a full queue drops them.
    pub fn write_bytes(&self, buf: Vec<u8>) {
        try_send(&self.tx, buf);
    }
}

/// A writer over a logger, for the tracing subscriber.
#[derive(Debug)]
pub struct LogWriter {
    pub inner: FileLogger,
}

impl LogWriter {
    /// Queues non-empty bytes and reports them all written.
    pub fn write(&mut self, buf: &[u8]) -> (r: usize)
        ensures
            r == buf@.len(),
    {
        if buf.len() > 0 {
            let mut v: Vec<u8> = Vec::new();
            let mut i: usize = 0;
            while i < buf.len()
                invariant
                    i <= buf@.len(),
                decreases buf.len() - i,
            {
                v.push(buf[i]);
                i = i + 1;
            }
            self.inner.write_bytes(v);
        }
        buf.len()
    }
}

/// What the writer does with the current file before writing `extra`
/// bytes.
#[derive(Debug, PartialEq, Eq, Structural)]
pub enum Rotation {
    /// Archive the current file and start a new one.
    Rotate,
    /// Keep writing, now dated `today`.
    NewDay(i32),
    /// Keep writing.
    Keep,
}

/// A non-empty file is rotated when the day changed or the write would
/// bring it to the size limit; an empty file just takes the new day.
pub open spec fn rotation_spec(today: i32, date: i32, written: u64, extra: u64) -> Rotation {
    let new_day = today != date;
    let too_big = written > 0 && written + extra >= MAX_SIZE;
    if (new_day || too_big) && written > 0 {
        Rotation::Rotate
    } else if new_day {
        Rotation::NewDay(today)
    } else {
        Rotation::Keep
    }
}

/// See [`rotation_spec`]; days are numbered.
pub fn rotation(today: i32, date: i32, written: u64, extra: u64) -> (r: Rotation)
    ensures
        r == rotation_spec(today, date, written, extra),
{
    let new_day = today != date;
    let too_big = written > 0 && written.saturating_add(extra) >= MAX_SIZE;
    if (new_day || too_big) && written > 0 {
        Rotation::Rotate
    } else if new_day {
        Rotation::NewDay(today)
    } else {
        Rotation::Keep
    }
}

/// The name of the file being written.
pub fn current_name(stem: &str) -> (r: String)
    ensures
        r@ == stem@ + ".log"@,
{
    let mut out = owned(stem);
    push_str(&mut out, ".log");
    out
}

/// The `n`-th archive name for a day: `stem.date.log`, then
/// `stem.date.1.log`, `stem.date.2.log`, …
pub open spec fn archive_candidate(stem: Seq<char>, date: Seq<char>, n: nat) -> Seq<char> {
    if n == 0 {
        stem + "."@ + date + ".log"@
    } else {
        stem + "."@ + date + "."@ + decimal(n) + ".log"@
    }
}

fn candidate(stem: &str, date: &str, n: u32) -> (r: String)
    ensures
        r@ == archive_candidate(stem@, date@, n as nat),
{
    let mut out = owned(stem);
    push_str(&mut out, ".");
    push_str(&mut out, date);
    if n > 0 {
        push_str(&mut out, ".");
        push_decimal(&mut out, n as u64);
    }
    push_str(&mut out, ".log");
    out
}

/// Whether a name is among existing ones.
pub open spec fn taken(existing: Seq<String>, name: Seq<char>) -> bool {
    exists|i: int| 0 <= i < existing.len() && existing[i]@ == name
}

fn is_taken(existing: &[String], name: &String) -> (r: bool)
    ensures
        r == taken(existing@, name@),
{
    let mut i: usize = 0;
    while i < existing.len()
        invariant
            i <= existing@.len(),
            forall|k: int| 0 <= k < i ==> existing@[k]@ != name@,
        decreases existing.len() - i,
    {
        if str_eq(existing[i].as_str(), name.as_str()) {
            return true;
        }
        i = i + 1;
    }
    false
}

/// The archive name for a day's file: the first candidate not among the
/// existing names (numbers stop before `u32::MAX`, then `stem.date.overflow.log`).
pub fn archive_name(existing: &[String], stem: &str, date: &str) -> (r: String)
    ensures
        (exists|n: nat|
            n < u32::MAX && r@ == archive_candidate(stem@, date@, n) && !taken(existing@, r@) && forall|m: nat|
                m < n ==> taken(existing@, #[trigger] archive_candidate(stem@, date@, m)))
            || (r@ == stem@ + "."@ + date@ + ".overflow.log"@ && forall|m: nat|
            m < u32::MAX ==> taken(existing@, #[trigger] archive_candidate(stem@, date@, m))),
{
    let mut n: u32 = 0;
    while n < u32::MAX
        invariant
            forall|m: nat| m < n ==> taken(existing@, #[trigger] archive_candidate(stem@, date@, m)),
        decreases u32::MAX - n,
    {
        let c = candidate(stem, date, n);
        if !is_taken(existing, &c) {
            return c;
        }
        n = n + 1;
    }
    let mut out = owned(stem);
    push_str(&mut out, ".");
    push_str(&mut out, date);
    push_str(&mut out, ".overflow.log");
    out
}

/// What the writer does on an event of its queue.
#[derive(Debug, PartialEq, Eq, Structural)]
pub enum WriterStep {
    /// Write the chunk (and whatever else is queued).
    Write,
    /// Flush, then rotate if due.
    FlushAndCheck,
    /// Flush and stop.
    Stop,
}

/// An event of the writer's queue.
#[derive(Debug, PartialEq, Eq, Structural)]
pub enum QueueEvent {
    /// A chunk arrived.
    Chunk,
    /// Nothing arrived for a while.
    Timeout,
    /// Every sender is gone.
    Disconnected,
}

/// The writer's response to a queue event.
pub fn writer_step(event: QueueEvent) -> (r: WriterStep)
    ensures
        event == QueueEvent::Chunk ==> r == WriterStep::Write,
        event == QueueEvent::Timeout ==> r == WriterStep::FlushAndCheck,
        event == QueueEvent::Disconnected ==> r == WriterStep::Stop,
{
    match event {
        QueueEvent::Chunk => WriterStep::Write,
        QueueEvent::Timeout => WriterStep::FlushAndCheck,
        QueueEvent::Disconnected => WriterStep::Stop,
    }
}

} // verus!
