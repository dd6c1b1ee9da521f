//! The file sink's rules: size accounting and rotation, file naming, and
//! retention of old log files.

use vstd::prelude::*;
use chrono::{Datelike, Timelike};
use crate::text::{decimal, padded, push_padded, push_decimal, push_str, lemma_decimal_len,
    lemma_decimal_injective};

verus! {

/// What the file writer must do, in order.
pub enum FileOp {
    /// Append these bytes to the active file.
    Append(Vec<u8>),
    /// Force written data to the disk.
    Sync,
    /// Close the active file, open the next one and hand the old one to compression.
    Rotate,
}

pub enum FileOpKind {
    Append,
    Sync,
    Rotate,
}

pub open spec fn file_op_kind(op: FileOp) -> FileOpKind {
    match op {
        FileOp::Append(_) => FileOpKind::Append,
        FileOp::Sync => FileOpKind::Sync,
        FileOp::Rotate => FileOpKind::Rotate,
    }
}

pub open spec fn file_op_kinds(ops: Seq<FileOp>) -> Seq<FileOpKind> {
    ops.map_values(|op: FileOp| file_op_kind(op))
}

/// Size accounting of the active log file.
pub struct FileSinkState {
    /// Bytes written to the active file since it was opened.
    pub current_size: u64,
    /// Rotation threshold, in bytes.
    pub max_size: u64,
    /// Sync after every write.
    pub force_sync: bool,
}

/// The size after appending `len` bytes, capped at `u64::MAX`.
pub open spec fn grown(size: u64, len: nat) -> nat {
    if size + len > u64::MAX {
        u64::MAX as nat
    } else {
        (size + len) as nat
    }
}

/// What writing `data` does: an append of all of it, a sync when every write
/// must be durable, then a rotation when the file has reached the threshold.
pub open spec fn write_spec(s: FileSinkState, data: Vec<u8>, ops: Seq<FileOp>, s2: FileSinkState) -> bool {
    &&& s2.max_size == s.max_size
    &&& s2.force_sync == s.force_sync
    &&& data@.len() == 0 ==> ops.len() == 0 && s2.current_size == s.current_size
    &&& data@.len() > 0 ==> {
        let rotates = grown(s.current_size, data@.len()) >= s.max_size;
        &&& ops[0] == FileOp::Append(data)
        &&& file_op_kinds(ops) == seq![FileOpKind::Append] + (if s.force_sync {
            seq![FileOpKind::Sync]
        } else {
            Seq::empty()
        }) + (if rotates {
            seq![FileOpKind::Rotate]
        } else {
            Seq::empty()
        })
        &&& rotates ==> s2.current_size == 0
        &&& !rotates ==> s2.current_size == s.current_size + data@.len()
    }
}

impl FileSinkState {
    /// The active file is always below the threshold.
    pub open spec fn wf(&self) -> bool {
        self.max_size > 0 && self.current_size < self.max_size
    }

    pub fn new(max_size: u64, force_sync: bool) -> (r: FileSinkState)
        requires
            max_size > 0,
        ensures
            r.wf(),
            r.current_size == 0,
            r.max_size == max_size,
            r.force_sync == force_sync,
    {
        FileSinkState { current_size: 0, max_size, force_sync }
    }

    /// Writes `data` in full to the active file; rotates afterwards when the
    /// file has reached the threshold.
    pub fn write(&mut self, data: Vec<u8>) -> (ops: Vec<FileOp>)
        requires
            old(self).wf(),
        ensures
            final(self).wf(),
            write_spec(*old(self), data, ops@, *final(self)),
    {
        let mut ops: Vec<FileOp> = Vec::new();
        let len = data.len() as u64;
        if len == 0 {
            return ops;
        }
        let ghost d = data;
        ops.push(FileOp::Append(data));
        if self.force_sync {
            ops.push(FileOp::Sync);
        }
        let size = self.current_size.saturating_add(len);
        if size >= self.max_size {
            ops.push(FileOp::Rotate);
            self.current_size = 0;
        } else {
            self.current_size = size;
        }
        assert(file_op_kinds(ops@) =~= seq![FileOpKind::Append] + (if self.force_sync {
            seq![FileOpKind::Sync]
        } else {
            Seq::empty()
        }) + (if size >= self.max_size {
            seq![FileOpKind::Rotate]
        } else {
            Seq::empty()
        }));
        ops
    }

    /// An explicit rotation: the next write goes to a fresh, empty file.
    pub fn rotate(&mut self) -> (ops: Vec<FileOp>)
        requires
            old(self).wf(),
        ensures
            final(self).wf(),
            final(self).current_size == 0,
            final(self).max_size == old(self).max_size,
            final(self).force_sync == old(self).force_sync,
            file_op_kinds(ops@) == seq![FileOpKind::Rotate],
    {
        let mut ops: Vec<FileOp> = Vec::new();
        ops.push(FileOp::Rotate);
        self.current_size = 0;
        assert(file_op_kinds(ops@) =~= seq![FileOpKind::Rotate]);
        ops
    }

    /// What a flush asks of the file: a sync when every write must be durable.
    pub fn flush(&self) -> (ops: Vec<FileOp>)
        ensures
            self.force_sync ==> file_op_kinds(ops@) == seq![FileOpKind::Sync],
            !self.force_sync ==> ops@.len() == 0,
    {
        let mut ops: Vec<FileOp> = Vec::new();
        if self.force_sync {
            ops.push(FileOp::Sync);
        }
        assert(self.force_sync ==> file_op_kinds(ops@) =~= seq![FileOpKind::Sync]);
        ops
    }
}

/// The active file stays below the threshold: whatever is written, the size
/// after the write (and the rotation it may cause) is below `max_size`.
pub proof fn lemma_size_stays_below_threshold(s: FileSinkState, data: Vec<u8>, ops: Seq<FileOp>, s2: FileSinkState)
    requires
        s.wf(),
        write_spec(s, data, ops, s2),
    ensures
        s2.wf(),
{
}

/// A record larger than the threshold is written whole, in one append, and
/// the file is rotated right after it, so the next write starts a new file.
pub proof fn lemma_oversize_record(
    s: FileSinkState,
    data: Vec<u8>,
    ops: Seq<FileOp>,
    s2: FileSinkState,
)
    requires
        s.wf(),
        data@.len() > s.max_size,
        write_spec(s, data, ops, s2),
    ensures
        ops[0] == FileOp::Append(data),
        file_op_kind(ops.last()) == FileOpKind::Rotate,
        s2.current_size == 0,
{
    assert(file_op_kinds(ops).last() == file_op_kind(ops.last()));
}

/// A local wall-clock reading, broken into its fields.
#[derive(Debug, Clone, Copy, PartialEq, Eq, Structural)]
pub struct DateTimeParts {
    pub year: i32,
    pub month: u32,
    pub day: u32,
    pub hour: u32,
    pub minute: u32,
    pub second: u32,
}

impl DateTimeParts {
    pub open spec fn wf(&self) -> bool {
        &&& 1 <= self.month <= 12
        &&& 1 <= self.day <= 31
        &&& self.hour < 24
        &&& self.minute < 60
        &&& self.second < 60
    }
}

/// Relies on chrono's `Local::now` with `Datelike::{year, month, day}` and
/// `Timelike::{hour, minute, second}`: month 1-12, day 1-31, hour 0-23,
/// minute and second 0-59, as those methods document.
#[verifier::external_body]
fn local_now_parts() -> (r: DateTimeParts)
    ensures
        r.wf(),
{
    let now = chrono::Local::now();
    DateTimeParts {
        year: now.year(),
        month: now.month(),
        day: now.day(),
        hour: now.hour(),
        minute: now.minute(),
        second: now.second(),
    }
}

/// The year printed in file names: clamped to `0..=9999`.
pub open spec fn stamp_year(t: DateTimeParts) -> nat {
    if t.year < 0 {
        0
    } else if t.year > 9999 {
        9999
    } else {
        t.year as nat
    }
}

/// `YYYYMMDD_HHMMSS` for a reading.
pub open spec fn stamp(t: DateTimeParts) -> Seq<char> {
    padded(stamp_year(t), 4) + padded(t.month as nat, 2) + padded(t.day as nat, 2) + seq!['_']
        + padded(t.hour as nat, 2) + padded(t.minute as nat, 2) + padded(t.second as nat, 2)
}

/// The name of a log file: `app_<stamp>.log`, or `app_<stamp>_<seq>.log`
/// for the later files opened within the same second.
pub open spec fn log_file_name(stamp: Seq<char>, seq: nat) -> Seq<char> {
    seq!['a', 'p', 'p', '_'] + stamp + (if seq == 0 {
        Seq::empty()
    } else {
        seq!['_'] + decimal(seq)
    }) + seq!['.', 'l', 'o', 'g']
}

proof fn lemma_padded_len(n: nat, w: nat)
    requires
        decimal(n).len() <= w,
    ensures
        padded(n, w).len() == w,
{
}

/// Every stamp has fifteen characters.
pub proof fn lemma_stamp_len(t: DateTimeParts)
    requires
        t.wf(),
    ensures
        stamp(t).len() == 15,
{
    lemma_decimal_len(stamp_year(t));
    lemma_decimal_len(t.month as nat);
    lemma_decimal_len(t.day as nat);
    lemma_decimal_len(t.hour as nat);
    lemma_decimal_len(t.minute as nat);
    lemma_decimal_len(t.second as nat);
    lemma_padded_len(stamp_year(t), 4);
    lemma_padded_len(t.month as nat, 2);
    lemma_padded_len(t.day as nat, 2);
    lemma_padded_len(t.hour as nat, 2);
    lemma_padded_len(t.minute as nat, 2);
    lemma_padded_len(t.second as nat, 2);
}

/// Distinct (stamp, sequence) pairs give distinct file names.
pub proof fn lemma_log_file_name_injective(s1: Seq<char>, k1: nat, s2: Seq<char>, k2: nat)
    requires
        s1.len() == s2.len(),
        log_file_name(s1, k1) == log_file_name(s2, k2),
    ensures
        s1 == s2,
        k1 == k2,
{
    let n1 = log_file_name(s1, k1);
    let n2 = log_file_name(s2, k2);
    let l = s1.len() as int;
    assert(n1.subrange(4, 4 + l) =~= s1);
    assert(n2.subrange(4, 4 + l) =~= s2);
    if k1 != 0 && k2 != 0 {
        lemma_decimal_len(k1);
        lemma_decimal_len(k2);
        assert(n1.subrange(5 + l, n1.len() - 4) =~= decimal(k1));
        assert(n2.subrange(5 + l, n2.len() - 4) =~= decimal(k2));
        lemma_decimal_injective(k1, k2);
    } else if k1 == 0 && k2 != 0 {
        assert(n1[4 + l] == '.');
        assert(n2[4 + l] == '_');
    } else if k1 != 0 && k2 == 0 {
        assert(n1[4 + l] == '_');
        assert(n2[4 + l] == '.');
    }
}

/// Chooses the paths of the log files of one directory.
pub struct LogRotator {
    pub base_path: String,
    pub max_files: usize,
    /// Stamp of the last name handed out (empty before the first).
    pub last_stamp: String,
    /// Sequence number of the last name handed out within its second.
    pub seq: u64,
}

impl LogRotator {
    pub fn new(base_path: String, max_files: usize) -> (r: LogRotator)
        ensures
            r.base_path == base_path,
            r.max_files == max_files,
            r.last_stamp@.len() == 0,
            r.seq == 0,
    {
        LogRotator { base_path, max_files, last_stamp: String::new(), seq: 0 }
    }

    /// The file name for a reading of the clock. Within one second the names
    /// are numbered, so no name repeats the one handed out just before.
    pub fn name_at(&mut self, t: DateTimeParts) -> (r: String)
        requires
            t.wf(),
        ensures
            final(self).base_path == old(self).base_path,
            final(self).max_files == old(self).max_files,
            final(self).last_stamp@ == stamp(t),
            old(self).last_stamp@ == stamp(t) && old(self).seq < u64::MAX ==> final(self).seq == old(self).seq + 1,
            old(self).last_stamp@ == stamp(t) && old(self).seq == u64::MAX ==> final(self).seq == u64::MAX,
            old(self).last_stamp@ != stamp(t) ==> final(self).seq == 0,
            r@ == log_file_name(stamp(t), final(self).seq as nat),
    {
        let mut st = String::new();
        let year: u64 = if t.year < 0 {
            0
        } else if t.year > 9999 {
            9999
        } else {
            t.year as u64
        };
        push_padded(&mut st, year, 4);
        push_padded(&mut st, t.month as u64, 2);
        push_padded(&mut st, t.day as u64, 2);
        proof {
            reveal_strlit("_");
            reveal_strlit("app_");
            reveal_strlit(".log");
        }
        push_str(&mut st, "_");
        push_padded(&mut st, t.hour as u64, 2);
        push_padded(&mut st, t.minute as u64, 2);
        push_padded(&mut st, t.second as u64, 2);
        assert(st@ =~= stamp(t));
        if st == self.last_stamp {
            self.seq = self.seq.saturating_add(1);
        } else {
            self.seq = 0;
        }
        let mut name = String::new();
        push_str(&mut name, "app_");
        push_str(&mut name, st.as_str());
        if self.seq > 0 {
            push_str(&mut name, "_");
            push_decimal(&mut name, self.seq);
        }
        push_str(&mut name, ".log");
        self.last_stamp = st;
        assert(name@ =~= log_file_name(stamp(t), self.seq as nat));
        name
    }

    /// The path of the next log file: `<base_path>/app_<stamp>[_<seq>].log`.
    pub fn next_path(&mut self) -> (r: String)
        ensures
            final(self).base_path == old(self).base_path,
            final(self).max_files == old(self).max_files,
            old(self).last_stamp@ == final(self).last_stamp@ && old(self).seq < u64::MAX ==> final(self).seq
                == old(self).seq + 1,
            old(self).last_stamp@ == final(self).last_stamp@ && old(self).seq == u64::MAX ==> final(self).seq
                == u64::MAX,
            old(self).last_stamp@ != final(self).last_stamp@ ==> final(self).seq == 0,
            exists|t: DateTimeParts|
                t.wf() && final(self).last_stamp@ == stamp(t) && r@ == join_path(
                    old(self).base_path@,
                    log_file_name(stamp(t), final(self).seq as nat),
                ),
    {
        let t = local_now_parts();
        let name = self.name_at(t);
        let r = join(self.base_path.as_str(), name.as_str());
        assert(t.wf() && self.last_stamp@ == stamp(t));
        r
    }
}

/// `dir/name`; no separator is added after an empty directory or one that ends in `/`.
pub open spec fn join_path(dir: Seq<char>, name: Seq<char>) -> Seq<char> {
    if dir.len() == 0 || dir.last() == '/' {
        dir + name
    } else {
        dir + seq!['/'] + name
    }
}

pub fn join(dir: &str, name: &str) -> (r: String)
    ensures
        r@ == join_path(dir@, name@),
{
    let mut out = String::new();
    push_str(&mut out, dir);
    let n = dir.unicode_len();
    if n > 0 && dir.get_char(n - 1) != '/' {
        proof {
            reveal_strlit("/");
        }
        push_str(&mut out, "/");
    }
    push_str(&mut out, name);
    assert(out@ =~= join_path(dir@, name@));
    out
}

/// A new log file never reuses the name of the one it replaces: the file
/// opened by a rotation is not the file that was rotated out.
pub proof fn lemma_rotation_opens_new_file(t_old: DateTimeParts, seq_old: nat, t: DateTimeParts, seq: nat)
    requires
        t_old.wf(),
        t.wf(),
        stamp(t_old) == stamp(t) ==> seq == seq_old + 1,
        stamp(t_old) != stamp(t) ==> seq == 0,
    ensures
        log_file_name(stamp(t), seq) != log_file_name(stamp(t_old), seq_old),
{
    lemma_stamp_len(t_old);
    lemma_stamp_len(t);
    if log_file_name(stamp(t), seq) == log_file_name(stamp(t_old), seq_old) {
        lemma_log_file_name_injective(stamp(t), seq, stamp(t_old), seq_old);
    }
}

/// Two consecutive paths from a rotator differ: the name handed out after a
/// step of `name_at` or `next_path` is not the one handed out before it.
pub proof fn lemma_rotator_step_changes_name(r1: LogRotator, r2: LogRotator, t1: DateTimeParts, t2: DateTimeParts)
    requires
        t1.wf(),
        t2.wf(),
        r1.last_stamp@ == stamp(t1),
        r2.last_stamp@ == stamp(t2),
        r1.seq < u64::MAX,
        r1.last_stamp@ == r2.last_stamp@ ==> r2.seq == r1.seq + 1,
        r1.last_stamp@ != r2.last_stamp@ ==> r2.seq == 0,
    ensures
        log_file_name(r2.last_stamp@, r2.seq as nat) != log_file_name(r1.last_stamp@, r1.seq as nat),
{
    lemma_rotation_opens_new_file(t1, r1.seq as nat, t2, r2.seq as nat);
}

/// Attempts to delete the source of a compressed file before giving up.
pub const MAX_DELETE_ATTEMPTS: u32 = 5;

/// What to do after an attempt to delete the source of a compressed file.
#[derive(Debug, Clone, Copy, PartialEq, Eq, Structural)]
pub enum DeleteDecision {
    /// The file is gone.
    Done,
    /// The file is still held by someone: wait this many milliseconds and try again.
    RetryAfter(u64),
    /// Report the error and leave the file.
    GiveUp,
}

/// The outcome of one delete attempt.
#[derive(Debug, Clone, Copy, PartialEq, Eq, Structural)]
pub enum DeleteOutcome {
    Removed,
    PermissionDenied,
    OtherError,
}

/// The delete rule: only a denied permission is retried, with a delay that
/// grows linearly (`base_delay_ms` times the attempt number), at most five attempts.
pub fn after_delete_attempt(attempt: u32, outcome: DeleteOutcome, base_delay_ms: u64) -> (r: DeleteDecision)
    requires
        attempt < MAX_DELETE_ATTEMPTS,
        base_delay_ms <= 1000,
    ensures
        outcome == DeleteOutcome::Removed ==> r == DeleteDecision::Done,
        outcome == DeleteOutcome::OtherError ==> r == DeleteDecision::GiveUp,
        outcome == DeleteOutcome::PermissionDenied && attempt + 1 < MAX_DELETE_ATTEMPTS ==> r
            == DeleteDecision::RetryAfter((base_delay_ms * (attempt + 1)) as u64),
        outcome == DeleteOutcome::PermissionDenied && attempt + 1 == MAX_DELETE_ATTEMPTS ==> r
            == DeleteDecision::GiveUp,
{
    match outcome {
        DeleteOutcome::Removed => DeleteDecision::Done,
        DeleteOutcome::OtherError => DeleteDecision::GiveUp,
        DeleteOutcome::PermissionDenied => {
            if attempt + 1 < MAX_DELETE_ATTEMPTS {
                assert(base_delay_ms * (attempt as u64 + 1) <= 5000) by (nonlinear_arith)
                    requires
                        base_delay_ms <= 1000,
                        attempt < 5,
                ;
                DeleteDecision::RetryAfter(base_delay_ms * (attempt as u64 + 1))
            } else {
                DeleteDecision::GiveUp
            }
        },
    }
}

} // verus!
