//! A log file with size-based rotation and lines in pipe-separated columns:
//!
//! ```text
//! 2026-07-12 11:23:22 +08:00 | INFO  | #1   | CUTTING OFF                              | cap=95 cutoff=95
//! ```
//!
//! The columns are the time, the level, a running number, the message and, where
//! there are any, key-value pairs in logfmt.

use vstd::prelude::*;
use vstd::string::StringExecFns;
use vstd::utf8::encode_utf8;

use crate::clock::{is_timestamp, timestamp};
use crate::logfmt::{law_pairs_read_back, pairs_of, pairs_text, push_pairs, read_pairs};
use crate::path::{file_name, file_name_of, parent, parent_of, sibling, with_file_name};
use crate::text::{
    chars_of, decimal, has_infix, law_decimal_injective, lemma_decimal_digits, pad_right,
    push_decimal, push_padded, push_spaces, spaces,
};

verus! {

/// The width of the level column.
pub const LEVEL_WIDTH: usize = 5;

/// The width of the running number, without its sign.
pub const SEQ_WIDTH: usize = 3;

/// The least width of the message column.
pub const MESSAGE_WIDTH: usize = 40;

/// `level` in the middle of its column. Where it cannot stand exactly in the
/// middle, the larger half of the space is on the right.
pub open spec fn centered(level: Seq<char>) -> Seq<char> {
    if level.len() >= LEVEL_WIDTH {
        level
    } else {
        let pad = (LEVEL_WIDTH - level.len()) as nat;
        spaces(pad / 2) + level + spaces((pad - pad / 2) as nat)
    }
}

/// `level` in the middle of its column.
pub fn center_pad(level: &str) -> (r: String)
    ensures
        r@ == centered(level@),
{
    let len: usize = chars_of(level).len();
    if len >= LEVEL_WIDTH {
        return level.to_owned();
    }
    let pad: usize = LEVEL_WIDTH - len;
    let mut out = String::new();
    push_spaces(&mut out, pad / 2);
    out.append(level);
    push_spaces(&mut out, pad - pad / 2);
    proof {
        assert(out@ =~= centered(level@));
    }
    out
}

/// The running number in its column.
pub open spec fn seq_column(seq: nat) -> Seq<char> {
    seq!['#'] + pad_right(decimal(seq), SEQ_WIDTH as nat)
}

/// The columns up to the message.
pub open spec fn columns(
    time: Seq<char>,
    level: Seq<char>,
    seq: nat,
    msg: Seq<char>,
) -> Seq<char> {
    time + " | "@ + centered(level) + " | "@ + seq_column(seq) + " | "@ + pad_right(
        msg,
        MESSAGE_WIDTH as nat,
    )
}

/// A log line.
pub open spec fn log_line(
    time: Seq<char>,
    level: Seq<char>,
    seq: nat,
    msg: Seq<char>,
    kv: Seq<(Seq<char>, Seq<char>)>,
) -> Seq<char> {
    let front = columns(time, level, seq, msg);
    if kv.len() == 0 {
        front.push('\n')
    } else {
        (front + " | "@ + pairs_text(kv)).push('\n')
    }
}

/// Makes a log line.
pub fn format_line(time: &str, level: &str, seq: u64, msg: &str, kv: &[(&str, &str)]) -> (r: String)
    ensures
        r@ == log_line(time@, level@, seq as nat, msg@, pairs_of(kv@)),
{
    let mut digits = String::new();
    push_decimal(&mut digits, seq);
    proof {
        assert(digits@ =~= decimal(seq as nat));
    }
    let mut out = String::new();
    out.append(time);
    out.append(" | ");
    out.append(center_pad(level).as_str());
    out.append(" | ");
    out.push('#');
    push_padded(&mut out, digits.as_str(), SEQ_WIDTH);
    out.append(" | ");
    push_padded(&mut out, msg, MESSAGE_WIDTH);
    proof {
        assert(out@ =~= columns(time@, level@, seq as nat, msg@));
    }
    if kv.len() > 0 {
        out.append(" | ");
        push_pairs(&mut out, kv);
    }
    out.push('\n');
    proof {
        assert(out@ =~= log_line(time@, level@, seq as nat, msg@, pairs_of(kv@)));
    }
    out
}

/// Permissions of a new log file: for its owner alone.
pub const LOG_FILE_MODE: u32 = 0o600;

/// A log file and its counters.
#[derive(Debug)]
pub struct FileLogger {
    path: Vec<u8>,
    max_bytes: u64,
    keep: u32,
    /// The size of the log file, as far as it is known without asking.
    bytes_written: u64,
    /// The number of the last line.
    seq: u64,
}

/// What a logger holds.
#[verifier::ext_equal]
pub struct LoggerState {
    pub path: Seq<u8>,
    pub max_bytes: u64,
    pub keep: u32,
    pub bytes_written: u64,
    pub seq: u64,
}

/// What is next for a line on its way to the file.
#[derive(Debug, Clone, Copy, PartialEq, Eq, Structural)]
pub enum WriteStage {
    /// Rotation: remove the oldest file.
    DropOldest,
    /// Rotation: rename file `n` to `n + 1`.
    Shift { n: u32 },
    /// Rotation: rename the log file to file 1.
    Move,
    /// Append the line.
    Append,
    /// The line has been dealt with.
    Done,
}

/// A line on its way to the file.
#[derive(Debug)]
pub struct LogWrite {
    pub line: String,
    pub stage: WriteStage,
}

/// An operation on files.
#[derive(Debug)]
pub enum FileAction {
    /// Remove the file, if it exists.
    RemoveIfExists { path: Vec<u8> },
    /// Rename the file, if it exists.
    RenameIfExists { from: Vec<u8>, to: Vec<u8> },
    /// Rename the file.
    Rename { from: Vec<u8>, to: Vec<u8> },
    /// Append to the file, and create it with the permissions `mode` where it does
    /// not exist.
    Append { path: Vec<u8>, data: Vec<u8>, mode: u32 },
}

/// An operation on files, as a value.
pub enum FileOp {
    RemoveIfExists { path: Seq<u8> },
    RenameIfExists { from: Seq<u8>, to: Seq<u8> },
    Rename { from: Seq<u8>, to: Seq<u8> },
    Append { path: Seq<u8>, data: Seq<u8>, mode: u32 },
}

impl View for FileAction {
    type V = FileOp;

    open spec fn view(&self) -> FileOp {
        match self {
            FileAction::RemoveIfExists { path } => FileOp::RemoveIfExists { path: path@ },
            FileAction::RenameIfExists { from, to } => FileOp::RenameIfExists {
                from: from@,
                to: to@,
            },
            FileAction::Rename { from, to } => FileOp::Rename { from: from@, to: to@ },
            FileAction::Append { path, data, mode } => FileOp::Append {
                path: path@,
                data: data@,
                mode: *mode,
            },
        }
    }
}

/// The name of rotated file `n` of a log file with the path `path`: the log
/// file's own name and a number.
pub open spec fn rotated_name(path: Seq<u8>, n: nat) -> Seq<u8> {
    let name = match file_name_of(path) {
        Some(name) => name,
        None => encode_utf8("rsc.log"@),
    };
    name + encode_utf8(seq!['.'] + decimal(n))
}

/// The path of rotated file `n` of a log file with the path `path`.
pub open spec fn rotated(path: Seq<u8>, n: nat) -> Seq<u8> {
    sibling(path, rotated_name(path, n))
}

impl LoggerState {
    /// A logger that has made no line yet.
    pub open spec fn fresh(
        path: Seq<u8>,
        max_kb: u64,
        keep: u32,
        existing: Option<u64>,
    ) -> LoggerState {
        LoggerState {
            path,
            max_bytes: if max_kb * 1024 <= u64::MAX {
                (max_kb * 1024) as u64
            } else {
                u64::MAX
            },
            keep: if keep == 0 {
                1
            } else {
                keep
            },
            bytes_written: match existing {
                Some(n) => n,
                None => 0,
            },
            seq: 0,
        }
    }

    /// The logger once a line has been given its number, which is one more than
    /// that of the line before.
    pub open spec fn numbered(self) -> LoggerState {
        LoggerState { seq: (self.seq + 1) as u64, ..self }
    }

    /// Where a line begins on its way to the file: the log is rotated first where
    /// it exceeds its size.
    pub open spec fn first_stage(self) -> WriteStage {
        if self.bytes_written > self.max_bytes {
            WriteStage::DropOldest
        } else {
            WriteStage::Append
        }
    }

    /// What a line asks for at a stage.
    pub open spec fn asks(self, stage: WriteStage, line: Seq<char>) -> Option<FileOp> {
        match stage {
            WriteStage::DropOldest => Some(
                FileOp::RemoveIfExists { path: rotated(self.path, self.keep as nat) },
            ),
            WriteStage::Shift { n } => Some(
                FileOp::RenameIfExists {
                    from: rotated(self.path, n as nat),
                    to: rotated(self.path, n as nat + 1),
                },
            ),
            WriteStage::Move => Some(
                FileOp::Rename { from: self.path, to: rotated(self.path, 1) },
            ),
            WriteStage::Append => Some(
                FileOp::Append {
                    path: self.path,
                    data: encode_utf8(line),
                    mode: LOG_FILE_MODE,
                },
            ),
            WriteStage::Done => None,
        }
    }

    /// The stage that follows. How an operation went has no influence on it.
    pub open spec fn next_stage(self, stage: WriteStage) -> WriteStage {
        match stage {
            WriteStage::DropOldest => if self.keep > 1 {
                WriteStage::Shift { n: (self.keep - 1) as u32 }
            } else {
                WriteStage::Move
            },
            WriteStage::Shift { n } => if n > 1 {
                WriteStage::Shift { n: (n - 1) as u32 }
            } else {
                WriteStage::Move
            },
            WriteStage::Move => WriteStage::Append,
            WriteStage::Append => WriteStage::Done,
            WriteStage::Done => WriteStage::Done,
        }
    }

    /// The logger once the operation at a stage has gone well, or not: the size
    /// starts again at 0 only where the log file was moved away, and grows by a
    /// line that was written. It wraps at the end of its range.
    pub open spec fn counted(self, stage: WriteStage, line: Seq<char>, ok: bool) -> LoggerState {
        let bytes = match stage {
            WriteStage::Move if ok => 0,
            WriteStage::Append if ok => ((self.bytes_written + encode_utf8(line).len())
                % 0x1_0000_0000_0000_0000) as u64,
            _ => self.bytes_written,
        };
        LoggerState { bytes_written: bytes, ..self }
    }
}

impl View for FileLogger {
    type V = LoggerState;

    closed spec fn view(&self) -> LoggerState {
        LoggerState {
            path: self.path@,
            max_bytes: self.max_bytes,
            keep: self.keep,
            bytes_written: self.bytes_written,
            seq: self.seq,
        }
    }
}

impl FileLogger {
    #[verifier::type_invariant]
    spec fn keeps_a_file(self) -> bool {
        self.keep >= 1
    }

    /// A logger for the file `path`, which is rotated once it exceeds `max_kb`
    /// kibibytes. At least one rotated file is kept. `existing` is the size of
    /// the file that is already there.
    pub fn new(path: Vec<u8>, max_kb: u64, keep: u32, existing: Option<u64>) -> (r: FileLogger)
        ensures
            r@ == LoggerState::fresh(path@, max_kb, keep, existing),
    {
        let max_bytes: u64 = if max_kb <= u64::MAX / 1024 {
            max_kb * 1024
        } else {
            u64::MAX
        };
        let keep: u32 = if keep == 0 {
            1
        } else {
            keep
        };
        let bytes_written: u64 = match existing {
            Some(n) => n,
            None => 0,
        };
        FileLogger { path, max_bytes, keep, bytes_written, seq: 0 }
    }

    /// The number of the last line; 0 where there was none yet.
    pub fn last_seq(&self) -> (r: u64)
        ensures
            r == self@.seq,
    {
        self.seq
    }

    /// Makes a line with the given time, and begins to write it.
    pub fn log_kv_at(
        &mut self,
        time: &str,
        level: &str,
        msg: &str,
        kv: &[(&str, &str)],
    ) -> (r: LogWrite)
        requires
            old(self)@.seq < u64::MAX,
        ensures
            final(self)@ == old(self)@.numbered(),
            r.line@ == log_line(
                time@,
                level@,
                (old(self)@.seq + 1) as nat,
                msg@,
                pairs_of(kv@),
            ),
            r.stage == old(self)@.first_stage(),
    {
        proof {
            use_type_invariant(&*self);
        }
        self.seq = self.seq + 1;
        let line = format_line(time, level, self.seq, msg, kv);
        let stage: WriteStage = if self.bytes_written > self.max_bytes {
            WriteStage::DropOldest
        } else {
            WriteStage::Append
        };
        LogWrite { line, stage }
    }

    /// Makes a line with the current time, and begins to write it. Lines are
    /// numbered from 1.
    pub fn log_kv(&mut self, level: &str, msg: &str, kv: &[(&str, &str)]) -> (r: LogWrite)
        requires
            old(self)@.seq < u64::MAX,
        ensures
            logged(old(self)@, final(self)@, r, level@, msg@, pairs_of(kv@)),
    {
        let time = timestamp();
        let r = self.log_kv_at(time.as_str(), level, msg, kv);
        proof {
            assert(is_timestamp(time@));
        }
        r
    }

    /// Makes a line without pairs.
    pub fn log(&mut self, level: &str, msg: &str) -> (r: LogWrite)
        requires
            old(self)@.seq < u64::MAX,
        ensures
            logged(old(self)@, final(self)@, r, level@, msg@, seq![]),
    {
        let none: [(&str, &str); 0] = [];
        let r = self.log_kv(level, msg, &none);
        proof {
            assert(pairs_of(none@) =~= seq![]);
        }
        r
    }

    /// Makes a line of level `INFO`.
    pub fn info(&mut self, msg: &str) -> (r: LogWrite)
        requires
            old(self)@.seq < u64::MAX,
        ensures
            logged(old(self)@, final(self)@, r, "INFO"@, msg@, seq![]),
    {
        self.log("INFO", msg)
    }

    /// Makes a line of level `WARN`.
    pub fn warn(&mut self, msg: &str) -> (r: LogWrite)
        requires
            old(self)@.seq < u64::MAX,
        ensures
            logged(old(self)@, final(self)@, r, "WARN"@, msg@, seq![]),
    {
        self.log("WARN", msg)
    }

    /// Makes a line of level `ERROR`.
    pub fn error(&mut self, msg: &str) -> (r: LogWrite)
        requires
            old(self)@.seq < u64::MAX,
        ensures
            logged(old(self)@, final(self)@, r, "ERROR"@, msg@, seq![]),
    {
        self.log("ERROR", msg)
    }

    /// Makes a line of level `DEBUG`, if `enabled`.
    pub fn debug_if(&mut self, enabled: bool, msg: &str) -> (r: Option<LogWrite>)
        requires
            enabled ==> old(self)@.seq < u64::MAX,
        ensures
            debug_logged(enabled, old(self)@, final(self)@, r, msg@, seq![]),
    {
        if enabled {
            Some(self.log("DEBUG", msg))
        } else {
            None
        }
    }

    /// Makes a line of level `DEBUG` with pairs, if `enabled`.
    pub fn debug_if_kv(&mut self, enabled: bool, msg: &str, kv: &[(&str, &str)]) -> (r: Option<
        LogWrite,
    >)
        requires
            enabled ==> old(self)@.seq < u64::MAX,
        ensures
            debug_logged(enabled, old(self)@, final(self)@, r, msg@, pairs_of(kv@)),
    {
        if enabled {
            Some(self.log_kv("DEBUG", msg, kv))
        } else {
            None
        }
    }

    /// The path of rotated file `n`: the log file's path with `.n` behind its
    /// name.
    pub fn rotated_path(&self, n: u64) -> (r: Vec<u8>)
        ensures
            r@ == rotated(self@.path, n as nat),
    {
        let mut name: Vec<u8> = match file_name(self.path.as_slice()) {
            Some(name) => name,
            None => vstd::slice::slice_to_vec("rsc.log".as_bytes()),
        };
        let mut suffix = String::new();
        suffix.push('.');
        push_decimal(&mut suffix, n);
        proof {
            assert(suffix@ =~= seq!['.'] + decimal(n as nat));
        }
        name.extend_from_slice(suffix.as_str().as_bytes());
        proof {
            assert(name@ =~= rotated_name(self.path@, n as nat));
        }
        with_file_name(self.path.as_slice(), name.as_slice())
    }

    /// What a line asks for next; nothing once it has been dealt with.
    pub fn pending(&self, write: &LogWrite) -> (r: Option<FileAction>)
        ensures
            match r {
                Some(action) => self@.asks(write.stage, write.line@) == Some(action@),
                None => self@.asks(write.stage, write.line@) is None,
            },
    {
        match write.stage {
            WriteStage::DropOldest => Some(
                FileAction::RemoveIfExists { path: self.rotated_path(self.keep as u64) },
            ),
            WriteStage::Shift { n } => Some(
                FileAction::RenameIfExists {
                    from: self.rotated_path(n as u64),
                    to: self.rotated_path(n as u64 + 1),
                },
            ),
            WriteStage::Move => Some(
                FileAction::Rename {
                    from: vstd::slice::slice_to_vec(self.path.as_slice()),
                    to: self.rotated_path(1),
                },
            ),
            WriteStage::Append => Some(
                FileAction::Append {
                    path: vstd::slice::slice_to_vec(self.path.as_slice()),
                    data: vstd::slice::slice_to_vec(write.line.as_str().as_bytes()),
                    mode: LOG_FILE_MODE,
                },
            ),
            WriteStage::Done => None,
        }
    }

    /// Takes note of how the pending operation went. Only two outcomes count:
    /// where the log file was moved away, its size starts again at 0, and where
    /// the line was appended, the size grows by its length.
    pub fn advance(&mut self, write: LogWrite, ok: bool) -> (r: LogWrite)
        ensures
            final(self)@ == old(self)@.counted(write.stage, write.line@, ok),
            r.line == write.line,
            r.stage == old(self)@.next_stage(write.stage),
    {
        proof {
            use_type_invariant(&*self);
        }
        let stage: WriteStage = match write.stage {
            WriteStage::DropOldest => if self.keep > 1 {
                WriteStage::Shift { n: self.keep - 1 }
            } else {
                WriteStage::Move
            },
            WriteStage::Shift { n } => if n > 1 {
                WriteStage::Shift { n: n - 1 }
            } else {
                WriteStage::Move
            },
            WriteStage::Move => {
                if ok {
                    self.bytes_written = 0;
                }
                WriteStage::Append
            },
            WriteStage::Append => {
                if ok {
                    let len: usize = write.line.as_str().as_bytes().len();
                    self.bytes_written = self.bytes_written.wrapping_add(len as u64);
                }
                WriteStage::Done
            },
            WriteStage::Done => WriteStage::Done,
        };
        LogWrite { line: write.line, stage }
    }
}

/// Whether the logger went from `before` to `after` as it made the line `write`
/// with the current time.
pub open spec fn logged(
    before: LoggerState,
    after: LoggerState,
    write: LogWrite,
    level: Seq<char>,
    msg: Seq<char>,
    kv: Seq<(Seq<char>, Seq<char>)>,
) -> bool {
    &&& after == before.numbered()
    &&& write.stage == before.first_stage()
    &&& exists|time: Seq<char>| #[trigger]
        is_timestamp(time) && write.line@ == log_line(
            time,
            level,
            (before.seq + 1) as nat,
            msg,
            kv,
        )
}

/// Whether the logger went from `before` to `after` on a debug message: with a
/// line where debugging is enabled, and without a trace where it is not.
pub open spec fn debug_logged(
    enabled: bool,
    before: LoggerState,
    after: LoggerState,
    write: Option<LogWrite>,
    msg: Seq<char>,
    kv: Seq<(Seq<char>, Seq<char>)>,
) -> bool {
    if enabled {
        write matches Some(w) && logged(before, after, w, "DEBUG"@, msg, kv)
    } else {
        after == before && write is None
    }
}

/// Whether a failure is to be reported: a rotated file that could not be renamed
/// does not stop the rotation, but is not passed over in silence either. `ok` is
/// how the operation at `stage` went.
pub fn shift_failed(stage: WriteStage, ok: bool) -> (r: bool)
    ensures
        r == (stage is Shift && !ok),
{
    match stage {
        WriteStage::Shift { .. } => !ok,
        _ => false,
    }
}

/// The directory that a log file at `path` needs; none where the path has no
/// parent.
pub fn log_dir(path: &[u8]) -> (r: Option<Vec<u8>>)
    ensures
        match r {
            Some(dir) => parent_of(path@) == Some(dir@),
            None => parent_of(path@) is None,
        },
{
    parent(path)
}

/// Whether a log file at `path` has a directory that can be written. `created` is
/// whether the directory that [`log_dir`] names is there or could be created, and
/// `writable` whether it can be written; a path without a parent needs none.
pub fn ensure_log_dir(path: &[u8], created: bool, writable: bool) -> (r: bool)
    ensures
        r == (parent_of(path@) is Some ==> created && writable),
{
    match log_dir(path) {
        Some(_) => created && writable,
        None => true,
    }
}

/// The level and the message stand in the line as they were given, so that a
/// search for either finds the line.
pub proof fn law_level_and_message_are_found(
    time: Seq<char>,
    level: Seq<char>,
    seq: nat,
    msg: Seq<char>,
    kv: Seq<(Seq<char>, Seq<char>)>,
)
    ensures
        has_infix(log_line(time, level, seq, msg, kv), level),
        has_infix(log_line(time, level, seq, msg, kv), msg),
{
    let line = log_line(time, level, seq, msg, kv);
    let pad = if level.len() >= LEVEL_WIDTH {
        0
    } else {
        (LEVEL_WIDTH - level.len()) / 2
    };
    let i = time.len() + " | "@.len() + pad;
    assert(line.subrange(i, i + level.len()) =~= level);
    let j = (time + " | "@ + centered(level) + " | "@ + seq_column(seq) + " | "@).len() as int;
    assert(line.subrange(j, j + msg.len()) =~= msg);
}

/// The columns of two lines stand below each other: with a level of at most five
/// characters, a number of at most three digits and a message of at most forty
/// characters, each column has its fixed place behind the time.
pub proof fn law_columns_are_aligned(time: Seq<char>, level: Seq<char>, seq: nat, msg: Seq<char>)
    requires
        level.len() <= LEVEL_WIDTH,
        seq <= 999,
        msg.len() <= MESSAGE_WIDTH,
    ensures
        ({
            let front = columns(time, level, seq, msg);
            let t = time.len() as int;
            &&& front.len() == t + 58
            &&& front.subrange(t, t + 3) == " | "@
            &&& front.subrange(t + 3, t + 8) == centered(level)
            &&& front.subrange(t + 8, t + 11) == " | "@
            &&& front.subrange(t + 11, t + 15) == seq_column(seq)
            &&& front.subrange(t + 15, t + 18) == " | "@
            &&& front.subrange(t + 18, t + 58) == pad_right(msg, MESSAGE_WIDTH as nat)
        }),
{
    reveal_strlit(" | ");
    reveal_with_fuel(decimal, 4);
    assert(decimal(seq).len() <= 3);
    assert(centered(level).len() == 5);
    assert(seq_column(seq).len() == 4);
    let front = columns(time, level, seq, msg);
    let t = time.len() as int;
    assert(front.subrange(t, t + 3) =~= " | "@);
    assert(front.subrange(t + 3, t + 8) =~= centered(level));
    assert(front.subrange(t + 8, t + 11) =~= " | "@);
    assert(front.subrange(t + 11, t + 15) =~= seq_column(seq));
    assert(front.subrange(t + 15, t + 18) =~= " | "@);
    assert(front.subrange(t + 18, t + 58) =~= pad_right(msg, MESSAGE_WIDTH as nat));
}

/// Lines with different numbers differ in the column of the number.
pub proof fn law_numbers_differ(m: nat, n: nat)
    ensures
        (seq_column(m) == seq_column(n)) == (m == n),
{
    if seq_column(m) == seq_column(n) {
        let a = pad_right(decimal(m), SEQ_WIDTH as nat);
        let b = pad_right(decimal(n), SEQ_WIDTH as nat);
        assert(a =~= seq_column(m).skip(1));
        assert(b =~= seq_column(n).skip(1));
        lemma_decimal_digits(m);
        lemma_decimal_digits(n);
        if decimal(m).len() < decimal(n).len() {
            let i = decimal(m).len() as int;
            assert(a[i] == ' ' && b[i] == decimal(n)[i]);
        } else if decimal(n).len() < decimal(m).len() {
            let i = decimal(n).len() as int;
            assert(b[i] == ' ' && a[i] == decimal(m)[i]);
        }
        assert(decimal(m) =~= a.take(decimal(m).len() as int));
        assert(decimal(n) =~= b.take(decimal(n).len() as int));
        law_decimal_injective(m, n);
    }
}

/// A debug message does what logging it at level `DEBUG` does, where debugging is
/// enabled. Where it is not, nothing is written or counted, and whatever is logged
/// next is logged as if the message had never been.
pub proof fn law_debug_is_gated(
    before: LoggerState,
    after: LoggerState,
    write: Option<LogWrite>,
    msg: Seq<char>,
    kv: Seq<(Seq<char>, Seq<char>)>,
)
    ensures
        debug_logged(true, before, after, write, msg, kv) <==> (write matches Some(w) && logged(
            before,
            after,
            w,
            "DEBUG"@,
            msg,
            kv,
        )),
        debug_logged(false, before, after, write, msg, kv) <==> after == before && write is None,
        debug_logged(false, before, after, write, msg, kv) ==> forall|
            last: LoggerState,
            next: LogWrite,
            level: Seq<char>,
            text: Seq<char>,
            pairs: Seq<(Seq<char>, Seq<char>)>,
        | #[trigger]
            logged(after, last, next, level, text, pairs) == logged(
                before,
                last,
                next,
                level,
                text,
                pairs,
            ),
{
}

/// A call on a logger that changes it, or could have.
pub enum LoggerCall {
    /// A line is made.
    Log { time: Seq<char>, level: Seq<char>, msg: Seq<char>, kv: Seq<(Seq<char>, Seq<char>)> },
    /// A debug message while debugging is not enabled.
    Ignored,
    /// A line on its way to the file moves on.
    Advance { stage: WriteStage, line: Seq<char>, ok: bool },
}

impl LoggerCall {
    /// The line that the call makes where its number is `seq`.
    pub open spec fn line(self, seq: nat) -> Seq<char> {
        match self {
            LoggerCall::Log { time, level, msg, kv } => log_line(time, level, seq, msg, kv),
            _ => seq![],
        }
    }

    /// The logger after the call.
    pub open spec fn applied(self, state: LoggerState) -> LoggerState {
        match self {
            LoggerCall::Log { .. } => state.numbered(),
            LoggerCall::Ignored => state,
            LoggerCall::Advance { stage, line, ok } => state.counted(stage, line, ok),
        }
    }
}

/// The logger after some calls.
pub open spec fn replayed(state: LoggerState, calls: Seq<LoggerCall>) -> LoggerState
    decreases calls.len(),
{
    if calls.len() == 0 {
        state
    } else {
        calls.last().applied(replayed(state, calls.drop_last()))
    }
}

/// Those of some calls that make a line.
pub open spec fn log_calls(calls: Seq<LoggerCall>) -> Seq<LoggerCall>
    decreases calls.len(),
{
    if calls.len() == 0 {
        seq![]
    } else if calls.last() is Log {
        log_calls(calls.drop_last()).push(calls.last())
    } else {
        log_calls(calls.drop_last())
    }
}

/// The lines that some calls make.
pub open spec fn lines_made(state: LoggerState, calls: Seq<LoggerCall>) -> Seq<Seq<char>>
    decreases calls.len(),
{
    if calls.len() == 0 {
        seq![]
    } else {
        let before = replayed(state, calls.drop_last());
        let lines = lines_made(state, calls.drop_last());
        if calls.last() is Log {
            lines.push(calls.last().line((before.seq + 1) as nat))
        } else {
            lines
        }
    }
}

/// Lines are numbered one after the other, whatever happens in between: ignored
/// debug messages, writes and rotations, and their failures, take no number.
pub proof fn law_lines_are_numbered(state: LoggerState, calls: Seq<LoggerCall>)
    requires
        state.seq + log_calls(calls).len() <= u64::MAX,
    ensures
        replayed(state, calls).seq == state.seq + log_calls(calls).len(),
        lines_made(state, calls).len() == log_calls(calls).len(),
        forall|k: int|
            0 <= k < log_calls(calls).len() ==> #[trigger] lines_made(state, calls)[k] == log_calls(
                calls,
            )[k].line((state.seq + k + 1) as nat),
    decreases calls.len(),
{
    if calls.len() > 0 {
        law_lines_are_numbered(state, calls.drop_last());
        let lines = lines_made(state, calls.drop_last());
        assert forall|k: int| 0 <= k < log_calls(calls).len() implies #[trigger] lines_made(
            state,
            calls,
        )[k] == log_calls(calls)[k].line((state.seq + k + 1) as nat) by {
            if k < lines.len() {
                assert(lines_made(state, calls)[k] == lines[k]);
            }
        }
    }
}

/// The lines of a new logger are numbered from 1.
pub proof fn law_first_line_is_number_one(
    path: Seq<u8>,
    max_kb: u64,
    keep: u32,
    existing: Option<u64>,
    calls: Seq<LoggerCall>,
)
    requires
        log_calls(calls).len() <= u64::MAX,
    ensures
        ({
            let lines = lines_made(LoggerState::fresh(path, max_kb, keep, existing), calls);
            &&& lines.len() == log_calls(calls).len()
            &&& forall|k: int|
                0 <= k < lines.len() ==> #[trigger] lines[k] == log_calls(calls)[k].line(
                    (k + 1) as nat,
                )
        }),
{
    law_lines_are_numbered(LoggerState::fresh(path, max_kb, keep, existing), calls);
}

/// A level of five characters or more stands as it is. A shorter one stands in the
/// middle of five, with spaces around it and the odd one on the right.
pub proof fn law_level_is_centered(level: Seq<char>)
    ensures
        level.len() >= 5 ==> centered(level) == level,
        level.len() < 5 ==> ({
            let at = (5 - level.len()) / 2;
            &&& centered(level).len() == 5
            &&& centered(level).subrange(at, at + level.len()) == level
            &&& forall|i: int|
                0 <= i < at || at + level.len() <= i < 5 ==> #[trigger] centered(level)[i] == ' '
        }),
{
    if level.len() < 5 {
        let at = (5 - level.len()) / 2;
        assert(centered(level).subrange(at, at + level.len()) =~= level);
    }
}

/// A line is the time, the level, `#` and the number in three places, the message
/// in forty, and the pairs where there are any, with ` | ` between each two of them
/// and a line end. How long any of them is makes no difference to the others.
pub proof fn law_line_has_all_columns(
    time: Seq<char>,
    level: Seq<char>,
    seq: nat,
    msg: Seq<char>,
    kv: Seq<(Seq<char>, Seq<char>)>,
)
    ensures
        ({
            let bar = seq![' ', '|', ' '];
            let front = time + bar + centered(level) + bar + seq!['#'] + pad_right(decimal(seq), 3)
                + bar + pad_right(msg, 40);
            log_line(time, level, seq, msg, kv) == if kv.len() == 0 {
                front + seq!['\n']
            } else {
                front + bar + pairs_text(kv) + seq!['\n']
            }
        }),
{
    reveal_strlit(" | ");
    let bar = seq![' ', '|', ' '];
    assert(" | "@ =~= bar);
    let front = time + bar + centered(level) + bar + seq!['#'] + pad_right(decimal(seq), 3) + bar
        + pad_right(msg, 40);
    assert(columns(time, level, seq, msg) =~= front);
    assert(log_line(time, level, seq, msg, kv) =~= if kv.len() == 0 {
        front + seq!['\n']
    } else {
        front + bar + pairs_text(kv) + seq!['\n']
    });
}

/// Pairs are the end of the line, behind ` | `, whatever stands before them; and
/// reading that column gives them back. (As with pairs by themselves, no key may
/// hold an `=`.)
pub proof fn law_pairs_end_the_line(
    time: Seq<char>,
    level: Seq<char>,
    seq: nat,
    msg: Seq<char>,
    kv: Seq<(Seq<char>, Seq<char>)>,
)
    requires
        kv.len() > 0,
    ensures
        ({
            let line = log_line(time, level, seq, msg, kv);
            let end = line.len() - 1;
            let start = end - pairs_text(kv).len();
            &&& 3 <= start <= end
            &&& line.last() == '\n'
            &&& line.subrange(start - 3, start) == seq![' ', '|', ' ']
            &&& line.subrange(start, end) == pairs_text(kv)
            &&& (forall|i: int| 0 <= i < kv.len() ==> !(#[trigger] kv[i]).0.contains('='))
                ==> read_pairs(line.subrange(start, end)) == kv
        }),
{
    let line = log_line(time, level, seq, msg, kv);
    let end = line.len() - 1;
    let start = end - pairs_text(kv).len();
    law_line_has_all_columns(time, level, seq, msg, kv);
    assert(line.subrange(start - 3, start) =~= seq![' ', '|', ' ']);
    assert(line.subrange(start, end) =~= pairs_text(kv));
    if forall|i: int| 0 <= i < kv.len() ==> !(#[trigger] kv[i]).0.contains('=') {
        law_pairs_read_back(kv);
    }
}

/// A new logger has the limit of `max_kb` kibibytes, as far as a size goes, keeps
/// the rotated files it was told to and one at least, and counts what is in the
/// file already.
pub proof fn law_new_logger(path: Seq<u8>, max_kb: u64, keep: u32, existing: Option<u64>)
    ensures
        ({
            let state = LoggerState::fresh(path, max_kb, keep, existing);
            &&& state.path == path
            &&& max_kb * 1024 <= u64::MAX ==> state.max_bytes == max_kb * 1024
            &&& max_kb * 1024 > u64::MAX ==> state.max_bytes == u64::MAX
            &&& keep >= 1 ==> state.keep == keep
            &&& keep == 0 ==> state.keep == 1
            &&& existing matches Some(n) ==> state.bytes_written == n
            &&& existing is None ==> state.bytes_written == 0
            &&& state.seq == 0
        }),
{
}

/// The first line of a new logger is appended without rotation exactly while the
/// file that is there has at most `max_kb` kibibytes.
pub proof fn law_first_line_is_appended(
    path: Seq<u8>,
    max_kb: u64,
    keep: u32,
    existing: u64,
)
    ensures
        ({
            let state = LoggerState::fresh(path, max_kb, keep, Some(existing));
            &&& state.first_stage() is Append <==> existing <= max_kb * 1024
            &&& state.first_stage() is DropOldest <==> existing > max_kb * 1024
            &&& LoggerState::fresh(path, max_kb, keep, None).first_stage() is Append
        }),
{
}

/// A line is preceded by a rotation exactly when the log exceeds its limit.
pub proof fn law_rotation_is_due(state: LoggerState)
    ensures
        state.first_stage() is DropOldest <==> state.bytes_written > state.max_bytes,
        state.first_stage() is Append <==> state.bytes_written <= state.max_bytes,
{
}

/// A line goes to the log file, byte for byte, and a log file that is created for
/// it is for its owner alone.
pub proof fn law_line_goes_to_the_log_file(state: LoggerState, line: Seq<char>)
    ensures
        state.asks(WriteStage::Append, line) == Some(
            FileOp::Append { path: state.path, data: encode_utf8(line), mode: 0o600 },
        ),
{
}

/// A line that is made takes the next number and changes nothing else. It has the
/// level, the message and the pairs that were given, that number, and a time; and
/// it begins with a rotation exactly when the log exceeds its limit.
pub proof fn law_logged_line(
    before: LoggerState,
    after: LoggerState,
    write: LogWrite,
    level: Seq<char>,
    msg: Seq<char>,
    kv: Seq<(Seq<char>, Seq<char>)>,
)
    requires
        before.seq < u64::MAX,
        logged(before, after, write, level, msg, kv),
    ensures
        after.seq == before.seq + 1,
        after.path == before.path,
        after.max_bytes == before.max_bytes,
        after.keep == before.keep,
        after.bytes_written == before.bytes_written,
        write.stage is DropOldest <==> before.bytes_written > before.max_bytes,
        write.stage is Append <==> before.bytes_written <= before.max_bytes,
        exists|time: Seq<char>| #[trigger]
            is_timestamp(time) && write.line@ == log_line(
                time,
                level,
                before.seq as nat + 1,
                msg,
                kv,
            ),
{
}

/// An operation shows its own paths, data and permissions.
pub proof fn law_action_shows_its_fields(action: FileAction)
    ensures
        action matches FileAction::RemoveIfExists { path } ==> action@ == (FileOp::RemoveIfExists {
            path: path@,
        }),
        action matches FileAction::RenameIfExists { from, to } ==> action@
            == (FileOp::RenameIfExists { from: from@, to: to@ }),
        action matches FileAction::Rename { from, to } ==> action@ == (FileOp::Rename {
            from: from@,
            to: to@,
        }),
        action matches FileAction::Append { path, data, mode } ==> action@ == (FileOp::Append {
            path: path@,
            data: data@,
            mode,
        }),
{
}

} // verus!
