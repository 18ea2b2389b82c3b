//! What rotation does to the files: where rotated files stand, and how a line
//! changes the files and the logger's counters as it is written.

use vstd::prelude::*;
use vstd::utf8::*;

use crate::logger::{FileOp, LoggerState, WriteStage, rotated, rotated_name};
use crate::path::{
    SLASH, file_name_of, is_file_name, law_directory_of_joined_path, law_file_name_is_file_name,
    law_name_of_joined_path, law_sibling_has_name, law_sibling_shares_directory, parent_of,
};
use crate::text::{decimal, law_decimal_injective, lemma_decimal_digits};

verus! {

/// The leading byte of an ASCII character is the character.
proof fn lemma_ascii_byte(v: u32)
    by (bit_vector)
    requires
        v <= 0x7f,
    ensures
        leading_byte_width_1(v) == v,
{
}

/// The encoding of ASCII characters other than the slash holds no slash, and has
/// a byte for each of them.
proof fn lemma_encode_without_slash(cs: Seq<char>)
    requires
        forall|i: int| 0 <= i < cs.len() ==> (#[trigger] cs[i] as u32) <= 0x7f && cs[i] != '/',
    ensures
        !encode_utf8(cs).contains(SLASH),
        encode_utf8(cs).len() == cs.len(),
    decreases cs.len(),
{
    if cs.len() > 0 {
        let rest = cs.drop_first();
        assert forall|i: int| 0 <= i < rest.len() implies (#[trigger] rest[i] as u32) <= 0x7f
            && rest[i] != '/' by {
            assert(rest[i] == cs[i + 1]);
        }
        lemma_encode_without_slash(rest);
        let v = cs[0] as u32;
        lemma_ascii_byte(v);
        assert(v != 0x2f) by {
            char_u32_cast(cs[0], v);
            char_u32_cast('/', 0x2f);
        }
        assert(encode_scalar(v) =~= seq![v as u8]);
        assert(encode_utf8(cs) =~= seq![v as u8] + encode_utf8(rest));
        assert forall|i: int| 0 <= i < encode_utf8(cs).len() implies encode_utf8(cs)[i]
            != SLASH by {
            if i == 0 {
                assert(encode_utf8(cs)[i] == v as u8);
            } else {
                assert(encode_utf8(cs)[i] == encode_utf8(rest)[i - 1]);
                assert(encode_utf8(rest).contains(encode_utf8(rest)[i - 1]));
            }
        }
    }
}

/// The name of a rotated file can stand for a file, and is longer than that of
/// the log file.
proof fn lemma_rotated_name(path: Seq<u8>, n: nat)
    ensures
        is_file_name(rotated_name(path, n)),
        file_name_of(path) matches Some(name) ==> rotated_name(path, n).len() > name.len(),
{
    let base = match file_name_of(path) {
        Some(name) => name,
        None => encode_utf8("rsc.log"@),
    };
    let suffix = seq!['.'] + decimal(n);
    lemma_decimal_digits(n);
    lemma_encode_without_slash(suffix);
    law_file_name_is_file_name(path);
    reveal_strlit("rsc.log");
    lemma_encode_without_slash("rsc.log"@);
    let name = rotated_name(path, n);
    assert(name == base + encode_utf8(suffix));
    assert(name.len() >= 3);
    assert forall|i: int| 0 <= i < name.len() implies name[i] != SLASH by {
        if i < base.len() {
            assert(base.contains(base[i]));
        } else {
            assert(encode_utf8(suffix).contains(encode_utf8(suffix)[i - base.len()]));
        }
    }
}

/// A rotated file is never the log file itself.
pub proof fn law_rotated_is_not_active(path: Seq<u8>, n: nat)
    ensures
        rotated(path, n) != path,
{
    lemma_rotated_name(path, n);
    law_sibling_has_name(path, rotated_name(path, n));
}

/// Rotated files with different numbers are different files.
pub proof fn law_rotated_paths_differ(path: Seq<u8>, m: nat, n: nat)
    ensures
        (rotated(path, m) == rotated(path, n)) == (m == n),
{
    if rotated(path, m) == rotated(path, n) {
        lemma_rotated_name(path, m);
        lemma_rotated_name(path, n);
        law_sibling_has_name(path, rotated_name(path, m));
        law_sibling_has_name(path, rotated_name(path, n));
        let base = match file_name_of(path) {
            Some(name) => name,
            None => encode_utf8("rsc.log"@),
        };
        let a = seq!['.'] + decimal(m);
        let b = seq!['.'] + decimal(n);
        assert(encode_utf8(a) =~= rotated_name(path, m).skip(base.len() as int));
        assert(encode_utf8(b) =~= rotated_name(path, n).skip(base.len() as int));
        encode_utf8_decode_utf8(a);
        encode_utf8_decode_utf8(b);
        assert(decimal(m) =~= a.skip(1));
        assert(decimal(n) =~= b.skip(1));
        law_decimal_injective(m, n);
    }
}

/// A rotated file stands in the directory of the log file, under the log file's
/// name with a dot and a number behind it.
pub proof fn law_rotated_stands_beside_active(path: Seq<u8>, n: nat)
    requires
        file_name_of(path) is Some,
    ensures
        parent_of(rotated(path, n)) == parent_of(path),
        file_name_of(rotated(path, n)) == Some(
            file_name_of(path)->0 + encode_utf8(seq!['.'] + decimal(n)),
        ),
{
    lemma_rotated_name(path, n);
    law_sibling_has_name(path, rotated_name(path, n));
    law_sibling_shares_directory(path, rotated_name(path, n));
}

/// Files: what stands at each path.
pub type Files = Map<Seq<u8>, Seq<u8>>;

/// What the file at `path` holds; none where there is no file.
pub open spec fn content(files: Files, path: Seq<u8>) -> Option<Seq<u8>> {
    if files.contains_key(path) {
        Some(files[path])
    } else {
        None
    }
}

/// The size of the file at `path`; 0 where there is no file.
pub open spec fn size(files: Files, path: Seq<u8>) -> nat {
    match content(files, path) {
        Some(data) => data.len(),
        None => 0,
    }
}

/// The files once the file `from` has been renamed to `to`, in place of a file
/// that may have stood there.
pub open spec fn renamed(files: Files, from: Seq<u8>, to: Seq<u8>) -> Files {
    match content(files, from) {
        Some(data) => files.remove(from).insert(to, data),
        None => files,
    }
}

/// The files once an operation has been carried out.
pub open spec fn performed(files: Files, op: FileOp) -> Files {
    match op {
        FileOp::RemoveIfExists { path } => files.remove(path),
        FileOp::RenameIfExists { from, to } => renamed(files, from, to),
        FileOp::Rename { from, to } => renamed(files, from, to),
        FileOp::Append { path, data, .. } => files.insert(
            path,
            match content(files, path) {
                Some(before) => before + data,
                None => data,
            },
        ),
    }
}

/// Whether an operation goes well where nothing but a missing file can stop it.
pub open spec fn succeeds(files: Files, op: FileOp) -> bool {
    match op {
        FileOp::Rename { from, .. } => files.contains_key(from),
        _ => true,
    }
}

/// How many operations a line still needs at most.
pub open spec fn steps_left(state: LoggerState, stage: WriteStage) -> nat {
    match stage {
        WriteStage::DropOldest => (state.keep + 3) as nat,
        WriteStage::Shift { n } => (n + 3) as nat,
        WriteStage::Move => 2,
        WriteStage::Append => 1,
        WriteStage::Done => 0,
    }
}

/// The files and the logger once a line has been dealt with from `stage` on, where
/// nothing but a missing file stops an operation.
pub open spec fn written(
    files: Files,
    state: LoggerState,
    stage: WriteStage,
    line: Seq<char>,
) -> (Files, LoggerState)
    decreases steps_left(state, stage),
{
    match state.asks(stage, line) {
        Some(op) => written(
            performed(files, op),
            state.counted(stage, line, succeeds(files, op)),
            state.next_stage(stage),
            line,
        ),
        None => (files, state),
    }
}

/// The logger once a line has been dealt with from `stage` on. `outcomes` tells
/// which of the operations went well.
pub open spec fn tallied(
    state: LoggerState,
    stage: WriteStage,
    line: Seq<char>,
    outcomes: Seq<bool>,
) -> LoggerState
    decreases steps_left(state, stage),
{
    if stage is Done {
        state
    } else {
        tallied(
            state.counted(stage, line, outcomes[0]),
            state.next_stage(stage),
            line,
            outcomes.drop_first(),
        )
    }
}

/// The log file, and behind it the rotated files by their age.
pub open spec fn slot(path: Seq<u8>, n: nat) -> Seq<u8> {
    if n == 0 {
        path
    } else {
        rotated(path, n)
    }
}

/// The size of a log file of `before` bytes to which `line` is appended. It wraps
/// at the end of its range.
pub open spec fn grown(before: int, line: Seq<char>) -> u64 {
    ((before + encode_utf8(line).len()) % 0x1_0000_0000_0000_0000) as u64
}

proof fn lemma_slots_differ(path: Seq<u8>, m: nat, n: nat)
    ensures
        (slot(path, m) == slot(path, n)) == (m == n),
{
    law_rotated_is_not_active(path, m);
    law_rotated_is_not_active(path, n);
    law_rotated_paths_differ(path, m, n);
}

/// The stage at which the file in slot `n` is renamed.
spec fn shift_stage(n: u32) -> WriteStage {
    if n == 0 {
        WriteStage::Move
    } else {
        WriteStage::Shift { n }
    }
}

proof fn lemma_shift(files: Files, state: LoggerState, n: u32, line: Seq<char>)
    requires
        content(files, slot(state.path, (n + 1) as nat)) is None,
    ensures
        ({
            let (after, end) = written(files, state, shift_stage(n), line);
            &&& content(after, state.path) == Some(encode_utf8(line))
            &&& forall|k: nat|
                k <= n ==> content(after, #[trigger] slot(state.path, k + 1)) == content(
                    files,
                    slot(state.path, k),
                )
            &&& forall|p: Seq<u8>|
                (forall|k: nat| k <= n + 1 ==> p != #[trigger] slot(state.path, k)) ==> content(
                    after,
                    p,
                ) == #[trigger] content(files, p)
            &&& end == (LoggerState {
                bytes_written: grown(
                    if files.contains_key(state.path) {
                        0
                    } else {
                        state.bytes_written as int
                    },
                    line,
                ),
                ..state
            })
        }),
    decreases n,
{
    let path = state.path;
    let stage = shift_stage(n);
    let from = slot(path, n as nat);
    let to = slot(path, (n + 1) as nat);
    let moved = renamed(files, from, to);
    let next = state.counted(stage, line, files.contains_key(path));
    let (after, end) = written(files, state, stage, line);
    assert forall|a: nat, b: nat| #[trigger] slot(path, a) == #[trigger] slot(path, b) implies a
        == b by {
        lemma_slots_differ(path, a, b);
    }
    assert(slot(path, 0) == path);
    assert(from != to);
    assert(content(moved, from) is None);
    assert(content(moved, to) == content(files, from));
    if n == 0 {
        let op = state.asks(stage, line)->0;
        assert(performed(files, op) == moved);
        let op2 = next.asks(WriteStage::Append, line)->0;
        let last = performed(moved, op2);
        let done = next.counted(WriteStage::Append, line, true);
        assert(written(last, done, WriteStage::Done, line) == (last, done));
        assert(written(moved, next, WriteStage::Append, line) == (last, done));
        assert((after, end) == (last, done));
        assert(content(last, path) == Some(encode_utf8(line)));
    } else {
        let below = (n - 1) as u32;
        assert(written(moved, state, shift_stage(below), line) == (after, end));
        lemma_shift(moved, state, below, line);
        assert forall|k: nat| k <= n implies content(after, #[trigger] slot(path, k + 1))
            == content(files, slot(path, k)) by {
            if k == n {
                assert forall|j: nat| j <= below + 1 implies to != #[trigger] slot(path, j) by {}
                assert(content(after, to) == content(moved, to));
            } else {
                assert(slot(path, k) != from && slot(path, k) != to);
                assert(content(moved, slot(path, k)) == content(files, slot(path, k)));
            }
        }
        assert forall|p: Seq<u8>|
            (forall|k: nat| k <= n + 1 ==> p != #[trigger] slot(path, k)) implies content(after, p)
            == #[trigger] content(files, p) by {
            assert(p != from && p != to);
            assert(content(moved, p) == content(files, p));
        }
    }
}

/// A line that finds the log file above its limit starts a new one. The old one
/// becomes rotated file 1, each rotated file moves up by one, and the oldest is
/// dropped.
/// No other file changes, and the size counts the new line alone. (Where the log
/// file has vanished, there is nothing to move and the size is not started again.)
pub proof fn law_rotation(files: Files, state: LoggerState, line: Seq<char>)
    requires
        state.keep >= 1,
        state.bytes_written > state.max_bytes,
    ensures
        ({
            let (after, end) = written(files, state, state.first_stage(), line);
            &&& content(after, state.path) == Some(encode_utf8(line))
            &&& forall|k: nat|
                k < state.keep ==> content(after, #[trigger] slot(state.path, k + 1)) == content(
                    files,
                    slot(state.path, k),
                )
            &&& forall|p: Seq<u8>|
                (forall|k: nat| k <= state.keep ==> p != #[trigger] slot(state.path, k))
                    ==> content(after, p) == #[trigger] content(files, p)
            &&& end == (LoggerState {
                bytes_written: grown(
                    if files.contains_key(state.path) {
                        0
                    } else {
                        state.bytes_written as int
                    },
                    line,
                ),
                ..state
            })
        }),
{
    let path = state.path;
    let oldest = slot(path, state.keep as nat);
    let kept = files.remove(oldest);
    let n = (state.keep - 1) as u32;
    let (after, end) = written(files, state, state.first_stage(), line);
    assert forall|a: nat, b: nat| #[trigger] slot(path, a) == #[trigger] slot(path, b) implies a
        == b by {
        lemma_slots_differ(path, a, b);
    }
    assert(slot(path, 0) == path);
    assert(written(kept, state, shift_stage(n), line) == (after, end));
    lemma_shift(kept, state, n, line);
    assert forall|k: nat| k < state.keep implies content(after, #[trigger] slot(path, k + 1))
        == content(files, slot(path, k)) by {
        assert(slot(path, k) != oldest);
        assert(content(kept, slot(path, k)) == content(files, slot(path, k)));
    }
    assert forall|p: Seq<u8>|
        (forall|k: nat| k <= state.keep ==> p != #[trigger] slot(path, k)) implies content(after, p)
        == #[trigger] content(files, p) by {
        assert(p != oldest);
        assert(content(kept, p) == content(files, p));
    }
}

/// A line that finds the log file within its limit is appended to it, and nothing
/// else changes.
pub proof fn law_append(files: Files, state: LoggerState, line: Seq<char>)
    requires
        state.bytes_written <= state.max_bytes,
    ensures
        written(files, state, state.first_stage(), line) == (
            files.insert(
                state.path,
                match content(files, state.path) {
                    Some(before) => before + encode_utf8(line),
                    None => encode_utf8(line),
                },
            ),
            LoggerState { bytes_written: grown(state.bytes_written as int, line), ..state },
        ),
{
    let op = state.asks(WriteStage::Append, line)->0;
    let last = performed(files, op);
    let done = state.counted(WriteStage::Append, line, true);
    assert(written(last, done, WriteStage::Done, line) == (last, done));
}

/// The counter keeps up with the log file: as long as it is the file's size
/// before a line is written, it is the file's size afterwards, with or without
/// rotation.
pub proof fn law_counter_is_size(files: Files, state: LoggerState, line: Seq<char>)
    requires
        state.keep >= 1,
        state.bytes_written == size(files, state.path),
        state.bytes_written + encode_utf8(line).len() <= u64::MAX,
    ensures
        ({
            let (after, end) = written(files, state, state.first_stage(), line);
            end.bytes_written == size(after, end.path)
        }),
{
    if state.bytes_written > state.max_bytes {
        law_rotation(files, state, line);
    } else {
        law_append(files, state, line);
    }
}

/// The log file stays within its limit and one line: a line that finds it above
/// its limit is written to a new file.
pub proof fn law_log_is_bounded(files: Files, state: LoggerState, line: Seq<char>)
    requires
        state.keep >= 1,
        state.bytes_written == size(files, state.path),
    ensures
        ({
            let (after, end) = written(files, state, state.first_stage(), line);
            size(after, end.path) <= state.max_bytes + encode_utf8(line).len()
        }),
{
    if state.bytes_written > state.max_bytes {
        law_rotation(files, state, line);
    } else {
        law_append(files, state, line);
    }
}

proof fn lemma_tally_shift(state: LoggerState, n: u32, line: Seq<char>, outcomes: Seq<bool>)
    requires
        outcomes.len() == n + 2,
    ensures
        ({
            let base = if outcomes[n as int] {
                0
            } else {
                state.bytes_written
            };
            tallied(state, shift_stage(n), line, outcomes) == (LoggerState {
                bytes_written: if outcomes[n + 1] {
                    grown(base as int, line)
                } else {
                    base
                },
                ..state
            })
        }),
    decreases n,
{
    let rest = outcomes.drop_first();
    let next = state.counted(shift_stage(n), line, outcomes[0]);
    if n == 0 {
        let done = next.counted(WriteStage::Append, line, rest[0]);
        assert(tallied(done, WriteStage::Done, line, rest.drop_first()) == done);
        assert(tallied(next, WriteStage::Append, line, rest) == done);
        assert(tallied(state, WriteStage::Move, line, outcomes) == done);
    } else {
        let below = (n - 1) as u32;
        lemma_tally_shift(state, below, line, rest);
        assert(tallied(state, shift_stage(n), line, outcomes) == tallied(
            state,
            shift_stage(below),
            line,
            rest,
        ));
        assert(rest[below as int] == outcomes[n as int]);
        assert(rest[below + 1] == outcomes[n + 1]);
    }
}

/// Whatever goes wrong while a log is rotated, only two outcomes count: the
/// size starts again at 0 if and only if the log file was moved away, and it grows
/// by the line if and only if the line was written.
pub proof fn law_rotation_outcomes(state: LoggerState, line: Seq<char>, outcomes: Seq<bool>)
    requires
        state.keep >= 1,
        state.bytes_written > state.max_bytes,
        outcomes.len() == state.keep + 2,
    ensures
        ({
            let base = if outcomes[state.keep as int] {
                0
            } else {
                state.bytes_written
            };
            tallied(state, state.first_stage(), line, outcomes) == (LoggerState {
                bytes_written: if outcomes.last() {
                    grown(base as int, line)
                } else {
                    base
                },
                ..state
            })
        }),
{
    let rest = outcomes.drop_first();
    let n = (state.keep - 1) as u32;
    lemma_tally_shift(state, n, line, rest);
    assert(tallied(state, WriteStage::DropOldest, line, outcomes) == tallied(
        state,
        shift_stage(n),
        line,
        rest,
    ));
    assert(rest[n as int] == outcomes[state.keep as int]);
    assert(rest[n + 1] == outcomes[state.keep + 1]);
}

/// Where the log file could not be moved away, the next line tries again.
pub proof fn law_failed_rotation_is_retried(
    state: LoggerState,
    line: Seq<char>,
    outcomes: Seq<bool>,
)
    requires
        state.keep >= 1,
        state.bytes_written > state.max_bytes,
        outcomes.len() == state.keep + 2,
        !outcomes[state.keep as int],
        state.bytes_written + encode_utf8(line).len() <= u64::MAX,
    ensures
        tallied(state, state.first_stage(), line, outcomes).first_stage() is DropOldest,
{
    law_rotation_outcomes(state, line, outcomes);
}

/// Rotated file `n` of `dir/name` is `dir/name.n`, and that of a bare name is
/// `name.n`: the name as it is, a dot and the digits of the number.
pub proof fn law_rotated_path(above: Seq<u8>, last: Seq<u8>, name: Seq<u8>, n: nat)
    requires
        above.len() == 0 || above.last() == SLASH,
        is_file_name(last),
        is_file_name(name),
    ensures
        rotated(above + last + seq![SLASH] + name, n) == above + last + seq![SLASH] + (name
            + encode_utf8(seq!['.'] + decimal(n))),
        rotated(name, n) == name + encode_utf8(seq!['.'] + decimal(n)),
        rotated(seq![SLASH] + name, n) == seq![SLASH] + (name + encode_utf8(
            seq!['.'] + decimal(n),
        )),
{
    let other = name + encode_utf8(seq!['.'] + decimal(n));
    law_name_of_joined_path(above + last, name);
    law_name_of_joined_path(Seq::empty(), name);
    assert(Seq::<u8>::empty() + seq![SLASH] + name =~= seq![SLASH] + name);
    law_directory_of_joined_path(above, last, name, other);
}

/// The rotated files of a path that names no file stand in the directory that the
/// path names, under the name `rsc.log`.
pub proof fn law_rotated_path_without_name(path: Seq<u8>, n: nat)
    requires
        file_name_of(path) is None,
    ensures
        ({
            let name = encode_utf8("rsc.log"@) + encode_utf8(seq!['.'] + decimal(n));
            rotated(path, n) == if path.len() > 0 && path.last() != SLASH {
                path + seq![SLASH] + name
            } else {
                path + name
            }
        }),
{
    let name = encode_utf8("rsc.log"@) + encode_utf8(seq!['.'] + decimal(n));
    assert(path.push(SLASH) =~= path + seq![SLASH]);
}

/// Without rotation, the size grows by the line if and only if the line was
/// written.
pub proof fn law_append_outcomes(state: LoggerState, line: Seq<char>, ok: bool)
    requires
        state.bytes_written <= state.max_bytes,
        state.bytes_written + encode_utf8(line).len() <= u64::MAX,
    ensures
        tallied(state, state.first_stage(), line, seq![ok]) == (LoggerState {
            bytes_written: if ok {
                (state.bytes_written + encode_utf8(line).len()) as u64
            } else {
                state.bytes_written
            },
            ..state
        }),
{
    let done = state.counted(WriteStage::Append, line, ok);
    assert(tallied(done, WriteStage::Done, line, seq![ok].drop_first()) == done);
}

} // verus!
