//! The log file and its archives: when it is rotated, and how.

use vstd::prelude::*;

use crate::chars::{chars_of, decimal, decimal_text};
use crate::timestamp::{
    format_timestamp, timestamp_text, Timestamp, DEFAULT_TIMESTAMP_FORMAT,
};

verus! {

pub const LOG_DIRECTORY: &'static str = "logs";

pub const LOG_FILE: &'static str = "escom.log";

pub const MAX_LOG_BYTES: u64 = 2_097_152;

pub const LOG_ARCHIVES: usize = 3;

/// How much the log file holds, and how much it may hold.
#[derive(Debug)]
pub struct RollingLog {
    bytes_written: u64,
    max_bytes: u64,
}

pub open spec fn saturated_sum(a: u64, b: u64) -> u64 {
    if a + b > u64::MAX {
        u64::MAX
    } else {
        (a + b) as u64
    }
}

impl RollingLog {
    pub closed spec fn written(self) -> u64 {
        self.bytes_written
    }

    pub closed spec fn limit(self) -> u64 {
        self.max_bytes
    }

    /// A file that holds something and would hold too much is rotated first.
    pub open spec fn must_rotate(self, count: u64) -> bool {
        self.written() != 0 && saturated_sum(self.written(), count) > self.limit()
    }

    pub fn new(bytes_written: u64, max_bytes: u64) -> (log: Self)
        ensures
            log.written() == bytes_written,
            log.limit() == max_bytes,
    {
        RollingLog { bytes_written, max_bytes }
    }

    /// Whether the file has to be rotated before a record is written.
    pub fn rotates_before(&self, count: u64) -> (rotate: bool)
        ensures
            rotate == self.must_rotate(count),
    {
        self.bytes_written != 0 && self.bytes_written.saturating_add(count) > self.max_bytes
    }

    /// The file was rotated, and is empty.
    pub fn rotated(&mut self)
        ensures
            final(self).written() == 0,
            final(self).limit() == old(self).limit(),
    {
        self.bytes_written = 0;
    }

    /// A record was written.
    pub fn record_written(&mut self, count: u64)
        ensures
            final(self).written() == saturated_sum(old(self).written(), count),
            final(self).limit() == old(self).limit(),
    {
        self.bytes_written = self.bytes_written.saturating_add(count);
    }
}

/// A word and spaces after it, as many characters as a level of the log may have.
pub open spec fn padded_level(level: Seq<char>) -> Seq<char> {
    if level.len() < 5 {
        level + Seq::new((5 - level.len()) as nat, |i: int| ' ')
    } else {
        level
    }
}

/// The line of a record: when, how serious, in which thread and where it happened, and what.
pub fn log_line(
    at: Timestamp,
    level: &str,
    thread: &str,
    target: &str,
    message: &str,
) -> (line: String)
    ensures
        line@ == timestamp_text(at, DEFAULT_TIMESTAMP_FORMAT@) + " "@ + padded_level(level@)
            + " ["@ + thread@ + "] "@ + target@ + " - "@ + message@ + "\n"@,
{
    let mut line = format_timestamp(at, DEFAULT_TIMESTAMP_FORMAT);
    line.append(" ");
    line.append(level);
    let ghost start = line@;
    let mut width: usize = chars_of(level).len();
    while width < 5
        invariant
            level@.len() <= width,
            width <= 5 || width == level@.len(),
            line@ == start + Seq::new((width - level@.len()) as nat, |i: int| ' '),
        decreases 5 - width,
    {
        line.push(' ');
        width += 1;
        assert(line@ =~= start + Seq::new((width - level@.len()) as nat, |i: int| ' '));
    }
    assert(line@ =~= timestamp_text(at, DEFAULT_TIMESTAMP_FORMAT@) + " "@ + padded_level(level@));
    line.append(" [");
    line.append(thread);
    line.append("] ");
    line.append(target);
    line.append(" - ");
    line.append(message);
    line.append("\n");
    line
}

/// The name of an archive.
pub fn archive_path(file_name: &str, index: usize) -> (name: String)
    ensures
        name@ == file_name@ + "."@ + decimal_text(index as nat),
{
    let mut name = file_name.to_owned();
    name.append(".");
    name.append(decimal(index as u64).as_str());
    name
}

/// What is done with the files. The log file has the number zero, its archives the others.
#[derive(Debug, Clone, Copy, PartialEq, Eq, Structural)]
pub enum LogOp {
    /// Removes a file if it is there.
    Remove(usize),
    /// Gives a file the next number.
    MoveUp(usize),
}

/// Moves the archives up to `index`, beginning with the oldest.
pub open spec fn move_steps(index: nat, exists: Seq<bool>) -> Seq<LogOp>
    decreases index,
{
    if index == 0 {
        Seq::empty()
    } else {
        (if exists[index as int] {
            seq![LogOp::Remove((index + 1) as usize), LogOp::MoveUp(index as usize)]
        } else {
            Seq::empty()
        }) + move_steps((index - 1) as nat, exists)
    }
}

/// All that is done to rotate.
pub open spec fn rotation_steps(archives: nat, exists: Seq<bool>) -> Seq<LogOp> {
    if archives == 0 {
        seq![LogOp::Remove(0)]
    } else {
        seq![LogOp::Remove(archives as usize)] + move_steps((archives - 1) as nat, exists) + (
        if exists[0] {
            seq![LogOp::MoveUp(0)]
        } else {
            Seq::empty()
        })
    }
}

/// Plans a rotation. `exists` tells of each file, by its number, whether it is there.
pub fn rotation_plan(archives: usize, exists: &Vec<bool>) -> (plan: Vec<LogOp>)
    requires
        exists@.len() == archives + 1,
    ensures
        plan@ == rotation_steps(archives as nat, exists@),
{
    let mut plan: Vec<LogOp> = Vec::new();
    if archives == 0 {
        plan.push(LogOp::Remove(0));
        assert(plan@ =~= rotation_steps(0, exists@));
        return plan;
    }
    plan.push(LogOp::Remove(archives));
    let ghost first = plan@;
    let mut index: usize = archives - 1;
    assert(plan@ + move_steps(index as nat, exists@) =~= first + move_steps(
        (archives - 1) as nat,
        exists@,
    ));
    while index > 0
        invariant
            index < archives,
            exists@.len() == archives + 1,
            plan@ + move_steps(index as nat, exists@) == first + move_steps(
                (archives - 1) as nat,
                exists@,
            ),
        decreases index,
    {
        let ghost before = plan@;
        if exists[index] {
            plan.push(LogOp::Remove(index + 1));
            plan.push(LogOp::MoveUp(index));
        }
        assert(plan@ + move_steps((index - 1) as nat, exists@) =~= before + move_steps(
            index as nat,
            exists@,
        ));
        index -= 1;
    }
    assert(plan@ =~= first + move_steps((archives - 1) as nat, exists@));
    if exists[0] {
        plan.push(LogOp::MoveUp(0));
    }
    assert(first =~= seq![LogOp::Remove(archives)]);
    assert(plan@ =~= rotation_steps(archives as nat, exists@));
    plan
}

/// The files after an operation.
pub open spec fn after_log_op(files: Seq<Option<Seq<u8>>>, op: LogOp) -> Seq<Option<Seq<u8>>> {
    match op {
        LogOp::Remove(index) => files.update(index as int, None),
        LogOp::MoveUp(index) => files.update(index + 1, files[index as int]).update(
            index as int,
            None,
        ),
    }
}

pub open spec fn after_log_ops(files: Seq<Option<Seq<u8>>>, ops: Seq<LogOp>) -> Seq<
    Option<Seq<u8>>,
>
    decreases ops.len(),
{
    if ops.len() == 0 {
        files
    } else {
        after_log_ops(after_log_op(files, ops[0]), ops.skip(1))
    }
}

pub open spec fn which_exist(files: Seq<Option<Seq<u8>>>) -> Seq<bool> {
    Seq::new(files.len(), |i: int| files[i] is Some)
}

proof fn log_ops_concat(files: Seq<Option<Seq<u8>>>, a: Seq<LogOp>, b: Seq<LogOp>)
    ensures
        after_log_ops(files, a + b) == after_log_ops(after_log_ops(files, a), b),
    decreases a.len(),
{
    if a.len() == 0 {
        assert(a + b =~= b);
    } else {
        assert((a + b).skip(1) =~= a.skip(1) + b);
        log_ops_concat(after_log_op(files, a[0]), a.skip(1), b);
    }
}

proof fn moved_up(files: Seq<Option<Seq<u8>>>, all: Seq<Option<Seq<u8>>>, index: nat)
    requires
        index + 1 < files.len() <= usize::MAX,
        files.len() == all.len(),
        files[index as int + 1] is None,
        forall|i: int| 0 <= i <= index ==> #[trigger] files[i] == all[i],
    ensures
        ({
            let after = after_log_ops(files, move_steps(index, which_exist(all)));
            &&& after.len() == files.len()
            &&& after[0] == all[0]
            &&& after[1] is None
            &&& forall|i: int| 2 <= i <= index + 1 ==> #[trigger] after[i] == all[i - 1]
            &&& forall|i: int| index + 1 < i < files.len() ==> #[trigger] after[i] == files[i]
        }),
    decreases index,
{
    let exists = which_exist(all);
    if index > 0 {
        let rest = move_steps((index - 1) as nat, exists);
        if exists[index as int] {
            let two = seq![LogOp::Remove((index + 1) as usize), LogOp::MoveUp(index as usize)];
            log_ops_concat(files, two, rest);
            let one = after_log_op(files, two[0]);
            let next = after_log_op(one, two[1]);
            assert(two.skip(1) =~= seq![two[1]]);
            assert(two.skip(1).skip(1) =~= Seq::<LogOp>::empty());
            assert(after_log_ops(one, two.skip(1)) == after_log_ops(next, two.skip(1).skip(1)));
            assert(after_log_ops(files, two) == next);
            moved_up(next, all, (index - 1) as nat);
        } else {
            assert(Seq::<LogOp>::empty() + rest =~= rest);
            moved_up(files, all, (index - 1) as nat);
        }
    }
}

/// Rotation gives every file the next number, drops the oldest archive, and leaves no log file,
/// so that there are never more archives than were asked for.
pub proof fn rotation_moves_every_file_up(files: Seq<Option<Seq<u8>>>)
    requires
        0 < files.len() <= usize::MAX,
    ensures
        ({
            let archives = (files.len() - 1) as nat;
            let after = after_log_ops(files, rotation_steps(archives, which_exist(files)));
            &&& after.len() == files.len()
            &&& after[0] is None
            &&& forall|i: int| 1 <= i < files.len() ==> #[trigger] after[i] == files[i - 1]
        }),
{
    let archives = (files.len() - 1) as nat;
    let exists = which_exist(files);
    if archives == 0 {
        let one = seq![LogOp::Remove(0)];
        assert(one.skip(1) =~= Seq::<LogOp>::empty());
        assert(after_log_ops(after_log_op(files, one[0]), one.skip(1)) == after_log_op(
            files,
            one[0],
        ));
    } else {
        let first = seq![LogOp::Remove(archives as usize)];
        let middle = move_steps((archives - 1) as nat, exists);
        let last = if exists[0] {
            seq![LogOp::MoveUp(0)]
        } else {
            Seq::empty()
        };
        log_ops_concat(files, first + middle, last);
        log_ops_concat(files, first, middle);
        assert(first.skip(1) =~= Seq::<LogOp>::empty());
        let a = after_log_op(files, first[0]);
        assert(after_log_ops(a, first.skip(1)) == a);
        moved_up(a, files, (archives - 1) as nat);
        let b = after_log_ops(a, middle);
        if exists[0] {
            assert(last.skip(1) =~= Seq::<LogOp>::empty());
            let c = after_log_op(b, last[0]);
            assert(after_log_ops(c, last.skip(1)) == c);
        }
    }
}

/// A log is rotated before a line that would make it longer than it may be, unless it is empty.
pub proof fn logs_are_rotated_before_they_are_too_long(log: RollingLog, count: u64)
    requires
        log.written() + count <= u64::MAX,
    ensures
        log.must_rotate(count) <==> log.written() > 0 && log.written() + count > log.limit(),
        saturated_sum(log.written(), count) == log.written() + count,
{
}

/// A log has two mebibytes, and three older ones are kept. The name of a level takes five
/// characters at least.
pub proof fn the_size_of_logs(level: Seq<char>)
    ensures
        MAX_LOG_BYTES == 2 * 1024 * 1024,
        LOG_ARCHIVES == 3,
        padded_level(level).len() == if level.len() < 5 {
            5
        } else {
            level.len() as int
        },
        forall|i: int|
            0 <= i < padded_level(level).len() ==> #[trigger] padded_level(level)[i] == if i
                < level.len() {
                level[i]
            } else {
                ' '
            },
{
}

} // verus!
