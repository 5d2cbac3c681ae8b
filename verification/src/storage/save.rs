//! Saving a file so that a crash leaves the old one or the new one to read.

use vstd::prelude::*;

verus! {

#[derive(Debug, Clone, Copy, PartialEq, Eq, Structural)]
pub enum SaveOp {
    /// Writes the new content beside the file.
    WriteTemp,
    /// Removes the backup; that may fail.
    RemoveBackup,
    /// Makes the file the backup.
    MoveToBackup,
    /// Makes the new content the file.
    MoveTempIn,
    /// Makes the backup the file again.
    RestoreBackup,
}

/// The operations that save a file.
pub open spec fn save_steps(exists: bool) -> Seq<SaveOp> {
    if exists {
        seq![
            SaveOp::WriteTemp,
            SaveOp::RemoveBackup,
            SaveOp::MoveToBackup,
            SaveOp::MoveTempIn,
            SaveOp::RemoveBackup,
        ]
    } else {
        seq![SaveOp::WriteTemp, SaveOp::RemoveBackup, SaveOp::MoveTempIn, SaveOp::RemoveBackup]
    }
}

pub fn save_plan(exists: bool) -> (plan: Vec<SaveOp>)
    ensures
        plan@ == save_steps(exists),
{
    let plan = if exists {
        vec![
            SaveOp::WriteTemp,
            SaveOp::RemoveBackup,
            SaveOp::MoveToBackup,
            SaveOp::MoveTempIn,
            SaveOp::RemoveBackup,
        ]
    } else {
        vec![SaveOp::WriteTemp, SaveOp::RemoveBackup, SaveOp::MoveTempIn, SaveOp::RemoveBackup]
    };
    assert(plan@ =~= save_steps(exists));
    plan
}

/// What is done when an operation fails. A backup that cannot be removed is no failure.
pub open spec fn save_recovery(failed: SaveOp) -> Seq<SaveOp> {
    if failed == SaveOp::MoveTempIn {
        seq![SaveOp::RestoreBackup]
    } else {
        Seq::empty()
    }
}

pub fn recovery_plan(failed: SaveOp) -> (plan: Vec<SaveOp>)
    ensures
        plan@ == save_recovery(failed),
{
    let mut plan: Vec<SaveOp> = Vec::new();
    if failed == SaveOp::MoveTempIn {
        plan.push(SaveOp::RestoreBackup);
    }
    assert(plan@ =~= save_recovery(failed));
    plan
}

/// A file, its backup and the new content beside it.
pub struct SavedFiles {
    pub file: Option<Seq<u8>>,
    pub backup: Option<Seq<u8>>,
    pub temp: Option<Seq<u8>>,
}

impl SavedFiles {
    pub open spec fn after(self, op: SaveOp, content: Seq<u8>) -> SavedFiles {
        match op {
            SaveOp::WriteTemp => SavedFiles { temp: Some(content), ..self },
            SaveOp::RemoveBackup => SavedFiles { backup: None, ..self },
            SaveOp::MoveToBackup => SavedFiles { file: None, backup: self.file, ..self },
            SaveOp::MoveTempIn => SavedFiles { file: self.temp, temp: None, ..self },
            SaveOp::RestoreBackup => SavedFiles { file: self.backup, backup: None, ..self },
        }
    }

    pub open spec fn after_all(self, ops: Seq<SaveOp>, content: Seq<u8>) -> SavedFiles
        decreases ops.len(),
    {
        if ops.len() == 0 {
            self
        } else {
            self.after_all(ops.drop_last(), content).after(ops.last(), content)
        }
    }

    /// What is read when the program starts: the file, or the backup where it is missing.
    pub open spec fn readable(self) -> Option<Seq<u8>> {
        match self.file {
            Some(content) => Some(content),
            None => self.backup,
        }
    }
}

proof fn steps_one_by_one(files: SavedFiles, content: Seq<u8>)
    ensures
        ({
            let ops = save_steps(true);
            let s1 = files.after(SaveOp::WriteTemp, content);
            let s2 = s1.after(SaveOp::RemoveBackup, content);
            let s3 = s2.after(SaveOp::MoveToBackup, content);
            let s4 = s3.after(SaveOp::MoveTempIn, content);
            &&& files.after_all(ops.take(0), content) == files
            &&& files.after_all(ops.take(1), content) == s1
            &&& files.after_all(ops.take(2), content) == s2
            &&& files.after_all(ops.take(3), content) == s3
            &&& files.after_all(ops.take(4), content) == s4
            &&& files.after_all(ops.take(5), content) == s4.after(SaveOp::RemoveBackup, content)
            &&& ops.take(5) == ops
        }),
{
    let ops = save_steps(true);
    assert(ops.take(0) =~= Seq::<SaveOp>::empty());
    assert(ops.take(1).drop_last() =~= ops.take(0));
    assert(ops.take(2).drop_last() =~= ops.take(1));
    assert(ops.take(3).drop_last() =~= ops.take(2));
    assert(ops.take(4).drop_last() =~= ops.take(3));
    assert(ops.take(5).drop_last() =~= ops.take(4));
    assert(ops.take(5) =~= ops);
    assert(files.after_all(ops.take(0), content) == files);
    assert(files.after_all(ops.take(1), content) == files.after(SaveOp::WriteTemp, content));
}

/// Saving puts the new content in place of the old. Wherever it is cut short, the old content or
/// the new one can be read.
pub proof fn saving_never_loses_the_file(files: SavedFiles, content: Seq<u8>, done: int)
    requires
        files.file is Some,
        0 <= done <= save_steps(true).len(),
    ensures
        ({
            let cut = files.after_all(save_steps(true).take(done), content);
            cut.readable() == files.file || cut.readable() == Some(content)
        }),
        files.after_all(save_steps(true), content) == (SavedFiles {
            file: Some(content),
            backup: None,
            temp: None,
        }),
{
    steps_one_by_one(files, content);
}

/// When the new content cannot be put in place, the old file is there again.
pub proof fn failed_saving_keeps_the_old_file(files: SavedFiles, content: Seq<u8>)
    requires
        files.file is Some,
    ensures
        files.after_all(save_steps(true).take(3), content).after_all(
            save_recovery(SaveOp::MoveTempIn),
            content,
        ).file == files.file,
{
    steps_one_by_one(files, content);
    let cut = files.after_all(save_steps(true).take(3), content);
    let recovery = save_recovery(SaveOp::MoveTempIn);
    assert(recovery.drop_last() =~= Seq::<SaveOp>::empty());
    assert(cut.after_all(recovery.drop_last(), content) == cut);
}

/// A file that is not there yet is there after saving, with the new content and nothing beside
/// it, and is not there in part if that is cut short.
pub proof fn new_files_are_saved_whole(content: Seq<u8>, done: int)
    requires
        0 <= done <= save_steps(false).len(),
    ensures
        ({
            let none = SavedFiles { file: None, backup: None, temp: None };
            let cut = none.after_all(save_steps(false).take(done), content);
            &&& cut.file is None || cut.file == Some(content)
            &&& none.after_all(save_steps(false), content) == (SavedFiles {
                file: Some(content),
                backup: None,
                temp: None,
            })
        }),
{
    let none = SavedFiles { file: None, backup: None, temp: None };
    let steps = save_steps(false);
    reveal_with_fuel(SavedFiles::after_all, 5);
    assert(steps.take(0) == Seq::<SaveOp>::empty());
    assert(steps.take(1).drop_last() == steps.take(0));
    assert(steps.take(2).drop_last() == steps.take(1));
    assert(steps.take(3).drop_last() == steps.take(2));
    assert(steps.take(4).drop_last() == steps.take(3));
    assert(steps.take(4) == steps);
    assert(done == 0 || done == 1 || done == 2 || done == 3 || done == 4);
}

/// Only where the new content could not be put in place is there anything to undo.
pub proof fn only_a_failed_move_is_undone(failed: SaveOp)
    ensures
        save_recovery(failed).len() > 0 <==> failed == SaveOp::MoveTempIn,
{
}

} // verus!
