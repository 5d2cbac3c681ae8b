//! Making the directory for settings out of the file that once had its name.

use vstd::prelude::*;

verus! {

/// What a path leads to.
#[derive(Debug, Clone, Copy, PartialEq, Eq, Structural)]
pub enum NodeKind {
    Absent,
    File,
    Directory,
    Other,
}

#[derive(Debug, Clone, Copy, PartialEq, Eq, Structural)]
pub enum StorageOp {
    CreateDirectory,
    RemoveDirectory,
    /// Puts the file at the directory's path aside.
    DirectoryToMigration,
    /// Puts it back.
    MigrationToDirectory,
    /// Makes it the window state in the directory.
    MigrationToWindow,
}

/// What has to be done so that the directory is there, or `None` where a file that was put aside
/// earlier is in the way.
pub open spec fn storage_steps(
    directory: NodeKind,
    migration: NodeKind,
    window: NodeKind,
) -> Option<Seq<StorageOp>> {
    match directory {
        NodeKind::Directory => Some(
            if migration == NodeKind::File && window == NodeKind::Absent {
                seq![StorageOp::MigrationToWindow]
            } else {
                Seq::empty()
            },
        ),
        NodeKind::File => if migration == NodeKind::Absent {
            Some(
                seq![
                    StorageOp::DirectoryToMigration,
                    StorageOp::CreateDirectory,
                    StorageOp::MigrationToWindow,
                ],
            )
        } else {
            None
        },
        NodeKind::Absent => if migration == NodeKind::File {
            Some(seq![StorageOp::CreateDirectory, StorageOp::MigrationToWindow])
        } else {
            Some(seq![StorageOp::CreateDirectory])
        },
        NodeKind::Other => Some(seq![StorageOp::CreateDirectory]),
    }
}

/// Plans what has to be done so that the directory is there. `migration_path` is where a file in
/// its place is put aside.
pub fn storage_plan(
    directory: NodeKind,
    migration: NodeKind,
    window: NodeKind,
    migration_path: &str,
) -> (result: Result<Vec<StorageOp>, String>)
    ensures
        match storage_steps(directory, migration, window) {
            Some(steps) => result matches Ok(plan) && plan@ == steps,
            None => result matches Err(message) && message@ == "迁移文件 "@ + migration_path@
                + " 已存在，请先确认其内容"@,
        },
{
    let mut plan: Vec<StorageOp> = Vec::new();
    match directory {
        NodeKind::Directory => {
            if migration == NodeKind::File && window == NodeKind::Absent {
                plan.push(StorageOp::MigrationToWindow);
            }
        },
        NodeKind::File => {
            if migration != NodeKind::Absent {
                let mut message = "迁移文件 ".to_owned();
                message.append(migration_path);
                message.append(" 已存在，请先确认其内容");
                return Err(message);
            }
            plan.push(StorageOp::DirectoryToMigration);
            plan.push(StorageOp::CreateDirectory);
            plan.push(StorageOp::MigrationToWindow);
        },
        NodeKind::Absent => {
            plan.push(StorageOp::CreateDirectory);
            if migration == NodeKind::File {
                plan.push(StorageOp::MigrationToWindow);
            }
        },
        NodeKind::Other => {
            plan.push(StorageOp::CreateDirectory);
        },
    }
    assert(plan@ =~= storage_steps(directory, migration, window)->0);
    Ok(plan)
}

/// What is undone when an operation fails after a file was put aside.
pub open spec fn storage_rollback(failed: StorageOp) -> Seq<StorageOp> {
    match failed {
        StorageOp::CreateDirectory => seq![StorageOp::MigrationToDirectory],
        StorageOp::MigrationToWindow => seq![
            StorageOp::RemoveDirectory,
            StorageOp::MigrationToDirectory,
        ],
        _ => Seq::empty(),
    }
}

/// Plans what is undone when an operation fails. Nothing is undone unless a file was put aside.
pub fn rollback_plan(put_aside: bool, failed: StorageOp) -> (plan: Vec<StorageOp>)
    ensures
        plan@ == if put_aside {
            storage_rollback(failed)
        } else {
            Seq::empty()
        },
{
    let mut plan: Vec<StorageOp> = Vec::new();
    if put_aside {
        match failed {
            StorageOp::CreateDirectory => {
                plan.push(StorageOp::MigrationToDirectory);
            },
            StorageOp::MigrationToWindow => {
                plan.push(StorageOp::RemoveDirectory);
                plan.push(StorageOp::MigrationToDirectory);
            },
            _ => {},
        }
        assert(plan@ =~= storage_rollback(failed));
    }
    plan
}

/// What is at a path.
pub enum Node {
    Absent,
    File(Seq<u8>),
    Directory,
    Other,
}

pub open spec fn kind_of(node: Node) -> NodeKind {
    match node {
        Node::Absent => NodeKind::Absent,
        Node::File(_) => NodeKind::File,
        Node::Directory => NodeKind::Directory,
        Node::Other => NodeKind::Other,
    }
}

/// The three paths that matter. The window state is in the directory.
pub struct Disk {
    pub directory: Node,
    pub migration: Node,
    pub window: Node,
}

impl Disk {
    pub open spec fn after(self, op: StorageOp) -> Disk {
        match op {
            StorageOp::CreateDirectory => Disk { directory: Node::Directory, ..self },
            StorageOp::RemoveDirectory => Disk { directory: Node::Absent, ..self },
            StorageOp::DirectoryToMigration => Disk {
                directory: Node::Absent,
                migration: self.directory,
                ..self
            },
            StorageOp::MigrationToDirectory => Disk {
                directory: self.migration,
                migration: Node::Absent,
                ..self
            },
            StorageOp::MigrationToWindow => Disk {
                window: self.migration,
                migration: Node::Absent,
                ..self
            },
        }
    }

    pub open spec fn after_all(self, ops: Seq<StorageOp>) -> Disk
        decreases ops.len(),
    {
        if ops.len() == 0 {
            self
        } else {
            self.after_all(ops.drop_last()).after(ops.last())
        }
    }

    pub open spec fn steps(self) -> Option<Seq<StorageOp>> {
        storage_steps(kind_of(self.directory), kind_of(self.migration), kind_of(self.window))
    }
}

proof fn one_step(disk: Disk, a: StorageOp)
    ensures
        disk.after_all(seq![a]) == disk.after(a),
        disk.after_all(Seq::<StorageOp>::empty()) == disk,
{
    assert(seq![a].drop_last() =~= Seq::<StorageOp>::empty());
    assert(disk.after_all(seq![a].drop_last()) == disk);
}

proof fn two_steps(disk: Disk, a: StorageOp, b: StorageOp)
    ensures
        disk.after_all(seq![a, b]) == disk.after(a).after(b),
{
    one_step(disk, a);
    assert(seq![a, b].drop_last() =~= seq![a]);
}

/// The old window state, which was a file in the place of the directory, ends up in the
/// directory. It does so too if the work is cut short anywhere and done again.
pub proof fn interrupted_migration_is_recovered(content: Seq<u8>, done: int)
    requires
        0 <= done <= 3,
    ensures
        ({
            let disk = Disk {
                directory: Node::File(content),
                migration: Node::Absent,
                window: Node::Absent,
            };
            let cut = disk.after_all(disk.steps()->0.take(done));
            let end = Disk {
                directory: Node::Directory,
                migration: Node::Absent,
                window: Node::File(content),
            };
            &&& disk.steps() is Some
            &&& disk.steps()->0.len() == 3
            &&& cut.steps() is Some
            &&& cut.after_all(cut.steps()->0) == end
        }),
{
    let disk = Disk {
        directory: Node::File(content),
        migration: Node::Absent,
        window: Node::Absent,
    };
    let a = StorageOp::DirectoryToMigration;
    let b = StorageOp::CreateDirectory;
    let c = StorageOp::MigrationToWindow;
    let ops = seq![a, b, c];
    assert(disk.steps() == Some(ops));
    assert(ops.take(0) =~= Seq::<StorageOp>::empty());
    assert(ops.take(1) =~= seq![a]);
    assert(ops.take(2) =~= seq![a, b]);
    assert(ops.take(3) =~= ops);
    one_step(disk, a);
    two_steps(disk, a, b);
    assert(ops.drop_last() =~= seq![a, b]);
    assert(disk.after_all(ops) == disk.after(a).after(b).after(c));
    let cut = disk.after_all(ops.take(done));
    if done == 1 {
        two_steps(cut, b, c);
    } else if done == 2 {
        one_step(cut, c);
    } else if done == 3 {
        one_step(cut, c);
    }
}

/// Work that fails on the way is undone: the old file is where it was.
pub proof fn failed_migration_is_undone(content: Seq<u8>)
    ensures
        ({
            let disk = Disk {
                directory: Node::File(content),
                migration: Node::Absent,
                window: Node::Absent,
            };
            let ops = disk.steps()->0;
            &&& disk.after_all(ops.take(1)).after_all(storage_rollback(StorageOp::CreateDirectory))
                == disk
            &&& disk.after_all(ops.take(2)).after_all(
                storage_rollback(StorageOp::MigrationToWindow),
            ) == disk
        }),
{
    let disk = Disk {
        directory: Node::File(content),
        migration: Node::Absent,
        window: Node::Absent,
    };
    let a = StorageOp::DirectoryToMigration;
    let b = StorageOp::CreateDirectory;
    let ops = disk.steps()->0;
    assert(ops.take(1) =~= seq![a]);
    assert(ops.take(2) =~= seq![a, b]);
    one_step(disk, a);
    two_steps(disk, a, b);
    one_step(disk.after(a), StorageOp::MigrationToDirectory);
    two_steps(
        disk.after(a).after(b),
        StorageOp::RemoveDirectory,
        StorageOp::MigrationToDirectory,
    );
}

/// A directory that is there is left alone, and so is a window state in it; a file is put aside
/// unless one was put aside before; the directory is made wherever it is missing.
pub proof fn nothing_is_overwritten(directory: NodeKind, migration: NodeKind, window: NodeKind)
    ensures
        storage_steps(directory, migration, window) is None <==> directory is File && !(migration
            is Absent),
        storage_steps(directory, migration, window) matches Some(steps) ==> {
            &&& steps.contains(StorageOp::CreateDirectory) <==> !(directory is Directory)
            &&& steps.contains(StorageOp::DirectoryToMigration) <==> directory is File
            &&& directory is Directory ==> (steps.contains(StorageOp::MigrationToWindow)
                <==> migration is File && window is Absent)
            &&& directory is Absent ==> (steps.contains(StorageOp::MigrationToWindow)
                <==> migration is File)
            &&& !steps.contains(StorageOp::RemoveDirectory)
            &&& !steps.contains(StorageOp::MigrationToDirectory)
        },
{
    if let Some(steps) = storage_steps(directory, migration, window) {
        if steps.len() > 0 {
            assert(steps.contains(steps[0]));
        }
        if steps.len() > 1 {
            assert(steps.contains(steps[1]));
        }
        if steps.len() > 2 {
            assert(steps.contains(steps[2]));
        }
    }
}

} // verus!
