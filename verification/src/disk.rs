//! What the library asks of the disk, and a small model of what the disk
//! does with it.
//!
//! The library performs no I/O. It returns [`DiskOp`]s for its driver to
//! perform in order, stopping at the first that fails, and it is told how
//! an attempt to create a file went as a [`CreateOutcome`]. The model at the
//! end of this module says what each operation means; the guarantees on
//! crash safety and mutual exclusion are stated against it.

use vstd::prelude::*;

verus! {

/// `std::io::ErrorKind`, carried through as it came: nothing is read from
/// it here.
#[verifier::external_type_specification]
#[verifier::external_body]
pub struct ExErrorKind(std::io::ErrorKind);

/// One operation on the disk.
#[derive(Debug, PartialEq, Eq)]
pub enum DiskOp {
    /// Create the directory and every missing ancestor.
    CreateDirAll { path: String },
    /// Create an empty file; fail if anything exists at the path.
    CreateNew { path: String },
    /// Append bytes to a file that exists.
    Append { path: String, data: Vec<u8> },
    /// Move a file onto another path in one step, replacing what is there.
    Rename { from: String, to: String },
}

/// A [`DiskOp`] as a mathematical value.
pub enum DiskStep {
    CreateDirAll { path: Seq<char> },
    CreateNew { path: Seq<char> },
    Append { path: Seq<char>, data: Seq<u8> },
    Rename { from: Seq<char>, to: Seq<char> },
}

impl View for DiskOp {
    type V = DiskStep;

    open spec fn view(&self) -> DiskStep {
        match *self {
            DiskOp::CreateDirAll { path } => DiskStep::CreateDirAll { path: path@ },
            DiskOp::CreateNew { path } => DiskStep::CreateNew { path: path@ },
            DiskOp::Append { path, data } => DiskStep::Append { path: path@, data: data@ },
            DiskOp::Rename { from, to } => DiskStep::Rename { from: from@, to: to@ },
        }
    }
}

impl DeepView for DiskOp {
    type V = DiskStep;

    open spec fn deep_view(&self) -> DiskStep {
        self@
    }
}

impl Clone for DiskOp {
    fn clone(&self) -> (copy: DiskOp)
        ensures
            copy@ == self@,
    {
        match self {
            DiskOp::CreateDirAll { path } => DiskOp::CreateDirAll { path: path.clone() },
            DiskOp::CreateNew { path } => DiskOp::CreateNew { path: path.clone() },
            DiskOp::Append { path, data } => {
                let copied = data.clone();
                assert(copied@ =~= data@);
                DiskOp::Append { path: path.clone(), data: copied }
            },
            DiskOp::Rename { from, to } => DiskOp::Rename { from: from.clone(), to: to.clone() },
        }
    }
}

/// How an attempt to create a file that must not exist yet went.
#[derive(Debug)]
pub enum CreateOutcome {
    /// The file was created.
    Created,
    /// Something already exists at the path.
    AlreadyExists,
    /// A directory on the way to the path is missing.
    NotFound,
    /// The process may not create the file.
    PermissionDenied,
    /// The attempt failed for another reason.
    Failed { err: std::io::ErrorKind },
}

/// The path of `name` inside the directory `base`: the two joined by one
/// `/`, unless `base` is empty or already ends in one.
pub open spec fn child_path(base: Seq<char>, name: Seq<char>) -> Seq<char> {
    if base.len() == 0 || base.last() == '/' {
        base + name
    } else {
        base + seq!['/'] + name
    }
}

/// Joins a directory and the name of something in it.
pub fn join(base: &String, name: &str) -> (path: String)
    ensures
        path@ == child_path(base@, name@),
{
    let mut path = base.clone();
    let n = base.as_str().unicode_len();
    if n > 0 && base.as_str().get_char(n - 1) != '/' {
        proof {
            reveal_strlit("/");
        }
        path.append("/");
        assert(path@ =~= base@ + seq!['/']);
    }
    path.append(name);
    path
}

/// The regular files on a disk: what each path holds.
pub type Disk = Map<Seq<char>, Seq<u8>>;

/// What creating a file that must not exist yet does: it fails when the
/// path is taken, and leaves an empty file otherwise. The test and the
/// creation are one step: no other process can come between them.
pub open spec fn create_new(disk: Disk, path: Seq<char>) -> (CreateOutcome, Disk) {
    if disk.contains_key(path) {
        (CreateOutcome::AlreadyExists, disk)
    } else {
        (CreateOutcome::Created, disk.insert(path, Seq::empty()))
    }
}

/// The disk after one operation, or `None` where the operation fails.
pub open spec fn step(disk: Disk, op: DiskStep) -> Option<Disk> {
    match op {
        DiskStep::CreateDirAll { path } => Some(disk),
        DiskStep::CreateNew { path } => if create_new(disk, path).0 is Created {
            Some(create_new(disk, path).1)
        } else {
            None
        },
        DiskStep::Append { path, data } => if disk.contains_key(path) {
            Some(disk.insert(path, disk[path] + data))
        } else {
            None
        },
        DiskStep::Rename { from, to } => if disk.contains_key(from) {
            Some(disk.remove(from).insert(to, disk[from]))
        } else {
            None
        },
    }
}

/// The disk after the operations were performed in order, up to the first
/// that fails.
pub open spec fn run(disk: Disk, ops: Seq<DiskStep>) -> Disk
    decreases ops.len(),
{
    if ops.len() == 0 {
        disk
    } else {
        match step(disk, ops[0]) {
            Some(next) => run(next, ops.drop_first()),
            None => disk,
        }
    }
}

/// Whether each of the operations succeeds when they are performed in
/// order.
pub open spec fn succeeds(disk: Disk, ops: Seq<DiskStep>) -> bool
    decreases ops.len(),
{
    if ops.len() == 0 {
        true
    } else {
        match step(disk, ops[0]) {
            Some(next) => succeeds(next, ops.drop_first()),
            None => false,
        }
    }
}

/// `merged` holds the operations of `first` and those of `second`, each
/// in their own order, interleaved in some way: as when two processes
/// work on one disk at once.
pub open spec fn interleaves(merged: Seq<DiskStep>, first: Seq<DiskStep>, second: Seq<DiskStep>)
    -> bool
    decreases merged.len(),
{
    if merged.len() == 0 {
        first.len() == 0 && second.len() == 0
    } else {
        ||| first.len() > 0 && merged[0] == first[0] && interleaves(
            merged.drop_first(),
            first.drop_first(),
            second,
        )
        ||| second.len() > 0 && merged[0] == second[0] && interleaves(
            merged.drop_first(),
            first,
            second.drop_first(),
        )
    }
}

/// Performing a sequence of operations that all succeed and then another
/// sequence is performing the two in a row.
pub proof fn lemma_run_concat(disk: Disk, first: Seq<DiskStep>, second: Seq<DiskStep>)
    requires
        succeeds(disk, first),
    ensures
        run(disk, first + second) == run(run(disk, first), second),
        succeeds(disk, first + second) == succeeds(run(disk, first), second),
    decreases first.len(),
{
    if first.len() == 0 {
        assert(first + second =~= second);
    } else {
        let next = step(disk, first[0])->0;
        assert((first + second).drop_first() =~= first.drop_first() + second);
        assert((first + second)[0] == first[0]);
        lemma_run_concat(next, first.drop_first(), second);
    }
}

} // verus!
