//! The lock that guards one file: a staging file beside it, which only one
//! holder can create, is filled and then moved onto the file in one step.

use crate::disk::{create_new, CreateOutcome, Disk, DiskOp, DiskStep};
use vstd::prelude::*;
use vstd::utf8::encode_utf8;

verus! {

/// Why a lock could not be taken or used.
#[derive(Debug)]
pub enum LockfileError {
    /// The directory of the staging file does not exist.
    MissingParent,
    /// The process may not create the staging file.
    NoPermission,
    /// The lock is not held: it was never taken, or it was committed.
    StaleLock,
    /// The staging file could not be created for another reason.
    Unknown { err: std::io::ErrorKind },
}

/// `std::io::ErrorKind`'s `Debug` output: the name of the kind. Nothing is
/// claimed of the text.
#[verifier::external_body]
fn error_kind_name(kind: &std::io::ErrorKind) -> (name: String) {
    format!("{:?}", kind)
}

impl Clone for LockfileError {
    fn clone(&self) -> (copy: LockfileError)
        ensures
            copy == *self,
    {
        match self {
            LockfileError::MissingParent => LockfileError::MissingParent,
            LockfileError::NoPermission => LockfileError::NoPermission,
            LockfileError::StaleLock => LockfileError::StaleLock,
            LockfileError::Unknown { err } => LockfileError::Unknown { err: *err },
        }
    }
}

impl LockfileError {
    /// The name of the error; for `Unknown`, followed by the kind of the
    /// I/O error.
    pub fn to_string(&self) -> (text: String)
        ensures
            match *self {
                LockfileError::MissingParent => text@ == "MissingParent"@,
                LockfileError::NoPermission => text@ == "NoPermission"@,
                LockfileError::StaleLock => text@ == "StaleLock"@,
                LockfileError::Unknown { .. } => "Unknown: "@.is_prefix_of(text@),
            },
    {
        match self {
            LockfileError::MissingParent => String::from_str("MissingParent"),
            LockfileError::NoPermission => String::from_str("NoPermission"),
            LockfileError::StaleLock => String::from_str("StaleLock"),
            LockfileError::Unknown { err } => {
                let mut text = String::from_str("Unknown: ");
                let name = error_kind_name(err);
                text.append(name.as_str());
                assert(text@.subrange(0, "Unknown: "@.len() as int) =~= "Unknown: "@);
                text
            },
        }
    }
}

/// Where a lock stands in its life.
#[derive(Debug, Clone, Copy, PartialEq, Eq, Structural)]
pub enum LockState {
    /// Not taken yet.
    Unheld,
    /// Taken: the staging file is this lock's.
    Held,
    /// The staging file was moved onto the target. The lock is spent.
    Committed,
}

/// The path of the staging file for a target: the target's path with
/// `.lock` after it.
pub open spec fn staging_path(target: Seq<char>) -> Seq<char> {
    target + ".lock"@
}

/// What an attempt to take a lock returns, and the state it leaves the
/// lock in, given how creating the staging file went. A lock that is held
/// stays held; a spent lock cannot be taken again; otherwise the lock is
/// taken exactly when the staging file was created, a file that exists
/// already means another holder, and every other failure is an error.
pub open spec fn acquisition(state: LockState, attempt: CreateOutcome) -> (
    Result<bool, LockfileError>,
    LockState,
) {
    match state {
        LockState::Held => (Ok(true), LockState::Held),
        LockState::Committed => (Err(LockfileError::StaleLock), LockState::Committed),
        LockState::Unheld => match attempt {
            CreateOutcome::Created => (Ok(true), LockState::Held),
            CreateOutcome::AlreadyExists => (Ok(false), LockState::Unheld),
            CreateOutcome::NotFound => (Err(LockfileError::MissingParent), LockState::Unheld),
            CreateOutcome::PermissionDenied => (
                Err(LockfileError::NoPermission),
                LockState::Unheld,
            ),
            CreateOutcome::Failed { err } => (
                Err(LockfileError::Unknown { err }),
                LockState::Unheld,
            ),
        },
    }
}

/// Mutual exclusion: of two attempts to take the lock on one file, with no
/// commit between them, at most one takes it; and where no staging file
/// lies on the disk before them, the first takes it and the second is told
/// that the lock is busy.
pub proof fn lemma_lock_excludes(disk: Disk, target: Seq<char>)
    ensures
        ({
            let (first, between) = create_new(disk, staging_path(target));
            let (second, after) = create_new(between, staging_path(target));
            let one = acquisition(LockState::Unheld, first).0;
            let other = acquisition(LockState::Unheld, second).0;
            &&& !(one == Ok::<bool, LockfileError>(true) && other == Ok::<bool, LockfileError>(
                true,
            ))
            &&& other == Ok::<bool, LockfileError>(false)
            &&& !disk.contains_key(staging_path(target)) ==> one == Ok::<bool, LockfileError>(
                true,
            )
        }),
{
}

/// A lock on one file.
pub struct Lockfile<'a> {
    file_path: &'a String,
    lock_path: String,
    state: LockState,
}

impl<'a> Lockfile<'a> {
    /// The path of the file that the lock guards.
    pub closed spec fn target(&self) -> Seq<char> {
        self.file_path@
    }

    /// The path of the staging file.
    pub closed spec fn staging(&self) -> Seq<char> {
        self.lock_path@
    }

    /// Where the lock stands in its life.
    pub closed spec fn state(&self) -> LockState {
        self.state
    }

    /// A lock on `file_path`, not taken yet.
    pub fn new(file_path: &'a String) -> (lock: Lockfile<'a>)
        ensures
            lock.target() == file_path@,
            lock.staging() == staging_path(file_path@),
            lock.state() == LockState::Unheld,
    {
        let mut lock_path = file_path.clone();
        lock_path.append(".lock");
        Lockfile { file_path, lock_path, state: LockState::Unheld }
    }

    /// The path of the staging file, which the holder creates to take the
    /// lock.
    pub fn lock_path(&self) -> (path: &String)
        ensures
            path@ == self.staging(),
    {
        &self.lock_path
    }

    /// Whether the lock is held.
    pub fn is_held(&self) -> (held: bool)
        ensures
            held == (self.state() == LockState::Held),
    {
        self.state == LockState::Held
    }

    /// Takes the lock if the staging file was created. `attempt` says how
    /// creating it went. `Ok(false)` means that another holder has the
    /// lock; the caller may try again later.
    pub fn hold_for_update(&mut self, attempt: CreateOutcome) -> (held: Result<
        bool,
        LockfileError,
    >)
        ensures
            (held, final(self).state()) == acquisition(old(self).state(), attempt),
            final(self).target() == old(self).target(),
            final(self).staging() == old(self).staging(),
    {
        match self.state {
            LockState::Held => Ok(true),
            LockState::Committed => Err(LockfileError::StaleLock),
            LockState::Unheld => match attempt {
                CreateOutcome::Created => {
                    self.state = LockState::Held;
                    Ok(true)
                },
                CreateOutcome::AlreadyExists => Ok(false),
                CreateOutcome::NotFound => Err(LockfileError::MissingParent),
                CreateOutcome::PermissionDenied => Err(LockfileError::NoPermission),
                CreateOutcome::Failed { err } => Err(LockfileError::Unknown { err }),
            },
        }
    }

    /// The step that appends `data` to the staging file; `StaleLock` unless
    /// the lock is held.
    pub fn write(&self, data: &String) -> (op: Result<DiskOp, LockfileError>)
        ensures
            match op {
                Ok(op) => self.state() == LockState::Held && op@ == (DiskStep::Append {
                    path: self.staging(),
                    data: encode_utf8(data@),
                }),
                Err(err) => self.state() != LockState::Held && err == LockfileError::StaleLock,
            },
    {
        match self.state {
            LockState::Held => Ok(
                DiskOp::Append { path: self.lock_path.clone(), data: data.as_str().as_bytes_vec() },
            ),
            _ => Err(LockfileError::StaleLock),
        }
    }

    /// The step that moves the staging file onto the target, after which
    /// the lock is spent; `StaleLock`, and no change, unless the lock is
    /// held.
    pub fn commit(&mut self) -> (op: Result<DiskOp, LockfileError>)
        ensures
            match op {
                Ok(op) => {
                    &&& old(self).state() == LockState::Held
                    &&& final(self).state() == LockState::Committed
                    &&& op@ == (DiskStep::Rename {
                        from: old(self).staging(),
                        to: old(self).target(),
                    })
                },
                Err(err) => {
                    &&& old(self).state() != LockState::Held
                    &&& final(self).state() == old(self).state()
                    &&& err == LockfileError::StaleLock
                },
            },
            final(self).target() == old(self).target(),
            final(self).staging() == old(self).staging(),
    {
        match self.state {
            LockState::Held => {
                self.state = LockState::Committed;
                Ok(DiskOp::Rename { from: self.lock_path.clone(), to: self.file_path.clone() })
            },
            _ => Err(LockfileError::StaleLock),
        }
    }
}

} // verus!
