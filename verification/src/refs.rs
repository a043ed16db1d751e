//! `HEAD`: the one pointer to the newest commit, advanced only under its
//! lock.

use crate::disk::{
    child_path, create_new, join, run, step, CreateOutcome, Disk, DiskOp, DiskStep,
};
use crate::lockfile::{staging_path, Lockfile, LockfileError};
use vstd::prelude::*;
use vstd::utf8::{decode_utf8, encode_utf8};

verus! {

/// Why `HEAD` was not advanced.
#[derive(Debug)]
pub enum RefsError {
    /// Another writer holds the lock. Nothing is wrong: try again later.
    LockDenied,
    /// The lock could not be taken or used.
    Lock { err: LockfileError },
}

impl RefsError {
    /// The name of the error.
    pub fn to_string(&self) -> (text: String)
        ensures
            match *self {
                RefsError::LockDenied => text@ == "LockDenied"@,
                RefsError::Lock { err } => match err {
                    LockfileError::MissingParent => text@ == "MissingParent"@,
                    LockfileError::NoPermission => text@ == "NoPermission"@,
                    LockfileError::StaleLock => text@ == "StaleLock"@,
                    LockfileError::Unknown { .. } => "Unknown: "@.is_prefix_of(text@),
                },
            },
    {
        match self {
            RefsError::LockDenied => String::from_str("LockDenied"),
            RefsError::Lock { err } => err.to_string(),
        }
    }
}

/// The steps that advance the pointer at `head` to `oid`, once the lock is
/// held: stage the identifier and a newline, then move the staging file
/// onto the pointer.
pub open spec fn head_update(head: Seq<char>, oid: Seq<char>) -> Seq<DiskStep> {
    seq![
        DiskStep::Append { path: staging_path(head), data: encode_utf8(oid) },
        DiskStep::Append { path: staging_path(head), data: encode_utf8(seq!['\n']) },
        DiskStep::Rename { from: staging_path(head), to: head },
    ]
}

/// What advancing the pointer comes to, given how creating the staging
/// file went: the steps to perform, or the reason why there are none.
pub open spec fn head_update_outcome(head: Seq<char>, oid: Seq<char>, attempt: CreateOutcome)
    -> Result<Seq<DiskStep>, RefsError> {
    match attempt {
        CreateOutcome::Created => Ok(head_update(head, oid)),
        CreateOutcome::AlreadyExists => Err(RefsError::LockDenied),
        CreateOutcome::NotFound => Err(RefsError::Lock { err: LockfileError::MissingParent }),
        CreateOutcome::PermissionDenied => Err(
            RefsError::Lock { err: LockfileError::NoPermission },
        ),
        CreateOutcome::Failed { err } => Err(
            RefsError::Lock { err: LockfileError::Unknown { err } },
        ),
    }
}

/// What reading the pointer gives: the content of its file, or the empty
/// string where there is no file and so no commit yet.
pub open spec fn head_value(contents: Option<Seq<char>>) -> Seq<char> {
    match contents {
        Some(text) => text,
        None => Seq::empty(),
    }
}

/// The disk after an attempt to advance the pointer at `head` to `oid`:
/// the staging file is created if it can be, and then the steps that the
/// outcome calls for are performed.
pub open spec fn advance(disk: Disk, head: Seq<char>, oid: Seq<char>) -> Disk {
    let (attempt, locked) = create_new(disk, staging_path(head));
    match head_update_outcome(head, oid, attempt) {
        Ok(steps) => run(locked, steps),
        Err(_) => locked,
    }
}

/// What reading the pointer at `head` on `disk` gives.
pub open spec fn head_on(disk: Disk, head: Seq<char>) -> Seq<char> {
    head_value(
        if disk.contains_key(head) {
            Some(decode_utf8(disk[head]))
        } else {
            None
        },
    )
}

/// The pointer's round trip: on a disk without a staging file, advancing
/// the pointer to an identifier and reading it gives the identifier and a
/// newline, and leaves no staging file; advancing it again gives the later
/// identifier. Where a staging file lies on the disk, nothing changes.
pub proof fn lemma_head_round_trip(
    disk: Disk,
    head: Seq<char>,
    first: Seq<char>,
    second: Seq<char>,
)
    ensures
        ({
            let staging = staging_path(head);
            let once = advance(disk, head, first);
            let twice = advance(once, head, second);
            &&& disk.contains_key(staging) ==> once == disk
            &&& !disk.contains_key(staging) ==> {
                &&& head_on(once, head) == first + seq!['\n']
                &&& !once.contains_key(staging)
                &&& head_on(twice, head) == second + seq!['\n']
                &&& !twice.contains_key(staging)
            }
        }),
{
    let staging = staging_path(head);
    reveal_strlit(".lock");
    assert(staging.len() != head.len());
    if !disk.contains_key(staging) {
        lemma_advance(disk, head, first);
        lemma_advance(advance(disk, head, first), head, second);
    }
}

/// The pointer changes in one step: however far the steps of an update
/// get before they are interrupted, the pointer's file holds what it held
/// before, until the last step replaces it with the identifier and a
/// newline.
pub proof fn lemma_head_changes_at_once(
    disk: Disk,
    head: Seq<char>,
    oid: Seq<char>,
    done: int,
)
    requires
        !disk.contains_key(staging_path(head)),
        0 <= done <= 3,
    ensures
        ({
            let locked = create_new(disk, staging_path(head)).1;
            let after = run(locked, head_update(head, oid).take(done));
            &&& done < 3 ==> after.contains_key(head) == disk.contains_key(head)
            &&& done < 3 && disk.contains_key(head) ==> after[head] == disk[head]
            &&& done == 3 ==> after.contains_key(head) && after[head] == encode_utf8(
                oid + seq!['\n'],
            )
        }),
{
    let staging = staging_path(head);
    reveal_strlit(".lock");
    assert(staging.len() != head.len());
    let steps = head_update(head, oid);
    let part = steps.take(done);
    let d0 = disk.insert(staging, Seq::<u8>::empty());
    let d1 = d0.insert(staging, Seq::<u8>::empty() + encode_utf8(oid));
    let d2 = d1.insert(staging, d1[staging] + encode_utf8(seq!['\n']));
    reveal_with_fuel(run, 4);
    let from_newline = part.drop_first();
    if done >= 1 {
        assert(part[0] == steps[0]);
        assert(step(d0, part[0]) == Some(d1));
    }
    if done >= 2 {
        assert(from_newline[0] == steps[1]);
        assert(step(d1, from_newline[0]) == Some(d2));
    }
    if done >= 3 {
        assert(part =~= steps);
        lemma_advance(disk, head, oid);
    }
}

/// What advancing the pointer does to a disk without a staging file.
proof fn lemma_advance(disk: Disk, head: Seq<char>, oid: Seq<char>)
    requires
        !disk.contains_key(staging_path(head)),
    ensures
        advance(disk, head, oid) == disk.insert(head, encode_utf8(oid + seq!['\n'])),
        head_on(advance(disk, head, oid), head) == oid + seq!['\n'],
{
    let staging = staging_path(head);
    reveal_strlit(".lock");
    assert(staging.len() != head.len());
    let steps = head_update(head, oid);
    let d0 = disk.insert(staging, Seq::<u8>::empty());
    let d1 = d0.insert(staging, Seq::<u8>::empty() + encode_utf8(oid));
    let d2 = d1.insert(staging, d1[staging] + encode_utf8(seq!['\n']));
    let d3 = d2.remove(staging).insert(head, d2[staging]);
    reveal_with_fuel(run, 4);
    let s1 = steps.drop_first();
    let s2 = s1.drop_first();
    assert(s2.drop_first().len() == 0);
    assert(step(d0, steps[0]) == Some(d1));
    assert(step(d1, s1[0]) == Some(d2));
    assert(step(d2, s2[0]) == Some(d3));
    crate::text::lemma_encode_utf8_concat(oid, seq!['\n']);
    assert(Seq::<u8>::empty() + encode_utf8(oid) + encode_utf8(seq!['\n']) =~= encode_utf8(
        oid + seq!['\n'],
    ));
    assert(d3 =~= disk.insert(head, encode_utf8(oid + seq!['\n'])));
    vstd::utf8::encode_utf8_decode_utf8(oid + seq!['\n']);
}

/// The references of one repository.
pub struct Refs {
    pathname: String,
    head_path: String,
}

impl Refs {
    /// The directory of the repository.
    pub closed spec fn root(&self) -> Seq<char> {
        self.pathname@
    }

    /// The path of the pointer's file.
    pub closed spec fn head(&self) -> Seq<char> {
        self.head_path@
    }

    /// The references of the repository in the directory `path`.
    pub fn new(path: String) -> (refs: Refs)
        ensures
            refs.root() == path@,
            refs.head() == child_path(path@, "HEAD"@),
    {
        let head_path = join(&path, "HEAD");
        Refs { pathname: path, head_path }
    }

    /// The directory of the repository.
    pub fn pathname(&self) -> (path: &String)
        ensures
            path@ == self.root(),
    {
        &self.pathname
    }

    /// The path of the pointer's file, for the driver to read.
    pub fn head_path(&self) -> (path: &String)
        ensures
            path@ == self.head(),
    {
        &self.head_path
    }

    /// The step that takes the pointer's lock: creating its staging file.
    /// How it went is what [`Refs::update_head`] asks for.
    pub fn lock_head(&self) -> (op: DiskOp)
        ensures
            op@ == (DiskStep::CreateNew { path: staging_path(self.head()) }),
    {
        let lock = Lockfile::new(&self.head_path);
        DiskOp::CreateNew { path: lock.lock_path().clone() }
    }

    /// Advances the pointer to `oid` under its lock. `attempt` says how
    /// creating the staging file went. Where it was created, the steps that
    /// stage `oid` and a newline and publish them are returned. Where it
    /// exists already, another writer is at work and `LockDenied` is
    /// returned; any other failure is the lock's error.
    pub fn update_head(&self, oid: &String, attempt: CreateOutcome) -> (ops: Result<
        Vec<DiskOp>,
        RefsError,
    >)
        ensures
            match head_update_outcome(self.head(), oid@, attempt) {
                Ok(steps) => ops matches Ok(list) && list.deep_view() == steps,
                Err(reason) => ops matches Err(err) && err == reason,
            },
    {
        proof {
            reveal_strlit("\n");
        }
        let mut lockfile = Lockfile::new(&self.head_path);
        match lockfile.hold_for_update(attempt) {
            Err(err) => {
                return Err(RefsError::Lock { err });
            },
            Ok(false) => {
                return Err(RefsError::LockDenied);
            },
            Ok(true) => {},
        }
        let newline = String::from_str("\n");
        assert(newline@ =~= seq!['\n']);
        let mut ops: Vec<DiskOp> = Vec::new();
        match lockfile.write(oid) {
            Ok(op) => ops.push(op),
            Err(err) => {
                return Err(RefsError::Lock { err });
            },
        }
        match lockfile.write(&newline) {
            Ok(op) => ops.push(op),
            Err(err) => {
                return Err(RefsError::Lock { err });
            },
        }
        match lockfile.commit() {
            Ok(op) => ops.push(op),
            Err(err) => {
                return Err(RefsError::Lock { err });
            },
        }
        assert(ops.deep_view() =~= head_update(self.head(), oid@));
        Ok(ops)
    }

    /// The value of the pointer, given the content of its file, or `None`
    /// where the file does not exist: the content as it stands, or the
    /// empty string before the first commit.
    pub fn read_head(&self, contents: Option<String>) -> (value: String)
        ensures
            value@ == head_value(contents.deep_view()),
    {
        match contents {
            Some(text) => text,
            None => String::new(),
        }
    }
}

} // verus!
