//! The write path of a small content-addressed version store: the canonical
//! encoding of blobs, trees and commits, the plan that writes an object
//! durably, and the lock protocol that advances `HEAD`.
//!
//! The library never touches the disk. It hands its driver the operations
//! to perform, and takes back what the disk answered.
//!
//! - [`object`]: blobs, trees and commits, and their canonical bytes.
//! - [`oid`]: content identifiers, and hexadecimal to and fro.
//! - [`order`]: the order of paths in a tree.
//! - [`database`]: where an object goes and the steps that write it.
//! - [`lockfile`]: the lock that guards one file.
//! - [`refs`]: `HEAD`, advanced under its lock.
//! - [`workspace`]: which files of a directory are snapshotted.
//! - [`repo`]: making a repository and recording a commit.
//! - [`disk`]: the operations handed to the driver, and their meaning.
//! - [`text`]: numerals, trimming and joining.

pub mod database;
pub mod disk;
pub mod lockfile;
pub mod object;
pub mod oid;
pub mod order;
pub mod refs;
pub mod repo;
pub mod text;
pub mod workspace;
