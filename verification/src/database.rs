//! The content store: where an object goes, and the steps that put it
//! there without ever showing a half-written file under its final name.

use crate::disk::{
    child_path, interleaves, join, lemma_run_concat, run, step, succeeds, Disk, DiskOp, DiskStep,
};
use crate::object::{frame, framed, Object};
use crate::oid::{compute_oid, is_oid, object_id};
use vstd::prelude::*;

verus! {

/// The compression level that objects are written with: the fastest that
/// compresses at all.
pub const BEST_SPEED: u8 = 1;

/// How many random characters end the name of a temporary file.
pub const TEMP_SUFFIX_LEN: usize = 6;

/// What `data` compresses to, in zlib format, at the given level.
pub uninterp spec fn zlib_compressed(data: Seq<u8>, level: u8) -> Seq<u8>;

/// `miniz_oxide::deflate::compress_to_vec_zlib`: the whole input
/// compressed into a zlib stream. The output is a function of input and
/// level alone.
#[verifier::external_body]
fn compress(data: &Vec<u8>, level: u8) -> (compressed: Vec<u8>)
    ensures
        compressed@ == zlib_compressed(data@, level),
{
    miniz_oxide::deflate::compress_to_vec_zlib(data, level)
}

/// `c` is an ASCII letter or digit.
pub open spec fn is_alphanumeric(c: char) -> bool {
    ('0' <= c <= '9') || ('a' <= c <= 'z') || ('A' <= c <= 'Z')
}

/// `rand`'s `Alphanumeric` distribution sampled `count` times from the
/// thread's generator. Which characters come is left open: only their
/// number and their alphabet are stated.
#[verifier::external_body]
fn random_alphanumeric(count: usize) -> (sample: String)
    ensures
        sample@.len() == count,
        forall|i: int| 0 <= i < sample@.len() ==> is_alphanumeric(#[trigger] sample@[i]),
{
    rand::Rng::sample_iter(rand::thread_rng(), &rand::distributions::Alphanumeric)
        .take(count)
        .map(char::from)
        .collect()
}

/// `suffix` can end the name of a temporary file.
pub open spec fn is_temp_suffix(suffix: Seq<char>) -> bool {
    &&& suffix.len() == TEMP_SUFFIX_LEN
    &&& forall|i: int| 0 <= i < suffix.len() ==> is_alphanumeric(#[trigger] suffix[i])
}

/// The name of the temporary file with the given suffix.
pub open spec fn temp_name(suffix: Seq<char>) -> Seq<char> {
    "tmp_obj_"@ + suffix
}

/// The name of the temporary file with the given suffix.
pub fn temp_name_with(suffix: &String) -> (name: String)
    ensures
        name@ == temp_name(suffix@),
{
    let mut name = String::from_str("tmp_obj_");
    name.append(suffix.as_str());
    name
}

/// A fresh name for a temporary file: a fixed prefix and a random suffix,
/// so that two writers do not pick the same name.
pub fn generate_temp_name() -> (name: String)
    ensures
        exists|suffix: Seq<char>| is_temp_suffix(suffix) && name@ == temp_name(suffix),
{
    let suffix = random_alphanumeric(TEMP_SUFFIX_LEN);
    assert(is_temp_suffix(suffix@));
    temp_name_with(&suffix)
}

/// The directory of the object `oid` in the store at `root`: named by the
/// identifier's first two digits.
pub open spec fn object_dir(root: Seq<char>, oid: Seq<char>) -> Seq<char> {
    child_path(root, oid.subrange(0, 2))
}

/// The file of the object `oid` in the store at `root`: in the object's
/// directory, named by the rest of the identifier.
pub open spec fn object_path(root: Seq<char>, oid: Seq<char>) -> Seq<char> {
    child_path(object_dir(root, oid), oid.subrange(2, oid.len() as int))
}

/// The steps that write an object durably: make sure its directory exists,
/// create a temporary file beside its final place, fill it, and move it
/// onto the final name in one step.
pub open spec fn write_plan(
    root: Seq<char>,
    oid: Seq<char>,
    temp: Seq<char>,
    compressed: Seq<u8>,
) -> Seq<DiskStep> {
    let dir = object_dir(root, oid);
    let staging = child_path(dir, temp);
    seq![
        DiskStep::CreateDirAll { path: dir },
        DiskStep::CreateNew { path: staging },
        DiskStep::Append { path: staging, data: compressed },
        DiskStep::Rename { from: staging, to: object_path(root, oid) },
    ]
}

/// `ops` writes the object with the given framed bytes into the store at
/// `root`, through a temporary file of some admissible name.
pub open spec fn is_store_plan(ops: Seq<DiskStep>, root: Seq<char>, content: Seq<u8>) -> bool {
    exists|suffix: Seq<char>|
        is_temp_suffix(suffix) && ops == #[trigger] write_plan(
            root,
            object_id(content),
            temp_name(suffix),
            zlib_compressed(content, BEST_SPEED),
        )
}

/// The path of an object in a store, taken apart: what comes before the
/// identifier, the identifier's first two digits, a separator, and the
/// rest of the identifier.
proof fn lemma_object_path_parts(root: Seq<char>, oid: Seq<char>)
    requires
        is_oid(oid),
    ensures
        object_path(root, oid) == child_path(root, Seq::empty()) + oid.subrange(0, 2) + seq!['/']
            + oid.subrange(2, 40),
{
    let dir = object_dir(root, oid);
    let prefix = child_path(root, Seq::empty());
    assert(dir =~= prefix + oid.subrange(0, 2));
    assert(dir.last() == oid[1]);
    assert(crate::oid::is_lower_hex_digit(oid[1]));
    assert(object_path(root, oid) =~= prefix + oid.subrange(0, 2) + seq!['/'] + oid.subrange(
        2,
        40,
    ));
}

/// Different objects never share a path: in one store, two identifiers
/// with the same path are the same identifier.
pub proof fn lemma_object_paths_differ(root: Seq<char>, one: Seq<char>, other: Seq<char>)
    requires
        is_oid(one),
        is_oid(other),
        object_path(root, one) == object_path(root, other),
    ensures
        one == other,
{
    lemma_object_path_parts(root, one);
    lemma_object_path_parts(root, other);
    let prefix = child_path(root, Seq::empty());
    let path = object_path(root, one);
    let n = prefix.len() as int;
    assert forall|i: int| 0 <= i < 40 implies one[i] == other[i] by {
        if i < 2 {
            assert(path[n + i] == one[i]);
            assert(path[n + i] == other[i]);
        } else {
            assert(path[n + 1 + i] == one[i]);
            assert(path[n + 1 + i] == other[i]);
        }
    }
    assert(one =~= other);
}

/// The temporary file of a write is never the object's final file.
pub proof fn lemma_staging_is_not_final(root: Seq<char>, oid: Seq<char>, suffix: Seq<char>)
    requires
        is_oid(oid),
        is_temp_suffix(suffix),
    ensures
        child_path(object_dir(root, oid), temp_name(suffix)) != object_path(root, oid),
{
    reveal_strlit("tmp_obj_");
    let dir = object_dir(root, oid);
    assert(temp_name(suffix).len() == 14);
    assert(oid.subrange(2, oid.len() as int).len() == 38);
    assert(child_path(dir, temp_name(suffix)).len() != object_path(root, oid).len());
}

/// What a write leaves on a disk on which its temporary file does not
/// exist yet: the object under its final path, and nothing else changed.
pub proof fn lemma_write_result(
    disk: Disk,
    root: Seq<char>,
    oid: Seq<char>,
    suffix: Seq<char>,
    compressed: Seq<u8>,
)
    requires
        is_oid(oid),
        is_temp_suffix(suffix),
    ensures
        ({
            let plan = write_plan(root, oid, temp_name(suffix), compressed);
            let staging = child_path(object_dir(root, oid), temp_name(suffix));
            &&& succeeds(disk, plan) <==> !disk.contains_key(staging)
            &&& succeeds(disk, plan) ==> run(disk, plan) == disk.insert(
                object_path(root, oid),
                compressed,
            )
        }),
{
    let plan = write_plan(root, oid, temp_name(suffix), compressed);
    let staging = child_path(object_dir(root, oid), temp_name(suffix));
    let path = object_path(root, oid);
    lemma_staging_is_not_final(root, oid, suffix);
    reveal_with_fuel(run, 5);
    reveal_with_fuel(succeeds, 5);
    let from_create = plan.drop_first();
    let from_fill = from_create.drop_first();
    let from_rename = from_fill.drop_first();
    assert(from_rename.drop_first().len() == 0);
    if !disk.contains_key(staging) {
        let d1 = disk.insert(staging, Seq::<u8>::empty());
        let d2 = d1.insert(staging, Seq::<u8>::empty() + compressed);
        let d3 = d2.remove(staging).insert(path, d2[staging]);
        assert(Seq::<u8>::empty() + compressed =~= compressed);
        assert(step(disk, plan[0]) == Some(disk));
        assert(step(disk, from_create[0]) == Some(d1));
        assert(step(d1, from_fill[0]) == Some(d2));
        assert(step(d2, from_rename[0]) == Some(d3));
        assert(d3 =~= disk.insert(path, compressed));
    }
}

/// Durability: however far the steps of a write get before they are
/// interrupted, the object's final path holds what it held before or the
/// whole compressed object, never a part of it; until the last step it
/// holds what it held before; and when all steps succeed it holds the
/// object.
pub proof fn lemma_write_is_atomic(
    disk: Disk,
    root: Seq<char>,
    oid: Seq<char>,
    suffix: Seq<char>,
    compressed: Seq<u8>,
    done: int,
)
    requires
        is_oid(oid),
        is_temp_suffix(suffix),
        0 <= done <= 4,
    ensures
        ({
            let plan = write_plan(root, oid, temp_name(suffix), compressed);
            let path = object_path(root, oid);
            let after = run(disk, plan.take(done));
            let untouched = after.contains_key(path) == disk.contains_key(path) && (
            disk.contains_key(path) ==> after[path] == disk[path]);
            &&& untouched || (after.contains_key(path) && after[path] == compressed)
            &&& done < 4 ==> untouched
            &&& succeeds(disk, plan) ==> run(disk, plan).contains_key(path) && run(
                disk,
                plan,
            )[path] == compressed
        }),
{
    let plan = write_plan(root, oid, temp_name(suffix), compressed);
    let staging = child_path(object_dir(root, oid), temp_name(suffix));
    let path = object_path(root, oid);
    lemma_staging_is_not_final(root, oid, suffix);
    lemma_write_result(disk, root, oid, suffix, compressed);
    reveal_with_fuel(run, 5);
    let part = plan.take(done);
    let from_create = part.drop_first();
    let from_fill = from_create.drop_first();
    let from_rename = from_fill.drop_first();
    if done >= 1 {
        assert(part[0] == plan[0]);
        assert(step(disk, part[0]) == Some(disk));
    }
    if done >= 2 {
        assert(from_create[0] == plan[1]);
    }
    if done >= 3 {
        assert(from_fill[0] == plan[2]);
    }
    if done >= 4 {
        assert(from_rename[0] == plan[3]);
        assert(from_rename.drop_first().len() == 0);
    }
    if !disk.contains_key(staging) {
        let d1 = disk.insert(staging, Seq::<u8>::empty());
        let d2 = d1.insert(staging, Seq::<u8>::empty() + compressed);
        let d3 = d2.remove(staging).insert(path, d2[staging]);
        assert(Seq::<u8>::empty() + compressed =~= compressed);
        if done >= 2 {
            assert(step(disk, from_create[0]) == Some(d1));
        }
        if done >= 3 {
            assert(step(d1, from_fill[0]) == Some(d2));
        }
        if done >= 4 {
            assert(step(d2, from_rename[0]) == Some(d3));
        }
    } else {
        if done >= 2 {
            assert(step(disk, from_create[0]) is None);
        }
    }
}

/// Content addressing: when one object is written twice, through whichever
/// temporary files and in whichever order, and both writes succeed, it lies
/// once under its path with its compressed bytes, and nothing else on the
/// disk has changed. The second write changes nothing.
pub proof fn lemma_store_twice(
    disk: Disk,
    root: Seq<char>,
    oid: Seq<char>,
    compressed: Seq<u8>,
    first_suffix: Seq<char>,
    second_suffix: Seq<char>,
)
    requires
        is_oid(oid),
        is_temp_suffix(first_suffix),
        is_temp_suffix(second_suffix),
        succeeds(disk, write_plan(root, oid, temp_name(first_suffix), compressed)),
        succeeds(
            run(disk, write_plan(root, oid, temp_name(first_suffix), compressed)),
            write_plan(root, oid, temp_name(second_suffix), compressed),
        ),
    ensures
        ({
            let first = write_plan(root, oid, temp_name(first_suffix), compressed);
            let second = write_plan(root, oid, temp_name(second_suffix), compressed);
            &&& run(disk, first + second) == disk.insert(object_path(root, oid), compressed)
            &&& run(disk, first + second) == run(disk, first)
        }),
{
    let first = write_plan(root, oid, temp_name(first_suffix), compressed);
    let second = write_plan(root, oid, temp_name(second_suffix), compressed);
    lemma_write_result(disk, root, oid, first_suffix, compressed);
    lemma_write_result(run(disk, first), root, oid, second_suffix, compressed);
    lemma_run_concat(disk, first, second);
    assert(run(disk, first + second) =~= run(disk, first));
}

/// The disk while two writers of one object are at work: `base` with what
/// each has staged so far, and with the object under its path once either
/// has finished. `one` and `other` count the steps that each has done.
spec fn midway(
    base: Disk,
    root: Seq<char>,
    oid: Seq<char>,
    compressed: Seq<u8>,
    first_suffix: Seq<char>,
    second_suffix: Seq<char>,
    one: int,
    other: int,
) -> Disk {
    let first = child_path(object_dir(root, oid), temp_name(first_suffix));
    let second = child_path(object_dir(root, oid), temp_name(second_suffix));
    let with_first = if one == 2 {
        base.insert(first, Seq::empty())
    } else if one == 3 {
        base.insert(first, compressed)
    } else {
        base
    };
    let with_both = if other == 2 {
        with_first.insert(second, Seq::empty())
    } else if other == 3 {
        with_first.insert(second, compressed)
    } else {
        with_first
    };
    if one == 4 || other == 4 {
        with_both.insert(object_path(root, oid), compressed)
    } else {
        with_both
    }
}

/// Two temporary files of different names in one directory are different
/// files.
proof fn lemma_staging_files_differ(dir: Seq<char>, one: Seq<char>, other: Seq<char>)
    requires
        one != other,
        one.len() == other.len(),
    ensures
        child_path(dir, one) != child_path(dir, other),
{
    if child_path(dir, one) == child_path(dir, other) {
        let n = child_path(dir, one).len() - one.len();
        assert forall|i: int| 0 <= i < one.len() implies one[i] == other[i] by {
            assert(child_path(dir, one)[n + i] == one[i]);
            assert(child_path(dir, other)[n + i] == other[i]);
        }
        assert(one =~= other);
    }
}

/// From any point midway, the remaining steps of both writers all succeed
/// in whatever order they come, and leave the object under its path.
proof fn lemma_interleaved_from(
    base: Disk,
    root: Seq<char>,
    oid: Seq<char>,
    compressed: Seq<u8>,
    first_suffix: Seq<char>,
    second_suffix: Seq<char>,
    one: int,
    other: int,
    merged: Seq<DiskStep>,
)
    requires
        is_oid(oid),
        is_temp_suffix(first_suffix),
        is_temp_suffix(second_suffix),
        first_suffix != second_suffix,
        !base.contains_key(child_path(object_dir(root, oid), temp_name(first_suffix))),
        !base.contains_key(child_path(object_dir(root, oid), temp_name(second_suffix))),
        0 <= one <= 4,
        0 <= other <= 4,
        interleaves(
            merged,
            write_plan(root, oid, temp_name(first_suffix), compressed).skip(one),
            write_plan(root, oid, temp_name(second_suffix), compressed).skip(other),
        ),
    ensures
        succeeds(
            midway(base, root, oid, compressed, first_suffix, second_suffix, one, other),
            merged,
        ),
        run(
            midway(base, root, oid, compressed, first_suffix, second_suffix, one, other),
            merged,
        ) == base.insert(object_path(root, oid), compressed),
    decreases merged.len(),
{
    let first = write_plan(root, oid, temp_name(first_suffix), compressed);
    let second = write_plan(root, oid, temp_name(second_suffix), compressed);
    let dir = object_dir(root, oid);
    let staging_one = child_path(dir, temp_name(first_suffix));
    let staging_other = child_path(dir, temp_name(second_suffix));
    let path = object_path(root, oid);
    let here = midway(base, root, oid, compressed, first_suffix, second_suffix, one, other);
    lemma_staging_is_not_final(root, oid, first_suffix);
    lemma_staging_is_not_final(root, oid, second_suffix);
    assert(staging_one != staging_other) by {
        reveal_strlit("tmp_obj_");
        if temp_name(first_suffix) == temp_name(second_suffix) {
            assert forall|i: int| 0 <= i < 6 implies first_suffix[i] == second_suffix[i] by {
                assert(temp_name(first_suffix)[8 + i] == first_suffix[i]);
                assert(temp_name(second_suffix)[8 + i] == second_suffix[i]);
            }
            assert(first_suffix =~= second_suffix);
        }
        lemma_staging_files_differ(dir, temp_name(first_suffix), temp_name(second_suffix));
    }
    assert(Seq::<u8>::empty() + compressed =~= compressed);
    if merged.len() == 0 {
        assert(one == 4 && other == 4);
        assert(here =~= base.insert(path, compressed));
    } else {
        let rest = merged.drop_first();
        if first.skip(one).len() > 0 && merged[0] == first.skip(one)[0] && interleaves(
            rest,
            first.skip(one).drop_first(),
            second.skip(other),
        ) {
            let next = midway(
                base,
                root,
                oid,
                compressed,
                first_suffix,
                second_suffix,
                one + 1,
                other,
            );
            assert(first.skip(one).drop_first() =~= first.skip(one + 1));
            assert(merged[0] == first[one]);
            assert(step(here, merged[0]) == Some(next)) by {
                if one == 0 {
                    assert(next =~= here);
                } else if one == 1 {
                    assert(!here.contains_key(staging_one));
                    assert(here.insert(staging_one, Seq::empty()) =~= next);
                } else if one == 2 {
                    assert(here.contains_key(staging_one));
                    assert(here[staging_one] =~= Seq::<u8>::empty());
                    assert(here.insert(staging_one, here[staging_one] + compressed) =~= next);
                } else {
                    assert(here.contains_key(staging_one));
                    assert(here[staging_one] == compressed);
                    assert(here.remove(staging_one).insert(path, here[staging_one]) =~= next);
                }
            }
            lemma_interleaved_from(
                base,
                root,
                oid,
                compressed,
                first_suffix,
                second_suffix,
                one + 1,
                other,
                rest,
            );
        } else {
            let next = midway(
                base,
                root,
                oid,
                compressed,
                first_suffix,
                second_suffix,
                one,
                other + 1,
            );
            assert(second.skip(other).drop_first() =~= second.skip(other + 1));
            assert(merged[0] == second[other]);
            assert(step(here, merged[0]) == Some(next)) by {
                if other == 0 {
                    assert(next =~= here);
                } else if other == 1 {
                    assert(!here.contains_key(staging_other));
                    assert(here.insert(staging_other, Seq::empty()) =~= next);
                } else if other == 2 {
                    assert(here.contains_key(staging_other));
                    assert(here[staging_other] =~= Seq::<u8>::empty());
                    assert(here.insert(staging_other, here[staging_other] + compressed) =~= next);
                } else {
                    assert(here.contains_key(staging_other));
                    assert(here[staging_other] == compressed);
                    assert(here.remove(staging_other).insert(path, here[staging_other]) =~= next);
                }
            }
            lemma_interleaved_from(
                base,
                root,
                oid,
                compressed,
                first_suffix,
                second_suffix,
                one,
                other + 1,
                rest,
            );
        }
    }
}

/// Two writers at once: when two processes write one object through
/// temporary files of different names, neither of which exists yet, then
/// however their steps interleave, every step succeeds, and in the end the
/// object lies under its path with its compressed bytes and nothing else on
/// the disk has changed.
pub proof fn lemma_concurrent_writes(
    disk: Disk,
    root: Seq<char>,
    oid: Seq<char>,
    compressed: Seq<u8>,
    first_suffix: Seq<char>,
    second_suffix: Seq<char>,
    merged: Seq<DiskStep>,
)
    requires
        is_oid(oid),
        is_temp_suffix(first_suffix),
        is_temp_suffix(second_suffix),
        first_suffix != second_suffix,
        !disk.contains_key(child_path(object_dir(root, oid), temp_name(first_suffix))),
        !disk.contains_key(child_path(object_dir(root, oid), temp_name(second_suffix))),
        interleaves(
            merged,
            write_plan(root, oid, temp_name(first_suffix), compressed),
            write_plan(root, oid, temp_name(second_suffix), compressed),
        ),
    ensures
        succeeds(disk, merged),
        run(disk, merged) == disk.insert(object_path(root, oid), compressed),
{
    let first = write_plan(root, oid, temp_name(first_suffix), compressed);
    let second = write_plan(root, oid, temp_name(second_suffix), compressed);
    assert(first.skip(0) =~= first);
    assert(second.skip(0) =~= second);
    assert(midway(disk, root, oid, compressed, first_suffix, second_suffix, 0, 0) =~= disk);
    lemma_interleaved_from(
        disk,
        root,
        oid,
        compressed,
        first_suffix,
        second_suffix,
        0,
        0,
        merged,
    );
}

/// A store of objects under one directory.
pub struct Database {
    pathname: String,
}

impl Database {
    /// The directory under which the objects lie.
    pub closed spec fn root(&self) -> Seq<char> {
        self.pathname@
    }

    /// The store under the directory `path`.
    pub fn new(path: String) -> (database: Database)
        ensures
            database.root() == path@,
    {
        Database { pathname: path }
    }

    /// The directory under which the objects lie.
    pub fn pathname(&self) -> (path: &String)
        ensures
            path@ == self.root(),
    {
        &self.pathname
    }

    /// Gives the object its identifier and returns the steps that write
    /// it. Storing the same content again gives the same identifier and the
    /// same final path.
    pub fn store<T: Object>(&self, object: &mut T) -> (ops: Vec<DiskOp>)
        requires
            old(object).well_formed(),
        ensures
            final(object).identifier() == Some(
                object_id(framed(old(object).kind(), old(object).payload())),
            ),
            final(object).payload() == old(object).payload(),
            final(object).kind() == old(object).kind(),
            final(object).well_formed(),
            is_oid(object_id(framed(old(object).kind(), old(object).payload()))),
            is_store_plan(
                ops.deep_view(),
                self.root(),
                framed(old(object).kind(), old(object).payload()),
            ),
    {
        let payload = object.bytes();
        let content = frame(object.datatype(), payload);
        let oid = compute_oid(&content);
        let ops = self.write_object(&oid, &content);
        object.set_oid(oid);
        ops
    }

    /// The steps that write `data` as the object `oid`: compressed, through
    /// a temporary file of a fresh name.
    pub fn write_object(&self, oid: &String, data: &Vec<u8>) -> (ops: Vec<DiskOp>)
        requires
            is_oid(oid@),
        ensures
            exists|suffix: Seq<char>|
                is_temp_suffix(suffix) && ops.deep_view() == #[trigger] write_plan(
                    self.root(),
                    oid@,
                    temp_name(suffix),
                    zlib_compressed(data@, BEST_SPEED),
                ),
    {
        let temp = generate_temp_name();
        let compressed = compress(data, BEST_SPEED);
        self.write_steps(oid, &temp, compressed)
    }

    /// The steps that write `compressed` as the object `oid` through the
    /// temporary file named `temp`.
    pub fn write_steps(&self, oid: &String, temp: &String, compressed: Vec<u8>) -> (ops: Vec<
        DiskOp,
    >)
        requires
            is_oid(oid@),
        ensures
            ops.deep_view() == write_plan(self.root(), oid@, temp@, compressed@),
    {
        proof {
            assert forall|i: int| 0 <= i < oid@.len() implies '\0' <= #[trigger] oid@[i]
                <= '\u{7f}' by {
                assert(crate::oid::is_lower_hex_digit(oid@[i]));
            }
        }
        let text = oid.as_str();
        let dir = join(&self.pathname, text.substring_ascii(0, 2));
        let path = join(&dir, text.substring_ascii(2, 40));
        let staging = join(&dir, temp.as_str());
        let mut ops: Vec<DiskOp> = Vec::new();
        ops.push(DiskOp::CreateDirAll { path: dir });
        ops.push(DiskOp::CreateNew { path: staging.clone() });
        ops.push(DiskOp::Append { path: staging.clone(), data: compressed });
        ops.push(DiskOp::Rename { from: staging, to: path });
        assert(ops.deep_view() =~= write_plan(self.root(), oid@, temp@, compressed@));
        ops
    }
}

} // verus!
