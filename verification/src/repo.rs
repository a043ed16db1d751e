//! The two things a repository is asked to do: come into being, and record
//! a snapshot of the working directory as a commit.

use crate::database::{is_store_plan, Database};
use crate::disk::{child_path, join, DiskOp, DiskStep};
use crate::object::author::AuthorView;
use crate::object::commit::commit_payload;
use crate::object::tree::{
    is_stable_sort, lemma_sorted_entries_are_given, tree_payload, EntryView,
};
use crate::object::{framed, Author, Blob, Commit, Datatype, Entry, Object, Tree};
use crate::oid::{is_hex, is_oid, lemma_oid_is_hex, object_id};
use crate::text::{join_with, joined, trim, trimmed};
use vstd::prelude::*;

verus! {

/// The directory of the repository inside the working directory `root`.
pub open spec fn git_dir(root: Seq<char>) -> Seq<char> {
    child_path(root, ".mygit"@)
}

/// The directory of the objects inside the working directory `root`.
pub open spec fn objects_dir(root: Seq<char>) -> Seq<char> {
    child_path(git_dir(root), "objects"@)
}

/// The directory of the repository inside the working directory `root`.
pub fn git_path(root: &String) -> (path: String)
    ensures
        path@ == git_dir(root@),
{
    join(root, ".mygit")
}

/// The directory of the objects inside the working directory `root`.
pub fn objects_path(root: &String) -> (path: String)
    ensures
        path@ == objects_dir(root@),
{
    join(&git_path(root), "objects")
}

/// The steps that make an empty repository in the working directory
/// `root`: its directory of objects and its directory of references.
pub fn init(root: &String) -> (ops: Vec<DiskOp>)
    ensures
        ops.deep_view() == seq![
            DiskStep::CreateDirAll { path: objects_dir(root@) },
            DiskStep::CreateDirAll { path: child_path(git_dir(root@), "refs"@) },
        ],
{
    let git = git_path(root);
    let mut ops: Vec<DiskOp> = Vec::new();
    ops.push(DiskOp::CreateDirAll { path: join(&git, "objects") });
    ops.push(DiskOp::CreateDirAll { path: join(&git, "refs") });
    assert(ops.deep_view() =~= seq![
        DiskStep::CreateDirAll { path: objects_dir(root@) },
        DiskStep::CreateDirAll { path: child_path(git_dir(root@), "refs"@) },
    ]);
    ops
}

/// One file of the working directory: its path and what it holds.
pub struct SourceFile {
    pub path: String,
    pub content: Vec<u8>,
}

/// A [`SourceFile`] as a mathematical value.
pub struct SourceFileView {
    pub path: Seq<char>,
    pub content: Seq<u8>,
}

impl View for SourceFile {
    type V = SourceFileView;

    open spec fn view(&self) -> SourceFileView {
        SourceFileView { path: self.path@, content: self.content@ }
    }
}

impl DeepView for SourceFile {
    type V = SourceFileView;

    open spec fn deep_view(&self) -> SourceFileView {
        self@
    }
}

/// The entry that stands for a file in the snapshot's tree: the file's
/// path, the identifier of the blob of its content, and the mode of a
/// regular file.
pub open spec fn blob_entry(file: SourceFileView) -> EntryView {
    EntryView {
        path: file.path,
        oid: object_id(framed(Datatype::Blob, file.content)),
        mode: "100644"@,
    }
}

/// The entries that stand for the files, in the files' order.
pub open spec fn blob_entries(files: Seq<SourceFileView>) -> Seq<EntryView> {
    Seq::new(files.len(), |i: int| blob_entry(files[i]))
}

/// The message of a commit, from the lines that were typed: each line and
/// then an empty one, all ended by a newline.
pub open spec fn message_text(lines: Seq<Seq<char>>) -> Seq<char> {
    joined(lines.push(seq!['\n']), seq!['\n'])
}

/// The first line of the message.
pub open spec fn first_line(lines: Seq<Seq<char>>) -> Seq<char> {
    lines.push(seq!['\n'])[0]
}

/// What is reported of a new commit: its identifier in brackets, marked
/// where it is the first of its history, and the first line of its
/// message.
pub open spec fn summary_line(parent: Seq<char>, oid: Seq<char>, first: Seq<char>) -> Seq<char> {
    seq!['['] + (if parent.len() == 0 {
        "(root-commit) "@
    } else {
        Seq::empty()
    }) + oid + "] "@ + first
}

/// The framed bytes of the tree with the given entries.
pub open spec fn tree_content(entries: Seq<EntryView>) -> Seq<u8> {
    framed(Datatype::Tree, tree_payload(entries))
}

/// The framed bytes of the commit with the given parts.
pub open spec fn commit_content(
    parent: Seq<char>,
    tree: Seq<char>,
    author: AuthorView,
    message: Seq<char>,
) -> Seq<u8> {
    framed(Datatype::Commit, commit_payload(parent, tree, author, message))
}

/// A recorded snapshot: the identifiers of its tree and its commit, the
/// steps that write each object (the blobs in the files' order, then the
/// tree, then the commit), and the line that reports the commit.
pub struct Snapshot {
    pub tree: String,
    pub commit: String,
    pub writes: Vec<Vec<DiskOp>>,
    pub summary: String,
}

/// `sorted` is the tree of the snapshot of `files`, and `snapshot` records
/// it in the store at `root` as the commit after `head`.
pub open spec fn records(
    snapshot: Snapshot,
    sorted: Seq<EntryView>,
    root: Seq<char>,
    files: Seq<SourceFileView>,
    head: Seq<char>,
    author: AuthorView,
    lines: Seq<Seq<char>>,
) -> bool {
    let parent = trimmed(head);
    let message = message_text(lines);
    let writes = snapshot.writes.deep_view();
    let count = files.len() as int;
    &&& is_stable_sort(sorted, blob_entries(files))
    &&& snapshot.tree@ == object_id(tree_content(sorted))
    &&& snapshot.commit@ == object_id(commit_content(parent, snapshot.tree@, author, message))
    &&& writes.len() == count + 2
    &&& forall|i: int|
        0 <= i < count ==> is_store_plan(
            #[trigger] writes[i],
            root,
            framed(Datatype::Blob, files[i].content),
        )
    &&& is_store_plan(writes[count], root, tree_content(sorted))
    &&& is_store_plan(
        writes[count + 1],
        root,
        commit_content(parent, snapshot.tree@, author, message),
    )
    &&& snapshot.summary@ == summary_line(parent, snapshot.commit@, first_line(lines))
}

/// Records the files as a commit after the one that `head`, the content of
/// the pointer's file, names: a blob for each file, one tree of all of
/// them in the order of their paths, and the commit. The objects are
/// written by the steps returned; advancing the pointer is left to
/// [`crate::refs::Refs::update_head`].
pub fn commit(
    database: &Database,
    files: &Vec<SourceFile>,
    head: &String,
    author: Author,
    lines: &Vec<String>,
) -> (snapshot: Snapshot)
    ensures
        exists|sorted: Seq<EntryView>| #[trigger]
            records(
                snapshot,
                sorted,
                database.root(),
                files.deep_view(),
                head@,
                author@,
                lines.deep_view(),
            ),
{
    let ghost given = files.deep_view();
    let mut writes: Vec<Vec<DiskOp>> = Vec::new();
    let mut entries: Vec<Entry> = Vec::new();
    let mut i: usize = 0;
    while i < files.len()
        invariant
            i <= files.len(),
            given == files.deep_view(),
            entries.deep_view() =~= blob_entries(given.take(i as int)),
            forall|k: int| 0 <= k < i ==> is_oid(#[trigger] entries.deep_view()[k].oid),
            writes.deep_view().len() == i,
            forall|k: int|
                0 <= k < i ==> is_store_plan(
                    #[trigger] writes.deep_view()[k],
                    database.root(),
                    framed(Datatype::Blob, given[k].content),
                ),
        decreases files.len() - i,
    {
        let file = &files[i];
        assert(file@ == given[i as int]);
        let content = file.content.clone();
        assert(content@ =~= file.content@);
        let mut blob = Blob::new(content);
        let ops = database.store(&mut blob);
        let oid = blob.oid().unwrap().clone();
        let entry = Entry { path: file.path.clone(), oid, mode: String::from_str("100644") };
        assert(entry@ == blob_entry(given[i as int]));
        let ghost listed = entries.deep_view();
        entries.push(entry);
        let ghost before = writes.deep_view();
        writes.push(ops);
        proof {
            assert(entries.deep_view() =~= listed.push(blob_entry(given[i as int])));
            assert(entries.deep_view() =~= blob_entries(given.take(i + 1)));
            let after = writes.deep_view();
            assert forall|k: int| 0 <= k < i + 1 implies is_store_plan(
                #[trigger] after[k],
                database.root(),
                framed(Datatype::Blob, given[k].content),
            ) by {
                if k < i {
                    assert(after[k] == before[k]);
                }
            }
        }
        i += 1;
    }
    assert(given.take(i as int) =~= given);
    let ghost unsorted = entries.deep_view();

    let mut tree = Tree::new(entries);
    let ghost sorted = tree.entries();
    proof {
        assert forall|k: int| 0 <= k < sorted.len() implies is_hex(#[trigger] sorted[k].oid) by {
            lemma_sorted_entries_are_given(sorted, unsorted, k);
            let j = choose|j: int| 0 <= j < unsorted.len() && unsorted[j] == sorted[k];
            lemma_oid_is_hex(unsorted[j].oid);
        }
    }
    let tree_ops = database.store(&mut tree);
    let tree_oid = tree.oid().unwrap().clone();
    let ghost blob_writes = writes.deep_view();
    writes.push(tree_ops);

    let parent = trim(head);
    proof {
        reveal_strlit("\n");
        reveal_strlit("[");
    }
    let mut message = join_with(lines, "\n");
    if lines.len() > 0 {
        message.append("\n");
    }
    message.append("\n");
    proof {
        let all = lines.deep_view().push(seq!['\n']);
        assert(all.drop_last() =~= lines.deep_view());
        assert(all.last() == seq!['\n']);
        assert("\n"@ =~= seq!['\n']);
        if lines.len() == 0 {
            assert(joined(lines.deep_view(), seq!['\n']) =~= Seq::empty());
        }
        assert(message@ =~= message_text(lines.deep_view()));
    }
    let ghost who = author@;
    let ghost tree_writes = writes.deep_view();
    let mut record = Commit::new((&parent, &tree_oid, author, message));
    let commit_ops = database.store(&mut record);
    let commit_oid = record.oid().unwrap().clone();
    writes.push(commit_ops);

    let mut summary = String::from_str("[");
    if parent.as_str().is_empty() {
        summary.append("(root-commit) ");
    }
    summary.append(commit_oid.as_str());
    summary.append("] ");
    if lines.len() > 0 {
        summary.append(lines[0].as_str());
        assert(first_line(lines.deep_view()) == lines[0]@);
    } else {
        summary.append("\n");
        assert(first_line(lines.deep_view()) =~= "\n"@);
    }
    assert(summary@ =~= summary_line(parent@, commit_oid@, first_line(lines.deep_view())));

    let snapshot = Snapshot { tree: tree_oid, commit: commit_oid, writes, summary };
    proof {
        let all = snapshot.writes.deep_view();
        assert forall|k: int| 0 <= k < given.len() implies is_store_plan(
            #[trigger] all[k],
            database.root(),
            framed(Datatype::Blob, given[k].content),
        ) by {
            assert(all[k] == blob_writes[k]);
        }
        assert(all[given.len() as int] == tree_writes[given.len() as int]);
        assert(records(
            snapshot,
            sorted,
            database.root(),
            given,
            head@,
            who,
            lines.deep_view(),
        ));
    }
    snapshot
}

} // verus!
