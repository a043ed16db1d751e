use mygit::database::Database;
use mygit::disk::{CreateOutcome, DiskOp};
use mygit::object::Author;
use mygit::refs::Refs;
use mygit::repo::{commit, git_path, init, objects_path, SourceFile};
use std::collections::BTreeMap;

const HELLO: &str = "b6fc4c620b67d95f953a5c1c1230aaab5db5a1b0";
const WORLD: &str = "04fea06420ca60892f73becee3614f6d023a4b7f";
const TREE: &str = "6b4362baa7cc95f0e71ea4a625874ae27eae0429";
const FIRST: &str = "9711003f63eb80c3f0edb3e46a7729f857d39972";
const SECOND: &str = "51847f20632ad4f2d09e45b47ae41c4d4df6df78";

struct Disk {
    dirs: Vec<String>,
    files: BTreeMap<String, Vec<u8>>,
}

fn do_op(disk: &mut Disk, op: &DiskOp) -> bool {
    match op {
        DiskOp::CreateDirAll { path } => {
            if !disk.dirs.contains(path) {
                disk.dirs.push(path.clone());
            }
            true
        }
        DiskOp::CreateNew { path } => {
            if disk.files.contains_key(path) {
                false
            } else {
                disk.files.insert(path.clone(), vec![]);
                true
            }
        }
        DiskOp::Append { path, data } => match disk.files.get_mut(path) {
            Some(file) => {
                file.extend_from_slice(data);
                true
            }
            None => false,
        },
        DiskOp::Rename { from, to } => match disk.files.remove(from) {
            Some(content) => {
                disk.files.insert(to.clone(), content);
                true
            }
            None => false,
        },
    }
}

fn do_all(disk: &mut Disk, ops: &[DiskOp]) -> bool {
    ops.iter().all(|op| do_op(disk, op))
}

fn object_at(disk: &Disk, oid: &str) -> Vec<u8> {
    let path = format!(".mygit/objects/{}/{}", &oid[..2], &oid[2..]);
    miniz_oxide::inflate::decompress_to_vec_zlib(&disk.files[&path]).expect("a zlib stream")
}

fn two_files() -> Vec<SourceFile> {
    vec![
        SourceFile { path: String::from("main.txt"), content: b"world".to_vec() },
        SourceFile { path: String::from("README"), content: b"hello".to_vec() },
    ]
}

fn author(time: i64) -> Author {
    Author::at(String::from("A U Thor"), String::from("author@example.com"), time)
}

#[test]
fn repository_lies_in_dot_mygit() {
    assert_eq!(git_path(&String::from("work")), "work/.mygit");
    assert_eq!(objects_path(&String::from("work")), "work/.mygit/objects");
    assert_eq!(git_path(&String::from("")), ".mygit");
}

#[test]
fn init_makes_objects_and_refs() {
    assert_eq!(
        init(&String::from("work")),
        vec![
            DiskOp::CreateDirAll { path: String::from("work/.mygit/objects") },
            DiskOp::CreateDirAll { path: String::from("work/.mygit/refs") },
        ]
    );
}

#[test]
fn snapshot_of_no_files_is_the_empty_tree() {
    let database = Database::new(String::from(".mygit/objects"));
    let snapshot = commit(&database, &vec![], &String::new(), author(0), &vec![]);
    assert_eq!(snapshot.tree, "4b825dc642cb6eb9a060e54bf8d69288fbee4904");
    assert_eq!(snapshot.writes.len(), 2);
    assert_eq!(snapshot.summary, format!("[(root-commit) {}] \n", snapshot.commit));
}

#[test]
fn snapshot_message_is_the_lines_then_an_empty_line() {
    let database = Database::new(String::from(".mygit/objects"));
    let lines = vec![String::from("subject"), String::new(), String::from("body")];
    let snapshot = commit(&database, &vec![], &String::new(), author(7), &lines);
    let mut disk = Disk { dirs: vec![], files: BTreeMap::new() };
    for ops in &snapshot.writes {
        assert!(do_all(&mut disk, ops));
    }
    let stored = String::from_utf8(object_at(&disk, &snapshot.commit)).unwrap();
    assert!(stored.ends_with("\n\nsubject\n\nbody\n\n"), "{:?}", stored);
    assert_eq!(snapshot.summary, format!("[(root-commit) {}] subject", snapshot.commit));
}

#[test]
fn snapshot_parent_is_head_without_its_newline() {
    let database = Database::new(String::from(".mygit/objects"));
    let head = format!("{}\n", FIRST);
    let snapshot = commit(&database, &two_files(), &head, author(1700000060), &vec![
        String::from("second commit"),
        String::from("with a body"),
    ]);
    assert_eq!(snapshot.tree, TREE);
    assert_eq!(snapshot.commit, SECOND);
    assert_eq!(snapshot.summary, format!("[{}] second commit", SECOND));
}

#[test]
fn end_to_end() {
    let root = String::new();
    let database = Database::new(objects_path(&root));
    let refs = Refs::new(git_path(&root));
    let mut disk = Disk { dirs: vec![], files: BTreeMap::new() };

    // Initialise the store.
    assert!(do_all(&mut disk, &init(&root)));
    assert_eq!(disk.dirs, vec![".mygit/objects", ".mygit/refs"]);
    assert_eq!(refs.read_head(disk.files.get(refs.head_path()).map(|b| String::from_utf8(b.clone()).unwrap())), "");

    // Snapshot two files.
    let head = refs.read_head(None);
    let first = commit(&database, &two_files(), &head, author(1700000000), &vec![String::from("first commit")]);
    assert_eq!(first.writes.len(), 4);
    for ops in &first.writes {
        assert!(do_all(&mut disk, ops));
    }

    // Two distinct blobs, one tree, one commit.
    assert_eq!(disk.files.len(), 4);
    assert_eq!(object_at(&disk, WORLD), b"blob 5\0world".to_vec());
    assert_eq!(object_at(&disk, HELLO), b"blob 5\0hello".to_vec());
    assert_eq!(first.tree, TREE);
    let mut tree = b"tree 70\0".to_vec();
    tree.extend_from_slice(b"100644 README\0");
    tree.extend_from_slice(&hex::decode(HELLO).unwrap());
    tree.extend_from_slice(b"100644 main.txt\0");
    tree.extend_from_slice(&hex::decode(WORLD).unwrap());
    assert_eq!(object_at(&disk, TREE), tree);

    // A root commit: no parent line.
    assert_eq!(first.commit, FIRST);
    let stored = String::from_utf8(object_at(&disk, FIRST)).unwrap();
    assert_eq!(
        stored,
        format!(
            "commit 168\0tree {}\nauthor A U Thor author@example.com 1700000000 +0000\n\
             committer A U Thor author@example.com 1700000000 +0000\n\nfirst commit\n\n",
            TREE
        )
    );
    assert!(!stored.contains("parent"));
    assert_eq!(first.summary, format!("[(root-commit) {}] first commit", FIRST));

    // HEAD advances to the commit.
    assert!(do_op(&mut disk, &refs.lock_head()));
    let ops = refs.update_head(&first.commit, CreateOutcome::Created).unwrap();
    assert!(do_all(&mut disk, &ops));
    let head = refs.read_head(Some(String::from_utf8(disk.files[".mygit/HEAD"].clone()).unwrap()));
    assert_eq!(head, format!("{}\n", FIRST));
    assert!(!disk.files.contains_key(".mygit/HEAD.lock"));

    // The same content again: a new commit, the blobs and the tree reused.
    let before: Vec<String> = disk.files.keys().cloned().collect();
    let second = commit(&database, &two_files(), &head, author(1700000060), &vec![
        String::from("second commit"),
        String::from("with a body"),
    ]);
    for ops in &second.writes {
        assert!(do_all(&mut disk, ops));
    }
    assert_eq!(second.tree, first.tree);
    assert_ne!(second.commit, first.commit);
    assert_eq!(second.commit, SECOND);
    assert_eq!(disk.files.len(), 6);
    for path in &before {
        assert!(disk.files.contains_key(path));
    }
    let stored = String::from_utf8(object_at(&disk, SECOND)).unwrap();
    assert!(stored.contains(&format!("\nparent {}\n", FIRST)));
    assert_eq!(second.summary, format!("[{}] second commit", SECOND));

    assert!(do_op(&mut disk, &refs.lock_head()));
    let ops = refs.update_head(&second.commit, CreateOutcome::Created).unwrap();
    assert!(do_all(&mut disk, &ops));
    assert_eq!(disk.files[".mygit/HEAD"], format!("{}\n", SECOND).into_bytes());
    assert!(!disk.files.contains_key(".mygit/HEAD.lock"));
}
