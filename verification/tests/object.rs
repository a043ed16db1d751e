use mygit::database::Database;
use mygit::object::{frame, Author, Blob, Commit, Datatype, Entry, Object, Tree};
use mygit::oid::compute_oid;

const HELLO: &str = "b6fc4c620b67d95f953a5c1c1230aaab5db5a1b0";
const WORLD: &str = "04fea06420ca60892f73becee3614f6d023a4b7f";

fn entry(path: &str, oid: &str) -> Entry {
    Entry { path: String::from(path), oid: String::from(oid), mode: String::from("100644") }
}

fn paths_of(tree: &Tree) -> Vec<String> {
    let mut paths = vec![];
    let mut i = 0;
    while let Some(e) = tree.entry(i) {
        paths.push(e.path.clone());
        i += 1;
    }
    paths
}

fn oids_of(tree: &Tree) -> Vec<String> {
    let mut oids = vec![];
    let mut i = 0;
    while let Some(e) = tree.entry(i) {
        oids.push(e.oid.clone());
        i += 1;
    }
    oids
}

fn identify<T: Object>(object: &T) -> String {
    compute_oid(&frame(object.datatype(), object.bytes()))
}

#[test]
fn datatype_is_named_by_its_tag() {
    assert_eq!(Datatype::Blob.to_string(), "blob");
    assert_eq!(Datatype::Tree.to_string(), "tree");
    assert_eq!(Datatype::Commit.to_string(), "commit");
}

#[test]
fn blob_payload_is_its_data() {
    let blob = Blob::new(b"hello".to_vec());
    assert_eq!(blob.bytes(), b"hello".to_vec());
    assert_eq!(*blob.datatype(), Datatype::Blob);
    let empty = Blob::new(vec![]);
    assert_eq!(empty.bytes(), Vec::<u8>::new());
}

#[test]
fn object_has_no_oid_until_it_is_given_one() {
    let mut blob = Blob::new(b"hello".to_vec());
    assert_eq!(blob.oid(), None);
    blob.set_oid(String::from(HELLO));
    assert_eq!(blob.oid(), Some(&String::from(HELLO)));
    assert_eq!(blob.bytes(), b"hello".to_vec());

    let mut tree = Tree::new(vec![]);
    assert_eq!(tree.oid(), None);
    tree.set_oid(String::from(WORLD));
    assert_eq!(tree.oid(), Some(&String::from(WORLD)));

    let parent = String::new();
    let tree_oid = String::from(HELLO);
    let author = Author::at(String::from("n"), String::from("e"), 1);
    let mut commit = Commit::new((&parent, &tree_oid, author, String::from("m")));
    assert_eq!(commit.oid(), None);
    let before = commit.bytes();
    commit.set_oid(String::from(WORLD));
    assert_eq!(commit.oid(), Some(&String::from(WORLD)));
    assert_eq!(commit.bytes(), before);
}

#[test]
fn tree_lists_its_entries_by_path() {
    let tree = Tree::new(vec![entry("main.txt", WORLD), entry("README", HELLO)]);
    assert_eq!(*tree.datatype(), Datatype::Tree);
    assert_eq!(tree.len(), 2);
    assert_eq!(paths_of(&tree), vec!["README", "main.txt"]);
    assert_eq!(oids_of(&tree), vec![HELLO, WORLD]);
    assert!(tree.entry(2).is_none());
}

#[test]
fn tree_payload_is_mode_path_nul_and_raw_oid_per_entry() {
    let tree = Tree::new(vec![entry("main.txt", WORLD), entry("README", HELLO)]);
    let expected = hex::decode(
        "31303036343420524541444d4500b6fc4c620b67d95f953a5c1c1230aaab5db5a1b0\
         313030363434206d61696e2e7478740004fea06420ca60892f73becee3614f6d023a4b7f",
    )
    .unwrap();
    assert!(tree.is_well_formed());
    assert_eq!(tree.bytes(), expected);
    assert_eq!(tree.bytes().len(), 70);
    assert_eq!(identify(&tree), "6b4362baa7cc95f0e71ea4a625874ae27eae0429");
}

#[test]
fn tree_holds_the_oid_as_twenty_raw_bytes() {
    let tree = Tree::new(vec![entry("f", "000102030405060708090a0b0c0d0e0f10111213")]);
    let mut expected = b"100644 f\0".to_vec();
    expected.extend(0u8..20);
    assert_eq!(tree.bytes(), expected);
}

#[test]
fn tree_reads_oids_of_either_case() {
    let lower = Tree::new(vec![entry("f", "abcdef")]);
    let upper = Tree::new(vec![entry("f", "ABCDEF")]);
    assert_eq!(lower.bytes(), [&b"100644 f\0"[..], &[0xab, 0xcd, 0xef][..]].concat());
    assert_eq!(lower.bytes(), upper.bytes());
}

#[test]
fn empty_tree_has_the_well_known_oid() {
    let tree = Tree::new(vec![]);
    assert!(tree.is_well_formed());
    assert_eq!(tree.len(), 0);
    assert_eq!(tree.bytes(), Vec::<u8>::new());
    assert_eq!(identify(&tree), "4b825dc642cb6eb9a060e54bf8d69288fbee4904");
}

#[test]
fn tree_does_not_depend_on_the_order_given() {
    let one = Tree::new(vec![entry("b.txt", WORLD), entry("a.txt", HELLO)]);
    let other = Tree::new(vec![entry("a.txt", HELLO), entry("b.txt", WORLD)]);
    assert_eq!(paths_of(&one), vec!["a.txt", "b.txt"]);
    assert_eq!(paths_of(&other), vec!["a.txt", "b.txt"]);
    assert_eq!(one.bytes(), other.bytes());
    assert_eq!(identify(&one), identify(&other));
}

#[test]
fn tree_stored_in_either_order_gets_the_same_oid() {
    let database = Database::new(String::from("objects"));
    let mut one = Tree::new(vec![entry("b.txt", WORLD), entry("a.txt", HELLO)]);
    let mut other = Tree::new(vec![entry("a.txt", HELLO), entry("b.txt", WORLD)]);
    database.store(&mut one);
    database.store(&mut other);
    assert!(one.oid().is_some());
    assert_eq!(one.oid(), other.oid());
}

#[test]
fn tree_of_many_entries_is_sorted_whatever_the_order() {
    let names = ["m", "a", "z", "B", "b", "aa", "a.txt", "A", "é", "0", "ab", "a-b"];
    let mut sorted: Vec<String> = names.iter().map(|n| n.to_string()).collect();
    sorted.sort();
    let forward = Tree::new(names.iter().map(|n| entry(n, HELLO)).collect());
    let backward = Tree::new(names.iter().rev().map(|n| entry(n, HELLO)).collect());
    assert_eq!(paths_of(&forward), sorted);
    assert_eq!(paths_of(&backward), sorted);
    assert_eq!(forward.bytes(), backward.bytes());
}

#[test]
fn tree_keeps_entries_of_one_path_in_the_order_given() {
    let tree = Tree::new(vec![
        entry("b", "03"),
        entry("a", "01"),
        entry("b", "04"),
        entry("a", "02"),
        entry("b", "05"),
    ]);
    assert_eq!(paths_of(&tree), vec!["a", "a", "b", "b", "b"]);
    assert_eq!(oids_of(&tree), vec!["01", "02", "03", "04", "05"]);
}

#[test]
fn tree_with_a_malformed_oid_is_not_well_formed() {
    assert!(!Tree::new(vec![entry("a", "xyz")]).is_well_formed());
    assert!(!Tree::new(vec![entry("a", HELLO), entry("b", "123")]).is_well_formed());
    assert!(!Tree::new(vec![entry("a", "not hex at all!")]).is_well_formed());
    assert!(Tree::new(vec![entry("a", HELLO), entry("b", WORLD)]).is_well_formed());
}

#[test]
fn tree_does_not_sanitise_paths_or_modes() {
    let tree = Tree::new(vec![Entry {
        path: String::from("dir/na me"),
        oid: String::from("ff"),
        mode: String::from("40000"),
    }]);
    assert_eq!(tree.bytes(), [&b"40000 dir/na me\0"[..], &[0xff][..]].concat());
}

#[test]
fn root_commit_has_no_parent_line() {
    let parent = String::new();
    let tree = String::from("6b4362baa7cc95f0e71ea4a625874ae27eae0429");
    let author = Author::at(String::from("A U Thor"), String::from("author@example.com"), 1700000000);
    let commit = Commit::new((&parent, &tree, author, String::from("first commit\n\n")));
    let expected = "tree 6b4362baa7cc95f0e71ea4a625874ae27eae0429\n\
                    author A U Thor author@example.com 1700000000 +0000\n\
                    committer A U Thor author@example.com 1700000000 +0000\n\
                    \n\
                    first commit\n\n";
    assert_eq!(*commit.datatype(), Datatype::Commit);
    assert_eq!(commit.bytes(), expected.as_bytes().to_vec());
    assert_eq!(commit.bytes().len(), 168);
    assert_eq!(identify(&commit), "9711003f63eb80c3f0edb3e46a7729f857d39972");
}

#[test]
fn later_commit_names_its_parent_after_the_tree() {
    let parent = String::from("9711003f63eb80c3f0edb3e46a7729f857d39972");
    let tree = String::from("6b4362baa7cc95f0e71ea4a625874ae27eae0429");
    let author = Author::at(String::from("A U Thor"), String::from("author@example.com"), 1700000000);
    let commit = Commit::new((&parent, &tree, author, String::from("first commit\n\n")));
    let expected = "tree 6b4362baa7cc95f0e71ea4a625874ae27eae0429\n\
                    parent 9711003f63eb80c3f0edb3e46a7729f857d39972\n\
                    author A U Thor author@example.com 1700000000 +0000\n\
                    committer A U Thor author@example.com 1700000000 +0000\n\
                    \n\
                    first commit\n\n";
    assert_eq!(commit.bytes(), expected.as_bytes().to_vec());
    assert_eq!(identify(&commit), "9ebcab703c9388e47d22370c5e07b57054ccdd17");
}

#[test]
fn commit_message_may_be_empty_or_not_ascii() {
    let parent = String::new();
    let tree = String::from("t");
    let commit = Commit::new((&parent, &tree, Author::at(String::from("ñ"), String::new(), 5), String::new()));
    assert_eq!(commit.bytes(), "tree t\nauthor ñ  5 +0000\ncommitter ñ  5 +0000\n\n".as_bytes().to_vec());
    let unicode = Commit::new((&parent, &tree, Author::at(String::new(), String::new(), 0), String::from("héllo ✓")));
    assert_eq!(unicode.bytes(), "tree t\nauthor   0 +0000\ncommitter   0 +0000\n\nhéllo ✓".as_bytes().to_vec());
}

#[test]
fn encoding_twice_gives_the_same_bytes_and_oid() {
    let blob = Blob::new(b"same".to_vec());
    assert_eq!(blob.bytes(), blob.bytes());
    assert_eq!(identify(&blob), identify(&Blob::new(b"same".to_vec())));

    let tree = Tree::new(vec![entry("x", HELLO), entry("y", WORLD)]);
    assert_eq!(tree.bytes(), tree.bytes());
    assert_eq!(identify(&tree), identify(&Tree::new(vec![entry("x", HELLO), entry("y", WORLD)])));

    let parent = String::from(HELLO);
    let tree_oid = String::from(WORLD);
    let one = Commit::new((&parent, &tree_oid, Author::at(String::from("n"), String::from("e"), 9), String::from("m")));
    let two = Commit::new((&parent, &tree_oid, Author::at(String::from("n"), String::from("e"), 9), String::from("m")));
    assert_eq!(one.bytes(), one.bytes());
    assert_eq!(one.bytes(), two.bytes());
    assert_eq!(identify(&one), identify(&two));
}

#[test]
fn commits_made_at_different_times_differ() {
    let parent = String::new();
    let tree_oid = String::from(WORLD);
    let one = Commit::new((&parent, &tree_oid, Author::at(String::from("n"), String::from("e"), 9), String::from("m")));
    let two = Commit::new((&parent, &tree_oid, Author::at(String::from("n"), String::from("e"), 10), String::from("m")));
    assert_ne!(identify(&one), identify(&two));
}

#[test]
fn tree_keeps_a_nul_inside_a_path() {
    let tree = Tree::new(vec![entry("a\0b", "00")]);
    assert_eq!(tree.bytes(), b"100644 a\0b\0\0".to_vec());
}

#[test]
fn tree_with_upper_and_lower_case_paths_puts_upper_case_first() {
    let tree = Tree::new(vec![entry("b", HELLO), entry("a", HELLO), entry("B", HELLO), entry("A", HELLO)]);
    assert_eq!(paths_of(&tree), vec!["A", "B", "a", "b"]);
}

#[test]
fn tree_order_is_that_of_a_stable_sort_by_path() {
    let mut state: u64 = 0x2545f4914f6cdd1d;
    let mut next = |below: u64| {
        state ^= state << 13;
        state ^= state >> 7;
        state ^= state << 17;
        state % below
    };
    let alphabet = ["a", "b", "B", ".", "-", "é", "0", "~"];
    for _ in 0..200 {
        let count = next(12) as usize;
        let mut given: Vec<(String, String)> = vec![];
        for serial in 0..count {
            let mut path = String::new();
            for _ in 0..next(3) {
                path.push_str(alphabet[next(alphabet.len() as u64) as usize]);
            }
            given.push((path, format!("{:02x}", serial)));
        }
        let mut expected = given.clone();
        expected.sort_by(|a, b| a.0.cmp(&b.0));
        let tree = Tree::new(given.iter().map(|(path, oid)| entry(path, oid)).collect());
        let listed: Vec<(String, String)> = paths_of(&tree).into_iter().zip(oids_of(&tree)).collect();
        assert_eq!(listed, expected);
    }
}
