use mygit::order::{le_bytes, le_paths};

#[test]
fn bytes_are_ordered_lexicographically() {
    assert!(le_bytes(b"", b""));
    assert!(le_bytes(b"", b"a"));
    assert!(!le_bytes(b"a", b""));
    assert!(le_bytes(b"a", b"a"));
    assert!(le_bytes(b"a", b"b"));
    assert!(!le_bytes(b"b", b"a"));
    assert!(le_bytes(b"a", b"ab"));
    assert!(!le_bytes(b"ab", b"a"));
    assert!(le_bytes(b"ab", b"b"));
    assert!(le_bytes(&[0x7f], &[0x80]));
    assert!(!le_bytes(&[0xff], &[0x00, 0xff]));
}

#[test]
fn bytes_order_agrees_with_std_slices() {
    let samples: [&[u8]; 7] = [b"", b"a", b"ab", b"abc", b"b", &[0, 255], &[255]];
    for a in samples {
        for b in samples {
            assert_eq!(le_bytes(a, b), a <= b, "{:?} {:?}", a, b);
        }
    }
}

#[test]
fn paths_are_ordered_by_their_bytes() {
    let le = |a: &str, b: &str| le_paths(&String::from(a), &String::from(b));
    assert!(le("README", "main.txt"));
    assert!(!le("main.txt", "README"));
    assert!(le("a.txt", "b.txt"));
    assert!(le("a", "a.txt"));
    assert!(le("Z", "a"));
    assert!(le("z", "é"));
    assert!(le("same", "same"));
}

#[test]
fn paths_order_agrees_with_std_strings() {
    let samples = ["", "a", "A", "a.txt", "a/b", "b", "é", "README", "main.txt", "zz", "\u{10000}"];
    for a in samples {
        for b in samples {
            assert_eq!(le_paths(&String::from(a), &String::from(b)), a <= b, "{:?} {:?}", a, b);
        }
    }
}

#[test]
fn plain_file_names_are_ordered_as_std_orders_paths() {
    let names = ["README", "main.txt", "a", "a.txt", "ab", "B", "b", "é", "0", "_", "~", "Makefile", "a-b", "a b"];
    for a in names {
        for b in names {
            let as_paths = std::path::Path::new(a) <= std::path::Path::new(b);
            assert_eq!(le_paths(&String::from(a), &String::from(b)), as_paths, "{:?} {:?}", a, b);
        }
    }
}
