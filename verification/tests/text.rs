use mygit::object::{frame, Author, Datatype};
use mygit::text::{is_whitespace_char, join_with, push_decimal, push_signed_decimal, trim};

fn decimal_of(n: u64) -> String {
    let mut out = String::new();
    push_decimal(&mut out, n);
    out
}

fn signed_decimal_of(i: i64) -> String {
    let mut out = String::new();
    push_signed_decimal(&mut out, i);
    out
}

#[test]
fn decimal_has_no_leading_zeros() {
    assert_eq!(decimal_of(0), "0");
    assert_eq!(decimal_of(7), "7");
    assert_eq!(decimal_of(10), "10");
    assert_eq!(decimal_of(99), "99");
    assert_eq!(decimal_of(100), "100");
    assert_eq!(decimal_of(12345), "12345");
    assert_eq!(decimal_of(u64::MAX), "18446744073709551615");
}

#[test]
fn decimal_is_appended_to_what_is_there() {
    let mut out = String::from("blob ");
    push_decimal(&mut out, 42);
    assert_eq!(out, "blob 42");
}

#[test]
fn decimal_agrees_with_std_formatting() {
    let mut n: u64 = 1;
    for _ in 0..64 {
        assert_eq!(decimal_of(n), format!("{}", n));
        assert_eq!(decimal_of(n - 1), format!("{}", n - 1));
        n = n.wrapping_mul(2);
    }
}

#[test]
fn signed_decimal_puts_a_minus_before_the_magnitude() {
    assert_eq!(signed_decimal_of(0), "0");
    assert_eq!(signed_decimal_of(1700000000), "1700000000");
    assert_eq!(signed_decimal_of(-1), "-1");
    assert_eq!(signed_decimal_of(-86400), "-86400");
    assert_eq!(signed_decimal_of(i64::MAX), "9223372036854775807");
    assert_eq!(signed_decimal_of(i64::MIN), "-9223372036854775808");
}

#[test]
fn whitespace_is_what_std_calls_whitespace() {
    for code in 0..=0x10ffffu32 {
        if let Some(c) = char::from_u32(code) {
            assert_eq!(is_whitespace_char(c), c.is_whitespace(), "U+{:04X}", code);
        }
    }
}

#[test]
fn trim_removes_whitespace_at_both_ends_only() {
    assert_eq!(trim(&String::from("")), "");
    assert_eq!(trim(&String::from("abc")), "abc");
    assert_eq!(trim(&String::from("abc\n")), "abc");
    assert_eq!(trim(&String::from("  a b\tc \r\n")), "a b\tc");
    assert_eq!(trim(&String::from(" \n\t ")), "");
    assert_eq!(trim(&String::from("\u{3000}é x\u{a0}")), "é x");
}

#[test]
fn trim_agrees_with_std_trim() {
    let samples = [
        "",
        "\n",
        "b6fc4c620b67d95f953a5c1c1230aaab5db5a1b0\n",
        "\u{2028}line\u{2029}",
        " \u{1680}mixed \u{205f} inner\u{202f}",
        "no-space",
        "\u{feff}not whitespace\u{200b}",
    ];
    for sample in samples {
        assert_eq!(trim(&String::from(sample)), sample.trim());
    }
}

#[test]
fn join_puts_the_separator_between_neighbours() {
    let none: Vec<String> = vec![];
    assert_eq!(join_with(&none, ", "), "");
    assert_eq!(join_with(&vec![String::from("one")], ", "), "one");
    let three = vec![String::from("a"), String::from(""), String::from("c")];
    assert_eq!(join_with(&three, "-"), "a--c");
    assert_eq!(join_with(&three, ""), "ac");
}

#[test]
fn author_line_is_name_email_seconds_and_utc() {
    let author = Author::at(String::from("A U Thor"), String::from("author@example.com"), 1700000000);
    assert_eq!(author.to_string(), "A U Thor author@example.com 1700000000 +0000");
    assert_eq!(author.time(), 1700000000);
}

#[test]
fn author_line_before_the_epoch_has_a_negative_time() {
    let author = Author::at(String::from("Ada"), String::from("<ada@example.com>"), -42);
    assert_eq!(author.to_string(), "Ada <ada@example.com> -42 +0000");
}

#[test]
fn author_line_keeps_empty_name_and_email() {
    let author = Author::at(String::new(), String::new(), 0);
    assert_eq!(author.to_string(), "  0 +0000");
}

#[test]
fn author_made_now_carries_the_present_time() {
    let author = Author::new(String::from("Now"), String::from("now@example.com"));
    // After 2020 and before 2100.
    assert!(author.time() > 1_577_836_800);
    assert!(author.time() < 4_102_444_800);
    let line = author.to_string();
    assert!(line.starts_with("Now now@example.com "));
    assert!(line.ends_with(" +0000"));
    assert_eq!(line, format!("Now now@example.com {} +0000", author.time()));
}

#[test]
fn frame_spells_kind_length_and_nul_before_the_payload() {
    assert_eq!(frame(&Datatype::Blob, b"hello".to_vec()), b"blob 5\0hello".to_vec());
    assert_eq!(frame(&Datatype::Tree, vec![]), b"tree 0\0".to_vec());
    assert_eq!(frame(&Datatype::Commit, vec![0u8; 12]), [&b"commit 12\0"[..], &[0u8; 12][..]].concat());
}

#[test]
fn frame_counts_bytes_not_characters() {
    let payload = "héllo".as_bytes().to_vec();
    assert_eq!(frame(&Datatype::Blob, payload), "blob 6\0héllo".as_bytes().to_vec());
}

#[test]
fn author_line_ends_as_chrono_formats_seconds_and_offset() {
    for time in [0i64, 1, 59, 1431648000, 1700000000, 253402300799, -1, -86400, -2208988800] {
        let moment = chrono::DateTime::from_timestamp(time, 0).unwrap();
        let author = Author::at(String::from("n"), String::from("e"), time);
        assert_eq!(author.to_string(), format!("n e {}", moment.format("%s %z")));
    }
}
