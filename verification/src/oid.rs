//! Content identifiers: the SHA-1 digest of an object's framed bytes, spelt
//! as forty lowercase hexadecimal digits, and the way back from that
//! spelling to the twenty raw bytes.

use crate::text::digit_char;
use vstd::prelude::*;

verus! {

/// `c` is one of `0-9`, `a-f`, `A-F`.
pub open spec fn is_hex_digit(c: char) -> bool {
    ('0' <= c <= '9') || ('a' <= c <= 'f') || ('A' <= c <= 'F')
}

/// `c` is one of `0-9`, `a-f`.
pub open spec fn is_lower_hex_digit(c: char) -> bool {
    ('0' <= c <= '9') || ('a' <= c <= 'f')
}

/// The number that a hexadecimal digit stands for.
pub open spec fn hex_digit_value(c: char) -> int
    recommends
        is_hex_digit(c),
{
    if '0' <= c <= '9' {
        c as int - '0' as int
    } else if 'A' <= c <= 'F' {
        c as int - 'A' as int + 10
    } else {
        c as int - 'a' as int + 10
    }
}

/// The lowercase digit for a number below sixteen.
pub open spec fn lower_hex_digit(v: int) -> char
    recommends
        0 <= v < 16,
{
    if v < 10 {
        digit_char(v)
    } else if v == 10 {
        'a'
    } else if v == 11 {
        'b'
    } else if v == 12 {
        'c'
    } else if v == 13 {
        'd'
    } else if v == 14 {
        'e'
    } else {
        'f'
    }
}

/// `s` spells bytes in hexadecimal: an even number of hexadecimal digits.
pub open spec fn is_hex(s: Seq<char>) -> bool {
    &&& s.len() % 2 == 0
    &&& forall|i: int| 0 <= i < s.len() ==> is_hex_digit(#[trigger] s[i])
}

/// The bytes that a hexadecimal string spells, two digits to a byte, the
/// high half first.
pub open spec fn hex_decoded(s: Seq<char>) -> Seq<u8>
    recommends
        is_hex(s),
{
    Seq::new(
        s.len() / 2,
        |i: int| (16 * hex_digit_value(s[2 * i]) + hex_digit_value(s[2 * i + 1])) as u8,
    )
}

/// The lowercase hexadecimal spelling of a byte string.
pub open spec fn hex_encoded(bytes: Seq<u8>) -> Seq<char> {
    Seq::new(
        2 * bytes.len(),
        |i: int|
            lower_hex_digit(
                if i % 2 == 0 {
                    bytes[i / 2] as int / 16
                } else {
                    bytes[i / 2] as int % 16
                },
            ),
    )
}

/// `s` has the shape of a content identifier: forty lowercase hexadecimal
/// digits.
pub open spec fn is_oid(s: Seq<char>) -> bool {
    &&& s.len() == 40
    &&& forall|i: int| 0 <= i < s.len() ==> is_lower_hex_digit(#[trigger] s[i])
}

/// Spelling bytes in hexadecimal and reading the spelling back gives the
/// bytes again.
pub proof fn lemma_hex_round_trip(bytes: Seq<u8>)
    ensures
        is_hex(hex_encoded(bytes)),
        hex_decoded(hex_encoded(bytes)) == bytes,
{
    let s = hex_encoded(bytes);
    assert forall|i: int| 0 <= i < s.len() implies is_hex_digit(#[trigger] s[i]) by {
        lemma_lower_hex_digit(bytes[i / 2] as int / 16);
        lemma_lower_hex_digit(bytes[i / 2] as int % 16);
    }
    assert forall|i: int| 0 <= i < bytes.len() implies hex_decoded(s)[i] == bytes[i] by {
        let b = bytes[i] as int;
        lemma_lower_hex_digit(b / 16);
        lemma_lower_hex_digit(b % 16);
        assert((2 * i) / 2 == i && (2 * i + 1) / 2 == i);
        assert((2 * i) % 2 == 0 && (2 * i + 1) % 2 == 1);
        assert(s[2 * i] == lower_hex_digit(b / 16));
        assert(s[2 * i + 1] == lower_hex_digit(b % 16));
        assert(16 * (b / 16) + b % 16 == b);
    }
    assert(hex_decoded(s) =~= bytes);
}

/// The hexadecimal spelling of twenty bytes has the shape of a content
/// identifier.
pub proof fn lemma_hex_of_digest_is_oid(bytes: Seq<u8>)
    requires
        bytes.len() == 20,
    ensures
        is_oid(hex_encoded(bytes)),
{
    let s = hex_encoded(bytes);
    assert forall|i: int| 0 <= i < s.len() implies is_lower_hex_digit(#[trigger] s[i]) by {
        lemma_lower_hex_digit(bytes[i / 2] as int / 16);
        lemma_lower_hex_digit(bytes[i / 2] as int % 16);
    }
}

/// A content identifier spells bytes in hexadecimal, twenty of them.
pub proof fn lemma_oid_is_hex(s: Seq<char>)
    requires
        is_oid(s),
    ensures
        is_hex(s),
        hex_decoded(s).len() == 20,
{
    assert forall|i: int| 0 <= i < s.len() implies is_hex_digit(#[trigger] s[i]) by {
        assert(is_lower_hex_digit(s[i]));
    }
}

proof fn lemma_lower_hex_digit(v: int)
    requires
        0 <= v < 16,
    ensures
        is_lower_hex_digit(lower_hex_digit(v)),
        is_hex_digit(lower_hex_digit(v)),
        hex_digit_value(lower_hex_digit(v)) == v,
{
}

/// One lowercase hexadecimal digit as a string slice.
fn lower_hex_str(v: u8) -> (s: &'static str)
    requires
        v < 16,
    ensures
        s@ == seq![lower_hex_digit(v as int)],
{
    proof {
        reveal_strlit("0");
        reveal_strlit("1");
        reveal_strlit("2");
        reveal_strlit("3");
        reveal_strlit("4");
        reveal_strlit("5");
        reveal_strlit("6");
        reveal_strlit("7");
        reveal_strlit("8");
        reveal_strlit("9");
        reveal_strlit("a");
        reveal_strlit("b");
        reveal_strlit("c");
        reveal_strlit("d");
        reveal_strlit("e");
        reveal_strlit("f");
    }
    let s = if v == 0 {
        "0"
    } else if v == 1 {
        "1"
    } else if v == 2 {
        "2"
    } else if v == 3 {
        "3"
    } else if v == 4 {
        "4"
    } else if v == 5 {
        "5"
    } else if v == 6 {
        "6"
    } else if v == 7 {
        "7"
    } else if v == 8 {
        "8"
    } else if v == 9 {
        "9"
    } else if v == 10 {
        "a"
    } else if v == 11 {
        "b"
    } else if v == 12 {
        "c"
    } else if v == 13 {
        "d"
    } else if v == 14 {
        "e"
    } else {
        "f"
    };
    assert(s@ =~= seq![lower_hex_digit(v as int)]);
    s
}

/// Spells `bytes` in lowercase hexadecimal.
pub fn hex_encode(bytes: &Vec<u8>) -> (s: String)
    ensures
        s@ == hex_encoded(bytes@),
{
    let mut s = String::new();
    let mut i: usize = 0;
    while i < bytes.len()
        invariant
            i <= bytes.len(),
            s@ == hex_encoded(bytes@.take(i as int)),
        decreases bytes.len() - i,
    {
        let b = bytes[i];
        let ghost before = s@;
        s.append(lower_hex_str(b / 16));
        s.append(lower_hex_str(b % 16));
        proof {
            let done = bytes@.take(i as int);
            let next = bytes@.take(i + 1);
            let target = hex_encoded(next);
            assert(s@.len() == target.len());
            assert forall|k: int| 0 <= k < target.len() implies s@[k] == target[k] by {
                if k < 2 * i {
                    assert(before[k] == hex_encoded(done)[k]);
                    assert(done[k / 2] == next[k / 2]);
                } else {
                    assert(k / 2 == i as int);
                    assert(next[k / 2] == b);
                }
            }
            assert(s@ =~= target);
        }
        i += 1;
    }
    assert(bytes@.take(i as int) =~= bytes@);
    s
}

/// Decides whether `s` has the shape of a content identifier.
pub fn is_valid_oid(s: &String) -> (valid: bool)
    ensures
        valid == is_oid(s@),
{
    if !s.is_ascii() {
        proof {
            if is_oid(s@) {
                assert forall|i: int| 0 <= i < s@.len() implies '\0' <= #[trigger] s@[i]
                    <= '\u{7f}' by {
                    assert(is_lower_hex_digit(s@[i]));
                }
            }
        }
        return false;
    }
    let text = s.as_str();
    if text.unicode_len() != 40 {
        return false;
    }
    let mut i: usize = 0;
    while i < 40
        invariant
            i <= 40,
            text@ == s@,
            text.is_ascii(),
            s@.len() == 40,
            forall|k: int| 0 <= k < i ==> is_lower_hex_digit(#[trigger] s@[k]),
        decreases 40 - i,
    {
        let b = text.get_ascii(i);
        if !((48 <= b && b <= 57) || (97 <= b && b <= 102)) {
            assert(!is_lower_hex_digit(s@[i as int]));
            return false;
        }
        assert(is_lower_hex_digit(s@[i as int]));
        i += 1;
    }
    true
}

/// Decides whether `s` spells bytes in hexadecimal.
pub fn is_hex_string(s: &String) -> (valid: bool)
    ensures
        valid == is_hex(s@),
{
    if !s.is_ascii() {
        proof {
            if is_hex(s@) {
                assert forall|i: int| 0 <= i < s@.len() implies '\0' <= #[trigger] s@[i]
                    <= '\u{7f}' by {
                    assert(is_hex_digit(s@[i]));
                }
            }
        }
        return false;
    }
    let text = s.as_str();
    let n = text.unicode_len();
    if n % 2 != 0 {
        return false;
    }
    let mut i: usize = 0;
    while i < n
        invariant
            i <= n,
            n == s@.len(),
            text@ == s@,
            text.is_ascii(),
            forall|k: int| 0 <= k < i ==> is_hex_digit(#[trigger] s@[k]),
        decreases n - i,
    {
        let b = text.get_ascii(i);
        if !((48 <= b && b <= 57) || (65 <= b && b <= 70) || (97 <= b && b <= 102)) {
            assert(!is_hex_digit(s@[i as int]));
            return false;
        }
        assert(is_hex_digit(s@[i as int]));
        i += 1;
    }
    true
}

/// The SHA-1 digest of a byte string.
pub uninterp spec fn sha1_digest(data: Seq<u8>) -> Seq<u8>;

/// `sha1::Sha1::digest`: the digest of the whole input in one call. It is a
/// function of the input alone, and SHA-1 digests are twenty bytes long.
#[verifier::external_body]
fn sha1(data: &Vec<u8>) -> (digest: Vec<u8>)
    ensures
        digest@ == sha1_digest(data@),
        digest@.len() == 20,
{
    <sha1::Sha1 as sha1::Digest>::digest(data).to_vec()
}

/// `hex::decode`: the bytes that `s` spells, when `s` is an even number of
/// hexadecimal digits of either case; no bytes otherwise.
#[verifier::external_body]
pub(crate) fn decode_hex(s: &String) -> (bytes: Option<Vec<u8>>)
    ensures
        bytes is Some <==> is_hex(s@),
        bytes matches Some(b) ==> b@ == hex_decoded(s@),
{
    hex::decode(s).ok()
}

/// The identifier of an object with the given framed bytes.
pub open spec fn object_id(framed: Seq<u8>) -> Seq<char> {
    hex_encoded(sha1_digest(framed))
}

/// Computes the identifier of an object from its framed bytes.
pub fn compute_oid(framed: &Vec<u8>) -> (oid: String)
    ensures
        oid@ == object_id(framed@),
        is_oid(oid@),
{
    let digest = sha1(framed);
    proof {
        lemma_hex_of_digest_is_oid(digest@);
    }
    hex_encode(&digest)
}

} // verus!
