//! MD5 checksums of canonical text, written as lowercase hexadecimal.

use vstd::prelude::*;
use vstd::string::*;
use vstd::utf8::encode_utf8;

verus! {

/// The MD5 digest of `data`: 16 bytes.
pub uninterp spec fn md5_digest(data: Seq<u8>) -> [u8; 16];

/// Computes the MD5 digest of `data` with `md5::compute`.
/// Trusted: the digest is `md5_digest` of the bytes (the algorithm itself is
/// the `md5` crate's and is not restated); that it has 16 bytes is the type
/// `[u8; 16]` of `md5::Digest`.
#[verifier::external_body]
fn md5_compute(data: &[u8]) -> (digest: [u8; 16])
    ensures
        digest == md5_digest(data@),
{
    md5::compute(data).0
}

/// The lowercase hexadecimal digit for `d` (`0 <= d < 16`).
pub open spec fn hex_char(d: int) -> char {
    if d < 10 {
        crate::text::digit_char(d)
    } else if d == 10 { 'a' }
    else if d == 11 { 'b' }
    else if d == 12 { 'c' }
    else if d == 13 { 'd' }
    else if d == 14 { 'e' }
    else { 'f' }
}

/// Bytes written as `{:02x}` each, one after the other: what the `LowerHex`
/// of `md5::Digest` writes.
pub open spec fn hex_lower(bytes: Seq<u8>) -> Seq<char>
    decreases bytes.len(),
{
    if bytes.len() == 0 {
        Seq::empty()
    } else {
        hex_lower(bytes.drop_last()) + seq![
            hex_char(bytes.last() as int / 16),
            hex_char(bytes.last() as int % 16),
        ]
    }
}

/// The checksum of a canonical text: the MD5 digest of its UTF-8 bytes,
/// in lowercase hexadecimal.
pub open spec fn checksum_of(text: Seq<char>) -> Seq<char> {
    hex_lower(md5_digest(encode_utf8(text))@)
}

/// Whether `c` is a lowercase hexadecimal digit.
pub open spec fn is_hex_digit(c: char) -> bool {
    ('0' <= c && c <= '9') || ('a' <= c && c <= 'f')
}

/// Bytes in hexadecimal take two digits each.
pub proof fn lemma_hex_lower_shape(bytes: Seq<u8>)
    ensures
        hex_lower(bytes).len() == 2 * bytes.len(),
        forall|i: int| 0 <= i < hex_lower(bytes).len() ==> is_hex_digit(#[trigger] hex_lower(bytes)[i]),
    decreases bytes.len(),
{
    if bytes.len() > 0 {
        lemma_hex_lower_shape(bytes.drop_last());
        let b = bytes.last() as int;
        assert(is_hex_digit(hex_char(b / 16)) && is_hex_digit(hex_char(b % 16)));
        let h = hex_lower(bytes);
        let r = hex_lower(bytes.drop_last());
        assert forall|i: int| 0 <= i < h.len() implies is_hex_digit(#[trigger] h[i]) by {
            if i < r.len() {
                assert(h[i] == r[i]);
            }
        }
    }
}

/// Every checksum is 32 lowercase hexadecimal digits.
pub proof fn lemma_checksum_shape(text: Seq<char>)
    ensures
        checksum_of(text).len() == 32,
        forall|i: int| 0 <= i < checksum_of(text).len() ==> is_hex_digit(#[trigger] checksum_of(text)[i]),
{
    lemma_hex_lower_shape(md5_digest(encode_utf8(text))@);
}

fn hex_str(d: u8) -> (s: &'static str)
    requires
        d < 16,
    ensures
        s@ == seq![hex_char(d as int)],
{
    proof {
        reveal_strlit("0");
        reveal_strlit("1");
        reveal_strlit("2");
        reveal_strlit("3");
        reveal_strlit("4");
        reveal_strlit("5");
        reveal_strlit("6");
        reveal_strlit("7");
        reveal_strlit("8");
        reveal_strlit("9");
        reveal_strlit("a");
        reveal_strlit("b");
        reveal_strlit("c");
        reveal_strlit("d");
        reveal_strlit("e");
        reveal_strlit("f");
    }
    if d == 0 { "0" }
    else if d == 1 { "1" }
    else if d == 2 { "2" }
    else if d == 3 { "3" }
    else if d == 4 { "4" }
    else if d == 5 { "5" }
    else if d == 6 { "6" }
    else if d == 7 { "7" }
    else if d == 8 { "8" }
    else if d == 9 { "9" }
    else if d == 10 { "a" }
    else if d == 11 { "b" }
    else if d == 12 { "c" }
    else if d == 13 { "d" }
    else if d == 14 { "e" }
    else { "f" }
}

/// Writes bytes in lowercase hexadecimal, two digits each.
pub fn to_hex_lower(bytes: &[u8]) -> (text: String)
    ensures
        text@ == hex_lower(bytes@),
{
    let mut text = String::new();
    let mut i: usize = 0;
    while i < bytes.len()
        invariant
            i <= bytes@.len(),
            text@ == hex_lower(bytes@.take(i as int)),
        decreases bytes@.len() - i,
    {
        let b = bytes[i];
        text.append(hex_str(b / 16));
        text.append(hex_str(b % 16));
        proof {
            let t = bytes@.take(i as int + 1);
            assert(t.drop_last() =~= bytes@.take(i as int));
            assert(t.last() == b);
        }
        i = i + 1;
    }
    assert(bytes@.take(bytes@.len() as int) =~= bytes@);
    text
}

/// The checksum of `text`: its MD5 digest in lowercase hexadecimal, as
/// `format!("{:x}", md5::compute(text))` gives it.
pub fn checksum(text: &str) -> (sum: String)
    ensures
        sum@ == checksum_of(text@),
        sum@.len() == 32,
        forall|i: int| 0 <= i < sum@.len() ==> is_hex_digit(#[trigger] sum@[i]),
{
    proof {
        lemma_checksum_shape(text@);
    }
    let digest = md5_compute(text.as_bytes());
    to_hex_lower(&digest)
}

} // verus!
