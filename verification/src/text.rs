//! Conversions between ASCII bytes and text. The wire carries bytes;
//! `Request` and `Response` carry text. Every conversion in the core
//! goes through here, so contracts can move freely between the two
//! views.

use vstd::prelude::*;
use vstd::string::StrSliceExecFns;
use vstd::string::StringSliceAdditionalSpecFns;

verus! {

/// Bytes read as characters, one character per byte.
pub open spec fn bytes_as_chars(b: Seq<u8>) -> Seq<char> {
    b.map(|_i: int, x: u8| x as char)
}

/// Characters written as bytes; faithful for ASCII text only.
pub open spec fn chars_as_bytes(s: Seq<char>) -> Seq<u8> {
    s.map(|_i: int, c: char| c as u8)
}

/// Every byte is an ASCII code point.
pub open spec fn all_ascii(b: Seq<u8>) -> bool {
    forall|i: int| 0 <= i < b.len() ==> b[i] < 128
}

/// Check that a byte slice is pure ASCII.
pub fn check_all_ascii(v: &[u8]) -> (r: bool)
    ensures
        r == all_ascii(v@),
{
    let n = v.len();
    let mut i: usize = 0;
    while i < n
        invariant
            n == v@.len(),
            i <= n,
            forall|j: int| 0 <= j < i ==> v@[j] < 128,
        decreases n - i,
    {
        if v[i] >= 128 {
            return false;
        }
        i = i + 1;
    }
    true
}

/// Relies on String::from_utf8: bytes below 128 are valid UTF-8 and
/// decode to one character per byte.
#[verifier::external_body]
pub fn ascii_to_string(v: &[u8]) -> (r: String)
    requires
        all_ascii(v@),
    ensures
        r@ == bytes_as_chars(v@),
{
    String::from_utf8(v.to_vec()).unwrap_or_default()
}

/// A slice of ASCII bytes is ASCII.
pub proof fn lemma_all_ascii_subrange(s: Seq<u8>, i: int, j: int)
    requires
        all_ascii(s),
        0 <= i <= j <= s.len(),
    ensures
        all_ascii(s.subrange(i, j)),
{
    assert forall|k: int| 0 <= k < j - i implies s.subrange(i, j)[k] < 128 by {
        assert(s.subrange(i, j)[k] == s[i + k]);
    }
}

/// Byte-for-byte equality of two slices.
pub fn bytes_eq(a: &[u8], b: &[u8]) -> (r: bool)
    ensures
        r == (a@ == b@),
{
    let n = a.len();
    if n != b.len() {
        return false;
    }
    let mut i: usize = 0;
    while i < n
        invariant
            n == a@.len(),
            n == b@.len(),
            i <= n,
            forall|j: int| 0 <= j < i ==> a@[j] == b@[j],
        decreases n - i,
    {
        if a[i] != b[i] {
            return false;
        }
        i = i + 1;
    }
    proof {
        assert(a@ =~= b@);
    }
    true
}

/// Character-for-character equality of two pieces of text.
pub fn str_eq(a: &str, b: &str) -> (r: bool)
    ensures
        r == (a@ == b@),
{
    let r = bytes_eq(a.as_bytes(), b.as_bytes());
    proof {
        broadcast use vstd::utf8::encode_utf8_decode_utf8;

        if a.spec_bytes() == b.spec_bytes() {
            assert(vstd::utf8::decode_utf8(vstd::utf8::encode_utf8(a@)) == a@);
            assert(vstd::utf8::decode_utf8(vstd::utf8::encode_utf8(b@)) == b@);
        }
    }
    r
}

/// Relies on String::from_utf8: succeeds exactly on valid UTF-8, and
/// the string then holds exactly the given bytes.
#[verifier::external_body]
pub fn utf8_to_string(v: &[u8]) -> (r: Option<String>)
    ensures
        match r {
            Some(s) => vstd::utf8::valid_utf8(v@) && vstd::utf8::encode_utf8(s@) == v@,
            None => !vstd::utf8::valid_utf8(v@),
        },
{
    String::from_utf8(v.to_vec()).ok()
}

/// The bytes of an ASCII string, one byte per character.
pub fn str_to_ascii_bytes(s: &str) -> (r: Vec<u8>)
    requires
        s.is_ascii(),
    ensures
        r@ == chars_as_bytes(s@),
{
    broadcast use vstd::string::is_ascii_spec_bytes;

    let r = s.as_bytes_vec();
    proof {
        assert(r@ =~= chars_as_bytes(s@));
    }
    r
}

} // verus!
