//! Rendering structured values back onto the wire: decimal numbers,
//! header blocks, and whole messages are stated byte for byte.

use crate::headers::{header_entries, HeaderMap};
use crate::text::chars_as_bytes;
use vstd::prelude::*;
use vstd::string::StrSliceExecFns;
use vstd::string::StringExecFnsIsAscii;
use vstd::string::StringSliceAdditionalSpecFns;
use vstd::utf8::{encode_utf8, is_ascii_chars};

verus! {

/// The decimal digits of a non-negative number, most significant
/// first.
pub open spec fn spec_digits(n: int) -> Seq<u8>
    decreases n,
{
    if n < 10 {
        seq![(48 + if n >= 0 {
            n
        } else {
            0
        }) as u8]
    } else {
        spec_digits(n / 10) + seq![(48 + n % 10) as u8]
    }
}

/// Append the decimal digits of `n`.
pub fn push_digits(n: u16, out: &mut Vec<u8>)
    ensures
        final (out)@ == old(out)@ + spec_digits(n as int),
    decreases n,
{
    if n < 10 {
        out.push(48 + n as u8);
        assert(out@ =~= old(out)@ + spec_digits(n as int));
    } else {
        push_digits(n / 10, out);
        out.push(48 + (n % 10) as u8);
        assert(out@ =~= old(out)@ + spec_digits(n as int));
    }
}

/// Header entries written as bytes, pair by pair; faithful for ASCII
/// entries.
pub open spec fn entries_as_bytes(hs: Seq<(Seq<char>, Seq<char>)>) -> Seq<(Seq<u8>, Seq<u8>)> {
    hs.map(|_i: int, h: (Seq<char>, Seq<char>)| (chars_as_bytes(h.0), chars_as_bytes(h.1)))
}

/// Header entries encoded as UTF-8 bytes, pair by pair.
pub open spec fn entries_utf8_bytes(hs: Seq<(Seq<char>, Seq<char>)>) -> Seq<(Seq<u8>, Seq<u8>)> {
    hs.map(|_i: int, h: (Seq<char>, Seq<char>)| (encode_utf8(h.0), encode_utf8(h.1)))
}

/// On ASCII entries the UTF-8 encoding is one byte per character.
pub proof fn lemma_ascii_entries_utf8(hs: Seq<(Seq<char>, Seq<char>)>)
    requires
        entries_ascii(hs),
    ensures
        entries_utf8_bytes(hs) == entries_as_bytes(hs),
{
    assert forall|i: int| 0 <= i < hs.len() implies #[trigger] entries_utf8_bytes(hs)[i]
        == entries_as_bytes(hs)[i] by {
        vstd::utf8::is_ascii_chars_encode_utf8(hs[i].0);
        vstd::utf8::is_ascii_chars_encode_utf8(hs[i].1);
        assert(encode_utf8(hs[i].0) =~= chars_as_bytes(hs[i].0));
        assert(encode_utf8(hs[i].1) =~= chars_as_bytes(hs[i].1));
    }
    assert(entries_utf8_bytes(hs) =~= entries_as_bytes(hs));
}

/// Every header name and value is ASCII text.
pub open spec fn entries_ascii(hs: Seq<(Seq<char>, Seq<char>)>) -> bool {
    forall|i: int|
        0 <= i < hs.len() ==> is_ascii_chars(#[trigger] hs[i].0) && is_ascii_chars(hs[i].1)
}

/// One rendered header line: `name: value`.
pub open spec fn spec_header_line(h: (Seq<u8>, Seq<u8>)) -> Seq<u8> {
    h.0 + seq![58u8, 32u8] + h.1
}

/// The rendered header block: each line preceded by CR LF, so that it
/// follows a request or status line.
pub open spec fn spec_render_header_block(hs: Seq<(Seq<u8>, Seq<u8>)>) -> Seq<u8>
    decreases hs.len(),
{
    if hs.len() == 0 {
        Seq::empty()
    } else {
        spec_render_header_block(hs.drop_last()) + seq![13u8, 10u8] + spec_header_line(hs.last())
    }
}

/// Check that every header entry is ASCII text.
pub fn headers_ascii(h: &HeaderMap) -> (r: bool)
    ensures
        r == entries_ascii(header_entries(*h)),
{
    let n = h.len();
    let mut i: usize = 0;
    while i < n
        invariant
            n == header_entries(*h).len(),
            i <= n,
            forall|j: int|
                0 <= j < i ==> is_ascii_chars((#[trigger] header_entries(*h)[j]).0)
                    && is_ascii_chars(header_entries(*h)[j].1),
        decreases n - i,
    {
        let (name, value) = h.get(i);
        if !name.is_ascii() || !value.is_ascii() {
            return false;
        }
        proof {
            assert(is_ascii_chars(header_entries(*h)[i as int].0));
            assert(is_ascii_chars(header_entries(*h)[i as int].1));
        }
        i = i + 1;
    }
    true
}

/// Append the rendered header block, each name and value encoded as
/// UTF-8.
pub fn append_header_block(out: &mut Vec<u8>, h: &HeaderMap)
    ensures
        final (out)@ == old(out)@ + spec_render_header_block(
            entries_utf8_bytes(header_entries(*h)),
        ),
{
    let n = h.len();
    let mut i: usize = 0;
    while i < n
        invariant
            n == header_entries(*h).len(),
            i <= n,
            out@ == old(out)@ + spec_render_header_block(
                entries_utf8_bytes(header_entries(*h)).subrange(0, i as int),
            ),
        decreases n - i,
    {
        let (name, value) = h.get(i);
        out.push(13);
        out.push(10);
        let mut nb = name.as_str().as_bytes_vec();
        out.append(&mut nb);
        out.push(58);
        out.push(32);
        let mut vb = value.as_str().as_bytes_vec();
        out.append(&mut vb);
        proof {
            let hs = entries_utf8_bytes(header_entries(*h));
            assert(hs.subrange(0, i + 1).drop_last() =~= hs.subrange(0, i as int));
            assert(hs.subrange(0, i + 1).last() == hs[i as int]);
            assert(out@ =~= old(out)@ + spec_render_header_block(hs.subrange(0, i + 1)));
        }
        i = i + 1;
    }
    proof {
        assert(entries_utf8_bytes(header_entries(*h)).subrange(0, n as int) =~= entries_utf8_bytes(
            header_entries(*h),
        ));
    }
}

} // verus!
