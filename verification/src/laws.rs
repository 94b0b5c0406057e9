//! The round-trip law: a request rendered by this library's own
//! serializer frames and parses back to the very same structured
//! value, for every valid combination of method, path, header list
//! and body. The validity conditions say exactly which text can sit
//! on the wire unescaped.

use crate::assemble::{find_delim_from, spec_assemble};
use crate::head::{
    find_byte_from, find_crlf_from, skip_spaces, spec_content_length_of, spec_parse_head,
    spec_parse_header_line, spec_parse_header_lines, spec_parse_request_line, spec_version_ok,
    HeadModel,
};
use crate::length::{all_digits, spec_decimal};
use crate::method::{lemma_token_round_trip, spec_token, Method};
use crate::request::{spec_render_head, spec_render_request, spec_request_line_bytes};
use crate::scan::is_head_delim_at;
use crate::text::all_ascii;
use crate::wire::{spec_header_line, spec_render_header_block};
use vstd::prelude::*;

verus! {

/// Free of CR and LF, so it stays on one line of the head.
pub open spec fn line_safe(s: Seq<u8>) -> bool {
    forall|i: int| 0 <= i < s.len() ==> #[trigger] s[i] != 13 && s[i] != 10
}

/// A path that renders and parses back: non-empty ASCII with no
/// space and no line break.
pub open spec fn valid_path(p: Seq<u8>) -> bool {
    &&& p.len() > 0
    &&& all_ascii(p)
    &&& line_safe(p)
    &&& forall|i: int| 0 <= i < p.len() ==> #[trigger] p[i] != 32
}

/// The stored version is the minor digit: `0` or `1`.
pub open spec fn valid_version(v: Seq<u8>) -> bool {
    v == seq![48u8] || v == seq![49u8]
}

/// A header that renders and parses back: a non-empty name without
/// colon or line break, a value without line break or leading space,
/// all ASCII.
pub open spec fn valid_header(h: (Seq<u8>, Seq<u8>)) -> bool {
    &&& h.0.len() > 0
    &&& all_ascii(h.0)
    &&& line_safe(h.0)
    &&& forall|i: int| 0 <= i < h.0.len() ==> #[trigger] h.0[i] != 58
    &&& all_ascii(h.1)
    &&& line_safe(h.1)
    &&& (h.1.len() > 0 ==> h.1[0] != 32)
}

pub open spec fn valid_headers(hs: Seq<(Seq<u8>, Seq<u8>)>) -> bool {
    forall|i: int| 0 <= i < hs.len() ==> valid_header(#[trigger] hs[i])
}

/// The body agrees with the declared `Content-Length`: absent means
/// empty, present means it is a digit string denoting the body's
/// exact length in bytes. Any UTF-8 text may stand in the body.
pub open spec fn valid_body(hs: Seq<(Seq<u8>, Seq<u8>)>, body: Seq<u8>) -> bool {
    &&& vstd::utf8::valid_utf8(body)
    &&& body.len() <= usize::MAX
    &&& match spec_content_length_of(hs) {
        None => body.len() == 0,
        Some(v) => v.len() > 0 && all_digits(v) && spec_decimal(v) == body.len(),
    }
}

/// A method token is made of upper-case letters only.
proof fn lemma_token_bytes(m: Method)
    ensures
        spec_token(m).len() > 0,
        forall|i: int|
            0 <= i < spec_token(m).len() ==> 64 < #[trigger] spec_token(m)[i] < 91,
{
    match m {
        Method::Connect => {
            assert(forall|i: int|
                0 <= i < spec_token(Method::Connect).len() ==> 64 < #[trigger] spec_token(
                    Method::Connect,
                )[i] < 91);
        },
        Method::Delete => {
            assert(forall|i: int|
                0 <= i < spec_token(Method::Delete).len() ==> 64 < #[trigger] spec_token(
                    Method::Delete,
                )[i] < 91);
        },
        Method::Get => {
            assert(forall|i: int|
                0 <= i < spec_token(Method::Get).len() ==> 64 < #[trigger] spec_token(
                    Method::Get,
                )[i] < 91);
        },
        Method::Head => {
            assert(forall|i: int|
                0 <= i < spec_token(Method::Head).len() ==> 64 < #[trigger] spec_token(
                    Method::Head,
                )[i] < 91);
        },
        Method::Options => {
            assert(forall|i: int|
                0 <= i < spec_token(Method::Options).len() ==> 64 < #[trigger] spec_token(
                    Method::Options,
                )[i] < 91);
        },
        Method::Patch => {
            assert(forall|i: int|
                0 <= i < spec_token(Method::Patch).len() ==> 64 < #[trigger] spec_token(
                    Method::Patch,
                )[i] < 91);
        },
        Method::Post => {
            assert(forall|i: int|
                0 <= i < spec_token(Method::Post).len() ==> 64 < #[trigger] spec_token(
                    Method::Post,
                )[i] < 91);
        },
        Method::Put => {
            assert(forall|i: int|
                0 <= i < spec_token(Method::Put).len() ==> 64 < #[trigger] spec_token(
                    Method::Put,
                )[i] < 91);
        },
        Method::Trace => {
            assert(forall|i: int|
                0 <= i < spec_token(Method::Trace).len() ==> 64 < #[trigger] spec_token(
                    Method::Trace,
                )[i] < 91);
        },
    }
}

/// Where the first wanted byte is, the search finds it.
proof fn lemma_find_byte_first(s: Seq<u8>, b: u8, i: int, k: int)
    requires
        0 <= i <= k < s.len(),
        s[k] == b,
        forall|j: int| i <= j < k ==> s[j] != b,
    ensures
        find_byte_from(s, b, i) == Some(k),
    decreases k - i,
{
    if i < k {
        lemma_find_byte_first(s, b, i + 1, k);
    }
}

/// Where the first CR LF pair is, the search finds it.
proof fn lemma_find_crlf_first(s: Seq<u8>, i: int, k: int)
    requires
        0 <= i <= k,
        k + 2 <= s.len(),
        s[k] == 13,
        s[k + 1] == 10,
        forall|j: int| i <= j < k ==> s[j] != 13,
    ensures
        find_crlf_from(s, i) == Some(k),
    decreases k - i,
{
    if i < k {
        lemma_find_crlf_first(s, i + 1, k);
    }
}

/// With no CR at all there is no line break to find.
proof fn lemma_find_crlf_none(s: Seq<u8>, i: int)
    requires
        0 <= i,
        forall|j: int| i <= j < s.len() ==> s[j] != 13,
    ensures
        find_crlf_from(s, i) is None,
    decreases s.len() - i,
{
    if i + 2 <= s.len() {
        lemma_find_crlf_none(s, i + 1);
    }
}

/// Space-skipping stops at the first byte that is no space.
proof fn lemma_skip_spaces_stops(s: Seq<u8>, i: int, k: int)
    requires
        0 <= i <= k <= s.len(),
        forall|j: int| i <= j < k ==> s[j] == 32,
        k < s.len() ==> s[k] != 32,
    ensures
        skip_spaces(s, i) == k,
    decreases k - i,
{
    if i < k {
        lemma_skip_spaces_stops(s, i + 1, k);
    }
}

/// Where the first delimiter is, the search finds it.
proof fn lemma_find_delim_first(s: Seq<u8>, i: int, k: int)
    requires
        0 <= i <= k,
        is_head_delim_at(s, k),
        forall|j: int| i <= j < k ==> !is_head_delim_at(s, j),
    ensures
        find_delim_from(s, i) == Some(k),
    decreases k - i,
{
    if i < k {
        lemma_find_delim_first(s, i + 1, k);
    }
}

/// A rendered request line parses back to its three parts.
proof fn lemma_request_line_round_trip(m: Method, path: Seq<u8>, ver: Seq<u8>)
    requires
        valid_path(path),
        valid_version(ver),
    ensures
        spec_parse_request_line(spec_request_line_bytes(m, path, ver)) == Some((m, path, ver)),
        spec_request_line_bytes(m, path, ver).len() > 0,
        line_safe(spec_request_line_bytes(m, path, ver)),
        all_ascii(spec_request_line_bytes(m, path, ver)),
{
    lemma_token_bytes(m);
    let t = spec_token(m);
    let pre = seq![72u8, 84u8, 84u8, 80u8, 47u8, 49u8, 46u8];
    let line = spec_request_line_bytes(m, path, ver);
    let sp1 = t.len() as int;
    let sp2 = sp1 + 1 + path.len() as int;
    assert(line.len() == t.len() + 1 + path.len() + 1 + 7 + 1);
    assert(ver.len() == 1 && (ver[0] == 48 || ver[0] == 49));
    assert forall|j: int| 0 <= j < line.len() implies #[trigger] line[j] == (if j < sp1 {
        t[j]
    } else if j == sp1 {
        32u8
    } else if j < sp2 {
        path[j - sp1 - 1]
    } else if j == sp2 {
        32u8
    } else if j < sp2 + 8 {
        pre[j - sp2 - 1]
    } else {
        ver[0]
    }) by {
        assert(line == t + seq![32u8] + path + seq![32u8] + pre + ver);
    }
    lemma_find_byte_first(line, 32, 0, sp1);
    lemma_find_byte_first(line, 32, sp1 + 1, sp2);
    assert(line.subrange(0, sp1) =~= t);
    assert(line.subrange(sp1 + 1, sp2) =~= path);
    let vers = line.subrange(sp2 + 1, line.len() as int);
    assert(vers.len() == 8);
    assert(spec_version_ok(vers));
    lemma_token_round_trip(m);
    assert(seq![vers[7]] =~= ver);
    assert(line_safe(line));
    assert(all_ascii(line));
}

/// A rendered header line parses back to its pair.
proof fn lemma_header_line_round_trip(h: (Seq<u8>, Seq<u8>))
    requires
        valid_header(h),
    ensures
        spec_parse_header_line(spec_header_line(h)) == Some(h),
        spec_header_line(h).len() > 0,
        line_safe(spec_header_line(h)),
        all_ascii(spec_header_line(h)),
{
    let line = spec_header_line(h);
    let c = h.0.len() as int;
    assert(line.len() == h.0.len() + 2 + h.1.len());
    assert forall|j: int| 0 <= j < line.len() implies #[trigger] line[j] == (if j < c {
        h.0[j]
    } else if j == c {
        58u8
    } else if j == c + 1 {
        32u8
    } else {
        h.1[j - c - 2]
    }) by {
        assert(line == h.0 + seq![58u8, 32u8] + h.1);
    }
    lemma_find_byte_first(line, 58, 0, c);
    assert(line.subrange(0, c) =~= h.0);
    if h.1.len() == 0 {
        lemma_skip_spaces_stops(line, c + 1, line.len() as int);
        assert(line.subrange(c + 2, line.len() as int) =~= h.1);
    } else {
        lemma_skip_spaces_stops(line, c + 1, c + 2);
        assert(line.subrange(c + 2, line.len() as int) =~= h.1);
    }
    assert(line_safe(line));
    assert(all_ascii(line));
}

/// A header block read from the left: the first line, then the rest.
proof fn lemma_block_left(hs: Seq<(Seq<u8>, Seq<u8>)>)
    requires
        hs.len() > 0,
    ensures
        spec_render_header_block(hs) =~= seq![13u8, 10u8] + spec_header_line(hs[0])
            + spec_render_header_block(hs.drop_first()),
    decreases hs.len(),
{
    if hs.len() == 1 {
        assert(hs.drop_last() =~= Seq::<(Seq<u8>, Seq<u8>)>::empty());
        assert(hs.drop_first() =~= Seq::<(Seq<u8>, Seq<u8>)>::empty());
    } else {
        let dl = hs.drop_last();
        lemma_block_left(dl);
        assert(dl[0] == hs[0]);
        assert(hs.drop_first().drop_last() =~= dl.drop_first());
        assert(hs.drop_first().last() == hs.last());
        assert(spec_render_header_block(hs.drop_first()) == spec_render_header_block(
            hs.drop_first().drop_last(),
        ) + seq![13u8, 10u8] + spec_header_line(hs.drop_first().last()));
    }
}

/// A rendered header section parses back to its entries.
proof fn lemma_header_lines_round_trip(hs: Seq<(Seq<u8>, Seq<u8>)>)
    requires
        hs.len() > 0,
        valid_headers(hs),
    ensures
        spec_parse_header_lines(
            spec_header_line(hs[0]) + spec_render_header_block(hs.drop_first()),
        ) == Some(hs),
    decreases hs.len(),
{
    let line0 = spec_header_line(hs[0]);
    lemma_header_line_round_trip(hs[0]);
    let rest = line0 + spec_render_header_block(hs.drop_first());
    if hs.len() == 1 {
        assert(rest =~= line0);
        lemma_find_crlf_none(rest, 0);
        assert(seq![hs[0]] =~= hs);
    } else {
        let tail = hs.drop_first();
        assert(valid_headers(tail)) by {
            assert(forall|i: int|
                0 <= i < tail.len() ==> #[trigger] tail[i] == hs[i + 1] && valid_header(
                    hs[i + 1],
                ));
        }
        lemma_block_left(tail);
        let inner = spec_header_line(tail[0]) + spec_render_header_block(tail.drop_first());
        assert(rest =~= line0 + seq![13u8, 10u8] + inner);
        let p = line0.len() as int;
        assert forall|j: int| 0 <= j < p implies rest[j] != 13 by {
            assert(rest[j] == line0[j]);
        }
        assert(rest[p] == 13 && rest[p + 1] == 10);
        lemma_find_crlf_first(rest, 0, p);
        assert(rest.subrange(0, p) =~= line0);
        assert(rest.subrange(p + 2, rest.len() as int) =~= inner);
        lemma_header_lines_round_trip(tail);
        assert(seq![hs[0]] + tail =~= hs);
    }
}

/// A rendered head parses back to its model.
proof fn lemma_head_round_trip(m: Method, path: Seq<u8>, ver: Seq<u8>, hs: Seq<(Seq<u8>, Seq<u8>)>)
    requires
        valid_path(path),
        valid_version(ver),
        valid_headers(hs),
    ensures
        spec_parse_head(spec_render_head(m, path, ver, hs)) == Some(
            (HeadModel {
                method: m,
                path: path,
                version: ver,
                headers: hs,
                content_length: spec_content_length_of(hs),
            }),
        ),
{
    let reqline = spec_request_line_bytes(m, path, ver);
    lemma_request_line_round_trip(m, path, ver);
    let head = spec_render_head(m, path, ver, hs);
    if hs.len() == 0 {
        assert(hs =~= Seq::<(Seq<u8>, Seq<u8>)>::empty());
        assert(head =~= reqline);
        lemma_find_crlf_none(head, 0);
        assert(all_ascii(head));
        assert(spec_content_length_of(hs) is None);
    } else {
        lemma_block_left(hs);
        let inner = spec_header_line(hs[0]) + spec_render_header_block(hs.drop_first());
        assert(head =~= reqline + seq![13u8, 10u8] + inner);
        let p = reqline.len() as int;
        assert forall|j: int| 0 <= j < p implies head[j] != 13 by {
            assert(head[j] == reqline[j]);
        }
        assert(head[p] == 13 && head[p + 1] == 10);
        lemma_find_crlf_first(head, 0, p);
        assert(head.subrange(0, p) =~= reqline);
        assert(head.subrange(p + 2, head.len() as int) =~= inner);
        lemma_header_lines_round_trip(hs);
        assert(all_ascii(head)) by {
            assert(all_ascii(inner)) by {
                lemma_all_lines_ascii(hs);
            }
            assert(forall|j: int|
                0 <= j < head.len() ==> #[trigger] head[j] == (if j < p {
                    reqline[j]
                } else if j == p {
                    13u8
                } else if j == p + 1 {
                    10u8
                } else {
                    inner[j - p - 2]
                }));
        }
    }
}

/// Every byte of a rendered header section is ASCII.
proof fn lemma_all_lines_ascii(hs: Seq<(Seq<u8>, Seq<u8>)>)
    requires
        hs.len() > 0,
        valid_headers(hs),
    ensures
        all_ascii(spec_header_line(hs[0]) + spec_render_header_block(hs.drop_first())),
    decreases hs.len(),
{
    let line0 = spec_header_line(hs[0]);
    lemma_header_line_round_trip(hs[0]);
    let rest = line0 + spec_render_header_block(hs.drop_first());
    if hs.len() == 1 {
        assert(rest =~= line0);
    } else {
        let tail = hs.drop_first();
        assert(valid_headers(tail)) by {
            assert(forall|i: int|
                0 <= i < tail.len() ==> #[trigger] tail[i] == hs[i + 1] && valid_header(
                    hs[i + 1],
                ));
        }
        lemma_block_left(tail);
        lemma_all_lines_ascii(tail);
        let inner = spec_header_line(tail[0]) + spec_render_header_block(tail.drop_first());
        assert(rest =~= line0 + seq![13u8, 10u8] + inner);
        let p = line0.len() as int;
        assert(forall|j: int|
            0 <= j < rest.len() ==> #[trigger] rest[j] == (if j < p {
                line0[j]
            } else if j == p {
                13u8
            } else if j == p + 1 {
                10u8
            } else {
                inner[j - p - 2]
            }));
    }
}

/// No delimiter starts inside a rendered header section followed by
/// any suffix: the first CR LF CR LF of the message is the
/// terminator itself.
proof fn lemma_block_no_delim(hs: Seq<(Seq<u8>, Seq<u8>)>, z: Seq<u8>)
    requires
        valid_headers(hs),
    ensures
        forall|j: int|
            0 <= j < spec_render_header_block(hs).len() ==> !is_head_delim_at(
                spec_render_header_block(hs) + z,
                j,
            ),
    decreases hs.len(),
{
    if hs.len() == 0 {
    } else {
        lemma_block_left(hs);
        let line0 = spec_header_line(hs[0]);
        lemma_header_line_round_trip(hs[0]);
        let tail = hs.drop_first();
        assert(valid_headers(tail)) by {
            assert(forall|i: int|
                0 <= i < tail.len() ==> #[trigger] tail[i] == hs[i + 1] && valid_header(
                    hs[i + 1],
                ));
        }
        let inner = spec_render_header_block(tail);
        lemma_block_no_delim(tail, z);
        let full = spec_render_header_block(hs) + z;
        let p = 2 + line0.len() as int;
        assert(full =~= seq![13u8, 10u8] + line0 + (inner + z));
        assert forall|j: int|
            0 <= j < spec_render_header_block(hs).len() implies !is_head_delim_at(full, j) by {
            assert(spec_render_header_block(hs).len() == 2 + line0.len() + inner.len());
            if j == 0 {
                assert(full[2] == line0[0]);
                assert(line0[0] != 13);
            } else if j == 1 {
                assert(full[1] == 10);
            } else if j < p {
                assert(full[j] == line0[j - 2]);
                assert(line0[j - 2] != 13);
            } else {
                let j2 = j - p;
                assert(0 <= j2 < inner.len());
                assert(!is_head_delim_at(inner + z, j2));
                if j + 4 <= full.len() {
                    assert(full[j] == (inner + z)[j2] && full[j + 1] == (inner + z)[j2 + 1]
                        && full[j + 2] == (inner + z)[j2 + 2] && full[j + 3] == (inner + z)[j2
                        + 3]);
                }
            }
        }
    }
}

/// Law: for every valid combination of method, path, header list and
/// body, the rendered request frames and parses back to exactly that
/// combination.
pub proof fn lemma_request_round_trip(
    m: Method,
    path: Seq<u8>,
    ver: Seq<u8>,
    hs: Seq<(Seq<u8>, Seq<u8>)>,
    body: Seq<u8>,
)
    requires
        valid_path(path),
        valid_version(ver),
        valid_headers(hs),
        valid_body(hs, body),
    ensures
        spec_assemble(spec_render_request(m, path, ver, hs, body)) == Ok::<
            (HeadModel, Seq<u8>),
            crate::FramingError,
        >(
            (
                HeadModel {
                    method: m,
                    path: path,
                    version: ver,
                    headers: hs,
                    content_length: spec_content_length_of(hs),
                },
                body,
            ),
        ),
{
    let head = spec_render_head(m, path, ver, hs);
    let full = spec_render_request(m, path, ver, hs, body);
    let reqline = spec_request_line_bytes(m, path, ver);
    let block = spec_render_header_block(hs);
    lemma_request_line_round_trip(m, path, ver);
    let e = head.len() as int;
    let z = seq![13u8, 10u8, 13u8, 10u8] + body;
    assert(full =~= reqline + (block + z));
    assert(is_head_delim_at(full, e)) by {
        assert(full[e] == z[0] && full[e + 1] == z[1] && full[e + 2] == z[2] && full[e + 3]
            == z[3]);
    }
    lemma_block_no_delim(hs, z);
    assert forall|j: int| 0 <= j < e implies !is_head_delim_at(full, j) by {
        if j < reqline.len() {
            assert(full[j] == reqline[j]);
            assert(reqline[j] != 13);
        } else {
            let j2 = j - reqline.len();
            assert(0 <= j2 < block.len());
            assert(!is_head_delim_at(block + z, j2));
            if j + 4 <= full.len() {
                assert(full[j] == (block + z)[j2] && full[j + 1] == (block + z)[j2 + 1] && full[j
                    + 2] == (block + z)[j2 + 2] && full[j + 3] == (block + z)[j2 + 3]);
            }
        }
    }
    lemma_find_delim_first(full, 0, e);
    assert(full.subrange(0, e) =~= head);
    lemma_head_round_trip(m, path, ver, hs);
    match spec_content_length_of(hs) {
        None => {
            assert(body =~= Seq::<u8>::empty());
        },
        Some(v) => {
            assert(full.len() == e + 4 + body.len());
            assert(full.subrange(e + 4, e + 4 + spec_decimal(v)) =~= body);
        },
    }
}

} // verus!
