//! The request head decoder: turns the bytes before the blank-line
//! terminator into a method, a path, a version, and an ordered header
//! list, and pulls out the raw `Content-Length` value for the body
//! length resolver. The grammar is stated byte for byte in the spec
//! functions below, and the decoder is proved to follow them exactly.

use crate::headers::{header_entries, HeaderMap};
use crate::method::{spec_method_of_token, Method};
use crate::text::{
    all_ascii, ascii_to_string, bytes_as_chars, bytes_eq, check_all_ascii,
    lemma_all_ascii_subrange,
};
use crate::FramingError;
use vstd::prelude::*;
use vstd::slice::{slice_subrange, slice_to_vec};

verus! {

/// What a well-formed head denotes, at the byte level.
pub ghost struct HeadModel {
    pub method: Method,
    pub path: Seq<u8>,
    pub version: Seq<u8>,
    pub headers: Seq<(Seq<u8>, Seq<u8>)>,
    pub content_length: Option<Seq<u8>>,
}

/// First occurrence of byte `b` in `s` at or after `i`.
pub open spec fn find_byte_from(s: Seq<u8>, b: u8, i: int) -> Option<int>
    decreases s.len() - i,
{
    if i < 0 || i >= s.len() {
        None
    } else if s[i] == b {
        Some(i)
    } else {
        find_byte_from(s, b, i + 1)
    }
}

/// First CR LF pair in `s` at or after `i`.
pub open spec fn find_crlf_from(s: Seq<u8>, i: int) -> Option<int>
    decreases s.len() - i,
{
    if i < 0 || i + 2 > s.len() {
        None
    } else if s[i] == 13 && s[i + 1] == 10 {
        Some(i)
    } else {
        find_crlf_from(s, i + 1)
    }
}

/// Index of the first non-space byte at or after `i`, or the end.
pub open spec fn skip_spaces(s: Seq<u8>, i: int) -> int
    decreases s.len() - i,
{
    if i < 0 || i >= s.len() {
        s.len() as int
    } else if s[i] == 32 {
        skip_spaces(s, i + 1)
    } else {
        i
    }
}

/// The version token must read `HTTP/1.0` or `HTTP/1.1`.
pub open spec fn spec_version_ok(v: Seq<u8>) -> bool {
    &&& v.len() == 8
    &&& v[0] == 'H' as u8
    &&& v[1] == 'T' as u8
    &&& v[2] == 'T' as u8
    &&& v[3] == 'P' as u8
    &&& v[4] == '/' as u8
    &&& v[5] == '1' as u8
    &&& v[6] == '.' as u8
    &&& (v[7] == '0' as u8 || v[7] == '1' as u8)
}

/// A request line parses to a method, a non-empty path, and the minor
/// version digit, split at the first two spaces.
pub open spec fn spec_parse_request_line(line: Seq<u8>) -> Option<(Method, Seq<u8>, Seq<u8>)> {
    match find_byte_from(line, 32, 0) {
        None => None,
        Some(sp1) => match find_byte_from(line, 32, sp1 + 1) {
            None => None,
            Some(sp2) => {
                let token = line.subrange(0, sp1);
                let path = line.subrange(sp1 + 1, sp2);
                let vers = line.subrange(sp2 + 1, line.len() as int);
                match spec_method_of_token(token) {
                    None => None,
                    Some(m) => if path.len() > 0 && spec_version_ok(vers) {
                        Some((m, path, seq![vers[7]]))
                    } else {
                        None
                    },
                }
            },
        },
    }
}

/// A header line parses to the non-empty name before the first colon
/// and the value after it, with leading spaces dropped.
pub open spec fn spec_parse_header_line(line: Seq<u8>) -> Option<(Seq<u8>, Seq<u8>)> {
    match find_byte_from(line, 58, 0) {
        None => None,
        Some(c) => if c > 0 {
            Some((line.subrange(0, c), line.subrange(skip_spaces(line, c + 1), line.len() as int)))
        } else {
            None
        },
    }
}

/// All header lines of the section after the request line, in order.
/// Lines are separated (not terminated) by CR LF.
pub open spec fn spec_parse_header_lines(rest: Seq<u8>) -> Option<Seq<(Seq<u8>, Seq<u8>)>>
    decreases rest.len(),
{
    match find_crlf_from(rest, 0) {
        None => match spec_parse_header_line(rest) {
            None => None,
            Some(h) => Some(seq![h]),
        },
        Some(p) => if 0 <= p && p + 2 <= rest.len() {
            match spec_parse_header_line(rest.subrange(0, p)) {
                None => None,
                Some(h) => match spec_parse_header_lines(
                    rest.subrange(p + 2, rest.len() as int),
                ) {
                    None => None,
                    Some(t) => Some(seq![h] + t),
                },
            }
        } else {
            None
        },
    }
}

/// The header name that declares the body length, matched byte for
/// byte (so case-sensitively).
pub open spec fn spec_cl_name() -> Seq<u8> {
    seq![
        'C' as u8,
        'o' as u8,
        'n' as u8,
        't' as u8,
        'e' as u8,
        'n' as u8,
        't' as u8,
        '-' as u8,
        'L' as u8,
        'e' as u8,
        'n' as u8,
        'g' as u8,
        't' as u8,
        'h' as u8,
    ]
}

/// The value of the last `Content-Length` header, if any.
pub open spec fn spec_content_length_of(hs: Seq<(Seq<u8>, Seq<u8>)>) -> Option<Seq<u8>>
    decreases hs.len(),
{
    if hs.len() == 0 {
        None
    } else if hs[hs.len() - 1].0 == spec_cl_name() {
        Some(hs[hs.len() - 1].1)
    } else {
        spec_content_length_of(hs.drop_last())
    }
}

/// A whole head: its request line, then its header lines, all ASCII.
pub open spec fn spec_parse_head(head: Seq<u8>) -> Option<HeadModel> {
    if !all_ascii(head) {
        None
    } else {
        match find_crlf_from(head, 0) {
            None => match spec_parse_request_line(head) {
                None => None,
                Some((m, path, ver)) => Some(
                    HeadModel {
                        method: m,
                        path: path,
                        version: ver,
                        headers: Seq::empty(),
                        content_length: None,
                    },
                ),
            },
            Some(p) => match spec_parse_request_line(head.subrange(0, p)) {
                None => None,
                Some((m, path, ver)) => match spec_parse_header_lines(
                    head.subrange(p + 2, head.len() as int),
                ) {
                    None => None,
                    Some(hs) => Some(
                        HeadModel {
                            method: m,
                            path: path,
                            version: ver,
                            headers: hs,
                            content_length: spec_content_length_of(hs),
                        },
                    ),
                },
            },
        }
    }
}

/// A decoded head, ready for body assembly and dispatch.
pub struct DecodedHead {
    pub method: Method,
    pub path: String,
    pub version: String,
    pub headers: HeaderMap,
    pub content_length: Option<Vec<u8>>,
}

/// Header entries read as bytes, pair by pair.
pub open spec fn entries_as_chars(hs: Seq<(Seq<u8>, Seq<u8>)>) -> Seq<(Seq<char>, Seq<char>)> {
    hs.map(|_i: int, h: (Seq<u8>, Seq<u8>)| (bytes_as_chars(h.0), bytes_as_chars(h.1)))
}

/// First occurrence of `b` at or after `from`, as executable code.
fn find_byte(v: &[u8], b: u8, from: usize) -> (r: Option<usize>)
    requires
        from <= v@.len(),
    ensures
        match r {
            Some(i) => from <= i < v@.len() && find_byte_from(v@, b, from as int) == Some(i as int),
            None => find_byte_from(v@, b, from as int) is None,
        },
{
    let n = v.len();
    let mut i = from;
    while i < n
        invariant
            n == v@.len(),
            from <= i <= n,
            find_byte_from(v@, b, from as int) == find_byte_from(v@, b, i as int),
        decreases n - i,
    {
        if v[i] == b {
            return Some(i);
        }
        proof {
            assert(find_byte_from(v@, b, i as int) == find_byte_from(v@, b, i + 1));
        }
        i = i + 1;
    }
    None
}

/// First CR LF at or after `from`, as executable code.
fn find_crlf(v: &[u8], from: usize) -> (r: Option<usize>)
    requires
        from <= v@.len(),
    ensures
        match r {
            Some(i) => from <= i && i + 2 <= v@.len() && find_crlf_from(v@, from as int) == Some(
                i as int,
            ),
            None => find_crlf_from(v@, from as int) is None,
        },
{
    let n = v.len();
    if n < 2 {
        return None;
    }
    let mut i = from;
    while i <= n - 2
        invariant
            n >= 2,
            n == v@.len(),
            from <= i,
            i <= n,
            find_crlf_from(v@, from as int) == find_crlf_from(v@, i as int),
        decreases n - i,
    {
        if v[i] == 13 && v[i + 1] == 10 {
            return Some(i);
        }
        proof {
            assert(find_crlf_from(v@, i as int) == find_crlf_from(v@, i + 1));
        }
        i = i + 1;
    }
    None
}

/// First non-space index at or after `from`, as executable code.
fn first_non_space(v: &[u8], from: usize) -> (r: usize)
    requires
        from <= v@.len(),
    ensures
        from <= r <= v@.len(),
        r == skip_spaces(v@, from as int),
{
    let n = v.len();
    let mut i = from;
    while i < n
        invariant
            n == v@.len(),
            from <= i <= n,
            skip_spaces(v@, from as int) == skip_spaces(v@, i as int),
        decreases n - i,
    {
        if v[i] != 32 {
            return i;
        }
        proof {
            assert(skip_spaces(v@, i as int) == skip_spaces(v@, i + 1));
        }
        i = i + 1;
    }
    i
}

/// The `Content-Length` name as bytes.
fn cl_name_bytes() -> (r: Vec<u8>)
    ensures
        r@ == spec_cl_name(),
{
    let mut v: Vec<u8> = Vec::new();
    v.push(67);
    v.push(111);
    v.push(110);
    v.push(116);
    v.push(101);
    v.push(110);
    v.push(116);
    v.push(45);
    v.push(76);
    v.push(101);
    v.push(110);
    v.push(103);
    v.push(116);
    v.push(104);
    assert(v@ =~= spec_cl_name());
    v
}

/// Parse one request line.
fn parse_request_line(line: &[u8]) -> (r: Result<(Method, Vec<u8>, Vec<u8>), FramingError>)
    ensures
        match r {
            Ok((m, p, v)) => spec_parse_request_line(line@) == Some((m, p@, v@)) && (all_ascii(
                line@,
            ) ==> all_ascii(p@) && all_ascii(v@)),
            Err(e) => e == FramingError::MalformedHead && spec_parse_request_line(line@) is None,
        },
{
    let n = line.len();
    let sp1 = match find_byte(line, 32, 0) {
        None => {
            return Err(FramingError::MalformedHead);
        },
        Some(x) => x,
    };
    let sp2 = match find_byte(line, 32, sp1 + 1) {
        None => {
            return Err(FramingError::MalformedHead);
        },
        Some(x) => x,
    };
    let token = slice_subrange(line, 0, sp1);
    let m = match Method::from_token(token) {
        Err(_) => {
            return Err(FramingError::MalformedHead);
        },
        Ok(m) => m,
    };
    let path = slice_to_vec(slice_subrange(line, sp1 + 1, sp2));
    if path.len() == 0 {
        return Err(FramingError::MalformedHead);
    }
    let ghost vers = line@.subrange(sp2 + 1, n as int);
    if n - (sp2 + 1) != 8 {
        assert(!spec_version_ok(vers));
        return Err(FramingError::MalformedHead);
    }
    let ok = line[sp2 + 1] == 72 && line[sp2 + 2] == 84 && line[sp2 + 3] == 84 && line[sp2 + 4]
        == 80 && line[sp2 + 5] == 47 && line[sp2 + 6] == 49 && line[sp2 + 7] == 46 && (line[sp2 + 8]
        == 48 || line[sp2 + 8] == 49);
    proof {
        assert(vers.len() == 8);
        assert(forall|k: int| 0 <= k < 8 ==> vers[k] == line@[sp2 + 1 + k]);
    }
    if !ok {
        assert(!spec_version_ok(vers));
        return Err(FramingError::MalformedHead);
    }
    let mut ver: Vec<u8> = Vec::new();
    ver.push(line[sp2 + 8]);
    proof {
        assert(spec_version_ok(vers));
        assert(ver@ =~= seq![vers[7]]);
        if all_ascii(line@) {
            lemma_all_ascii_subrange(line@, sp1 + 1, sp2 as int);
        }
    }
    Ok((m, path, ver))
}

/// Parse one header line.
fn parse_header_line(line: &[u8]) -> (r: Result<(Vec<u8>, Vec<u8>), FramingError>)
    ensures
        match r {
            Ok((n, v)) => spec_parse_header_line(line@) == Some((n@, v@)) && (all_ascii(line@)
                ==> all_ascii(n@) && all_ascii(v@)),
            Err(e) => e == FramingError::MalformedHead && spec_parse_header_line(line@) is None,
        },
{
    let n = line.len();
    match find_byte(line, 58, 0) {
        None => Err(FramingError::MalformedHead),
        Some(c) => {
            if c == 0 {
                return Err(FramingError::MalformedHead);
            }
            let name = slice_to_vec(slice_subrange(line, 0, c));
            let v0 = first_non_space(line, c + 1);
            let value = slice_to_vec(slice_subrange(line, v0, n));
            proof {
                if all_ascii(line@) {
                    lemma_all_ascii_subrange(line@, 0, c as int);
                    lemma_all_ascii_subrange(line@, v0 as int, line@.len() as int);
                }
            }
            Ok((name, value))
        },
    }
}

/// Decode a full head. Succeeds exactly when the head follows the
/// grammar above; the decoded fields then read, character for
/// character, as the bytes of the parsed model.
pub fn decode_head(head: &[u8]) -> (r: Result<DecodedHead, FramingError>)
    ensures
        match r {
            Ok(d) => spec_parse_head(head@) matches Some(m) && d.method == m.method && d.path@
                == bytes_as_chars(m.path) && d.version@ == bytes_as_chars(m.version)
                && header_entries(d.headers) == entries_as_chars(m.headers) && (match (
                d.content_length,
                m.content_length,
            ) {
                (Some(v), Some(s)) => v@ == s,
                (None, None) => true,
                _ => false,
            }),
            Err(e) => e == FramingError::MalformedHead && spec_parse_head(head@) is None,
        },
{
    if !check_all_ascii(head) {
        return Err(FramingError::MalformedHead);
    }
    let len = head.len();
    let cl_name = cl_name_bytes();
    match find_crlf(head, 0) {
        None => {
            let (m, path, ver) = match parse_request_line(head) {
                Err(e) => {
                    return Err(e);
                },
                Ok(x) => x,
            };
            let path_s = ascii_to_string(path.as_slice());
            let ver_s = ascii_to_string(ver.as_slice());
            let d = DecodedHead {
                method: m,
                path: path_s,
                version: ver_s,
                headers: HeaderMap::new(),
                content_length: None,
            };
            proof {
                assert(entries_as_chars(Seq::empty()) =~= Seq::<(Seq<char>, Seq<char>)>::empty());
            }
            Ok(d)
        },
        Some(p) => {
            let line0 = slice_subrange(head, 0, p);
            let (m, path, ver) = match parse_request_line(line0) {
                Err(e) => {
                    assert(spec_parse_head(head@) is None);
                    return Err(e);
                },
                Ok(x) => x,
            };
            proof {
                lemma_all_ascii_subrange(head@, 0, p as int);
            }
            let path_s = ascii_to_string(path.as_slice());
            let ver_s = ascii_to_string(ver.as_slice());

            let mut headers = HeaderMap::new();
            let mut cl: Option<Vec<u8>> = None;
            let mut start: usize = p + 2;
            let ghost rest0: Seq<u8> = head@.subrange(start as int, len as int);
            let ghost mut done: Seq<(Seq<u8>, Seq<u8>)> = Seq::empty();
            proof {
                assert(entries_as_chars(done) =~= Seq::<(Seq<char>, Seq<char>)>::empty());
            }
            loop
                invariant_except_break
                    len == head@.len(),
                    p + 2 <= start <= len,
                    all_ascii(head@),
                    cl_name@ == spec_cl_name(),
                    rest0 == head@.subrange(p + 2, len as int),
                    spec_parse_header_lines(rest0) is None ==> spec_parse_head(head@) is None,
                    header_entries(headers) == entries_as_chars(done),
                    match (cl, spec_content_length_of(done)) {
                        (Some(v), Some(s)) => v@ == s,
                        (None, None) => true,
                        _ => false,
                    },
                    match spec_parse_header_lines(head@.subrange(start as int, len as int)) {
                        Some(t) => spec_parse_header_lines(rest0) == Some(done + t),
                        None => spec_parse_header_lines(rest0) is None,
                    },
                ensures
                    len == head@.len(),
                    cl_name@ == spec_cl_name(),
                    header_entries(headers) == entries_as_chars(done),
                    match (cl, spec_content_length_of(done)) {
                        (Some(v), Some(s)) => v@ == s,
                        (None, None) => true,
                        _ => false,
                    },
                    spec_parse_header_lines(rest0) == Some(done),
                decreases len - start,
            {
                let cur = slice_subrange(head, start, len);
                match find_crlf(cur, 0) {
                    None => {
                        let (hn, hv) = match parse_header_line(cur) {
                            Err(e) => {
                                assert(spec_parse_header_lines(cur@) is None);
                                assert(spec_parse_head(head@) is None);
                                return Err(e);
                            },
                            Ok(x) => x,
                        };
                        proof {
                            lemma_all_ascii_subrange(head@, start as int, len as int);
                        }
                        let name_s = ascii_to_string(hn.as_slice());
                        let value_s = ascii_to_string(hv.as_slice());
                        headers.push(name_s, value_s);
                        if bytes_eq(hn.as_slice(), cl_name.as_slice()) {
                            cl = Some(hv);
                        }
                        proof {
                            let h = (hn@, hv@);
                            let done2 = done.push(h);
                            assert(done2.drop_last() =~= done);
                            assert(entries_as_chars(done2) =~= entries_as_chars(done).push(
                                (bytes_as_chars(hn@), bytes_as_chars(hv@)),
                            ));
                            assert(spec_parse_header_lines(cur@) == Some(seq![h]));
                            assert(done + seq![h] =~= done2);
                            done = done2;
                        }
                        break;
                    },
                    Some(q) => {
                        let line = slice_subrange(cur, 0, q);
                        let (hn, hv) = match parse_header_line(line) {
                            Err(e) => {
                                assert(spec_parse_header_lines(cur@) is None);
                                assert(spec_parse_head(head@) is None);
                                return Err(e);
                            },
                            Ok(x) => x,
                        };
                        proof {
                            lemma_all_ascii_subrange(head@, start as int, len as int);
                            lemma_all_ascii_subrange(cur@, 0, q as int);
                        }
                        let name_s = ascii_to_string(hn.as_slice());
                        let value_s = ascii_to_string(hv.as_slice());
                        headers.push(name_s, value_s);
                        if bytes_eq(hn.as_slice(), cl_name.as_slice()) {
                            cl = Some(hv);
                        }
                        proof {
                            let h = (hn@, hv@);
                            let done2 = done.push(h);
                            assert(done2.drop_last() =~= done);
                            assert(entries_as_chars(done2) =~= entries_as_chars(done).push(
                                (bytes_as_chars(hn@), bytes_as_chars(hv@)),
                            ));
                            let tail = cur@.subrange(q + 2, cur@.len() as int);
                            assert(tail =~= head@.subrange(start + q + 2, len as int));
                            assert(done + seq![h] =~= done2);
                            done = done2;
                        }
                        start = start + q + 2;
                    },
                }
            }
            let d = DecodedHead {
                method: m,
                path: path_s,
                version: ver_s,
                headers,
                content_length: cl,
            };
            Ok(d)
        },
    }
}

} // verus!
