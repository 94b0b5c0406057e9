//! The request assembler: drives bounded reads from a transport,
//! finds the head, decodes it, resolves the declared body length, and
//! reads exactly that many body bytes — never more.

use crate::head::{decode_head, entries_as_chars, spec_parse_head, HeadModel};
use crate::headers::header_entries;
use crate::length::{all_digits, parse_content_length, spec_decimal};
use crate::request::Request;
use crate::scan::{is_head_delim_at, HeadScanner};
use crate::text::{bytes_as_chars, utf8_to_string};
use crate::FramingError;
use vstd::prelude::*;
use vstd::slice::{slice_subrange, slice_to_vec};
use vstd::utf8::{decode_utf8, encode_utf8, valid_utf8};

verus! {

/// How many bytes one read may hand over at most.
pub const CHUNK_SIZE: usize = 2048;

/// A duplex byte stream: what the core consumes instead of a socket.
/// `incoming` models the bytes the peer will still deliver; reading
/// hands over a prefix of it, and an empty read means end-of-stream.
pub trait Transport {
    /// The bytes not yet delivered by `read_some`.
    spec fn incoming(&self) -> Seq<u8>;

    /// The bytes written so far.
    spec fn outgoing(&self) -> Seq<u8>;

    /// Read at most `max` bytes: a non-empty prefix of `incoming`,
    /// or nothing exactly when the stream is exhausted.
    fn read_some(&mut self, max: usize) -> (r: Vec<u8>)
        requires
            max >= 1,
        ensures
            r@.len() <= max,
            r@.len() <= old(self).incoming().len(),
            r@ == old(self).incoming().take(r@.len() as int),
            final (self).incoming() == old(self).incoming().skip(r@.len() as int),
            final (self).outgoing() == old(self).outgoing(),
            (r@.len() == 0 <==> old(self).incoming().len() == 0),
    ;

    /// Append bytes to the outgoing stream.
    fn write_all(&mut self, bytes: &[u8])
        ensures
            final (self).outgoing() == old(self).outgoing() + bytes@,
            final (self).incoming() == old(self).incoming(),
    ;

    /// Push any buffered outgoing bytes on to the peer.
    fn flush(&mut self)
        ensures
            final (self).outgoing() == old(self).outgoing(),
            final (self).incoming() == old(self).incoming(),
    ;
}

/// First head delimiter in `s` at or after `i`.
pub open spec fn find_delim_from(s: Seq<u8>, i: int) -> Option<int>
    decreases s.len() - i,
{
    if i < 0 || i + 4 > s.len() {
        None
    } else if is_head_delim_at(s, i) {
        Some(i)
    } else {
        find_delim_from(s, i + 1)
    }
}

/// `find_delim_from` finds the first delimiter, and nothing else.
pub proof fn lemma_find_delim_from(s: Seq<u8>, i: int)
    requires
        0 <= i,
    ensures
        match find_delim_from(s, i) {
            Some(k) => i <= k && is_head_delim_at(s, k) && forall|j: int|
                i <= j < k ==> !is_head_delim_at(s, j),
            None => forall|j: int| i <= j ==> !is_head_delim_at(s, j),
        },
    decreases s.len() - i,
{
    if i + 4 > s.len() {
    } else if !is_head_delim_at(s, i) {
        lemma_find_delim_from(s, i + 1);
    }
}

/// What a byte stream frames to: the head model and the body bytes,
/// or the framing error the stream earns.
pub open spec fn spec_assemble(s: Seq<u8>) -> Result<(HeadModel, Seq<u8>), FramingError> {
    match find_delim_from(s, 0) {
        None => Err(FramingError::UnexpectedEof),
        Some(e) => match spec_parse_head(s.subrange(0, e)) {
            None => Err(FramingError::MalformedHead),
            Some(hm) => match hm.content_length {
                None => Ok((hm, Seq::empty())),
                Some(v) => if !(v.len() > 0 && all_digits(v) && spec_decimal(v) <= usize::MAX) {
                    Err(FramingError::BadContentLength)
                } else if s.len() < e + 4 + spec_decimal(v) {
                    Err(FramingError::UnexpectedEof)
                } else if !valid_utf8(s.subrange(e + 4, e + 4 + spec_decimal(v))) {
                    Err(FramingError::BodyNotText)
                } else {
                    Ok((hm, s.subrange(e + 4, e + 4 + spec_decimal(v))))
                },
            },
        },
    }
}

/// Law: a stream whose head declares no `Content-Length` frames to
/// an empty body, whatever bytes trail the head.
pub proof fn lemma_no_content_length_means_empty_body(s: Seq<u8>)
    requires
        spec_assemble(s) matches Ok((hm, body)) && hm.content_length is None,
    ensures
        spec_assemble(s).unwrap().1 == Seq::<u8>::empty(),
{
}

/// Read chunks until the whole head has arrived. On success the
/// buffer holds the consumed prefix — `c` bytes, delimiter included —
/// and `e` is the absolute offset of the first delimiter; less than
/// one chunk beyond the delimiter has been consumed.
pub fn read_head<T: Transport>(t: &mut T) -> (r: Result<(Vec<u8>, usize, Ghost<int>), FramingError>)
    ensures
        final (t).outgoing() == old(t).outgoing(),
        match r {
            Ok((buf, e, c)) => {
                &&& 0 <= c@ <= old(t).incoming().len()
                &&& buf@ == old(t).incoming().take(c@)
                &&& final (t).incoming() == old(t).incoming().skip(c@)
                &&& e + 4 <= c@
                &&& c@ < e + 4 + CHUNK_SIZE
                &&& is_head_delim_at(old(t).incoming(), e as int)
                &&& forall|j: int| 0 <= j < e ==> !is_head_delim_at(old(t).incoming(), j)
            },
            Err(err) => {
                &&& err == FramingError::UnexpectedEof
                &&& final (t).incoming().len() == 0
                &&& forall|j: int| !is_head_delim_at(old(t).incoming(), j)
            },
        },
{
    let mut scanner = HeadScanner::new();
    let ghost s = old(t).incoming();
    let ghost mut c: int = 0;
    loop
        invariant
            scanner.wf(),
            t.outgoing() == old(t).outgoing(),
            0 <= c <= s.len(),
            s == old(t).incoming(),
            scanner.bytes() == s.take(c),
            t.incoming() == s.skip(c),
            forall|j: int| !is_head_delim_at(s.take(c), j),
        decreases s.len() - c,
    {
        let chunk = t.read_some(CHUNK_SIZE);
        if chunk.len() == 0 {
            proof {
                assert(c == s.len());
                assert(s.take(c) =~= s);
            }
            return Err(FramingError::UnexpectedEof);
        }
        let ghost c2 = c + chunk@.len();
        proof {
            assert(s.skip(c).take(chunk@.len() as int) =~= s.subrange(c, c2));
            assert(s.take(c) + s.subrange(c, c2) =~= s.take(c2));
            assert(s.skip(c).skip(chunk@.len() as int) =~= s.skip(c2));
        }
        match scanner.push_chunk(chunk.as_slice()) {
            Some(e) => {
                proof {
                    assert(scanner.bytes() =~= s.take(c2));
                    assert forall|j: int| 0 <= j < e implies !is_head_delim_at(s, j) by {
                        assert(!is_head_delim_at(s.take(c2), j));
                        assert(j + 4 <= e + 3 < c2);
                        assert(s.take(c2)[j] == s[j] && s.take(c2)[j + 1] == s[j + 1] && s.take(
                            c2,
                        )[j + 2] == s[j + 2] && s.take(c2)[j + 3] == s[j + 3]);
                    }
                    assert(is_head_delim_at(s, e as int)) by {
                        assert(is_head_delim_at(s.take(c2), e as int));
                    }
                    // the prefix before this chunk held no delimiter,
                    // so the read cannot have run a chunk past it
                    assert(c < e + 4) by {
                        if e + 4 <= c {
                            assert(is_head_delim_at(s.take(c), e as int));
                        }
                    }
                }
                let buf = scanner.into_bytes();
                return Ok((buf, e, Ghost(c2)));
            },
            None => {
                proof {
                    c = c2;
                }
            },
        }
    }
}

/// Read exactly the missing body bytes, chunk by chunk: reading
/// stops at the declared length and never takes a byte past it.
pub fn read_body_exact<T: Transport>(t: &mut T, body: &mut Vec<u8>, declared: usize) -> (r: Result<
    (),
    FramingError,
>)
    requires
        old(body)@.len() <= declared,
    ensures
        final (t).outgoing() == old(t).outgoing(),
        match r {
            Ok(()) => {
                &&& old(t).incoming().len() >= declared - old(body)@.len()
                &&& final (body)@ == old(body)@ + old(t).incoming().take(
                    declared - old(body)@.len(),
                )
                &&& final (body)@.len() == declared
                &&& final (t).incoming() == old(t).incoming().skip(declared - old(body)@.len())
            },
            Err(e) => {
                &&& e == FramingError::UnexpectedEof
                &&& old(t).incoming().len() < declared - old(body)@.len()
                &&& final (t).incoming().len() == 0
            },
        },
{
    let ghost s = old(t).incoming();
    let ghost need: int = declared - old(body)@.len();
    let ghost mut c: int = 0;
    loop
        invariant
            body@.len() <= declared,
            t.outgoing() == old(t).outgoing(),
            0 <= c <= s.len(),
            s == old(t).incoming(),
            need == declared - old(body)@.len(),
            c == body@.len() - old(body)@.len(),
            body@ == old(body)@ + s.take(c),
            t.incoming() == s.skip(c),
        decreases declared - body@.len() + 1,
    {
        if body.len() == declared {
            proof {
                assert(c == need);
            }
            return Ok(());
        }
        let missing = declared - body.len();
        let max = if missing < CHUNK_SIZE {
            missing
        } else {
            CHUNK_SIZE
        };
        let chunk = t.read_some(max);
        if chunk.len() == 0 {
            proof {
                assert(c == s.len());
            }
            return Err(FramingError::UnexpectedEof);
        }
        let ghost c2 = c + chunk@.len();
        proof {
            assert(s.skip(c).take(chunk@.len() as int) =~= s.subrange(c, c2));
            assert(old(body)@ + s.take(c) + s.subrange(c, c2) =~= old(body)@ + s.take(c2));
            assert(s.skip(c).skip(chunk@.len() as int) =~= s.skip(c2));
        }
        let mut more = chunk;
        body.append(&mut more);
        proof {
            c = c2;
        }
    }
}

/// Assemble one request from the transport. The result is a function
/// of the incoming bytes alone: exactly what `spec_assemble` says of
/// them, decoded into text. On success the bytes consumed reach at
/// least to the end of the declared body and, unless the reads that
/// hunted the head already went further, exactly to its end: reading
/// never goes on past the declared body length, and never more than
/// one bounded chunk past the delimiter.
pub fn assemble<T: Transport>(t: &mut T) -> (r: Result<Request, FramingError>)
    ensures
        final (t).outgoing() == old(t).outgoing(),
        match (r, spec_assemble(old(t).incoming())) {
            (Ok(req), Ok((hm, body))) => {
                &&& req.method == hm.method
                &&& req.path@ == bytes_as_chars(hm.path)
                &&& req.version@ == bytes_as_chars(hm.version)
                &&& header_entries(req.headers) == entries_as_chars(hm.headers)
                &&& req.body@ == decode_utf8(body)
                &&& ({
                    let s0 = old(t).incoming();
                    let e = find_delim_from(s0, 0).unwrap();
                    exists|c: int|
                        {
                            &&& final (t).incoming() == #[trigger] s0.skip(c)
                            &&& e + 4 + body.len() <= c
                            &&& (c == e + 4 + body.len() || c < e + 4 + CHUNK_SIZE)
                        }
                })
            },
            (Err(a), Err(b)) => a == b,
            _ => false,
        },
{
    let ghost s = old(t).incoming();
    let (buf, e, gc) = match read_head(t) {
        Err(err) => {
            proof {
                lemma_find_delim_from(s, 0);
                if find_delim_from(s, 0) is Some {
                    let k = find_delim_from(s, 0).unwrap();
                    assert(is_head_delim_at(s, k));
                }
            }
            return Err(err);
        },
        Ok(x) => x,
    };
    let ghost c = gc@;
    proof {
        lemma_find_delim_from(s, 0);
        match find_delim_from(s, 0) {
            None => {
                assert(is_head_delim_at(s, e as int));
                assert(false);
            },
            Some(k) => {
                if k < e {
                    assert(is_head_delim_at(s, k));
                }
                if e < k {
                    assert(is_head_delim_at(s, e as int));
                }
                assert(k == e);
            },
        }
    }
    let head = slice_subrange(buf.as_slice(), 0, e);
    proof {
        assert(head@ =~= s.subrange(0, e as int));
    }
    let d = match decode_head(head) {
        Err(err) => {
            return Err(err);
        },
        Ok(d) => d,
    };
    let declared = match &d.content_length {
        None => {
            let req = Request {
                method: d.method,
                path: d.path,
                version: d.version,
                headers: d.headers,
                body: String::new(),
            };
            proof {
                assert(req.body@ =~= decode_utf8(Seq::<u8>::empty()));
                assert(t.incoming() == s.skip(c));
            }
            return Ok(req);
        },
        Some(v) => {
            match parse_content_length(v.as_slice()) {
                Err(err) => {
                    return Err(err);
                },
                Ok(n) => n,
            }
        },
    };
    let have = buf.len() - (e + 4);
    let body_vec: Vec<u8> = if have >= declared {
        let out = slice_to_vec(slice_subrange(buf.as_slice(), e + 4, e + 4 + declared));
        proof {
            assert(s.take(c).subrange(e + 4, e + 4 + declared) =~= s.subrange(
                e + 4,
                e + 4 + declared,
            ));
        }
        out
    } else {
        let mut partial = slice_to_vec(slice_subrange(buf.as_slice(), e + 4, buf.len()));
        proof {
            assert(partial@ =~= s.subrange(e + 4, c));
        }
        let ghost mid = t.incoming();
        match read_body_exact(t, &mut partial, declared) {
            Err(err) => {
                proof {
                    assert(mid.len() == s.len() - c);
                    assert(s.len() < e + 4 + declared);
                }
                return Err(err);
            },
            Ok(()) => {},
        }
        proof {
            assert(mid.take(e + 4 + declared - c) =~= s.subrange(c, e + 4 + declared));
            assert(s.subrange(e + 4, c) + s.subrange(c, e + 4 + declared) =~= s.subrange(
                e + 4,
                e + 4 + declared,
            ));
        }
        partial
    };
    proof {
        assert(body_vec@ == s.subrange(e + 4, e + 4 + declared as int));
    }
    let body_s = match utf8_to_string(body_vec.as_slice()) {
        None => {
            return Err(FramingError::BodyNotText);
        },
        Some(s) => s,
    };
    proof {
        broadcast use vstd::utf8::encode_utf8_decode_utf8;

        assert(decode_utf8(encode_utf8(body_s@)) == body_s@);
        if have >= declared {
            assert(t.incoming() == s.skip(c));
        } else {
            assert(t.incoming() =~= s.skip(e + 4 + declared));
        }
    }
    let req = Request {
        method: d.method,
        path: d.path,
        version: d.version,
        headers: d.headers,
        body: body_s,
    };
    Ok(req)
}

} // verus!
