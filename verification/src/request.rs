//! The request value a handler receives, and its wire form.

use crate::headers::{header_entries, HeaderMap};
use crate::method::{spec_token, Method};
use crate::text::chars_as_bytes;
use crate::wire::{
    append_header_block, entries_as_bytes, entries_ascii, headers_ascii, lemma_ascii_entries_utf8,
    spec_render_header_block,
};
use vstd::prelude::*;
use vstd::string::StrSliceExecFns;
use vstd::string::StringExecFnsIsAscii;
use vstd::utf8::{encode_utf8, is_ascii_chars};

verus! {

/// One complete request: built once by the assembler, immutable
/// afterwards, consumed by exactly one handler.
pub struct Request {
    pub method: Method,
    pub path: String,
    pub version: String,
    pub headers: HeaderMap,
    pub body: String,
}

/// The bytes of a rendered request line: method token, space, path,
/// space, `HTTP/1.` and the minor version digit.
pub open spec fn spec_request_line_bytes(m: Method, path: Seq<u8>, ver: Seq<u8>) -> Seq<u8> {
    spec_token(m) + seq![32u8] + path + seq![32u8] + seq![72u8, 84u8, 84u8, 80u8, 47u8, 49u8, 46u8]
        + ver
}

/// The bytes of a rendered head, without the blank-line terminator.
pub open spec fn spec_render_head(
    m: Method,
    path: Seq<u8>,
    ver: Seq<u8>,
    hs: Seq<(Seq<u8>, Seq<u8>)>,
) -> Seq<u8> {
    spec_request_line_bytes(m, path, ver) + spec_render_header_block(hs)
}

/// The bytes of a whole rendered request.
pub open spec fn spec_render_request(
    m: Method,
    path: Seq<u8>,
    ver: Seq<u8>,
    hs: Seq<(Seq<u8>, Seq<u8>)>,
    body: Seq<u8>,
) -> Seq<u8> {
    spec_render_head(m, path, ver, hs) + seq![13u8, 10u8, 13u8, 10u8] + body
}

impl Request {
    /// All head text is ASCII, so the head has a byte-exact wire
    /// form; the body may be any text, since it goes out as UTF-8.
    pub open spec fn wf(&self) -> bool {
        &&& is_ascii_chars(self.path@)
        &&& is_ascii_chars(self.version@)
        &&& entries_ascii(header_entries(self.headers))
    }

    /// Render the request onto the wire, or report that its head
    /// holds non-ASCII text and has no wire form here.
    pub fn to_bytes(&self) -> (r: Option<Vec<u8>>)
        ensures
            match r {
                Some(v) => self.wf() && v@ == spec_render_request(
                    self.method,
                    chars_as_bytes(self.path@),
                    chars_as_bytes(self.version@),
                    entries_as_bytes(header_entries(self.headers)),
                    encode_utf8(self.body@),
                ),
                None => !self.wf(),
            },
    {
        if !self.path.is_ascii() || !self.version.is_ascii() || !headers_ascii(&self.headers) {
            return None;
        }
        let mut out = self.method.token_bytes();
        out.push(32);
        let mut pb = crate::text::str_to_ascii_bytes(self.path.as_str());
        out.append(&mut pb);
        out.push(32);
        out.push(72);
        out.push(84);
        out.push(84);
        out.push(80);
        out.push(47);
        out.push(49);
        out.push(46);
        let mut vb = crate::text::str_to_ascii_bytes(self.version.as_str());
        out.append(&mut vb);
        proof {
            assert(out@ =~= spec_request_line_bytes(
                self.method,
                chars_as_bytes(self.path@),
                chars_as_bytes(self.version@),
            ));
        }
        proof {
            lemma_ascii_entries_utf8(header_entries(self.headers));
        }
        append_header_block(&mut out, &self.headers);
        out.push(13);
        out.push(10);
        out.push(13);
        out.push(10);
        let mut bb = self.body.as_str().as_bytes_vec();
        out.append(&mut bb);
        proof {
            assert(out@ =~= spec_render_request(
                self.method,
                chars_as_bytes(self.path@),
                chars_as_bytes(self.version@),
                entries_as_bytes(header_entries(self.headers)),
                encode_utf8(self.body@),
            ));
        }
        Some(out)
    }
}

} // verus!
