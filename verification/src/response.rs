//! The response value a handler returns, built in a fluent style, and
//! the serializer that renders it onto the wire.

use crate::headers::{header_entries, HeaderMap};
use crate::wire::{
    append_header_block, entries_utf8_bytes, push_digits, spec_digits, spec_render_header_block,
};
use vstd::prelude::*;
use vstd::string::StrSliceExecFns;
use vstd::utf8::encode_utf8;

verus! {

/// A response under construction: an optional body, a status code
/// (200 unless set), and header lines in insertion order.
pub struct Response {
    pub body: Option<String>,
    pub status_code: u16,
    pub headers: HeaderMap,
}

/// What a response means, apart from the identity of its header map:
/// body text, status, and header entries.
pub open spec fn response_model(r: &Response) -> (Option<Seq<char>>, u16, Seq<
    (Seq<char>, Seq<char>),
>) {
    (
        match r.body {
            Some(ref b) => Some(b@),
            None => None,
        },
        r.status_code,
        header_entries(r.headers),
    )
}

/// The bytes of a rendered status line: `HTTP/1.1`, the code, and the
/// fixed reason phrase `OK`.
pub open spec fn spec_status_line_bytes(status: u16) -> Seq<u8> {
    seq![72u8, 84u8, 84u8, 80u8, 47u8, 49u8, 46u8, 49u8, 32u8] + spec_digits(status as int) + seq![
        32u8,
        79u8,
        75u8,
    ]
}

/// The bytes of a whole rendered response.
pub open spec fn spec_render_response(
    status: u16,
    hs: Seq<(Seq<u8>, Seq<u8>)>,
    body: Seq<u8>,
) -> Seq<u8> {
    spec_status_line_bytes(status) + spec_render_header_block(hs) + seq![13u8, 10u8, 13u8, 10u8]
        + body
}

/// The body bytes a response stands for: its text as UTF-8, or
/// nothing.
pub open spec fn spec_body_bytes(body: &Option<String>) -> Seq<u8> {
    match body {
        Some(b) => encode_utf8(b@),
        None => Seq::empty(),
    }
}

impl Response {
    /// An empty 200 response.
    pub fn new() -> (r: Response)
        ensures
            r.body is None,
            r.status_code == 200,
            header_entries(r.headers) == Seq::<(Seq<char>, Seq<char>)>::empty(),
    {
        Response { body: None, status_code: 200, headers: HeaderMap::new() }
    }

    /// The same response with another status code.
    pub fn status_code(self, status_code: u16) -> (r: Response)
        ensures
            r.status_code == status_code,
            r.body == self.body,
            r.headers == self.headers,
    {
        Response { status_code, ..self }
    }

    /// The same response with the given body.
    pub fn body(self, body: String) -> (r: Response)
        ensures
            r.body == Some(body),
            r.status_code == self.status_code,
            r.headers == self.headers,
    {
        Response { body: Some(body), ..self }
    }

    /// Render the response onto the wire: the status line, each
    /// header line, a blank line, and the body, all text written as
    /// UTF-8.
    pub fn to_bytes(&self) -> (r: Vec<u8>)
        ensures
            r@ == spec_render_response(
                self.status_code,
                entries_utf8_bytes(header_entries(self.headers)),
                spec_body_bytes(&self.body),
            ),
    {
        let mut out: Vec<u8> = Vec::new();
        out.push(72);
        out.push(84);
        out.push(84);
        out.push(80);
        out.push(47);
        out.push(49);
        out.push(46);
        out.push(49);
        out.push(32);
        push_digits(self.status_code, &mut out);
        out.push(32);
        out.push(79);
        out.push(75);
        proof {
            assert(out@ =~= spec_status_line_bytes(self.status_code));
        }
        append_header_block(&mut out, &self.headers);
        out.push(13);
        out.push(10);
        out.push(13);
        out.push(10);
        match &self.body {
            Some(b) => {
                let mut bb = b.as_str().as_bytes_vec();
                out.append(&mut bb);
            },
            None => {},
        }
        proof {
            assert(out@ =~= spec_render_response(
                self.status_code,
                entries_utf8_bytes(header_entries(self.headers)),
                spec_body_bytes(&self.body),
            ));
        }
        out
    }
}

impl Default for Response {
    /// An empty 200 response, as `new` gives.
    fn default() -> (r: Response)
        ensures
            r.body is None,
            r.status_code == 200,
            header_entries(r.headers) == Seq::<(Seq<char>, Seq<char>)>::empty(),
    {
        Response::new()
    }
}

/// Anything a handler may hand back in place of a full response. A
/// bare text value becomes the body of a fresh 200 response.
pub trait IntoResponse: Sized {
    /// The model of the response this value stands for.
    spec fn spec_response_model(&self) -> (Option<Seq<char>>, u16, Seq<(Seq<char>, Seq<char>)>);

    /// Turn the value into that response.
    fn into_response(self) -> (r: Response)
        ensures
            response_model(&r) == self.spec_response_model(),
    ;
}

impl IntoResponse for String {
    open spec fn spec_response_model(&self) -> (Option<Seq<char>>, u16, Seq<
        (Seq<char>, Seq<char>),
    >) {
        (Some(self@), 200, Seq::empty())
    }

    fn into_response(self) -> (r: Response) {
        Response::new().body(self)
    }
}

impl IntoResponse for Response {
    open spec fn spec_response_model(&self) -> (Option<Seq<char>>, u16, Seq<
        (Seq<char>, Seq<char>),
    >) {
        response_model(self)
    }

    fn into_response(self) -> (r: Response) {
        self
    }
}

} // verus!
