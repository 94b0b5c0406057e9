//! The server: one connection served at a time, start to finish —
//! assemble the request, resolve its route, run the handler, render
//! and write the response. The accept loop and the sockets live
//! outside; the core only ever sees a `Transport`.

use crate::assemble::{assemble, find_delim_from, spec_assemble, Transport, CHUNK_SIZE};
use crate::head::HeadModel;
use crate::headers::header_entries;
use crate::response::{spec_body_bytes, spec_render_response, Response};
use crate::router::{spec_has_route, Handler, Route, Router};
use crate::text::bytes_as_chars;
use crate::wire::entries_utf8_bytes;
use crate::FramingError;
use vstd::prelude::*;

verus! {

/// Why a connection could not be served to completion. The
/// connection is abandoned; the process goes on serving others.
#[derive(Clone, Copy, Debug, PartialEq, Eq, Structural)]
pub enum ServeError {
    /// The bytes never framed into a request.
    Framing(FramingError),
    /// No route is registered for the request's (method, path).
    Unresolved,
}

/// A router and nothing else: the fixed address and the accept loop
/// stay outside the core.
pub struct Server<H> {
    router: Router<H>,
}

impl<H: Handler> Server<H> {
    /// The routes the server dispatches on.
    pub closed spec fn routes(&self) -> Seq<Route<H>> {
        self.router.routes_seq()
    }

    pub closed spec fn wf(&self) -> bool {
        self.router.wf()
    }

    pub fn new(router: Router<H>) -> (r: Server<H>)
        ensures
            r.routes() == router.routes_seq(),
            router.wf() ==> r.wf(),
    {
        Server { router }
    }

    /// Serve one connection. Exactly when the bytes frame into a
    /// request with a registered route, a rendered response for the
    /// matched handler is written and flushed, and the incoming
    /// stream was consumed no further than the assembler's bounds;
    /// on any error the outgoing stream is untouched.
    pub fn handle_connection<T: Transport>(&mut self, t: &mut T) -> (r: Result<(), ServeError>)
        ensures
            old(self).wf() ==> final (self).wf(),
            match r {
                Ok(()) => {
                    &&& spec_assemble(old(t).incoming()) matches Ok((hm, body))
                        && spec_has_route(old(self).routes(), hm.method, bytes_as_chars(hm.path))
                        && ({
                        let s0 = old(t).incoming();
                        let e = find_delim_from(s0, 0).unwrap();
                        exists|c: int|
                            {
                                &&& final (t).incoming() == #[trigger] s0.skip(c)
                                &&& e + 4 + body.len() <= c
                                &&& (c == e + 4 + body.len() || c < e + 4 + CHUNK_SIZE)
                            }
                    })
                    &&& exists|resp: Response|
                        final (t).outgoing() == old(t).outgoing() + spec_render_response(
                            resp.status_code,
                            entries_utf8_bytes(header_entries(resp.headers)),
                            spec_body_bytes(&resp.body),
                        )
                },
                Err(ServeError::Framing(e)) => spec_assemble(old(t).incoming()) == Err::<
                    (HeadModel, Seq<u8>),
                    FramingError,
                >(e) && final (t).outgoing() == old(t).outgoing(),
                Err(ServeError::Unresolved) => {
                    &&& spec_assemble(old(t).incoming()) matches Ok((hm, body))
                        && !spec_has_route(old(self).routes(), hm.method, bytes_as_chars(hm.path))
                    &&& final (t).outgoing() == old(t).outgoing()
                },
            },
    {
        let req = match assemble(t) {
            Err(e) => {
                return Err(ServeError::Framing(e));
            },
            Ok(req) => req,
        };
        let ghost mid = t.incoming();
        let resp = match self.router.dispatch(req) {
            None => {
                return Err(ServeError::Unresolved);
            },
            Some(resp) => resp,
        };
        let bytes = resp.to_bytes();
        t.write_all(bytes.as_slice());
        t.flush();
        proof {
            let s0 = old(t).incoming();
            let e = find_delim_from(s0, 0).unwrap();
            let body = spec_assemble(s0).unwrap().1;
            let c = choose|c: int|
                {
                    &&& mid == #[trigger] s0.skip(c)
                    &&& e + 4 + body.len() <= c
                    &&& (c == e + 4 + body.len() || c < e + 4 + CHUNK_SIZE)
                };
            assert(t.incoming() == s0.skip(c));
            assert(t.outgoing() == old(t).outgoing() + spec_render_response(
                resp.status_code,
                entries_utf8_bytes(header_entries(resp.headers)),
                spec_body_bytes(&resp.body),
            ));
        }
        Ok(())
    }
}

} // verus!
