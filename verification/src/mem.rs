//! An in-memory transport: the whole incoming stream is handed over
//! up front, reads deliver it in bounded slices, writes collect into
//! a buffer. A loopback stand-in for a socket.

use crate::assemble::Transport;
use vstd::prelude::*;
use vstd::slice::{slice_subrange, slice_to_vec};

verus! {

/// A transport over a byte vector. `limit` caps how many bytes one
/// read hands over, so chunk boundaries can fall anywhere.
pub struct MemTransport {
    data: Vec<u8>,
    pos: usize,
    limit: usize,
    written: Vec<u8>,
}

impl MemTransport {
    /// A transport that will deliver exactly `data`.
    pub fn new(data: Vec<u8>) -> (r: MemTransport)
        ensures
            r.incoming() == data@,
            r.outgoing() == Seq::<u8>::empty(),
    {
        MemTransport { data, pos: 0, limit: usize::MAX, written: Vec::new() }
    }

    /// A transport that will deliver exactly `data`, at most `limit`
    /// bytes per read.
    pub fn with_read_limit(data: Vec<u8>, limit: usize) -> (r: MemTransport)
        ensures
            r.incoming() == data@,
            r.outgoing() == Seq::<u8>::empty(),
    {
        let lim = if limit == 0 {
            1
        } else {
            limit
        };
        MemTransport { data, pos: 0, limit: lim, written: Vec::new() }
    }

    /// How many bytes are still to be delivered.
    pub fn remaining(&self) -> (r: usize)
        ensures
            r == self.incoming().len(),
    {
        let len = self.data.len();
        if self.pos > len {
            0
        } else {
            len - self.pos
        }
    }

    /// Everything written so far.
    pub fn written_bytes(&self) -> (r: &Vec<u8>)
        ensures
            r@ == self.outgoing(),
    {
        &self.written
    }
}

impl Transport for MemTransport {
    closed spec fn incoming(&self) -> Seq<u8> {
        if self.pos <= self.data@.len() {
            self.data@.skip(self.pos as int)
        } else {
            Seq::empty()
        }
    }

    closed spec fn outgoing(&self) -> Seq<u8> {
        self.written@
    }

    fn read_some(&mut self, max: usize) -> (r: Vec<u8>) {
        let len = self.data.len();
        let pos = if self.pos > len {
            len
        } else {
            self.pos
        };
        let avail = len - pos;
        let lim = if self.limit == 0 {
            1
        } else {
            self.limit
        };
        let mut n = max;
        if n > lim {
            n = lim;
        }
        if n > avail {
            n = avail;
        }
        let out = slice_to_vec(slice_subrange(self.data.as_slice(), pos, pos + n));
        self.pos = pos + n;
        proof {
            let inc = old(self).incoming();
            assert(out@ =~= inc.take(n as int));
            assert(self.incoming() =~= inc.skip(n as int));
        }
        out
    }

    fn write_all(&mut self, bytes: &[u8]) {
        self.written.extend_from_slice(bytes);
    }

    fn flush(&mut self) {
    }
}

} // verus!
