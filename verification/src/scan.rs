//! The head delimiter scanner: finds the CR LF CR LF sequence that ends
//! a request head inside a buffer that grows chunk by chunk, without
//! rescanning bytes that are already known to hold no delimiter.

use vstd::prelude::*;

verus! {

/// `needle` occurs in `haystack` starting at index `i`.
pub open spec fn matches_at(haystack: Seq<u8>, needle: Seq<u8>, i: int) -> bool {
    &&& 0 <= i
    &&& i + needle.len() <= haystack.len()
    &&& forall|k: int| 0 <= k < needle.len() ==> haystack[i + k] == needle[k]
}

/// First occurrence of `needle` in `haystack`, scanning left to right.
pub fn memmem(haystack: &[u8], needle: &[u8]) -> (r: Option<usize>)
    requires
        needle@.len() >= 1,
    ensures
        match r {
            Some(i) => matches_at(haystack@, needle@, i as int) && forall|j: int|
                0 <= j < i ==> !matches_at(haystack@, needle@, j),
            None => forall|j: int| !matches_at(haystack@, needle@, j),
        },
{
    let h = haystack.len();
    let n = needle.len();
    if n > h {
        return None;
    }
    let mut i: usize = 0;
    while i <= h - n
        invariant
            n >= 1,
            n <= h,
            h == haystack@.len(),
            n == needle@.len(),
            i <= h - n + 1,
            forall|j: int| 0 <= j < i ==> !matches_at(haystack@, needle@, j),
        decreases h - n + 1 - i,
    {
        let mut k: usize = 0;
        let mut hit = true;
        while k < n
            invariant
                n >= 1,
                i + n <= h,
                h == haystack@.len(),
                n == needle@.len(),
                k <= n,
                hit <==> forall|m: int| 0 <= m < k ==> haystack@[i + m] == needle@[m],
            decreases n - k,
        {
            if haystack[i + k] != needle[k] {
                hit = false;
                assert(!(forall|m: int| 0 <= m < k + 1 ==> haystack@[i + m] == needle@[m]));
                k = n;
            } else {
                k = k + 1;
            }
        }
        if hit {
            return Some(i);
        }
        i = i + 1;
    }
    return None;
}

/// The four delimiter bytes CR LF CR LF start at index `i` of `s`.
pub open spec fn is_head_delim_at(s: Seq<u8>, i: int) -> bool {
    &&& 0 <= i
    &&& i + 4 <= s.len()
    &&& s[i] == 13
    &&& s[i + 1] == 10
    &&& s[i + 2] == 13
    &&& s[i + 3] == 10
}

/// Grows a buffer from appended chunks and reports the first head
/// delimiter as soon as one exists. Bytes more than three positions
/// before the newest chunk are never scanned twice.
pub struct HeadScanner {
    buf: Vec<u8>,
    checked: usize,
}

impl HeadScanner {
    /// Everything appended so far, in order.
    pub closed spec fn bytes(&self) -> Seq<u8> {
        self.buf@
    }

    /// Positions before `checked` are known to start no delimiter.
    pub closed spec fn wf(&self) -> bool {
        &&& self.checked <= self.buf@.len()
        &&& (self.checked == 0 || self.checked + 3 <= self.buf@.len())
        &&& forall|j: int| 0 <= j < self.checked ==> !is_head_delim_at(self.buf@, j)
    }

    pub fn new() -> (r: HeadScanner)
        ensures
            r.wf(),
            r.bytes() == Seq::<u8>::empty(),
    {
        HeadScanner { buf: Vec::new(), checked: 0 }
    }

    pub fn len(&self) -> (r: usize)
        ensures
            r == self.bytes().len(),
    {
        self.buf.len()
    }

    /// Append one chunk and look for the delimiter. The answer is about
    /// the whole accumulated buffer: `Some(i)` is the absolute offset of
    /// the first delimiter, `None` means no delimiter has arrived yet.
    pub fn push_chunk(&mut self, chunk: &[u8]) -> (r: Option<usize>)
        requires
            old(self).wf(),
        ensures
            final(self).wf(),
            final(self).bytes() == old(self).bytes() + chunk@,
            match r {
                Some(i) => is_head_delim_at(final(self).bytes(), i as int) && forall|j: int|
                    0 <= j < i ==> !is_head_delim_at(final(self).bytes(), j),
                None => forall|j: int| !is_head_delim_at(final(self).bytes(), j),
            },
    {
        self.buf.extend_from_slice(chunk);
        assert(self.buf@ =~= old(self).bytes() + chunk@);
        let len = self.buf.len();
        let ghost pre = old(self).bytes();
        proof {
            assert forall|j: int| 0 <= j < self.checked implies !is_head_delim_at(
                self.buf@,
                j,
            ) by {
                assert(!is_head_delim_at(pre, j));
                assert(j + 4 <= pre.len());
                assert(self.buf@[j] == pre[j] && self.buf@[j + 1] == pre[j + 1] && self.buf@[j + 2]
                    == pre[j + 2] && self.buf@[j + 3] == pre[j + 3]);
            }
        }
        let mut i: usize = self.checked;
        if len >= 4 {
            while i <= len - 4
                invariant
                    len >= 4,
                    len == self.buf@.len(),
                    self.buf@ == old(self).bytes() + chunk@,
                    i <= len,
                    forall|j: int| 0 <= j < i ==> !is_head_delim_at(self.buf@, j),
                decreases len - i,
            {
                if self.buf[i] == 13 && self.buf[i + 1] == 10 && self.buf[i + 2] == 13
                    && self.buf[i + 3] == 10 {
                    self.checked = i;
                    return Some(i);
                }
                i = i + 1;
            }
        }
        self.checked = if len >= 3 {
            len - 3
        } else {
            0
        };
        None
    }

    /// Hand the accumulated bytes over, consuming the scanner.
    pub fn into_bytes(self) -> (r: Vec<u8>)
        ensures
            r@ == self.bytes(),
    {
        self.buf
    }
}

} // verus!
