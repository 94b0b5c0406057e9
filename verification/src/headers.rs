//! Header storage: an ordered list of name/value pairs, duplicates
//! allowed, insertion order preserved. The pairs live in a
//! `smallvec::SmallVec` (inline room for a typical header count), which
//! Verus sees only through `header_entries` and the contracts below.

use vstd::prelude::*;

verus! {

/// What a `HeaderMap` holds: its name/value pairs in insertion order.
pub uninterp spec fn header_entries(m: HeaderMap) -> Seq<(Seq<char>, Seq<char>)>;

/// An ordered multimap of header names to values.
#[verifier::external_body]
pub struct HeaderMap {
    inner: smallvec::SmallVec<[(String, String); 64]>,
}

impl HeaderMap {
    /// Relies on smallvec::SmallVec::new: the new vector is empty.
    #[verifier::external_body]
    pub fn new() -> (r: HeaderMap)
        ensures
            header_entries(r) == Seq::<(Seq<char>, Seq<char>)>::empty(),
    {
        HeaderMap { inner: smallvec::SmallVec::new() }
    }

    /// Relies on smallvec::SmallVec::push: appends the pair at the end.
    #[verifier::external_body]
    pub fn push(&mut self, name: String, value: String)
        ensures
            header_entries(*final (self)) == header_entries(*old(self)).push((name@, value@)),
    {
        self.inner.push((name, value));
    }

    /// Relies on smallvec::SmallVec::len: the number of pairs held.
    #[verifier::external_body]
    pub fn len(&self) -> (r: usize)
        ensures
            r == header_entries(*self).len(),
    {
        self.inner.len()
    }

    /// Relies on smallvec's Deref to a slice: the pair at position `i`,
    /// in insertion order.
    #[verifier::external_body]
    pub fn get(&self, i: usize) -> (r: (&String, &String))
        requires
            i < header_entries(*self).len(),
        ensures
            r.0@ == header_entries(*self)[i as int].0,
            r.1@ == header_entries(*self)[i as int].1,
    {
        let pair = &self.inner[i];
        (&pair.0, &pair.1)
    }
}

} // verus!
