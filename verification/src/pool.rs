//! Arena primitives: ids, spans, and the pool/store access traits.

use vstd::prelude::*;

verus! {

/// An index into a pool.
pub type Id = u32;

/// A contiguous half-open range of indices into a pool.
#[derive(Clone, Copy, PartialEq, Eq, Structural, Debug)]
pub struct Span {
    pub start: Id,
    pub end: Id,
}

impl Span {
    /// A span is well formed when it denotes a forward range.
    pub open spec fn wf(self) -> bool {
        self.start <= self.end
    }

    /// The number of ids the span covers.
    pub open spec fn spec_len(self) -> int {
        self.end - self.start
    }

    /// Whether the span covers no ids.
    pub fn is_empty(&self) -> (r: bool)
        ensures
            r == (self.start == self.end),
    {
        self.start == self.end
    }

    /// The span as a half-open index range, for slicing a pool.
    pub fn range(&self) -> (r: core::ops::Range<usize>)
        ensures
            r.start == self.start as usize,
            r.end == self.end as usize,
    {
        (self.start as usize)..(self.end as usize)
    }

    /// The number of ids the span covers.
    pub fn len(&self) -> (r: usize)
        requires
            self.wf(),
        ensures
            r == self.spec_len(),
    {
        (self.end - self.start) as usize
    }
}

/// Whether a span is a valid range into a pool holding `n` items.
pub open spec fn span_in(s: Span, n: nat) -> bool {
    s.wf() && s.end <= n
}

/// A fixed-size arena: id-based read access to a sequence of records.
///
/// The same accessor contract is met by growable heap vectors and by
/// read-only slices decoded out of a mapped byte region, which is what
/// lets one query API serve both backings.
pub trait Pool<T> {
    /// The records currently held, in id order.
    spec fn contents(&self) -> Seq<T>;

    /// Get a single record by its id.
    fn get_id(&self, id: Id) -> (r: &T)
        requires
            (id as int) < self.contents().len(),
        ensures
            *r == self.contents()[id as int],
    ;

    /// Get a contiguous run of records by a span of ids.
    fn get_span(&self, span: Span) -> (r: &[T])
        requires
            span.wf(),
            span.end as int <= self.contents().len(),
        ensures
            r@ == self.contents().subrange(span.start as int, span.end as int),
    ;

    /// The number of records held.
    fn count(&self) -> (r: usize)
        ensures
            r == self.contents().len(),
    ;

    /// The id the next appended record would receive.
    fn next_id(&self) -> (r: Id)
        requires
            self.contents().len() <= u32::MAX,
        ensures
            r == self.contents().len(),
    ;
}

/// A growable arena: a pool that also supports appending at the end.
///
/// Ids grow monotonically; nothing is reused or deleted. Each append
/// reports the id or span the new records received.
pub trait Store<T>: Pool<T> {
    /// Append one record and get its new id.
    fn add(&mut self, item: T) -> (id: Id)
        requires
            old(self).contents().len() < u32::MAX,
        ensures
            final(self).contents() == old(self).contents().push(item),
            id == old(self).contents().len(),
    ;

    /// Append a whole sequence of records, consuming it, and get the span
    /// of new ids.
    fn add_iter(&mut self, items: Vec<T>) -> (span: Span)
        requires
            old(self).contents().len() + items@.len() <= u32::MAX,
        ensures
            final(self).contents() == old(self).contents() + items@,
            span.start == old(self).contents().len(),
            span.end == final(self).contents().len(),
    ;

    /// Like `add_iter`, but copying out of a slice.
    fn add_slice(&mut self, slice: &[T]) -> (span: Span)
        requires
            old(self).contents().len() + slice@.len() <= u32::MAX,
        ensures
            final(self).contents() == old(self).contents() + slice@,
            span.start == old(self).contents().len(),
            span.end == final(self).contents().len(),
    ;
}

impl<T> Pool<T> for [T] {
    open spec fn contents(&self) -> Seq<T> {
        self@
    }

    fn get_id(&self, id: Id) -> (r: &T) {
        &self[id as usize]
    }

    fn get_span(&self, span: Span) -> (r: &[T]) {
        vstd::slice::slice_subrange(self, span.start as usize, span.end as usize)
    }

    fn count(&self) -> (r: usize) {
        self.len()
    }

    fn next_id(&self) -> (r: Id) {
        self.len() as Id
    }
}

impl<T> Pool<T> for Vec<T> {
    open spec fn contents(&self) -> Seq<T> {
        self@
    }

    fn get_id(&self, id: Id) -> (r: &T) {
        &self[id as usize]
    }

    fn get_span(&self, span: Span) -> (r: &[T]) {
        vstd::slice::slice_subrange(self.as_slice(), span.start as usize, span.end as usize)
    }

    fn count(&self) -> (r: usize) {
        self.len()
    }

    fn next_id(&self) -> (r: Id) {
        self.len() as Id
    }
}

impl<T: Copy> Store<T> for Vec<T> {
    fn add(&mut self, item: T) -> (id: Id) {
        let id = self.next_id();
        self.push(item);
        id
    }

    fn add_iter(&mut self, items: Vec<T>) -> (span: Span) {
        let start = self.next_id();
        let mut items = items;
        self.append(&mut items);
        Span { start, end: self.next_id() }
    }

    fn add_slice(&mut self, slice: &[T]) -> (span: Span) {
        let start = self.next_id();
        let mut items = vstd::slice::slice_to_vec(slice);
        self.append(&mut items);
        Span { start, end: self.next_id() }
    }
}

} // verus!
